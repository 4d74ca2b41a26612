//! Reading the constraints without a measure: `A B ∥ C D`, `A B ⟂ B C`,
//! `A - B - C` and `± ∠ A B C, ∓ ∠ D E F`.

use crate::constraints::constraints::{AnglePolarity, Collinear, Parallel, Perpendicular, Polarity};
use crate::constraints::rules::{all_below, PointID};
use crate::order::PointIndex;
use crate::parse::elements::angle_sign_spec;
use crate::parse::path::names_view;
use crate::parsing::{
    chars_of, lemma_run_end, literal, literal_spec, run_end, skip_space, space, space_spec, text_of,
    word, word_spec, CharClass,
};
use vstd::prelude::*;

verus! {

/// The end of one of two separators at `pos`.
pub open spec fn either_spec(s: Seq<char>, pos: int, a: Seq<char>, b: Seq<char>) -> Option<int> {
    if literal_spec(s, pos, a) is Some {
        literal_spec(s, pos, a)
    } else {
        literal_spec(s, pos, b)
    }
}

/// Reads one of two separators at `pos`.
pub fn either(input: &[char], pos: usize, a: &str, b: &str) -> (r: Option<usize>)
    requires
        pos <= input@.len(),
    ensures
        match r {
            Some(end) => either_spec(input@, pos as int, a@, b@) == Some(end as int) && pos
                <= end <= input@.len(),
            None => either_spec(input@, pos as int, a@, b@) is None,
        },
{
    match literal(input, pos, a) {
        Some(end) => Some(end),
        None => literal(input, pos, b),
    }
}

/// The names of a chain of lines from `pos`, behind the names `names`:
/// two words parted by white space for each line, and one of the two
/// separators between lines, with white space as one likes around it.
pub open spec fn pairs_chain(
    s: Seq<char>,
    pos: int,
    a: Seq<char>,
    b: Seq<char>,
    names: Seq<Seq<char>>,
) -> Option<Seq<Seq<char>>>
    decreases s.len() - pos,
{
    if pos < 0 || pos > s.len() {
        None
    } else {
        match word_spec(s, pos) {
            None => None,
            Some(p1) => match space_spec(s, p1) {
                None => None,
                Some(p2) => match word_spec(s, p2) {
                    None => None,
                    Some(p3) => {
                        let p4 = run_end(s, CharClass::Whitespace, p3);
                        let all = names.push(s.subrange(pos, p1)).push(s.subrange(p2, p3));
                        match either_spec(s, p4, a, b) {
                            None => Some(all),
                            Some(p5) => {
                                proof {
                                    lemma_run_end(s, CharClass::Alphabetic, pos);
                                    lemma_run_end(s, CharClass::Whitespace, p1);
                                    lemma_run_end(s, CharClass::Alphabetic, p2);
                                    lemma_run_end(s, CharClass::Whitespace, p3);
                                    lemma_run_end(s, CharClass::Whitespace, p5);
                                }
                                pairs_chain(s, run_end(s, CharClass::Whitespace, p5), a, b, all)
                            },
                        }
                    },
                },
            }
        }
    }
}

/// The names of the lines that a text begins with, if there are at least
/// two lines.
pub open spec fn lines_spec(s: Seq<char>, a: Seq<char>, b: Seq<char>) -> Option<Seq<Seq<char>>> {
    match pairs_chain(s, 0, a, b, Seq::empty()) {
        Some(names) => if names.len() >= 4 {
            Some(names)
        } else {
            None
        },
        None => None,
    }
}

/// The names of parallel lines: `A B ∥ C D`, or with `||`.
pub open spec fn parallel_spec(s: Seq<char>) -> Option<Seq<Seq<char>>> {
    lines_spec(s, "∥"@, "||"@)
}

/// The names of perpendicular lines: `A B ⟂ C D`, or with `_|_`.
pub open spec fn perpendicular_spec(s: Seq<char>) -> Option<Seq<Seq<char>>> {
    lines_spec(s, "⟂"@, "_|_"@)
}

/// The names of a chain of points from `pos`, behind the names `names`:
/// words parted by `-`, with white space as one likes around it.
pub open spec fn points_chain(s: Seq<char>, pos: int, names: Seq<Seq<char>>) -> Option<
    Seq<Seq<char>>,
>
    decreases s.len() - pos,
{
    if pos < 0 || pos > s.len() {
        None
    } else {
        match word_spec(s, pos) {
            None => None,
            Some(p1) => {
                let p2 = run_end(s, CharClass::Whitespace, p1);
                let all = names.push(s.subrange(pos, p1));
                match literal_spec(s, p2, "-"@) {
                    None => Some(all),
                    Some(p3) => {
                        proof {
                            lemma_run_end(s, CharClass::Alphabetic, pos);
                            lemma_run_end(s, CharClass::Whitespace, p1);
                            lemma_run_end(s, CharClass::Whitespace, p3);
                        }
                        points_chain(s, run_end(s, CharClass::Whitespace, p3), all)
                    },
                }
            },
        }
    }
}

/// The names of collinear points, `A - B - C`, if there are at least
/// three.
pub open spec fn collinear_spec(s: Seq<char>) -> Option<Seq<Seq<char>>> {
    match points_chain(s, 0, Seq::empty()) {
        Some(names) => if names.len() >= 3 {
            Some(names)
        } else {
            None
        },
        None => None,
    }
}

/// The polarity at `pos` with its end: `±` or `+/-`, `∓` or `-/+`.
pub open spec fn polarity_spec(s: Seq<char>, pos: int) -> Option<(Polarity, int)> {
    if either_spec(s, pos, "±"@, "+/-"@) is Some {
        Some((Polarity::Pro, either_spec(s, pos, "±"@, "+/-"@).unwrap()))
    } else if either_spec(s, pos, "∓"@, "-/+"@) is Some {
        Some((Polarity::Anti, either_spec(s, pos, "∓"@, "-/+"@).unwrap()))
    } else {
        None
    }
}

/// The polarities and names of a chain of angles from `pos`, behind those
/// given: for each angle a polarity, the sign of an angle and three words
/// parted by white space, and a comma between angles.
pub open spec fn angles_chain(
    s: Seq<char>,
    pos: int,
    polarities: Seq<Polarity>,
    names: Seq<Seq<char>>,
) -> Option<(Seq<Polarity>, Seq<Seq<char>>)>
    decreases s.len() - pos,
{
    if pos < 0 || pos > s.len() {
        None
    } else {
        match polarity_spec(s, pos) {
            None => None,
            Some((polarity, p0)) => match angle_sign_spec(
                s,
                run_end(s, CharClass::Whitespace, p0),
            ) {
                None => None,
                Some(p1) => {
                    let p2 = run_end(s, CharClass::Whitespace, p1);
                    match word_spec(s, p2) {
                        None => None,
                        Some(p3) => match space_spec(s, p3) {
                            None => None,
                            Some(p4) => match word_spec(s, p4) {
                                None => None,
                                Some(p5) => match space_spec(s, p5) {
                                    None => None,
                                    Some(p6) => match word_spec(s, p6) {
                                        None => None,
                                        Some(p7) => {
                                            let p8 = run_end(s, CharClass::Whitespace, p7);
                                            let all = names.push(s.subrange(p2, p3)).push(
                                                s.subrange(p4, p5),
                                            ).push(s.subrange(p6, p7));
                                            match literal_spec(s, p8, ","@) {
                                                None => Some((polarities.push(polarity), all)),
                                                Some(p9) => {
                                                    proof {
                                                        lemma_run_end(
                                                            s,
                                                            CharClass::Whitespace,
                                                            p0,
                                                        );
                                                        lemma_run_end(
                                                            s,
                                                            CharClass::Whitespace,
                                                            p1,
                                                        );
                                                        lemma_run_end(
                                                            s,
                                                            CharClass::Alphabetic,
                                                            p2,
                                                        );
                                                        lemma_run_end(
                                                            s,
                                                            CharClass::Whitespace,
                                                            p3,
                                                        );
                                                        lemma_run_end(
                                                            s,
                                                            CharClass::Alphabetic,
                                                            p4,
                                                        );
                                                        lemma_run_end(
                                                            s,
                                                            CharClass::Whitespace,
                                                            p5,
                                                        );
                                                        lemma_run_end(
                                                            s,
                                                            CharClass::Alphabetic,
                                                            p6,
                                                        );
                                                        lemma_run_end(
                                                            s,
                                                            CharClass::Whitespace,
                                                            p7,
                                                        );
                                                        lemma_run_end(
                                                            s,
                                                            CharClass::Whitespace,
                                                            p9,
                                                        );
                                                    }
                                                    angles_chain(
                                                        s,
                                                        run_end(s, CharClass::Whitespace, p9),
                                                        polarities.push(polarity),
                                                        all,
                                                    )
                                                },
                                            }
                                        },
                                    },
                                },
                            },
                        },
                    }
                },
            },
        }
    }
}

/// The polarities and names of the angles that a text begins with, if
/// there are at least two angles.
pub open spec fn chirality_spec(s: Seq<char>) -> Option<(Seq<Polarity>, Seq<Seq<char>>)> {
    match angles_chain(s, 0, Seq::empty(), Seq::empty()) {
        Some((polarities, names)) => if polarities.len() >= 2 {
            Some((polarities, names))
        } else {
            None
        },
        None => None,
    }
}

/// Reads a chain of lines.
pub fn read_lines(input: &[char], a: &str, b: &str) -> (r: Option<Vec<String>>)
    ensures
        match r {
            Some(names) => pairs_chain(input@, 0, a@, b@, Seq::empty()) == Some(
                names_view(names@),
            ),
            None => pairs_chain(input@, 0, a@, b@, Seq::empty()) is None,
        },
{
    let ghost s = input@;
    let mut names: Vec<String> = Vec::new();
    let mut pos: usize = 0;
    assert(names_view(names@) =~= Seq::<Seq<char>>::empty());
    loop
        invariant
            s == input@,
            pos <= s.len(),
            pairs_chain(s, 0, a@, b@, Seq::empty()) == pairs_chain(
                s,
                pos as int,
                a@,
                b@,
                names_view(names@),
            ),
        decreases s.len() - pos,
    {
        let p1 = match word(input, pos) {
            Some(p) => p,
            None => {
                return None;
            },
        };
        let p2 = match space(input, p1) {
            Some(p) => p,
            None => {
                return None;
            },
        };
        let p3 = match word(input, p2) {
            Some(p) => p,
            None => {
                return None;
            },
        };
        let p4 = skip_space(input, p3);
        let ghost before = names_view(names@);
        names.push(text_of(input, pos, p1));
        names.push(text_of(input, p2, p3));
        assert(names_view(names@) =~= before.push(s.subrange(pos as int, p1 as int)).push(
            s.subrange(p2 as int, p3 as int),
        ));
        match either(input, p4, a, b) {
            Some(p5) => {
                pos = skip_space(input, p5);
            },
            None => {
                return Some(names);
            },
        }
    }
}

/// Reads a chain of points.
pub fn read_points(input: &[char]) -> (r: Option<Vec<String>>)
    ensures
        match r {
            Some(names) => points_chain(input@, 0, Seq::empty()) == Some(names_view(names@)),
            None => points_chain(input@, 0, Seq::empty()) is None,
        },
{
    let ghost s = input@;
    let mut names: Vec<String> = Vec::new();
    let mut pos: usize = 0;
    assert(names_view(names@) =~= Seq::<Seq<char>>::empty());
    loop
        invariant
            s == input@,
            pos <= s.len(),
            points_chain(s, 0, Seq::empty()) == points_chain(s, pos as int, names_view(names@)),
        decreases s.len() - pos,
    {
        let p1 = match word(input, pos) {
            Some(p) => p,
            None => {
                return None;
            },
        };
        let p2 = skip_space(input, p1);
        let ghost before = names_view(names@);
        names.push(text_of(input, pos, p1));
        assert(names_view(names@) =~= before.push(s.subrange(pos as int, p1 as int)));
        match literal(input, p2, "-") {
            Some(p3) => {
                pos = skip_space(input, p3);
            },
            None => {
                return Some(names);
            },
        }
    }
}

/// Reads the polarity at `pos`.
pub fn read_polarity(input: &[char], pos: usize) -> (r: Option<(Polarity, usize)>)
    requires
        pos <= input@.len(),
    ensures
        match r {
            Some((polarity, end)) => polarity_spec(input@, pos as int) == Some(
                (polarity, end as int),
            ) && pos <= end <= input@.len(),
            None => polarity_spec(input@, pos as int) is None,
        },
{
    if let Some(end) = either(input, pos, "±", "+/-") {
        return Some((Polarity::Pro, end));
    }
    if let Some(end) = either(input, pos, "∓", "-/+") {
        return Some((Polarity::Anti, end));
    }
    None
}

/// Reads a chain of angles with their polarities.
pub fn read_angles(input: &[char]) -> (r: Option<(Vec<Polarity>, Vec<String>)>)
    ensures
        match r {
            Some((polarities, names)) => angles_chain(input@, 0, Seq::empty(), Seq::empty())
                == Some((polarities@, names_view(names@))),
            None => angles_chain(input@, 0, Seq::empty(), Seq::empty()) is None,
        },
{
    let ghost s = input@;
    let mut polarities: Vec<Polarity> = Vec::new();
    let mut names: Vec<String> = Vec::new();
    let mut pos: usize = 0;
    assert(names_view(names@) =~= Seq::<Seq<char>>::empty());
    loop
        invariant
            s == input@,
            pos <= s.len(),
            angles_chain(s, 0, Seq::empty(), Seq::empty()) == angles_chain(
                s,
                pos as int,
                polarities@,
                names_view(names@),
            ),
        decreases s.len() - pos,
    {
        let (polarity, p0) = match read_polarity(input, pos) {
            Some(found) => found,
            None => {
                return None;
            },
        };
        let p1 = match either(input, skip_space(input, p0), "∠", "<") {
            Some(p) => p,
            None => {
                return None;
            },
        };
        let p2 = skip_space(input, p1);
        let p3 = match word(input, p2) {
            Some(p) => p,
            None => {
                return None;
            },
        };
        let p4 = match space(input, p3) {
            Some(p) => p,
            None => {
                return None;
            },
        };
        let p5 = match word(input, p4) {
            Some(p) => p,
            None => {
                return None;
            },
        };
        let p6 = match space(input, p5) {
            Some(p) => p,
            None => {
                return None;
            },
        };
        let p7 = match word(input, p6) {
            Some(p) => p,
            None => {
                return None;
            },
        };
        let p8 = skip_space(input, p7);
        let ghost before = names_view(names@);
        polarities.push(polarity);
        names.push(text_of(input, p2, p3));
        names.push(text_of(input, p4, p5));
        names.push(text_of(input, p6, p7));
        assert(names_view(names@) =~= before.push(s.subrange(p2 as int, p3 as int)).push(
            s.subrange(p4 as int, p5 as int),
        ).push(s.subrange(p6 as int, p7 as int)));
        match literal(input, p8, ",") {
            Some(p9) => {
                pos = skip_space(input, p9);
            },
            None => {
                return Some((polarities, names));
            },
        }
    }
}

/// The identifiers of the points with the given names; names that are new
/// to the figure become points of it, in order.
pub fn intern(names: &Vec<String>, index: &mut PointIndex) -> (r: Vec<PointID>)
    requires
        old(index)@.wf(),
    ensures
        final(index)@.wf(),
        final(index)@ == old(index)@.with_points(names_view(names@)),
        final(index)@.named(r@, names_view(names@)),
        all_below(r@, final(index)@.n()),
{
    let ghost all = names_view(names@);
    let mut ids: Vec<PointID> = Vec::new();
    let mut i: usize = 0;
    assert(all.take(0) =~= Seq::<Seq<char>>::empty());
    while i < names.len()
        invariant
            i <= names.len(),
            all == names_view(names@),
            index@.wf(),
            index@ == old(index)@.with_points(all.take(i as int)),
            index@.named(ids@, all.take(i as int)),
            all_below(ids@, index@.n()),
        decreases names.len() - i,
    {
        let ghost before = index@;
        let ghost held = ids@;
        let id = index.get_or_insert(names[i].as_str());
        ids.push(id);
        proof {
            assert(all.take(i + 1).drop_last() =~= all.take(i as int));
            assert(all.take(i + 1).last() == names@[i as int]@);
            assert forall|j: int| 0 <= j < ids@.len() implies index@.names.dom().contains(
                #[trigger] ids@[j],
            ) && index@.names[ids@[j]] == all.take(i + 1)[j] && ids@[j] < index@.n() by {
                if j < i {
                    assert(ids@[j] == held[j]);
                    assert(before.names.dom().contains(held[j]));
                    assert(before.names[held[j]] == all.take(i as int)[j]);
                }
            }
        }
        i += 1;
    }
    assert(all.take(all.len() as int) =~= all);
    ids
}

impl Parallel {
    /// Reads parallel lines from the beginning of `input`. The names become points
    /// of the figure, unless the text is none.
    pub fn parse(input: &str, index: &mut PointIndex) -> (r: Option<Parallel>)
        requires
            old(index)@.wf(),
        ensures
            final(index)@.wf(),
            match parallel_spec(input@) {
                Some(names) => r is Some && final(index)@ == old(index)@.with_points(names)
                    && final(index)@.named(r.unwrap().points@, names) && all_below(
                    r.unwrap().points@,
                    final(index)@.n(),
                ),
                None => r is None && final(index)@ == old(index)@,
            },
    {
        let chars = chars_of(input);
        Parallel::parse_chars(chars.as_slice(), index)
    }

    /// Reads parallel lines from the beginning of the characters `input`.
    pub fn parse_chars(input: &[char], index: &mut PointIndex) -> (r: Option<Parallel>)
        requires
            old(index)@.wf(),
        ensures
            final(index)@.wf(),
            match parallel_spec(input@) {
                Some(names) => r is Some && final(index)@ == old(index)@.with_points(names)
                    && final(index)@.named(r.unwrap().points@, names) && all_below(
                    r.unwrap().points@,
                    final(index)@.n(),
                ),
                None => r is None && final(index)@ == old(index)@,
            },
    {
        match read_lines(input, "∥", "||") {
            Some(names) => {
                if names.len() < 4 {
                    return None;
                }
                Some(Parallel { points: intern(&names, index) })
            },
            None => None,
        }
    }
}

impl Perpendicular {
    /// Reads perpendicular lines from the beginning of `input`. The names become points
    /// of the figure, unless the text is none.
    pub fn parse(input: &str, index: &mut PointIndex) -> (r: Option<Perpendicular>)
        requires
            old(index)@.wf(),
        ensures
            final(index)@.wf(),
            match perpendicular_spec(input@) {
                Some(names) => r is Some && final(index)@ == old(index)@.with_points(names)
                    && final(index)@.named(r.unwrap().points@, names) && all_below(
                    r.unwrap().points@,
                    final(index)@.n(),
                ),
                None => r is None && final(index)@ == old(index)@,
            },
    {
        let chars = chars_of(input);
        Perpendicular::parse_chars(chars.as_slice(), index)
    }

    /// Reads perpendicular lines from the beginning of the characters `input`.
    pub fn parse_chars(input: &[char], index: &mut PointIndex) -> (r: Option<Perpendicular>)
        requires
            old(index)@.wf(),
        ensures
            final(index)@.wf(),
            match perpendicular_spec(input@) {
                Some(names) => r is Some && final(index)@ == old(index)@.with_points(names)
                    && final(index)@.named(r.unwrap().points@, names) && all_below(
                    r.unwrap().points@,
                    final(index)@.n(),
                ),
                None => r is None && final(index)@ == old(index)@,
            },
    {
        match read_lines(input, "⟂", "_|_") {
            Some(names) => {
                if names.len() < 4 {
                    return None;
                }
                Some(Perpendicular { points: intern(&names, index) })
            },
            None => None,
        }
    }
}

impl Collinear {
    /// Reads collinear points from the beginning of `input`. The names become points
    /// of the figure, unless the text is none.
    pub fn parse(input: &str, index: &mut PointIndex) -> (r: Option<Collinear>)
        requires
            old(index)@.wf(),
        ensures
            final(index)@.wf(),
            match collinear_spec(input@) {
                Some(names) => r is Some && final(index)@ == old(index)@.with_points(names)
                    && final(index)@.named(r.unwrap().points@, names) && all_below(
                    r.unwrap().points@,
                    final(index)@.n(),
                ),
                None => r is None && final(index)@ == old(index)@,
            },
    {
        let chars = chars_of(input);
        Collinear::parse_chars(chars.as_slice(), index)
    }

    /// Reads collinear points from the beginning of the characters `input`.
    pub fn parse_chars(input: &[char], index: &mut PointIndex) -> (r: Option<Collinear>)
        requires
            old(index)@.wf(),
        ensures
            final(index)@.wf(),
            match collinear_spec(input@) {
                Some(names) => r is Some && final(index)@ == old(index)@.with_points(names)
                    && final(index)@.named(r.unwrap().points@, names) && all_below(
                    r.unwrap().points@,
                    final(index)@.n(),
                ),
                None => r is None && final(index)@ == old(index)@,
            },
    {
        match read_points(input) {
            Some(names) => {
                if names.len() < 3 {
                    return None;
                }
                Some(Collinear { points: intern(&names, index) })
            },
            None => None,
        }
    }
}

impl AnglePolarity {
    /// Reads angles with their polarities from the beginning of `input`.
    /// The names of their points become points of the figure, unless the
    /// text is none.
    pub fn parse(input: &str, index: &mut PointIndex) -> (r: Option<AnglePolarity>)
        requires
            old(index)@.wf(),
        ensures
            final(index)@.wf(),
            match chirality_spec(input@) {
                Some((polarities, names)) => r is Some && final(index)@ == old(index)@.with_points(
                    names,
                ) && final(index)@.named(r.unwrap().points@, names) && r.unwrap().polarities@
                    == polarities && all_below(r.unwrap().points@, final(index)@.n()),
                None => r is None && final(index)@ == old(index)@,
            },
    {
        let chars = chars_of(input);
        AnglePolarity::parse_chars(chars.as_slice(), index)
    }

    /// Reads angles with their polarities from the beginning of the
    /// characters `input`.
    pub fn parse_chars(input: &[char], index: &mut PointIndex) -> (r: Option<AnglePolarity>)
        requires
            old(index)@.wf(),
        ensures
            final(index)@.wf(),
            match chirality_spec(input@) {
                Some((polarities, names)) => r is Some && final(index)@ == old(index)@.with_points(
                    names,
                ) && final(index)@.named(r.unwrap().points@, names) && r.unwrap().polarities@
                    == polarities && all_below(r.unwrap().points@, final(index)@.n()),
                None => r is None && final(index)@ == old(index)@,
            },
    {
        match read_angles(input) {
            Some((polarities, names)) => {
                if polarities.len() < 2 {
                    return None;
                }
                Some(AnglePolarity { points: intern(&names, index), polarities })
            },
            None => None,
        }
    }
}

} // verus!
