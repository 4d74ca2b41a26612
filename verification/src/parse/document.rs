//! Reading a figure line by line.
//!
//! A line holds a constraint, a path, or a comment in double quotes. A
//! constraint with a measure is an equality: elements and one number,
//! parted by `=`. The numbers are read by the caller, who hands in for
//! each side of a line the bit pattern of the number that the side holds,
//! if it holds one.

use crate::constraints::constraints::{AnglePolarity, Collinear, Parallel, Perpendicular};
use crate::constraints::elements::{Angle, Distance};
use crate::constraints::{Constraint, ConstraintView};
use crate::order::{IndexView, PointIndex};
use crate::parse::constraints::{chirality_spec, collinear_spec, parallel_spec, perpendicular_spec};
use crate::parse::elements::{element_at, read_angle, read_distance, Element, ElementView};
use crate::parse::path::{parse_path_chars, parse_path_spec};
use crate::constraints::constraints::Polarity;
use crate::parsing::{
    chars_of, find, find_char, pieces, split_trimmed, text_of, trim, trimmed, trimmed_pieces,
};
use vstd::prelude::*;

verus! {

broadcast use vstd::array::group_array_axioms;

/// Why a line is no equality.
#[derive(Debug, Clone, Copy, PartialEq, Eq, Structural)]
pub enum EqualityError {
    /// The line holds no `=`.
    NoEqualsSign,
    /// More than one side holds a number.
    MultipleValues,
    /// The side with the given number holds neither an element nor a
    /// number.
    Unparsed(usize),
    /// No side holds a number.
    NoValue,
}

/// How far an equality was read.
pub struct Progress {
    /// The elements read.
    pub elements: Seq<ElementView>,
    /// The number read, if one was.
    pub value: Option<u64>,
    /// What stopped the reading, if anything did.
    pub error: Option<EqualityError>,
}

/// The number that the side `k` holds, as the caller read it.
pub open spec fn value_at(values: Seq<Option<u64>>, k: int) -> Option<u64> {
    if 0 <= k < values.len() {
        values[k]
    } else {
        None
    }
}

/// How far the equality is read after its first `k` sides: each side is an
/// element if it begins with one, else a number if the caller read one,
/// and the reading stops at a second number and at a side that is
/// neither.
pub open spec fn progress(sides: Seq<Seq<char>>, values: Seq<Option<u64>>, k: int) -> Progress
    decreases k,
{
    if k <= 0 {
        Progress { elements: Seq::empty(), value: None, error: None }
    } else {
        let before = progress(sides, values, k - 1);
        if before.error is Some {
            before
        } else {
            match element_at(sides[k - 1], 0) {
                Some((e, _)) => Progress { elements: before.elements.push(e), ..before },
                None => match value_at(values, k - 1) {
                    Some(v) => if before.value is Some {
                        Progress { error: Some(EqualityError::MultipleValues), ..before }
                    } else {
                        Progress { value: Some(v), ..before }
                    },
                    None => Progress {
                        error: Some(EqualityError::Unparsed((k - 1) as usize)),
                        ..before
                    },
                },
            }
        }
    }
}

/// The elements that were read of an equality, and its measure or why it
/// has none.
pub open spec fn equality_spec(s: Seq<char>, values: Seq<Option<u64>>) -> (
    Seq<ElementView>,
    Result<u64, EqualityError>,
) {
    if find_char(s, '=', 0) >= s.len() {
        (Seq::empty(), Err(EqualityError::NoEqualsSign))
    } else {
        let sides = trimmed_pieces(s, '=');
        let p = progress(sides, values, sides.len() as int);
        (
            p.elements,
            match p.error {
                Some(e) => Err(e),
                None => match p.value {
                    Some(v) => Ok(v),
                    None => Err(EqualityError::NoValue),
                },
            },
        )
    }
}

/// The names of the points of an element.
pub open spec fn element_names(e: ElementView) -> Seq<Seq<char>> {
    match e {
        ElementView::Distance(a, b) => seq![a, b],
        ElementView::Angle(a, b, c) => seq![a, b, c],
    }
}

/// The figure with a point for each name of the elements, taken in order.
pub open spec fn with_elements(ix: IndexView, elements: Seq<ElementView>) -> IndexView
    decreases elements.len(),
{
    if elements.len() == 0 {
        ix
    } else {
        with_elements(ix, elements.drop_last()).with_points(element_names(elements.last()))
    }
}

/// The constraint gives the element the measure `value` on the points of
/// the figure that have the element's names.
pub open spec fn measures(ix: IndexView, c: ConstraintView, e: ElementView, value: u64) -> bool {
    &&& c.within(ix.n())
    &&& ix.named(c.points(), element_names(e))
    &&& match e {
        ElementView::Distance(_, _) => c matches ConstraintView::Distance { dist, .. } && dist
            == value,
        ElementView::Angle(_, _, _) => c matches ConstraintView::Angle { measure, .. }
            && measure == value,
    }
}

/// The constraints give the elements the measure `value`, one by one.
pub open spec fn all_measure(
    ix: IndexView,
    cs: Seq<Constraint>,
    elements: Seq<ElementView>,
    value: u64,
) -> bool {
    &&& cs.len() == elements.len()
    &&& forall|j: int| 0 <= j < cs.len() ==> measures(ix, (#[trigger] cs[j])@, elements[j], value)
}

/// A figure with more points names the points it named before as before.
pub proof fn lemma_with_point_keeps(ix: IndexView, name: Seq<char>, points: Seq<usize>, names: Seq<
    Seq<char>,
>)
    requires
        ix.wf(),
        ix.named(points, names),
    ensures
        ix.with_point(name).named(points, names),
{
    let after = ix.with_point(name);
    assert forall|i: int| 0 <= i < points.len() implies after.names.dom().contains(
        #[trigger] points[i],
    ) && after.names[points[i]] == names[i] by {
        assert(ix.names.dom().contains(points[i]));
        assert(points[i] < ix.n());
    }
}

/// Points for two names are added one after the other.
pub proof fn lemma_with_points_two(ix: IndexView, a: Seq<char>, b: Seq<char>)
    ensures
        ix.with_points(seq![a, b]) == ix.with_point(a).with_point(b),
{
    let none = Seq::<Seq<char>>::empty();
    let one = seq![a];
    let two = seq![a, b];
    assert(one.drop_last() =~= none);
    assert(two.drop_last() =~= one);
    assert(ix.with_points(none) == ix);
    assert(ix.with_points(one) == ix.with_points(none).with_point(a));
    assert(ix.with_points(two) == ix.with_points(one).with_point(b));
}

/// Points for three names are added one after the other.
pub proof fn lemma_with_points_three(ix: IndexView, a: Seq<char>, b: Seq<char>, c: Seq<char>)
    ensures
        ix.with_points(seq![a, b, c]) == ix.with_point(a).with_point(b).with_point(c),
{
    let two = seq![a, b];
    let three = seq![a, b, c];
    lemma_with_points_two(ix, a, b);
    assert(three.drop_last() =~= two);
    assert(ix.with_points(three) == ix.with_points(two).with_point(c));
}

/// Gives a constraint its measure.
fn with_measure(c: Constraint, value: u64) -> (r: Constraint)
    ensures
        match c@ {
            ConstraintView::Distance { points, .. } => r@ == (ConstraintView::Distance {
                points,
                dist: value,
            }),
            ConstraintView::Angle { points, .. } => r@ == (ConstraintView::Angle {
                points,
                measure: value,
            }),
            _ => r@ == c@,
        },
{
    match c {
        Constraint::Distance(d) => Constraint::Distance(Distance { points: d.points, dist: value }),
        Constraint::Angle(a) => Constraint::Angle(Angle { points: a.points, measure: value }),
        other => other,
    }
}

/// Makes the element a constraint with a measure of zero, on the points of
/// the figure that have its names; new names become points.
fn place(element: Element, index: &mut PointIndex) -> (r: Constraint)
    requires
        old(index)@.wf(),
    ensures
        final(index)@.wf(),
        final(index)@ == old(index)@.with_points(element_names(element@)),
        measures(final(index)@, r@, element@, 0),
        forall|points: Seq<usize>, names: Seq<Seq<char>>|
            old(index)@.named(points, names) ==> #[trigger] final(index)@.named(points, names),
        final(index)@.n() >= old(index)@.n(),
{
    let ghost before = index@;
    let ghost names = element_names(element@);
    match element {
        Element::Distance(a, b) => {
            let p = index.get_or_insert(a.as_str());
            let ghost mid = index@;
            let q = index.get_or_insert(b.as_str());
            let d = Distance { points: [p, q], dist: 0 };
            proof {
                assert(d.points@ =~= seq![p, q]);
                lemma_with_points_two(before, a@, b@);
                assert forall|points: Seq<usize>, ns: Seq<Seq<char>>|
                    before.named(points, ns) implies #[trigger] index@.named(points, ns) by {
                    lemma_with_point_keeps(before, a@, points, ns);
                    lemma_with_point_keeps(mid, b@, points, ns);
                }
                lemma_with_point_keeps(mid, b@, seq![p], seq![a@]);
                assert(index@.names[seq![p][0]] == seq![a@][0]);
            }
            Constraint::Distance(d)
        },
        Element::Angle(a, b, c) => {
            let p = index.get_or_insert(a.as_str());
            let ghost mid1 = index@;
            let q = index.get_or_insert(b.as_str());
            let ghost mid2 = index@;
            let t = index.get_or_insert(c.as_str());
            let x = Angle { points: [p, q, t], measure: 0 };
            proof {
                assert(x.points@ =~= seq![p, q, t]);
                lemma_with_points_three(before, a@, b@, c@);
                assert forall|points: Seq<usize>, ns: Seq<Seq<char>>|
                    before.named(points, ns) implies #[trigger] index@.named(points, ns) by {
                    lemma_with_point_keeps(before, a@, points, ns);
                    lemma_with_point_keeps(mid1, b@, points, ns);
                    lemma_with_point_keeps(mid2, c@, points, ns);
                }
                lemma_with_point_keeps(mid1, b@, seq![p], seq![a@]);
                lemma_with_point_keeps(mid2, c@, seq![p], seq![a@]);
                lemma_with_point_keeps(mid2, c@, seq![q], seq![b@]);
                assert(index@.names[seq![p][0]] == seq![a@][0]);
                assert(index@.names[seq![q][0]] == seq![b@][0]);
            }
            Constraint::Angle(x)
        },
    }
}

/// The sides of an equality: the pieces of the line between its `=`, each
/// without the white space around it.
pub fn equality_sides(line: &str) -> (r: Vec<String>)
    ensures
        r@.len() == trimmed_pieces(line@, '=').len(),
        forall|k: int| 0 <= k < r@.len() ==> (#[trigger] r@[k])@ == trimmed_pieces(line@, '=')[k],
{
    let chars = chars_of(line);
    let sides = split_trimmed(chars.as_slice(), '=');
    let mut out: Vec<String> = Vec::new();
    let mut k: usize = 0;
    while k < sides.len()
        invariant
            k <= sides.len(),
            out@.len() == k,
            forall|j: int| 0 <= j < k ==> (#[trigger] out@[j])@ == sides@[j]@,
        decreases sides.len() - k,
    {
        let side = sides[k].as_slice();
        let text = text_of(side, 0, side.len());
        assert(side@.subrange(0, side@.len() as int) =~= side@);
        out.push(text);
        k += 1;
    }
    out
}

/// Reads an equality: each element on a side of the line becomes a
/// constraint with the number of the line as its measure. The names of the
/// elements that were read become points of the figure, also where the
/// line is no equality in the end.
pub fn parse_equality(line: &[char], values: &[Option<u64>], index: &mut PointIndex) -> (r: Result<
    Vec<Constraint>,
    EqualityError,
>)
    requires
        old(index)@.wf(),
    ensures
        final(index)@.wf(),
        final(index)@ == with_elements(old(index)@, equality_spec(line@, values@).0),
        match equality_spec(line@, values@).1 {
            Ok(value) => r is Ok && all_measure(
                final(index)@,
                r.unwrap()@,
                equality_spec(line@, values@).0,
                value,
            ),
            Err(e) => r == Err::<Vec<Constraint>, EqualityError>(e),
        },
{
    let ghost before = index@;
    if find(line, '=', 0) >= line.len() {
        return Err(EqualityError::NoEqualsSign);
    }
    let sides = split_trimmed(line, '=');
    let ghost texts = trimmed_pieces(line@, '=');
    let mut found: Vec<Constraint> = Vec::new();
    let mut value: Option<u64> = None;
    let mut k: usize = 0;
    while k < sides.len()
        invariant
            k <= sides.len(),
            before == old(index)@,
            texts == trimmed_pieces(line@, '='),
            find_char(line@, '=', 0) < line@.len(),
            sides@.len() == texts.len(),
            forall|j: int| 0 <= j < sides@.len() ==> (#[trigger] sides@[j])@ == texts[j],
            index@.wf(),
            progress(texts, values@, k as int).error is None,
            progress(texts, values@, k as int).value == value,
            index@ == with_elements(before, progress(texts, values@, k as int).elements),
            all_measure(index@, found@, progress(texts, values@, k as int).elements, 0),
        decreases sides.len() - k,
    {
        let side = sides[k].as_slice();
        let ghost so_far = progress(texts, values@, k as int);
        let ghost held = index@;
        let read = match read_distance(side, 0) {
            Some(read) => Some(read),
            None => read_angle(side, 0),
        };
        match read {
            Some((element, _)) => {
                let ghost e = element@;
                let ghost old_found = found@;
                let c = place(element, index);
                found.push(c);
                proof {
                    let next = progress(texts, values@, k + 1);
                    assert(next.elements == so_far.elements.push(e));
                    assert(next.elements.drop_last() =~= so_far.elements);
                    assert forall|j: int| 0 <= j < found@.len() implies measures(
                        index@,
                        (#[trigger] found@[j])@,
                        next.elements[j],
                        0,
                    ) by {
                        if j < old_found.len() {
                            assert(found@[j] == old_found[j]);
                            assert(measures(held, old_found[j]@, so_far.elements[j], 0));
                            assert(held.named(
                                old_found[j]@.points(),
                                element_names(so_far.elements[j]),
                            ));
                        }
                    }
                }
            },
            None => {
                let v = if k < values.len() {
                    values[k]
                } else {
                    None
                };
                match v {
                    Some(bits) => {
                        if value.is_some() {
                            proof {
                                lemma_progress_stops(texts, values@, k + 1, texts.len() as int);
                            }
                            return Err(EqualityError::MultipleValues);
                        }
                        value = Some(bits);
                    },
                    None => {
                        proof {
                            lemma_progress_stops(texts, values@, k + 1, texts.len() as int);
                        }
                        return Err(EqualityError::Unparsed(k));
                    },
                }
            },
        }
        k += 1;
    }
    match value {
        None => Err(EqualityError::NoValue),
        Some(v) => {
            let ghost elements = progress(texts, values@, texts.len() as int).elements;
            let mut out: Vec<Constraint> = Vec::new();
            let ghost zeros = found@;
            while found.len() > 0
                invariant
                    found@.len() + out@.len() == zeros.len(),
                    zeros.len() == elements.len(),
                    index@.wf(),
                    forall|j: int| 0 <= j < found@.len() ==> found@[j] == zeros[j],
                    forall|j: int|
                        0 <= j < zeros.len() ==> measures(
                            index@,
                            (#[trigger] zeros[j])@,
                            elements[j],
                            0,
                        ),
                    forall|j: int|
                        0 <= j < out@.len() ==> measures(
                            index@,
                            (#[trigger] out@[j])@,
                            elements[zeros.len() - 1 - j],
                            v,
                        ),
                decreases found@.len(),
            {
                let ghost at = found@.len() - 1;
                let c = found.pop().unwrap();
                assert(c == zeros[at]);
                assert(measures(index@, zeros[at]@, elements[at], 0));
                out.push(with_measure(c, v));
            }
            let mut sorted: Vec<Constraint> = Vec::new();
            while out.len() > 0
                invariant
                    sorted@.len() + out@.len() == elements.len(),
                    forall|j: int|
                        0 <= j < out@.len() ==> measures(
                            index@,
                            (#[trigger] out@[j])@,
                            elements[elements.len() - 1 - j],
                            v,
                        ),
                    forall|j: int|
                        0 <= j < sorted@.len() ==> measures(
                            index@,
                            (#[trigger] sorted@[j])@,
                            elements[j],
                            v,
                        ),
                decreases out@.len(),
            {
                let c = out.pop().unwrap();
                sorted.push(c);
            }
            Ok(sorted)
        },
    }
}

/// Once the reading of an equality stopped, it stays where it is.
pub proof fn lemma_progress_stops(sides: Seq<Seq<char>>, values: Seq<Option<u64>>, k: int, m: int)
    requires
        0 <= k <= m,
        progress(sides, values, k).error is Some,
    ensures
        progress(sides, values, m) == progress(sides, values, k),
    decreases m - k,
{
    if k < m {
        lemma_progress_stops(sides, values, k, m - 1);
    }
}

/// The constraints without a measure.
pub enum Shape {
    Parallel,
    Perpendicular,
    Collinear,
    Chirality(Seq<Polarity>),
}

/// The constraint without a measure that a line begins with, with the
/// names of its points: parallel lines, else perpendicular lines, else
/// collinear points, else angles with their polarities.
pub open spec fn shape_spec(s: Seq<char>) -> Option<(Shape, Seq<Seq<char>>)> {
    if parallel_spec(s) is Some {
        Some((Shape::Parallel, parallel_spec(s).unwrap()))
    } else if perpendicular_spec(s) is Some {
        Some((Shape::Perpendicular, perpendicular_spec(s).unwrap()))
    } else if collinear_spec(s) is Some {
        Some((Shape::Collinear, collinear_spec(s).unwrap()))
    } else if chirality_spec(s) is Some {
        Some((Shape::Chirality(chirality_spec(s).unwrap().0), chirality_spec(s).unwrap().1))
    } else {
        None
    }
}

/// The constraint has the given shape, on the points of the figure that
/// have the given names.
pub open spec fn shaped(ix: IndexView, c: ConstraintView, shape: Shape, names: Seq<Seq<char>>) -> bool {
    &&& c.within(ix.n())
    &&& ix.named(c.points(), names)
    &&& match shape {
        Shape::Parallel => c is Parallel,
        Shape::Perpendicular => c is Perpendicular,
        Shape::Collinear => c is Collinear,
        Shape::Chirality(polarities) => c matches ConstraintView::Chirality {
            polarities: found,
            ..
        } && found == polarities,
    }
}

/// Reads the constraints of a line: one constraint without a measure, or
/// else the constraints of an equality.
pub fn parse_constraint(line: &[char], values: &[Option<u64>], index: &mut PointIndex) -> (r:
    Result<Vec<Constraint>, EqualityError>)
    requires
        old(index)@.wf(),
    ensures
        final(index)@.wf(),
        match shape_spec(line@) {
            Some((shape, names)) => r is Ok && r.unwrap()@.len() == 1 && final(index)@
                == old(index)@.with_points(names) && shaped(
                final(index)@,
                r.unwrap()@[0]@,
                shape,
                names,
            ),
            None => final(index)@ == with_elements(old(index)@, equality_spec(line@, values@).0)
                && match equality_spec(line@, values@).1 {
                Ok(value) => r is Ok && all_measure(
                    final(index)@,
                    r.unwrap()@,
                    equality_spec(line@, values@).0,
                    value,
                ),
                Err(e) => r == Err::<Vec<Constraint>, EqualityError>(e),
            },
        },
{
    if let Some(parsed) = Parallel::parse_chars(line, index) {
        return Ok(vec![Constraint::Parallel(parsed)]);
    }
    if let Some(parsed) = Perpendicular::parse_chars(line, index) {
        return Ok(vec![Constraint::Perpendicular(parsed)]);
    }
    if let Some(parsed) = Collinear::parse_chars(line, index) {
        return Ok(vec![Constraint::Collinear(parsed)]);
    }
    if let Some(parsed) = AnglePolarity::parse_chars(line, index) {
        return Ok(vec![Constraint::Chirality(parsed)]);
    }
    parse_equality(line, values, index)
}

/// What a line holds.
#[derive(Debug, Clone, Copy, PartialEq, Eq, Structural)]
pub enum LineKind {
    /// One or more constraints.
    Constraints,
    /// A path.
    Path,
    /// A comment.
    Comment,
    /// Nothing that can be read.
    Invalid,
}

/// Whether the line begins and ends with a double quote.
pub open spec fn quoted(s: Seq<char>) -> bool {
    s.len() > 0 && s[0] == '"' && s[s.len() - 1] == '"'
}

/// What a line holds: constraints, else a path, else a comment.
pub open spec fn line_kind(s: Seq<char>, values: Seq<Option<u64>>) -> LineKind {
    if shape_spec(s) is Some || equality_spec(s, values).1 is Ok {
        LineKind::Constraints
    } else if parse_path_spec(s) is Some {
        LineKind::Path
    } else if quoted(s) {
        LineKind::Comment
    } else {
        LineKind::Invalid
    }
}

/// The figure with the constraints added in order.
pub open spec fn with_constraints(ix: IndexView, cs: Seq<ConstraintView>) -> IndexView
    decreases cs.len(),
{
    if cs.len() == 0 {
        ix
    } else {
        with_constraints(ix, cs.drop_last()).with_constraint(cs.last())
    }
}

/// The views of constraints.
pub open spec fn constraint_views(cs: Seq<Constraint>) -> Seq<ConstraintView> {
    Seq::new(cs.len(), |i: int| cs[i]@)
}

/// Adds the constraints to the figure in order.
pub fn add_constraints(cs: Vec<Constraint>, index: &mut PointIndex)
    requires
        old(index)@.wf(),
        forall|j: int| 0 <= j < cs@.len() ==> (#[trigger] cs@[j])@.within(old(index)@.n()),
    ensures
        final(index)@.wf(),
        final(index)@ == with_constraints(old(index)@, constraint_views(cs@)),
{
    let mut cs = cs;
    let ghost all = constraint_views(cs@);
    let ghost before = index@;
    let mut turned: Vec<Constraint> = Vec::new();
    while cs.len() > 0
        invariant
            cs@.len() + turned@.len() == all.len(),
            forall|j: int| 0 <= j < cs@.len() ==> (#[trigger] cs@[j])@ == all[j],
            forall|j: int|
                0 <= j < turned@.len() ==> (#[trigger] turned@[j])@ == all[all.len() - 1 - j],
        decreases cs@.len(),
    {
        let c = cs.pop().unwrap();
        turned.push(c);
    }
    let ghost done: int = 0;
    assert(all.take(0) =~= Seq::<ConstraintView>::empty());
    while turned.len() > 0
        invariant
            0 <= done <= all.len(),
            turned@.len() == all.len() - done,
            forall|j: int|
                0 <= j < turned@.len() ==> (#[trigger] turned@[j])@ == all[all.len() - 1 - j],
            forall|j: int| 0 <= j < all.len() ==> (#[trigger] all[j]).within(before.n()),
            index@.wf(),
            index@.n() == before.n(),
            index@ == with_constraints(before, all.take(done)),
        decreases turned@.len(),
    {
        let c = turned.pop().unwrap();
        proof {
            assert(c@ == all[done]);
            assert(all.take(done + 1).drop_last() =~= all.take(done));
            assert(all.take(done + 1).last() == all[done]);
        }
        index.add_constraint(c);
        proof {
            done = done + 1;
        }
    }
    assert(all.take(all.len() as int) =~= all);
}

/// The figure after a line was read: with the points of the line's
/// elements, and with its constraints or its path.
pub open spec fn line_effect(
    ix: IndexView,
    s: Seq<char>,
    values: Seq<Option<u64>>,
    after: IndexView,
) -> bool {
    match shape_spec(s) {
        Some((shape, names)) => exists|c: ConstraintView|
            shaped(ix.with_points(names), c, shape, names) && after == ix.with_points(
                names,
            ).with_constraint(c),
        None => {
            let read = with_elements(ix, equality_spec(s, values).0);
            match equality_spec(s, values).1 {
                Ok(value) => exists|cs: Seq<Constraint>|
                    all_measure(read, cs, equality_spec(s, values).0, value) && after
                        == with_constraints(read, constraint_views(cs)),
                Err(_) => match parse_path_spec(s) {
                    Some(path) => after == read.with_path(path),
                    None => after == read,
                },
            }
        },
    }
}

/// Reads a line into the figure: its constraints, or else its path; a
/// comment adds nothing. A line that holds none of these is an error.
pub fn parse_line(line: &[char], values: &[Option<u64>], index: &mut PointIndex) -> (r: Result<
    (),
    (),
>)
    requires
        old(index)@.wf(),
    ensures
        final(index)@.wf(),
        r is Ok <==> line_kind(line@, values@) != LineKind::Invalid,
        line_effect(old(index)@, line@, values@, final(index)@),
{
    let ghost before = index@;
    match parse_constraint(line, values, index) {
        Ok(cs) => {
            let ghost read = index@;
            let ghost added = cs@;
            proof {
                if shape_spec(line@) is None {
                    let elements = equality_spec(line@, values@).0;
                    let value = equality_spec(line@, values@).1->Ok_0;
                    assert(all_measure(read, added, elements, value));
                    assert forall|j: int| 0 <= j < added.len() implies (#[trigger] added[j])@.within(
                        read.n(),
                    ) by {
                        assert(measures(read, added[j]@, elements[j], value));
                    }
                }
            }
            add_constraints(cs, index);
            proof {
                if shape_spec(line@) is Some {
                    let views = constraint_views(added);
                    assert(views.drop_last() =~= Seq::<ConstraintView>::empty());
                    assert(with_constraints(read, views.drop_last()) == read);
                    assert(with_constraints(read, views) == read.with_constraint(added[0]@));
                }
            }
            Ok(())
        },
        Err(_) => {
            match parse_path_chars(line) {
                Some(path) => {
                    index.add_path(path);
                    Ok(())
                },
                None => {
                    let n = line.len();
                    if n > 0 && line[0] == '"' && line[n - 1] == '"' {
                        Ok(())
                    } else {
                        Err(())
                    }
                },
            }
        },
    }
}

/// What to do with a line of a document: pass over it, or read it.
pub open spec fn skipped(comment: bool, s: Seq<char>) -> bool {
    let line = trimmed(s);
    line.len() == 0 || next_comment(comment, s)
}

/// Whether a comment is open behind the line: it opens with a line that
/// begins with a double quote and closes with a line that ends with one.
pub open spec fn next_comment(comment: bool, s: Seq<char>) -> bool {
    let line = trimmed(s);
    if line.len() == 0 {
        comment
    } else if line[line.len() - 1] == '"' {
        false
    } else if line[0] == '"' {
        true
    } else {
        comment
    }
}

/// Reads a line of a document into the figure, unless the line is empty
/// or lies within a comment of several lines. Returns whether a comment
/// is open behind the line, and whether the line could be read.
pub fn read_line(comment: bool, line: &str, values: &[Option<u64>], index: &mut PointIndex) -> (r: (
    bool,
    Result<(), ()>,
))
    requires
        old(index)@.wf(),
    ensures
        final(index)@.wf(),
        r.0 == next_comment(comment, line@),
        skipped(comment, line@) ==> r.1 is Ok && final(index)@ == old(index)@,
        !skipped(comment, line@) ==> (r.1 is Ok <==> line_kind(trimmed(line@), values@)
            != LineKind::Invalid) && line_effect(
            old(index)@,
            trimmed(line@),
            values@,
            final(index)@,
        ),
{
    let chars = chars_of(line);
    let (from, to) = trim(chars.as_slice());
    let text = vstd::slice::slice_subrange(chars.as_slice(), from, to);
    if text.len() == 0 {
        return (comment, Ok(()));
    }
    let mut open = comment;
    if text[0] == '"' {
        open = true;
    }
    if text[text.len() - 1] == '"' {
        open = false;
    }
    if open {
        return (true, Ok(()));
    }
    (false, parse_line(text, values, index))
}

} // verus!
