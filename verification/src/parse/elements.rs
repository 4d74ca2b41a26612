//! Reading the elements that take a measure: the distance `|A B|` and the
//! angle `∠ A B C` (or `< A B C`).

use crate::constraints::elements::{Angle, Distance};
use crate::constraints::{Constraint, ConstraintView};
use crate::order::PointIndex;
use crate::parsing::{
    chars_of, literal, literal_spec, run_end, skip_space, space, space_spec, text_of, word,
    word_spec, CharClass,
};
use vstd::prelude::*;

verus! {

/// An element with the names of its points.
#[derive(Debug, PartialEq, Eq)]
pub enum Element {
    /// The distance between two points.
    Distance(String, String),
    /// The angle at the second point, from the first to the third.
    Angle(String, String, String),
}

/// An element as a mathematical value.
pub enum ElementView {
    Distance(Seq<char>, Seq<char>),
    Angle(Seq<char>, Seq<char>, Seq<char>),
}

impl View for Element {
    type V = ElementView;

    open spec fn view(&self) -> ElementView {
        match self {
            Element::Distance(a, b) => ElementView::Distance(a@, b@),
            Element::Angle(a, b, c) => ElementView::Angle(a@, b@, c@),
        }
    }
}

/// A distance at `pos`: a bar, a word, white space, a word and a bar,
/// with white space as one likes behind the first bar and before the
/// second. Yields the two words and the end.
pub open spec fn distance_spec(s: Seq<char>, pos: int) -> Option<(ElementView, int)> {
    match literal_spec(s, pos, "|"@) {
        None => None,
        Some(p0) => {
            let p1 = run_end(s, CharClass::Whitespace, p0);
            match word_spec(s, p1) {
                None => None,
                Some(p2) => match space_spec(s, p2) {
                    None => None,
                    Some(p3) => match word_spec(s, p3) {
                        None => None,
                        Some(p4) => {
                            let p5 = run_end(s, CharClass::Whitespace, p4);
                            match literal_spec(s, p5, "|"@) {
                                None => None,
                                Some(p6) => Some(
                                    (
                                        ElementView::Distance(
                                            s.subrange(p1, p2),
                                            s.subrange(p3, p4),
                                        ),
                                        p6,
                                    ),
                                ),
                            }
                        },
                    },
                },
            }
        },
    }
}

/// The end of the sign of an angle at `pos`.
pub open spec fn angle_sign_spec(s: Seq<char>, pos: int) -> Option<int> {
    if literal_spec(s, pos, "∠"@) is Some {
        literal_spec(s, pos, "∠"@)
    } else {
        literal_spec(s, pos, "<"@)
    }
}

/// An angle at `pos`: the sign of an angle and three words, parted by
/// white space. Yields the three words and the end.
pub open spec fn angle_spec(s: Seq<char>, pos: int) -> Option<(ElementView, int)> {
    match angle_sign_spec(s, pos) {
        None => None,
        Some(p0) => {
            let p1 = run_end(s, CharClass::Whitespace, p0);
            match word_spec(s, p1) {
                None => None,
                Some(p2) => match space_spec(s, p2) {
                    None => None,
                    Some(p3) => match word_spec(s, p3) {
                        None => None,
                        Some(p4) => match space_spec(s, p4) {
                            None => None,
                            Some(p5) => match word_spec(s, p5) {
                                None => None,
                                Some(p6) => Some(
                                    (
                                        ElementView::Angle(
                                            s.subrange(p1, p2),
                                            s.subrange(p3, p4),
                                            s.subrange(p5, p6),
                                        ),
                                        p6,
                                    ),
                                ),
                            },
                        },
                    },
                },
            }
        },
    }
}

/// The element at `pos`: a distance, or else an angle.
pub open spec fn element_at(s: Seq<char>, pos: int) -> Option<(ElementView, int)> {
    if distance_spec(s, pos) is Some {
        distance_spec(s, pos)
    } else {
        angle_spec(s, pos)
    }
}

/// The element that a text holds and nothing else but white space around
/// it.
pub open spec fn parse_element_spec(s: Seq<char>) -> Option<ElementView> {
    match element_at(s, run_end(s, CharClass::Whitespace, 0)) {
        None => None,
        Some((element, end)) => if run_end(s, CharClass::Whitespace, end) == s.len() {
            Some(element)
        } else {
            None
        },
    }
}

/// Reads a distance at `pos`.
pub fn read_distance(input: &[char], pos: usize) -> (r: Option<(Element, usize)>)
    requires
        pos <= input@.len(),
    ensures
        match r {
            Some((element, end)) => distance_spec(input@, pos as int) == Some(
                (element@, end as int),
            ) && pos <= end <= input@.len(),
            None => distance_spec(input@, pos as int) is None,
        },
{
    let p0 = match literal(input, pos, "|") {
        Some(p) => p,
        None => {
            return None;
        },
    };
    let p1 = skip_space(input, p0);
    let p2 = match word(input, p1) {
        Some(p) => p,
        None => {
            return None;
        },
    };
    let p3 = match space(input, p2) {
        Some(p) => p,
        None => {
            return None;
        },
    };
    let p4 = match word(input, p3) {
        Some(p) => p,
        None => {
            return None;
        },
    };
    let p5 = skip_space(input, p4);
    let p6 = match literal(input, p5, "|") {
        Some(p) => p,
        None => {
            return None;
        },
    };
    Some((Element::Distance(text_of(input, p1, p2), text_of(input, p3, p4)), p6))
}

/// Reads an angle at `pos`.
pub fn read_angle(input: &[char], pos: usize) -> (r: Option<(Element, usize)>)
    requires
        pos <= input@.len(),
    ensures
        match r {
            Some((element, end)) => angle_spec(input@, pos as int) == Some((element@, end as int))
                && pos <= end <= input@.len(),
            None => angle_spec(input@, pos as int) is None,
        },
{
    let p0 = match literal(input, pos, "∠") {
        Some(p) => p,
        None => match literal(input, pos, "<") {
            Some(p) => p,
            None => {
                return None;
            },
        },
    };
    let p1 = skip_space(input, p0);
    let p2 = match word(input, p1) {
        Some(p) => p,
        None => {
            return None;
        },
    };
    let p3 = match space(input, p2) {
        Some(p) => p,
        None => {
            return None;
        },
    };
    let p4 = match word(input, p3) {
        Some(p) => p,
        None => {
            return None;
        },
    };
    let p5 = match space(input, p4) {
        Some(p) => p,
        None => {
            return None;
        },
    };
    let p6 = match word(input, p5) {
        Some(p) => p,
        None => {
            return None;
        },
    };
    Some(
        (
            Element::Angle(
                text_of(input, p1, p2),
                text_of(input, p3, p4),
                text_of(input, p5, p6),
            ),
            p6,
        ),
    )
}

/// The message for a text that holds no element.
pub open spec fn no_element() -> Seq<char> {
    "no element"@
}

/// Reads the element that `expr` holds: a distance or an angle, with
/// nothing but white space around it.
pub fn parse_element(expr: &str) -> (r: Result<Element, String>)
    ensures
        match r {
            Ok(element) => parse_element_spec(expr@) == Some(element@),
            Err(message) => parse_element_spec(expr@) is None && message@ == no_element(),
        },
{
    let chars = chars_of(expr);
    let input = chars.as_slice();
    let start = skip_space(input, 0);
    let found = match read_distance(input, start) {
        Some(found) => Some(found),
        None => read_angle(input, start),
    };
    match found {
        Some((element, end)) => {
            if skip_space(input, end) == input.len() {
                Ok(element)
            } else {
                Err("no element".to_owned())
            }
        },
        None => Err("no element".to_owned()),
    }
}

impl Element {
    /// The constraint that gives the element the measure `value`, on the
    /// points of the figure that have the element's names; names that are
    /// new to the figure become points of it.
    pub fn to_constraint(self, value: u64, index: &mut PointIndex) -> (r: Constraint)
        requires
            old(index)@.wf(),
        ensures
            final(index)@.wf(),
            final(index)@.constraints == old(index)@.constraints,
            final(index)@.paths == old(index)@.paths,
            r@.within(final(index)@.n()),
            match self@ {
                ElementView::Distance(a, b) => r@ matches ConstraintView::Distance {
                    points,
                    dist,
                } && dist == value && points.len() == 2 && final(index)@.names[points[0]] == a
                    && final(index)@.names[points[1]] == b,
                ElementView::Angle(a, b, c) => r@ matches ConstraintView::Angle {
                    points,
                    measure,
                } && measure == value && points.len() == 3 && final(index)@.names[points[0]] == a
                    && final(index)@.names[points[1]] == b && final(index)@.names[points[2]]
                    == c,
            },
    {
        broadcast use vstd::array::group_array_axioms;

        match self {
            Element::Distance(a, b) => {
                let p = index.get_or_insert(a.as_str());
                let q = index.get_or_insert(b.as_str());
                let d = Distance { points: [p, q], dist: value };
                assert(d.points@ =~= seq![p, q]);
                Constraint::Distance(d)
            },
            Element::Angle(a, b, c) => {
                let p = index.get_or_insert(a.as_str());
                let q = index.get_or_insert(b.as_str());
                let t = index.get_or_insert(c.as_str());
                let x = Angle { points: [p, q, t], measure: value };
                assert(x.points@ =~= seq![p, q, t]);
                Constraint::Angle(x)
            },
        }
    }
}

impl Distance {
    /// Reads a distance from the beginning of `input`, with a measure of
    /// zero that stands for the one to come. The names of its ends become
    /// points of the figure, unless the text is none.
    pub fn parse(input: &str, index: &mut PointIndex) -> (r: Option<Distance>)
        requires
            old(index)@.wf(),
        ensures
            final(index)@.wf(),
            match distance_spec(input@, 0) {
                Some((ElementView::Distance(a, b), _)) => r is Some && r.unwrap().dist == 0
                    && final(index)@ == old(index)@.with_point(a).with_point(b)
                    && final(index)@.named(r.unwrap().points@, seq![a, b]),
                _ => r is None && final(index)@ == old(index)@,
            },
    {
        broadcast use vstd::array::group_array_axioms;

        let chars = chars_of(input);
        match read_distance(chars.as_slice(), 0) {
            Some((Element::Distance(a, b), _)) => {
                let p = index.get_or_insert(a.as_str());
                let q = index.get_or_insert(b.as_str());
                let d = Distance { points: [p, q], dist: 0 };
                assert(d.points@ =~= seq![p, q]);
                Some(d)
            },
            _ => None,
        }
    }
}

impl Angle {
    /// Reads an angle from the beginning of `input`, with a measure of
    /// zero that stands for the one to come. The names of its points
    /// become points of the figure, unless the text is none.
    pub fn parse(input: &str, index: &mut PointIndex) -> (r: Option<Angle>)
        requires
            old(index)@.wf(),
        ensures
            final(index)@.wf(),
            match angle_spec(input@, 0) {
                Some((ElementView::Angle(a, b, c), _)) => r is Some && r.unwrap().measure == 0
                    && final(index)@ == old(index)@.with_point(a).with_point(b).with_point(c)
                    && final(index)@.named(r.unwrap().points@, seq![a, b, c]),
                _ => r is None && final(index)@ == old(index)@,
            },
    {
        broadcast use vstd::array::group_array_axioms;

        let chars = chars_of(input);
        match read_angle(chars.as_slice(), 0) {
            Some((Element::Angle(a, b, c), _)) => {
                let p = index.get_or_insert(a.as_str());
                let q = index.get_or_insert(b.as_str());
                let t = index.get_or_insert(c.as_str());
                let x = Angle { points: [p, q, t], measure: 0 };
                assert(x.points@ =~= seq![p, q, t]);
                Some(x)
            },
            _ => None,
        }
    }
}

} // verus!
