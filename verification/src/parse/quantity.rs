//! Reading the quantities of two points: the distance `|A B|` and the
//! orientation `<A B>`, with the place of what is wrong where the text is
//! neither.

use crate::parsing::{
    literal, literal_spec, run_end, skip_space, space, space_spec, text_of, word, word_spec,
    CharClass,
};
use vstd::prelude::*;
use vstd::string::StringExecFns;

verus! {

/// What is wrong with a text.
#[derive(Debug, Clone, Copy, PartialEq, Eq)]
pub enum ParseErrType {
    /// Nothing of the kind begins here.
    Nothing,
    /// Something else stands here.
    Wrong,
    /// The named part is missing.
    No(&'static str),
    /// The text cannot be read.
    Invalid,
    /// Something follows that does not belong.
    Extra,
}

/// What is wrong with a text, as a mathematical value.
pub enum ParseErrKind {
    Nothing,
    Wrong,
    No(Seq<char>),
    Invalid,
    Extra,
}

impl View for ParseErrType {
    type V = ParseErrKind;

    open spec fn view(&self) -> ParseErrKind {
        match self {
            ParseErrType::Nothing => ParseErrKind::Nothing,
            ParseErrType::Wrong => ParseErrKind::Wrong,
            ParseErrType::No(what) => ParseErrKind::No(what@),
            ParseErrType::Invalid => ParseErrKind::Invalid,
            ParseErrType::Extra => ParseErrKind::Extra,
        }
    }
}

impl ParseErrKind {
    /// What is wrong, in words.
    pub open spec fn message(self) -> Seq<char> {
        match self {
            ParseErrKind::Nothing => "Nothing"@,
            ParseErrKind::Wrong => "Wrong"@,
            ParseErrKind::No(what) => "No "@ + what,
            ParseErrKind::Invalid => "Invalid"@,
            ParseErrKind::Extra => "Extra"@,
        }
    }
}

impl ParseErrType {
    /// What is wrong, in words.
    pub fn message(&self) -> (r: String)
        ensures
            r@ == self@.message(),
    {
        match self {
            ParseErrType::Nothing => "Nothing".to_owned(),
            ParseErrType::Wrong => "Wrong".to_owned(),
            ParseErrType::No(what) => "No ".to_owned().concat(what),
            ParseErrType::Invalid => "Invalid".to_owned(),
            ParseErrType::Extra => "Extra".to_owned(),
        }
    }
}

impl Default for ParseErrType {
    fn default() -> (r: ParseErrType)
        ensures
            r@ == ParseErrKind::Nothing,
    {
        ParseErrType::Nothing
    }
}

/// What is wrong, and the place in the text, counted in characters, at
/// which it shows.
#[derive(Debug, Clone, Copy, PartialEq, Eq)]
pub struct ParseErr(pub ParseErrType, pub usize);

/// Turns a missing result into an error of the kind `t` at `pos`.
pub fn wrap(res: Option<usize>, t: ParseErrType, pos: usize) -> (r: Result<usize, ParseErr>)
    ensures
        match res {
            Some(end) => r == Ok::<usize, ParseErr>(end),
            None => r is Err && r->Err_0.0@ == t@ && r->Err_0.1 == pos,
        },
{
    match res {
        Some(end) => Ok(end),
        None => Err(ParseErr(t, pos)),
    }
}

/// The kinds of quantities.
#[derive(Debug, Clone, Copy, PartialEq, Eq, Hash, Structural)]
pub enum QuantityType {
    /// The distance between two points.
    Distance,
    /// The direction from one point to another.
    Orientation,
}

/// The quantity at `pos` between the signs `open` and `close`: its two
/// words and its end, or what is missing and where.
pub open spec fn quantity_spec(s: Seq<char>, pos: int, open: Seq<char>, close: Seq<char>) -> Result<
    (Seq<Seq<char>>, int),
    (ParseErrKind, int),
> {
    match literal_spec(s, pos, open) {
        None => Err((ParseErrKind::Nothing, pos)),
        Some(p0) => {
            let p1 = run_end(s, CharClass::Whitespace, p0);
            match word_spec(s, p1) {
                None => Err((ParseErrKind::No("point"@), p1)),
                Some(p2) => match space_spec(s, p2) {
                    None => Err((ParseErrKind::No("space"@), p2)),
                    Some(p3) => match word_spec(s, p3) {
                        None => Err((ParseErrKind::No("point"@), p3)),
                        Some(p4) => {
                            let p5 = run_end(s, CharClass::Whitespace, p4);
                            match literal_spec(s, p5, close) {
                                None => Err((ParseErrKind::No(close), p5)),
                                Some(p6) => Ok(
                                    (seq![s.subrange(p1, p2), s.subrange(p3, p4)], p6),
                                ),
                            }
                        },
                    },
                },
            }
        },
    }
}

impl QuantityType {
    /// The sign that opens a quantity of the kind.
    pub open spec fn opening(self) -> Seq<char> {
        match self {
            QuantityType::Distance => "|"@,
            QuantityType::Orientation => "<"@,
        }
    }

    /// The sign that closes a quantity of the kind.
    pub open spec fn closing(self) -> Seq<char> {
        match self {
            QuantityType::Distance => "|"@,
            QuantityType::Orientation => ">"@,
        }
    }

    /// Reads a quantity of the kind at `pos`.
    pub fn parser(&self, input: &[char], pos: usize) -> (r: Result<(Vec<String>, usize), ParseErr>)
        requires
            pos <= input@.len(),
        ensures
            read_as(r, quantity_spec(input@, pos as int, self.opening(), self.closing())),
            r is Ok ==> pos <= r->Ok_0.1 <= input@.len(),
    {
        match self {
            QuantityType::Distance => parse_distance(input, pos),
            QuantityType::Orientation => parse_orientation(input, pos),
        }
    }
}

/// The result `r` of reading is what `expected` says.
pub open spec fn read_as(
    r: Result<(Vec<String>, usize), ParseErr>,
    expected: Result<(Seq<Seq<char>>, int), (ParseErrKind, int)>,
) -> bool {
    match r {
        Ok((names, end)) => expected == Ok::<(Seq<Seq<char>>, int), (ParseErrKind, int)>(
            (Seq::new(names@.len(), |i: int| names@[i]@), end as int),
        ),
        Err(e) => expected == Err::<(Seq<Seq<char>>, int), (ParseErrKind, int)>(
            (e.0@, e.1 as int),
        ),
    }
}

/// Reads a quantity between the signs `open` and `close`, of which the
/// second is named `what` where it is missing.
fn parse_quantity(
    input: &[char],
    pos: usize,
    open: &'static str,
    close: &'static str,
) -> (r: Result<(Vec<String>, usize), ParseErr>)
    requires
        pos <= input@.len(),
    ensures
        read_as(r, quantity_spec(input@, pos as int, open@, close@)),
        r is Ok ==> pos <= r->Ok_0.1 <= input@.len(),
{
    let p0 = match wrap(literal(input, pos, open), ParseErrType::Nothing, pos) {
        Ok(p) => p,
        Err(e) => {
            return Err(e);
        },
    };
    let p1 = skip_space(input, p0);
    let p2 = match wrap(word(input, p1), ParseErrType::No("point"), p1) {
        Ok(p) => p,
        Err(e) => {
            return Err(e);
        },
    };
    let p3 = match wrap(space(input, p2), ParseErrType::No("space"), p2) {
        Ok(p) => p,
        Err(e) => {
            return Err(e);
        },
    };
    let p4 = match wrap(word(input, p3), ParseErrType::No("point"), p3) {
        Ok(p) => p,
        Err(e) => {
            return Err(e);
        },
    };
    let p5 = skip_space(input, p4);
    let p6 = match wrap(literal(input, p5, close), ParseErrType::No(close), p5) {
        Ok(p) => p,
        Err(e) => {
            return Err(e);
        },
    };
    let names = vec![text_of(input, p1, p2), text_of(input, p3, p4)];
    assert(Seq::new(names@.len(), |i: int| names@[i]@) =~= seq![
        input@.subrange(p1 as int, p2 as int),
        input@.subrange(p3 as int, p4 as int),
    ]);
    Ok((names, p6))
}

/// Reads a distance, `|A B|`, at `pos`.
pub fn parse_distance(input: &[char], pos: usize) -> (r: Result<(Vec<String>, usize), ParseErr>)
    requires
        pos <= input@.len(),
    ensures
        read_as(r, quantity_spec(input@, pos as int, "|"@, "|"@)),
        r is Ok ==> pos <= r->Ok_0.1 <= input@.len(),
{
    parse_quantity(input, pos, "|", "|")
}

/// Reads an orientation, `<A B>`, at `pos`.
pub fn parse_orientation(input: &[char], pos: usize) -> (r: Result<(Vec<String>, usize), ParseErr>)
    requires
        pos <= input@.len(),
    ensures
        read_as(r, quantity_spec(input@, pos as int, "<"@, ">"@)),
        r is Ok ==> pos <= r->Ok_0.1 <= input@.len(),
{
    parse_quantity(input, pos, "<", ">")
}

} // verus!
