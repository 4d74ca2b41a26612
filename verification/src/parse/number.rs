//! Reading a number as it is written: a named constant, or a decimal with
//! a sign as one likes. The value of the number is not worked out here.

use crate::parse::quantity::{ParseErr, ParseErrKind, ParseErrType};
use crate::parsing::{
    literal, literal_spec, run_end, skip_space, take_while, take_while_spec, text_of, CharClass,
};
use vstd::prelude::*;

verus! {

/// A number as it is written.
#[derive(Debug, Clone, PartialEq, Eq, Hash)]
pub enum Constant {
    /// The ratio of a circle's circumference to its diameter.
    Pi,
    /// The ratio of a circle's circumference to its radius.
    Tau,
    /// The base of the natural logarithm.
    E,
    /// A decimal: its sign, if it has one, its digits and its point.
    Decimal(String),
}

/// A number as it is written, as a mathematical value.
pub enum ConstantView {
    Pi,
    Tau,
    E,
    Decimal(Seq<char>),
}

impl View for Constant {
    type V = ConstantView;

    open spec fn view(&self) -> ConstantView {
        match self {
            Constant::Pi => ConstantView::Pi,
            Constant::Tau => ConstantView::Tau,
            Constant::E => ConstantView::E,
            Constant::Decimal(text) => ConstantView::Decimal(text@),
        }
    }
}

/// The end of the first of four patterns that stands at `pos`.
pub open spec fn one_of_four(
    s: Seq<char>,
    pos: int,
    a: Seq<char>,
    b: Seq<char>,
    c: Seq<char>,
    d: Seq<char>,
) -> Option<int> {
    if literal_spec(s, pos, a) is Some {
        literal_spec(s, pos, a)
    } else if literal_spec(s, pos, b) is Some {
        literal_spec(s, pos, b)
    } else if literal_spec(s, pos, c) is Some {
        literal_spec(s, pos, c)
    } else {
        literal_spec(s, pos, d)
    }
}

/// The predicate "is the character `c`".
pub open spec fn is_char(c: char) -> spec_fn(char) -> bool {
    |x: char| x == c
}

/// The predicate "is a digit".
pub open spec fn is_digit() -> spec_fn(char) -> bool {
    |x: char| '0' <= x && x <= '9'
}

/// Digits and points make a decimal if there is a digit among them and no
/// more than one point.
pub open spec fn decimal_ok(text: Seq<char>) -> bool {
    text.filter(is_digit()).len() >= 1 && text.filter(is_char('.')).len() <= 1
}

/// The end of the sign at `pos`, if one stands there, else `pos`.
pub open spec fn sign_end(s: Seq<char>, pos: int) -> int {
    if literal_spec(s, pos, "+"@) is Some {
        literal_spec(s, pos, "+"@).unwrap()
    } else if literal_spec(s, pos, "-"@) is Some {
        literal_spec(s, pos, "-"@).unwrap()
    } else {
        pos
    }
}

/// The number at `pos` and its end: a constant by one of its names, or
/// else a decimal. Where neither digit nor point follows the sign, nothing
/// is there; where they make no decimal, they are invalid.
pub open spec fn number_spec(s: Seq<char>, pos: int) -> Result<
    (ConstantView, int),
    (ParseErrKind, int),
> {
    if one_of_four(s, pos, "PI"@, "Pi"@, "pi"@, "π"@) is Some {
        Ok((ConstantView::Pi, one_of_four(s, pos, "PI"@, "Pi"@, "pi"@, "π"@).unwrap()))
    } else if one_of_four(s, pos, "TAU"@, "Tau"@, "tau"@, "τ"@) is Some {
        Ok((ConstantView::Tau, one_of_four(s, pos, "TAU"@, "Tau"@, "tau"@, "τ"@).unwrap()))
    } else if literal_spec(s, pos, "E"@) is Some {
        Ok((ConstantView::E, literal_spec(s, pos, "E"@).unwrap()))
    } else if literal_spec(s, pos, "e"@) is Some {
        Ok((ConstantView::E, literal_spec(s, pos, "e"@).unwrap()))
    } else {
        let from = sign_end(s, pos);
        match take_while_spec(s, from, CharClass::Numeric, 1, usize::MAX as int) {
            None => Err((ParseErrKind::Nothing, from)),
            Some(end) => if decimal_ok(s.subrange(from, end)) {
                Ok((ConstantView::Decimal(s.subrange(pos, end)), end))
            } else {
                Err((ParseErrKind::Invalid, end))
            },
        }
    }
}

/// Reads the first of four patterns that stands at `pos`.
fn read_one_of_four(input: &[char], pos: usize, a: &str, b: &str, c: &str, d: &str) -> (r: Option<
    usize,
>)
    requires
        pos <= input@.len(),
    ensures
        match r {
            Some(end) => one_of_four(input@, pos as int, a@, b@, c@, d@) == Some(end as int)
                && pos <= end <= input@.len(),
            None => one_of_four(input@, pos as int, a@, b@, c@, d@) is None,
        },
{
    if let Some(end) = literal(input, pos, a) {
        return Some(end);
    }
    if let Some(end) = literal(input, pos, b) {
        return Some(end);
    }
    if let Some(end) = literal(input, pos, c) {
        return Some(end);
    }
    literal(input, pos, d)
}

/// Whether the characters from `from` up to `to` make a decimal.
fn check_decimal(input: &[char], from: usize, to: usize) -> (r: bool)
    requires
        from <= to <= input@.len(),
    ensures
        r == decimal_ok(input@.subrange(from as int, to as int)),
{
    let ghost text = input@.subrange(from as int, to as int);
    let mut digits: usize = 0;
    let mut points: usize = 0;
    let mut i: usize = from;
    proof {
        assert(text.take(0) =~= Seq::<char>::empty());
        reveal(Seq::filter);
    }
    while i < to
        invariant
            from <= i <= to,
            to <= input@.len(),
            text == input@.subrange(from as int, to as int),
            digits <= i - from,
            points <= i - from,
            digits == text.take(i - from).filter(is_digit()).len(),
            points == text.take(i - from).filter(is_char('.')).len(),
        decreases to - i,
    {
        let c = input[i];
        proof {
            text.lemma_take_succ_push(i - from);
            text.take(i - from).lemma_filter_push(c, is_digit());
            text.take(i - from).lemma_filter_push(c, is_char('.'));
        }
        if '0' <= c && c <= '9' {
            digits += 1;
        }
        if c == '.' {
            points += 1;
        }
        i += 1;
    }
    assert(text.take(text.len() as int) =~= text);
    digits >= 1 && points <= 1
}

/// Reads the number at `pos`.
pub fn parse_number(input: &[char], pos: usize) -> (r: Result<(Constant, usize), ParseErr>)
    requires
        pos <= input@.len(),
    ensures
        match r {
            Ok((number, end)) => number_spec(input@, pos as int) == Ok::<
                (ConstantView, int),
                (ParseErrKind, int),
            >((number@, end as int)) && pos < end <= input@.len(),
            Err(e) => number_spec(input@, pos as int) == Err::<
                (ConstantView, int),
                (ParseErrKind, int),
            >((e.0@, e.1 as int)) && pos <= e.1 <= input@.len(),
        },
{
    proof {
        reveal_strlit("PI");
        reveal_strlit("Pi");
        reveal_strlit("pi");
        reveal_strlit("π");
        reveal_strlit("TAU");
        reveal_strlit("Tau");
        reveal_strlit("tau");
        reveal_strlit("τ");
        reveal_strlit("E");
        reveal_strlit("e");
    }
    if let Some(end) = read_one_of_four(input, pos, "PI", "Pi", "pi", "π") {
        return Ok((Constant::Pi, end));
    }
    if let Some(end) = read_one_of_four(input, pos, "TAU", "Tau", "tau", "τ") {
        return Ok((Constant::Tau, end));
    }
    if let Some(end) = literal(input, pos, "E") {
        return Ok((Constant::E, end));
    }
    if let Some(end) = literal(input, pos, "e") {
        return Ok((Constant::E, end));
    }
    let from = match literal(input, pos, "+") {
        Some(end) => end,
        None => match literal(input, pos, "-") {
            Some(end) => end,
            None => pos,
        },
    };
    match take_while(input, from, CharClass::Numeric, 1, usize::MAX) {
        None => Err(ParseErr(ParseErrType::Nothing, from)),
        Some(end) => {
            if check_decimal(input, from, end) {
                Ok((Constant::Decimal(text_of(input, pos, end)), end))
            } else {
                Err(ParseErr(ParseErrType::Invalid, end))
            }
        },
    }
}

/// The number of a vector at `pos`: where nothing is there, a number is
/// missing, and whatever else is wrong with it makes it invalid.
pub open spec fn coordinate_spec(s: Seq<char>, pos: int) -> Result<
    (ConstantView, int),
    (ParseErrKind, int),
> {
    match number_spec(s, pos) {
        Ok(read) => Ok(read),
        Err((ParseErrKind::Nothing, at)) => Err((ParseErrKind::No("number"@), at)),
        Err((_, at)) => Err((ParseErrKind::Invalid, at)),
    }
}

/// The vector at `pos`: two numbers in parentheses, parted by a comma,
/// with white space as one likes around each. Yields the two numbers.
pub open spec fn vector_spec(s: Seq<char>, pos: int) -> Result<
    (ConstantView, ConstantView),
    (ParseErrKind, int),
> {
    match literal_spec(s, pos, "("@) {
        None => Err((ParseErrKind::Nothing, pos)),
        Some(p0) => match coordinate_spec(s, run_end(s, CharClass::Whitespace, p0)) {
            Err(e) => Err(e),
            Ok((x, p1)) => {
                let p2 = run_end(s, CharClass::Whitespace, p1);
                match literal_spec(s, p2, ","@) {
                    None => Err((ParseErrKind::No(","@), p2)),
                    Some(p3) => match coordinate_spec(s, run_end(s, CharClass::Whitespace, p3)) {
                        Err(e) => Err(e),
                        Ok((y, p4)) => {
                            let p5 = run_end(s, CharClass::Whitespace, p4);
                            match literal_spec(s, p5, ")"@) {
                                None => Err((ParseErrKind::No(")"@), p5)),
                                Some(_) => Ok((x, y)),
                            }
                        },
                    },
                }
            },
        },
    }
}

/// Reads a number of a vector at `pos`.
fn read_coordinate(input: &[char], pos: usize) -> (r: Result<(Constant, usize), ParseErr>)
    requires
        pos <= input@.len(),
    ensures
        match r {
            Ok((number, end)) => coordinate_spec(input@, pos as int) == Ok::<
                (ConstantView, int),
                (ParseErrKind, int),
            >((number@, end as int)) && pos < end <= input@.len(),
            Err(e) => coordinate_spec(input@, pos as int) == Err::<
                (ConstantView, int),
                (ParseErrKind, int),
            >((e.0@, e.1 as int)) && e.1 <= input@.len(),
        },
{
    match parse_number(input, pos) {
        Ok(read) => Ok(read),
        Err(e) => match e.0 {
            ParseErrType::Nothing => Err(ParseErr(ParseErrType::No("number"), e.1)),
            _ => Err(ParseErr(ParseErrType::Invalid, e.1)),
        },
    }
}

/// Reads the vector at the beginning of `input`: its two numbers as they
/// are written.
pub fn parse_vector(input: &[char]) -> (r: Result<(Constant, Constant), ParseErr>)
    ensures
        match r {
            Ok((x, y)) => vector_spec(input@, 0) == Ok::<
                (ConstantView, ConstantView),
                (ParseErrKind, int),
            >((x@, y@)),
            Err(e) => vector_spec(input@, 0) == Err::<
                (ConstantView, ConstantView),
                (ParseErrKind, int),
            >((e.0@, e.1 as int)),
        },
{
    parse_vector_at(input, 0)
}

/// Reads the vector at `pos`.
pub fn parse_vector_at(input: &[char], pos: usize) -> (r: Result<(Constant, Constant), ParseErr>)
    requires
        pos <= input@.len(),
    ensures
        match r {
            Ok((x, y)) => vector_spec(input@, pos as int) == Ok::<
                (ConstantView, ConstantView),
                (ParseErrKind, int),
            >((x@, y@)),
            Err(e) => vector_spec(input@, pos as int) == Err::<
                (ConstantView, ConstantView),
                (ParseErrKind, int),
            >((e.0@, e.1 as int)) && e.1 <= input@.len(),
        },
{
    let p0 = match literal(input, pos, "(") {
        Some(p) => p,
        None => {
            return Err(ParseErr(ParseErrType::Nothing, pos));
        },
    };
    let (x, p1) = match read_coordinate(input, skip_space(input, p0)) {
        Ok(read) => read,
        Err(e) => {
            return Err(e);
        },
    };
    let p2 = skip_space(input, p1);
    let p3 = match literal(input, p2, ",") {
        Some(p) => p,
        None => {
            return Err(ParseErr(ParseErrType::No(","), p2));
        },
    };
    let (y, p4) = match read_coordinate(input, skip_space(input, p3)) {
        Ok(read) => read,
        Err(e) => {
            return Err(e);
        },
    };
    let p5 = skip_space(input, p4);
    match literal(input, p5, ")") {
        Some(_) => Ok((x, y)),
        None => Err(ParseErr(ParseErrType::No(")"), p5)),
    }
}

} // verus!
