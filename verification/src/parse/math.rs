//! The operators of arithmetic expressions.

use vstd::prelude::*;

verus! {

/// An operator or a parenthesis.
#[derive(Debug, Clone, Copy, PartialEq, Eq, Hash, Structural)]
pub enum Op {
    Add,
    Sub,
    Mul,
    Div,
    Pow,
    LPn,
    RPn,
}

impl Op {
    /// How tightly the operator binds; a parenthesis does not bind.
    pub open spec fn precedence_spec(self) -> Option<u8> {
        match self {
            Op::Add | Op::Sub => Some(0u8),
            Op::Mul | Op::Div => Some(1u8),
            Op::Pow => Some(2u8),
            Op::LPn | Op::RPn => None,
        }
    }

    /// Whether `a` stands below `b`, where nothing stands below
    /// everything.
    pub open spec fn below(a: Option<u8>, b: Option<u8>) -> bool {
        match (a, b) {
            (None, Some(_)) => true,
            (Some(x), Some(y)) => x < y,
            _ => false,
        }
    }

    /// How tightly the operator binds; a parenthesis does not bind.
    pub fn precedence(&self) -> (r: Option<u8>)
        ensures
            r == self.precedence_spec(),
    {
        match self {
            Op::Add | Op::Sub => Some(0),
            Op::Mul | Op::Div => Some(1),
            Op::Pow => Some(2),
            Op::LPn | Op::RPn => None,
        }
    }

    /// Whether a chain of the operator groups from the right: only that of
    /// powers does.
    pub fn is_r_assoc(&self) -> (r: bool)
        ensures
            r == (*self == Op::Pow),
    {
        match self {
            Op::Pow => true,
            _ => false,
        }
    }

    /// Whether the operator binds less tightly than `other`.
    pub fn binds_less(&self, other: &Op) -> (r: bool)
        ensures
            r == Op::below(self.precedence_spec(), other.precedence_spec()),
    {
        match (self.precedence(), other.precedence()) {
            (None, Some(_)) => true,
            (Some(x), Some(y)) => x < y,
            _ => false,
        }
    }

    /// Whether, with `self` on top of the stack, the operator `next` has
    /// to wait until `self` was applied: `self` is no left parenthesis,
    /// and `next` binds less tightly, or is the same and groups from the
    /// left.
    pub fn yields_to(&self, next: &Op) -> (r: bool)
        ensures
            r == (*self != Op::LPn && (Op::below(next.precedence_spec(), self.precedence_spec())
                || (*next == *self && *next != Op::Pow))),
    {
        !matches!(self, Op::LPn) && (next.binds_less(self) || (*next == *self
            && !next.is_r_assoc()))
    }
}

/// The operator that the character stands for.
pub open spec fn op_of(c: char) -> Option<Op> {
    if c == '+' {
        Some(Op::Add)
    } else if c == '-' {
        Some(Op::Sub)
    } else if c == '*' || c == '×' {
        Some(Op::Mul)
    } else if c == '/' || c == '÷' {
        Some(Op::Div)
    } else if c == '^' {
        Some(Op::Pow)
    } else if c == '(' {
        Some(Op::LPn)
    } else if c == ')' {
        Some(Op::RPn)
    } else {
        None
    }
}

/// The operator at `pos`, with the place behind it.
pub open spec fn parse_op_spec(s: Seq<char>, pos: int) -> Option<(Op, int)> {
    if 0 <= pos < s.len() && op_of(s[pos]) is Some {
        Some((op_of(s[pos]).unwrap(), pos + 1))
    } else {
        None
    }
}

/// Reads the operator at `pos`.
pub fn parse_op(input: &[char], pos: usize) -> (r: Option<(Op, usize)>)
    requires
        pos <= input@.len(),
    ensures
        match r {
            Some((op, end)) => parse_op_spec(input@, pos as int) == Some((op, end as int)) && end
                == pos + 1 && end <= input@.len(),
            None => parse_op_spec(input@, pos as int) is None,
        },
{
    if pos >= input.len() {
        return None;
    }
    let c = input[pos];
    let op = if c == '+' {
        Op::Add
    } else if c == '-' {
        Op::Sub
    } else if c == '*' || c == '×' {
        Op::Mul
    } else if c == '/' || c == '÷' {
        Op::Div
    } else if c == '^' {
        Op::Pow
    } else if c == '(' {
        Op::LPn
    } else if c == ')' {
        Op::RPn
    } else {
        return None;
    };
    Some((op, pos + 1))
}

} // verus!
