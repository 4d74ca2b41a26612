//! Reading an arithmetic expression over numbers and quantities into
//! postfix form: operands come in the order in which they are written,
//! and each operator comes behind its operands.

use crate::parse::math::{parse_op, parse_op_spec, Op};
use crate::parse::number::{number_spec, parse_number, Constant, ConstantView};
use crate::parse::path::names_view;
use crate::parse::quantity::{
    parse_distance, parse_orientation, quantity_spec, ParseErr, ParseErrKind, ParseErrType,
    QuantityType,
};
use crate::parsing::{chars_of, lemma_run_end, run_end, skip_space, CharClass};
use vstd::prelude::*;

verus! {

/// What an operator works on.
#[derive(Debug, Clone, PartialEq, Eq, Hash)]
pub enum Operand {
    /// A number.
    Constant(Constant),
    /// A quantity of the named points.
    Quantity(QuantityType, Vec<String>),
}

/// An entry of an expression in postfix form.
#[derive(Debug, Clone, PartialEq, Eq, Hash)]
pub enum Math {
    Operand(Operand),
    Operator(Op),
}

/// An expression in postfix form, with the names of the points of its
/// quantities in the order in which they are written.
#[derive(Debug, Clone, PartialEq, Eq, Hash)]
pub struct MathExpr {
    pub expr: Vec<Math>,
    pub points: Vec<String>,
}

/// An operand as a mathematical value.
pub enum OperandView {
    Constant(ConstantView),
    Quantity(QuantityType, Seq<Seq<char>>),
}

/// An entry of a postfix expression as a mathematical value.
pub enum MathView {
    Operand(OperandView),
    Operator(Op),
}

impl View for Operand {
    type V = OperandView;

    open spec fn view(&self) -> OperandView {
        match self {
            Operand::Constant(c) => OperandView::Constant(c@),
            Operand::Quantity(t, names) => OperandView::Quantity(*t, names_view(names@)),
        }
    }
}

impl View for Math {
    type V = MathView;

    open spec fn view(&self) -> MathView {
        match self {
            Math::Operand(o) => MathView::Operand(o@),
            Math::Operator(op) => MathView::Operator(*op),
        }
    }
}

/// The entries of a vector of entries.
pub open spec fn math_view(expr: Seq<Math>) -> Seq<MathView> {
    Seq::new(expr.len(), |i: int| expr[i]@)
}

/// What reading can end in: a value and the place behind it, or what is
/// wrong and where.
pub type Read<T> = Result<(T, int), (ParseErrKind, int)>;

/// The left parentheses at `pos`, with white space behind each, put on the
/// stack; any other operator there is invalid.
pub open spec fn opening(s: Seq<char>, pos: int, stack: Seq<Op>) -> Read<Seq<Op>>
    decreases s.len() - pos,
{
    match parse_op_spec(s, pos) {
        None => Ok((stack, pos)),
        Some((op, after)) => if op != Op::LPn {
            Err((ParseErrKind::Invalid, after))
        } else {
            proof {
                lemma_run_end(s, CharClass::Whitespace, after);
            }
            opening(s, run_end(s, CharClass::Whitespace, after), stack.push(op))
        },
    }
}

/// The operand at `pos`: a distance, or else, from where the distance
/// ended, an orientation, or else, from where that ended, a number.
pub open spec fn operand_spec(s: Seq<char>, pos: int) -> Read<OperandView> {
    match quantity_spec(s, pos, "|"@, "|"@) {
        Ok((names, end)) => Ok((OperandView::Quantity(QuantityType::Distance, names), end)),
        Err((_, p1)) => match quantity_spec(s, p1, "<"@, ">"@) {
            Ok((names, end)) => Ok((OperandView::Quantity(QuantityType::Orientation, names), end)),
            Err((_, p2)) => match number_spec(s, p2) {
                Ok((number, end)) => Ok((OperandView::Constant(number), end)),
                Err(e) => Err(e),
            },
        },
    }
}

/// The stack and the output after the operators above the topmost left
/// parenthesis went to the output and the parenthesis left the stack;
/// nothing if the stack holds no left parenthesis.
pub open spec fn unwind(stack: Seq<Op>, output: Seq<MathView>) -> Option<(Seq<Op>, Seq<MathView>)>
    decreases stack.len(),
{
    if stack.len() == 0 {
        None
    } else if stack.last() == Op::LPn {
        Some((stack.drop_last(), output))
    } else {
        unwind(stack.drop_last(), output.push(MathView::Operator(stack.last())))
    }
}

/// How an operand is followed.
pub enum Follow {
    /// By the end of the text.
    End(Seq<Op>, Seq<MathView>),
    /// By an operator, behind which the text goes on at the given place.
    Operator(Op, int, Seq<Op>, Seq<MathView>),
}

/// What follows an operand at `pos`: right parentheses, each of which
/// unwinds the stack, and then an operator or the end of the text. A right
/// parenthesis without a left one, and anything else, is an error.
pub open spec fn closing(s: Seq<char>, pos: int, stack: Seq<Op>, output: Seq<MathView>) -> Result<
    Follow,
    (ParseErrKind, int),
>
    decreases s.len() - pos,
{
    match parse_op_spec(s, pos) {
        None => if pos != s.len() {
            Err((ParseErrKind::Extra, pos))
        } else {
            Ok(Follow::End(stack, output))
        },
        Some((op, after)) => if op == Op::RPn {
            match unwind(stack, output) {
                None => Err((ParseErrKind::No("("@), after)),
                Some((rest, out)) => closing(s, after, rest, out),
            }
        } else {
            Ok(Follow::Operator(op, after, stack, output))
        },
    }
}

/// Whether the operator `top` on the stack is applied before `next` is
/// put on it.
pub open spec fn yields(top: Op, next: Op) -> bool {
    top != Op::LPn && (Op::below(next.precedence_spec(), top.precedence_spec()) || (next == top
        && next != Op::Pow))
}

/// The stack and the output after the operators on top of the stack that
/// yield to `next` went to the output.
pub open spec fn settle(stack: Seq<Op>, output: Seq<MathView>, next: Op) -> (
    Seq<Op>,
    Seq<MathView>,
)
    decreases stack.len(),
{
    if stack.len() > 0 && yields(stack.last(), next) {
        settle(stack.drop_last(), output.push(MathView::Operator(stack.last())), next)
    } else {
        (stack, output)
    }
}

/// The output with the operators of the stack behind it, the top first.
pub open spec fn flush(stack: Seq<Op>, output: Seq<MathView>) -> Seq<MathView>
    decreases stack.len(),
{
    if stack.len() == 0 {
        output
    } else {
        flush(stack.drop_last(), output.push(MathView::Operator(stack.last())))
    }
}

/// An operand ends behind the place at which it begins, within the text.
pub proof fn lemma_operand_advances(s: Seq<char>, pos: int)
    requires
        0 <= pos <= s.len(),
        operand_spec(s, pos) is Ok,
    ensures
        pos < operand_spec(s, pos)->Ok_0.1 <= s.len(),
{
    reveal_strlit("|");
    reveal_strlit("<");
    reveal_strlit(">");
    reveal_strlit("PI");
    reveal_strlit("Pi");
    reveal_strlit("pi");
    reveal_strlit("π");
    reveal_strlit("TAU");
    reveal_strlit("Tau");
    reveal_strlit("tau");
    reveal_strlit("τ");
    reveal_strlit("E");
    reveal_strlit("e");
    reveal_strlit("+");
    reveal_strlit("-");
    lemma_quantity_places(s, pos, "|"@, "|"@);
    match quantity_spec(s, pos, "|"@, "|"@) {
        Ok(_) => {},
        Err((_, p1)) => {
            lemma_quantity_places(s, p1, "<"@, ">"@);
            match quantity_spec(s, p1, "<"@, ">"@) {
                Ok(_) => {},
                Err((_, p2)) => {
                    lemma_run_end(s, CharClass::Numeric, p2);
                    lemma_run_end(s, CharClass::Numeric, p2 + 1);
                },
            }
        },
    }
}

/// A quantity ends, and fails, at a place within the text that is not
/// before its beginning, and it ends behind its opening sign.
pub proof fn lemma_quantity_places(s: Seq<char>, pos: int, open: Seq<char>, close: Seq<char>)
    requires
        0 <= pos <= s.len(),
    ensures
        match quantity_spec(s, pos, open, close) {
            Ok((_, end)) => pos + open.len() <= end <= s.len(),
            Err((_, at)) => pos <= at <= s.len(),
        },
{
    match crate::parsing::literal_spec(s, pos, open) {
        None => {},
        Some(p0) => {
            lemma_run_end(s, CharClass::Whitespace, p0);
            let p1 = run_end(s, CharClass::Whitespace, p0);
            lemma_run_end(s, CharClass::Alphabetic, p1);
            match crate::parsing::word_spec(s, p1) {
                None => {},
                Some(p2) => {
                    lemma_run_end(s, CharClass::Whitespace, p2);
                    match crate::parsing::space_spec(s, p2) {
                        None => {},
                        Some(p3) => {
                            lemma_run_end(s, CharClass::Alphabetic, p3);
                            match crate::parsing::word_spec(s, p3) {
                                None => {},
                                Some(p4) => {
                                    lemma_run_end(s, CharClass::Whitespace, p4);
                                },
                            }
                        },
                    }
                },
            }
        },
    }
}

/// The left parentheses end at a place within the text that is not before
/// their beginning.
pub proof fn lemma_opening_places(s: Seq<char>, pos: int, stack: Seq<Op>)
    requires
        0 <= pos <= s.len(),
    ensures
        match opening(s, pos, stack) {
            Ok((_, end)) => pos <= end <= s.len(),
            Err((_, at)) => pos <= at <= s.len(),
        },
    decreases s.len() - pos,
{
    match parse_op_spec(s, pos) {
        None => {},
        Some((op, after)) => {
            if op == Op::LPn {
                lemma_run_end(s, CharClass::Whitespace, after);
                lemma_opening_places(s, run_end(s, CharClass::Whitespace, after), stack.push(op));
            }
        },
    }
}

/// What follows an operand is read at places within the text that are not
/// before its beginning.
pub proof fn lemma_closing_places(s: Seq<char>, pos: int, stack: Seq<Op>, output: Seq<MathView>)
    requires
        0 <= pos <= s.len(),
    ensures
        match closing(s, pos, stack, output) {
            Ok(Follow::Operator(_, after, _, _)) => pos < after <= s.len(),
            Ok(Follow::End(_, _)) => true,
            Err((_, at)) => pos <= at <= s.len(),
        },
    decreases s.len() - pos,
{
    match parse_op_spec(s, pos) {
        None => {},
        Some((op, after)) => {
            if op == Op::RPn {
                match unwind(stack, output) {
                    None => {},
                    Some((rest, out)) => {
                        lemma_closing_places(s, after, rest, out);
                    },
                }
            }
        },
    }
}

/// The postfix form of the expression from `pos` on, behind the output
/// `output` and with the operators `stack` waiting.
pub open spec fn math_from(s: Seq<char>, pos: int, stack: Seq<Op>, output: Seq<MathView>) -> Result<
    Seq<MathView>,
    (ParseErrKind, int),
>
    decreases s.len() - pos,
{
    if pos < 0 || pos > s.len() {
        Err((ParseErrKind::Invalid, pos))
    } else {
        match opening(s, pos, stack) {
            Err(e) => Err(e),
            Ok((opened, p1)) => match operand_spec(s, p1) {
                Err(e) => Err(e),
                Ok((operand, p2)) => {
                    let p3 = run_end(s, CharClass::Whitespace, p2);
                    match closing(s, p3, opened, output.push(MathView::Operand(operand))) {
                        Err(e) => Err(e),
                        Ok(Follow::End(rest, out)) => Ok(flush(rest, out)),
                        Ok(Follow::Operator(op, p4, rest, out)) => {
                            let p5 = run_end(s, CharClass::Whitespace, p4);
                            if op == Op::LPn || op == Op::RPn {
                                Err((ParseErrKind::Invalid, p5))
                            } else {
                                proof {
                                    lemma_opening_places(s, pos, stack);
                                    lemma_operand_advances(s, p1);
                                    lemma_run_end(s, CharClass::Whitespace, p2);
                                    lemma_closing_places(
                                        s,
                                        p3,
                                        opened,
                                        output.push(MathView::Operand(operand)),
                                    );
                                    lemma_run_end(s, CharClass::Whitespace, p4);
                                }
                                math_from(
                                    s,
                                    p5,
                                    settle(rest, out, op).0.push(op),
                                    settle(rest, out, op).1,
                                )
                            }
                        },
                    }
                },
            },
        }
    }
}

/// The postfix form of the expression that the text holds.
pub open spec fn parse_math_spec(s: Seq<char>) -> Result<Seq<MathView>, (ParseErrKind, int)> {
    math_from(s, 0, Seq::empty(), Seq::empty())
}

/// The names of the points of the quantities among the entries, in order.
pub open spec fn quantity_points(expr: Seq<MathView>) -> Seq<Seq<char>>
    decreases expr.len(),
{
    if expr.len() == 0 {
        Seq::empty()
    } else {
        match expr.last() {
            MathView::Operand(OperandView::Quantity(_, names)) => quantity_points(
                expr.drop_last(),
            ) + names,
            _ => quantity_points(expr.drop_last()),
        }
    }
}

/// Reads the operand at `pos`.
pub fn read_operand(input: &[char], pos: usize) -> (r: Result<(Operand, usize), ParseErr>)
    requires
        pos <= input@.len(),
    ensures
        match r {
            Ok((operand, end)) => operand_spec(input@, pos as int) == Ok::<
                (OperandView, int),
                (ParseErrKind, int),
            >((operand@, end as int)) && pos < end <= input@.len(),
            Err(e) => operand_spec(input@, pos as int) == Err::<
                (OperandView, int),
                (ParseErrKind, int),
            >((e.0@, e.1 as int)) && pos <= e.1 <= input@.len(),
        },
{
    proof {
        lemma_quantity_places(input@, pos as int, "|"@, "|"@);
    }
    let p1 = match parse_distance(input, pos) {
        Ok((names, end)) => {
            proof {
                lemma_operand_advances(input@, pos as int);
            }
            return Ok((Operand::Quantity(QuantityType::Distance, names), end));
        },
        Err(e) => e.1,
    };
    proof {
        lemma_quantity_places(input@, p1 as int, "<"@, ">"@);
    }
    let p2 = match parse_orientation(input, p1) {
        Ok((names, end)) => {
            proof {
                lemma_operand_advances(input@, pos as int);
            }
            return Ok((Operand::Quantity(QuantityType::Orientation, names), end));
        },
        Err(e) => e.1,
    };
    match parse_number(input, p2) {
        Ok((number, end)) => Ok((Operand::Constant(number), end)),
        Err(e) => Err(e),
    }
}

/// Reads an expression into postfix form.
pub fn parse_math(expr: &str) -> (r: Result<MathExpr, ParseErr>)
    ensures
        match r {
            Ok(m) => parse_math_spec(expr@) == Ok::<Seq<MathView>, (ParseErrKind, int)>(
                math_view(m.expr@),
            ) && names_view(m.points@) == quantity_points(math_view(m.expr@)),
            Err(e) => parse_math_spec(expr@) == Err::<Seq<MathView>, (ParseErrKind, int)>(
                (e.0@, e.1 as int),
            ),
        },
{
    let chars = chars_of(expr);
    parse_math_chars(chars.as_slice())
}

/// Puts the left parentheses at `pos` on the stack.
fn read_opening(input: &[char], pos: usize, stack: &mut Vec<Op>) -> (r: Result<usize, ParseErr>)
    requires
        pos <= input@.len(),
    ensures
        match r {
            Ok(end) => opening(input@, pos as int, old(stack)@) == Ok::<
                (Seq<Op>, int),
                (ParseErrKind, int),
            >((final(stack)@, end as int)) && pos <= end <= input@.len(),
            Err(e) => opening(input@, pos as int, old(stack)@) == Err::<
                (Seq<Op>, int),
                (ParseErrKind, int),
            >((e.0@, e.1 as int)) && e.1 <= input@.len(),
        },
{
    let ghost s = input@;
    let mut at: usize = pos;
    loop
        invariant
            s == input@,
            pos <= at <= s.len(),
            opening(s, pos as int, old(stack)@) == opening(s, at as int, stack@),
        decreases s.len() - at,
    {
        match parse_op(input, at) {
            None => {
                return Ok(at);
            },
            Some((op, after)) => {
                if !matches!(op, Op::LPn) {
                    return Err(ParseErr(ParseErrType::Invalid, after));
                }
                stack.push(op);
                at = skip_space(input, after);
            },
        }
    }
}

/// Moves the operators above the topmost left parenthesis to the output
/// and takes the parenthesis off the stack. Returns whether there was one.
fn unwind_stack(stack: &mut Vec<Op>, output: &mut Vec<Math>) -> (r: bool)
    ensures
        match unwind(old(stack)@, math_view(old(output)@)) {
            Some((rest, out)) => r && final(stack)@ == rest && math_view(final(output)@) == out,
            None => !r,
        },
{
    loop
        invariant
            unwind(old(stack)@, math_view(old(output)@)) == unwind(stack@, math_view(output@)),
        decreases stack@.len(),
    {
        match stack.pop() {
            None => {
                return false;
            },
            Some(top) => {
                if matches!(top, Op::LPn) {
                    return true;
                }
                let ghost held = math_view(output@);
                output.push(Math::Operator(top));
                assert(math_view(output@) =~= held.push(MathView::Operator(top)));
            },
        }
    }
}

/// Reads what follows an operand at `pos`: the operator with the place
/// behind it, or nothing at the end of the text.
fn read_closing(input: &[char], pos: usize, stack: &mut Vec<Op>, output: &mut Vec<Math>) -> (r:
    Result<Option<(Op, usize)>, ParseErr>)
    requires
        pos <= input@.len(),
    ensures
        match r {
            Ok(None) => closing(input@, pos as int, old(stack)@, math_view(old(output)@)) == Ok::<
                Follow,
                (ParseErrKind, int),
            >(Follow::End(final(stack)@, math_view(final(output)@))),
            Ok(Some((op, after))) => closing(
                input@,
                pos as int,
                old(stack)@,
                math_view(old(output)@),
            ) == Ok::<Follow, (ParseErrKind, int)>(
                Follow::Operator(op, after as int, final(stack)@, math_view(final(output)@)),
            ) && pos < after <= input@.len(),
            Err(e) => closing(input@, pos as int, old(stack)@, math_view(old(output)@)) == Err::<
                Follow,
                (ParseErrKind, int),
            >((e.0@, e.1 as int)) && e.1 <= input@.len(),
        },
{
    let ghost s = input@;
    let mut at: usize = pos;
    loop
        invariant
            s == input@,
            pos <= at <= s.len(),
            closing(s, pos as int, old(stack)@, math_view(old(output)@)) == closing(
                s,
                at as int,
                stack@,
                math_view(output@),
            ),
        decreases s.len() - at,
    {
        match parse_op(input, at) {
            None => {
                if at != input.len() {
                    return Err(ParseErr(ParseErrType::Extra, at));
                }
                return Ok(None);
            },
            Some((op, after)) => {
                if matches!(op, Op::RPn) {
                    if !unwind_stack(stack, output) {
                        return Err(ParseErr(ParseErrType::No("("), after));
                    }
                    at = after;
                } else {
                    return Ok(Some((op, after)));
                }
            },
        }
    }
}

/// Moves the operators on top of the stack that yield to `next` to the
/// output.
fn settle_stack(stack: &mut Vec<Op>, output: &mut Vec<Math>, next: Op)
    ensures
        settle(old(stack)@, math_view(old(output)@), next) == (
            final(stack)@,
            math_view(final(output)@),
        ),
{
    loop
        invariant
            settle(old(stack)@, math_view(old(output)@), next) == settle(
                stack@,
                math_view(output@),
                next,
            ),
        decreases stack@.len(),
    {
        let n = stack.len();
        if n == 0 {
            return ;
        }
        if !stack[n - 1].yields_to(&next) {
            return ;
        }
        let ghost held = math_view(output@);
        let top = stack.pop().unwrap();
        output.push(Math::Operator(top));
        assert(math_view(output@) =~= held.push(MathView::Operator(top)));
    }
}

/// Moves the operators of the stack to the output, the top first.
fn flush_stack(stack: &mut Vec<Op>, output: &mut Vec<Math>)
    ensures
        math_view(final(output)@) == flush(old(stack)@, math_view(old(output)@)),
{
    while stack.len() > 0
        invariant
            flush(old(stack)@, math_view(old(output)@)) == flush(stack@, math_view(output@)),
        decreases stack@.len(),
    {
        let ghost held = math_view(output@);
        let op = stack.pop().unwrap();
        output.push(Math::Operator(op));
        assert(math_view(output@) =~= held.push(MathView::Operator(op)));
    }
}

/// Reads an expression from characters into postfix form.
pub fn parse_math_chars(input: &[char]) -> (r: Result<MathExpr, ParseErr>)
    ensures
        match r {
            Ok(m) => parse_math_spec(input@) == Ok::<Seq<MathView>, (ParseErrKind, int)>(
                math_view(m.expr@),
            ) && names_view(m.points@) == quantity_points(math_view(m.expr@)),
            Err(e) => parse_math_spec(input@) == Err::<Seq<MathView>, (ParseErrKind, int)>(
                (e.0@, e.1 as int),
            ),
        },
{
    parse_math_at(input, 0)
}

/// The postfix form of the expression that the text holds from `start`
/// on.
pub open spec fn math_at(s: Seq<char>, start: int) -> Result<Seq<MathView>, (ParseErrKind, int)> {
    math_from(s, start, Seq::empty(), Seq::empty())
}

/// Reads the expression that the characters hold from `start` on into
/// postfix form.
pub fn parse_math_at(input: &[char], start: usize) -> (r: Result<MathExpr, ParseErr>)
    requires
        start <= input@.len(),
    ensures
        match r {
            Ok(m) => math_at(input@, start as int) == Ok::<Seq<MathView>, (ParseErrKind, int)>(
                math_view(m.expr@),
            ) && names_view(m.points@) == quantity_points(math_view(m.expr@)),
            Err(e) => math_at(input@, start as int) == Err::<Seq<MathView>, (ParseErrKind, int)>(
                (e.0@, e.1 as int),
            ) && e.1 <= input@.len(),
        },
{
    let ghost s = input@;
    let mut output: Vec<Math> = Vec::new();
    let mut stack: Vec<Op> = Vec::new();
    let mut pos: usize = start;
    assert(math_view(output@) =~= Seq::<MathView>::empty());
    loop
        invariant
            s == input@,
            pos <= s.len(),
            math_at(s, start as int) == math_from(s, pos as int, stack@, math_view(output@)),
        decreases s.len() - pos,
    {
        let ghost output0 = math_view(output@);
        let p1 = match read_opening(input, pos, &mut stack) {
            Ok(p) => p,
            Err(e) => {
                return Err(e);
            },
        };
        let (operand, p2) = match read_operand(input, p1) {
            Ok(read) => read,
            Err(e) => {
                return Err(e);
            },
        };
        let ghost operand_view = operand@;
        output.push(Math::Operand(operand));
        assert(math_view(output@) =~= output0.push(MathView::Operand(operand_view)));
        let p3 = skip_space(input, p2);
        match read_closing(input, p3, &mut stack, &mut output) {
            Err(e) => {
                return Err(e);
            },
            Ok(None) => {
                flush_stack(&mut stack, &mut output);
                let points = collect_points(&output);
                return Ok(MathExpr { expr: output, points });
            },
            Ok(Some((next, p4))) => {
                let p5 = skip_space(input, p4);
                if matches!(next, Op::LPn) || matches!(next, Op::RPn) {
                    return Err(ParseErr(ParseErrType::Invalid, p5));
                }
                settle_stack(&mut stack, &mut output, next);
                stack.push(next);
                pos = p5;
            },
        }
    }
}

/// Copies a name.
fn copy_name(name: &String) -> (r: String)
    ensures
        r@ == name@,
{
    name.clone()
}

/// The names of the points of the quantities among the entries, in order.
fn collect_points(expr: &Vec<Math>) -> (r: Vec<String>)
    ensures
        names_view(r@) == quantity_points(math_view(expr@)),
{
    let ghost all = math_view(expr@);
    let mut points: Vec<String> = Vec::new();
    let mut i: usize = 0;
    assert(all.take(0) =~= Seq::<MathView>::empty());
    assert(names_view(points@) =~= quantity_points(all.take(0)));
    while i < expr.len()
        invariant
            i <= expr.len(),
            all == math_view(expr@),
            names_view(points@) == quantity_points(all.take(i as int)),
        decreases expr.len() - i,
    {
        proof {
            assert(all.take(i + 1).drop_last() =~= all.take(i as int));
            assert(all.take(i + 1).last() == expr@[i as int]@);
        }
        match &expr[i] {
            Math::Operand(Operand::Quantity(_, names)) => {
                let ghost before = names_view(points@);
                let mut j: usize = 0;
                while j < names.len()
                    invariant
                        j <= names.len(),
                        names_view(points@) == before + names_view(names@).take(j as int),
                    decreases names.len() - j,
                {
                    let ghost held = names_view(points@);
                    let ghost all_names = names_view(names@);
                    points.push(copy_name(&names[j]));
                    proof {
                        let x = names@[j as int]@;
                        all_names.lemma_take_succ_push(j as int);
                        assert(all_names[j as int] == x);
                        assert(names_view(points@) =~= held.push(x));
                        assert(held.push(x) =~= before + all_names.take(j as int).push(x));
                    }
                    j += 1;
                }
                assert(names_view(names@).take(names@.len() as int) =~= names_view(names@));
            },
            _ => {},
        }
        i += 1;
    }
    assert(all.take(all.len() as int) =~= all);
    points
}

/// The number of values that wait after the entries were worked through
/// from the left, each operator taking two values and giving one; nothing
/// if an operator finds fewer than two values, or is a parenthesis.
pub open spec fn depth(expr: Seq<MathView>) -> Option<nat>
    decreases expr.len(),
{
    if expr.len() == 0 {
        Some(0)
    } else {
        match depth(expr.drop_last()) {
            None => None,
            Some(before) => match expr.last() {
                MathView::Operand(_) => Some(before + 1),
                MathView::Operator(op) => if before < 2 || op == Op::LPn || op == Op::RPn {
                    None
                } else {
                    Some((before - 1) as nat)
                },
            },
        }
    }
}

/// The entries can be worked out: they leave exactly one value.
pub open spec fn computable(expr: Seq<MathView>) -> bool {
    depth(expr) == Some(1nat)
}

/// Once the entries cannot be worked through, more entries do not help.
pub proof fn lemma_depth_stays_none(expr: Seq<MathView>, k: int)
    requires
        0 <= k <= expr.len(),
        depth(expr.take(k)) is None,
    ensures
        depth(expr) is None,
    decreases expr.len() - k,
{
    if k < expr.len() {
        assert(expr.take(k + 1).drop_last() =~= expr.take(k));
        lemma_depth_stays_none(expr, k + 1);
    } else {
        assert(expr.take(k) =~= expr);
    }
}

impl MathExpr {
    /// Whether the expression can be worked out.
    pub fn is_computable(&self) -> (r: bool)
        ensures
            r == computable(math_view(self.expr@)),
    {
        let ghost all = math_view(self.expr@);
        let mut waiting: usize = 0;
        let mut i: usize = 0;
        assert(all.take(0) =~= Seq::<MathView>::empty());
        while i < self.expr.len()
            invariant
                i <= self.expr.len(),
                all == math_view(self.expr@),
                waiting <= i,
                depth(all.take(i as int)) == Some(waiting as nat),
            decreases self.expr.len() - i,
        {
            proof {
                assert(all.take(i + 1).drop_last() =~= all.take(i as int));
                assert(all.take(i + 1).last() == self.expr@[i as int]@);
            }
            match &self.expr[i] {
                Math::Operand(_) => {
                    waiting += 1;
                },
                Math::Operator(op) => {
                    if waiting < 2 || matches!(op, Op::LPn) || matches!(op, Op::RPn) {
                        proof {
                            lemma_depth_stays_none(all, i + 1);
                        }
                        return false;
                    }
                    waiting -= 1;
                },
            }
            i += 1;
        }
        assert(all.take(all.len() as int) =~= all);
        waiting == 1
    }
}

} // verus!
