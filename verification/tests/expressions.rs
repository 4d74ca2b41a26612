use gcad::parse::expr::{parse_math, read_operand, Math, MathExpr, Operand};
use gcad::parse::math::Op;
use gcad::parse::number::{parse_number, parse_vector, Constant};
use gcad::parse::quantity::{ParseErr, ParseErrType, QuantityType};

fn chars(s: &str) -> Vec<char> {
    s.chars().collect()
}

fn num(text: &str) -> Math {
    Math::Operand(Operand::Constant(Constant::Decimal(text.to_string())))
}

fn op(op: Op) -> Math {
    Math::Operator(op)
}

fn postfix(text: &str) -> Vec<Math> {
    parse_math(text).unwrap().expr
}

#[test]
fn numbers_are_read_as_they_are_written() {
    assert_eq!(parse_number(&chars("12.5+1"), 0), Ok((Constant::Decimal("12.5".to_string()), 4)));
    assert_eq!(parse_number(&chars("-.5"), 0), Ok((Constant::Decimal("-.5".to_string()), 3)));
    assert_eq!(parse_number(&chars("+7."), 0), Ok((Constant::Decimal("+7.".to_string()), 3)));
    assert_eq!(parse_number(&chars("x3"), 1), Ok((Constant::Decimal("3".to_string()), 2)));
    for name in ["PI", "Pi", "pi", "π"] {
        assert_eq!(parse_number(&chars(name), 0), Ok((Constant::Pi, name.chars().count())));
    }
    for name in ["TAU", "Tau", "tau", "τ"] {
        assert_eq!(parse_number(&chars(name), 0), Ok((Constant::Tau, name.chars().count())));
    }
    assert_eq!(parse_number(&chars("E"), 0), Ok((Constant::E, 1)));
    assert_eq!(parse_number(&chars("e2"), 0), Ok((Constant::E, 1)));
}

#[test]
fn numbers_that_are_none() {
    assert_eq!(parse_number(&chars("x"), 0), Err(ParseErr(ParseErrType::Nothing, 0)));
    assert_eq!(parse_number(&chars(""), 0), Err(ParseErr(ParseErrType::Nothing, 0)));
    // The sign is passed before nothing is found.
    assert_eq!(parse_number(&chars("-x"), 0), Err(ParseErr(ParseErrType::Nothing, 1)));
    assert_eq!(parse_number(&chars("1.2.3"), 0), Err(ParseErr(ParseErrType::Invalid, 5)));
    assert_eq!(parse_number(&chars("."), 0), Err(ParseErr(ParseErrType::Invalid, 1)));
    assert_eq!(parse_number(&chars("+.."), 0), Err(ParseErr(ParseErrType::Invalid, 3)));
}

#[test]
fn decimals_can_be_worked_out() {
    for text in ["12.5", "-.5", "+7.", "0", "007", "-3.25"] {
        match parse_number(&chars(text), 0) {
            Ok((Constant::Decimal(read), _)) => assert!(read.parse::<f64>().is_ok()),
            other => panic!("{text} is read as {other:?}"),
        }
    }
    assert_eq!("-3.25".parse::<f64>(), Ok(-3.25));
}

#[test]
fn vectors_are_read() {
    assert_eq!(
        parse_vector(&chars("( 1 , -2.5 )")),
        Ok((Constant::Decimal("1".to_string()), Constant::Decimal("-2.5".to_string())))
    );
    assert_eq!(parse_vector(&chars("(pi,e)x")), Ok((Constant::Pi, Constant::E)));
    assert_eq!(parse_vector(&chars("1, 2")), Err(ParseErr(ParseErrType::Nothing, 0)));
    assert_eq!(parse_vector(&chars("(x, 2)")), Err(ParseErr(ParseErrType::No("number"), 1)));
    assert_eq!(parse_vector(&chars("(1..2, 2)")), Err(ParseErr(ParseErrType::Invalid, 5)));
    assert_eq!(parse_vector(&chars("(1 2)")), Err(ParseErr(ParseErrType::No(","), 3)));
    assert_eq!(parse_vector(&chars("(1, )")), Err(ParseErr(ParseErrType::No("number"), 4)));
    assert_eq!(parse_vector(&chars("(1, 2")), Err(ParseErr(ParseErrType::No(")"), 5)));
}

#[test]
fn operands_are_read() {
    assert_eq!(
        read_operand(&chars("|A B|"), 0),
        Ok((Operand::Quantity(QuantityType::Distance, vec!["A".to_string(), "B".to_string()]), 5))
    );
    assert_eq!(
        read_operand(&chars("<A B>"), 0),
        Ok((
            Operand::Quantity(QuantityType::Orientation, vec!["A".to_string(), "B".to_string()]),
            5
        ))
    );
    assert_eq!(read_operand(&chars("2"), 0), Ok((Operand::Constant(Constant::Decimal("2".to_string())), 1)));
    // A distance that breaks off is given up where it broke off.
    assert_eq!(read_operand(&chars("|A 2"), 0), Ok((Operand::Constant(Constant::Decimal("2".to_string())), 4)));
    assert_eq!(read_operand(&chars("|A B"), 0), Err(ParseErr(ParseErrType::Nothing, 4)));
}

#[test]
fn operators_come_behind_their_operands() {
    assert_eq!(postfix("1"), vec![num("1")]);
    assert_eq!(postfix("1 + 2"), vec![num("1"), num("2"), op(Op::Add)]);
    assert_eq!(
        postfix("1 + 2 * 3"),
        vec![num("1"), num("2"), num("3"), op(Op::Mul), op(Op::Add)]
    );
    assert_eq!(
        postfix("1 * 2 + 3"),
        vec![num("1"), num("2"), op(Op::Mul), num("3"), op(Op::Add)]
    );
    assert_eq!(
        postfix("1 - 2 - 3"),
        vec![num("1"), num("2"), op(Op::Sub), num("3"), op(Op::Sub)]
    );
    assert_eq!(
        postfix("2 ^ 3 ^ 4"),
        vec![num("2"), num("3"), num("4"), op(Op::Pow), op(Op::Pow)]
    );
    assert_eq!(
        postfix("2 ^ 3 * 4"),
        vec![num("2"), num("3"), op(Op::Pow), num("4"), op(Op::Mul)]
    );
}

#[test]
fn different_operators_of_one_rank_group_from_the_right() {
    // Only an operator of the same kind yields to the next one.
    assert_eq!(
        postfix("8 ÷ 4 × 2"),
        vec![num("8"), num("4"), num("2"), op(Op::Mul), op(Op::Div)]
    );
    assert_eq!(
        postfix("1 - 2 + 3"),
        vec![num("1"), num("2"), num("3"), op(Op::Add), op(Op::Sub)]
    );
}

#[test]
fn parentheses_group() {
    assert_eq!(
        postfix("(1 + 2)* 3"),
        vec![num("1"), num("2"), op(Op::Add), num("3"), op(Op::Mul)]
    );
    assert_eq!(
        postfix("2 * ( ( 1 + 2 ))"),
        vec![num("2"), num("1"), num("2"), op(Op::Add), op(Op::Mul)]
    );
    // Behind a right parenthesis the operator follows without white space.
    assert_eq!(parse_math("(1 + 2) * 3").err(), Some(ParseErr(ParseErrType::Extra, 7)));
    assert_eq!(postfix("((1))"), vec![num("1")]);
    // A left parenthesis that is never closed stays in the output.
    assert_eq!(postfix("(1"), vec![num("1"), op(Op::LPn)]);
}

#[test]
fn quantities_are_operands() {
    let m = parse_math("2 * |A B| + <C D>").unwrap();
    let names = |a: &str, b: &str| vec![a.to_string(), b.to_string()];
    assert_eq!(
        m,
        MathExpr {
            expr: vec![
                num("2"),
                Math::Operand(Operand::Quantity(QuantityType::Distance, names("A", "B"))),
                op(Op::Mul),
                Math::Operand(Operand::Quantity(QuantityType::Orientation, names("C", "D"))),
                op(Op::Add),
            ],
            points: vec!["A".to_string(), "B".to_string(), "C".to_string(), "D".to_string()],
        }
    );
    assert_eq!(parse_math("1 + pi").unwrap().points, Vec::<String>::new());
}

#[test]
fn expressions_that_are_none() {
    let err = |text: &str| parse_math(text).err();
    assert_eq!(err(""), Some(ParseErr(ParseErrType::Nothing, 0)));
    assert_eq!(err("1 +"), Some(ParseErr(ParseErrType::Nothing, 3)));
    assert_eq!(err("1 2"), Some(ParseErr(ParseErrType::Extra, 2)));
    assert_eq!(err("1)"), Some(ParseErr(ParseErrType::No("("), 2)));
    assert_eq!(err("(1 + 2))"), Some(ParseErr(ParseErrType::No("("), 8)));
    assert_eq!(err("1 ("), Some(ParseErr(ParseErrType::Invalid, 3)));
    assert_eq!(err("* 1"), Some(ParseErr(ParseErrType::Invalid, 1)));
    assert_eq!(err("1 + * 2"), Some(ParseErr(ParseErrType::Invalid, 5)));
    assert_eq!(err("1.2.3"), Some(ParseErr(ParseErrType::Invalid, 5)));
    // A sign is read as an operator before a number is looked for.
    assert_eq!(err("-1"), Some(ParseErr(ParseErrType::Invalid, 1)));
    // Right parentheses stand together.
    assert_eq!(err("((1) )"), Some(ParseErr(ParseErrType::Extra, 4)));
}

#[test]
fn expressions_that_can_be_worked_out() {
    for text in ["1", "1 + 2", "(1 + 2)* 3", "2 ^ 3 ^ 4", "|A B| / 2"] {
        assert!(parse_math(text).unwrap().is_computable());
    }
    // The parenthesis that is never closed stays among the entries.
    assert!(!parse_math("(1").unwrap().is_computable());
    assert!(!MathExpr { expr: vec![], points: vec![] }.is_computable());
    assert!(!MathExpr { expr: vec![num("1"), num("2")], points: vec![] }.is_computable());
    assert!(!MathExpr { expr: vec![num("1"), op(Op::Add)], points: vec![] }.is_computable());
    assert!(
        !MathExpr { expr: vec![num("1"), num("2"), op(Op::RPn)], points: vec![] }.is_computable()
    );
}
