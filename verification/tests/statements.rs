use gcad::parse::expr::{Math, Operand};
use gcad::parse::math::Op;
use gcad::parse::number::Constant;
use gcad::parse::quantity::{ParseErr, ParseErrType, QuantityType};
use gcad::parse::statements::{
    copy_expr, parse, parse_line, parse_multi_expr, parse_origin, split_lines, split_places,
    Statement, StatementType,
};

fn chars(s: &str) -> Vec<char> {
    s.chars().collect()
}

fn names(list: &[&str]) -> Vec<String> {
    list.iter().map(|n| n.to_string()).collect()
}

fn decimal(text: &str) -> Constant {
    Constant::Decimal(text.to_string())
}

#[test]
fn origin_with_its_place() {
    assert_eq!(
        parse_origin(&chars("A = ( 1, -2.5 )")),
        Ok(vec![Statement {
            s_type: StatementType::Origin(decimal("1"), decimal("-2.5")),
            points: names(&["A"]),
        }])
    );
    assert_eq!(
        parse_origin(&chars("Origin=(pi,0)")),
        Ok(vec![Statement {
            s_type: StatementType::Origin(Constant::Pi, decimal("0")),
            points: names(&["Origin"]),
        }])
    );
}

#[test]
fn origin_without_a_place_lies_at_zero() {
    assert_eq!(
        parse_origin(&chars("A")),
        Ok(vec![Statement {
            s_type: StatementType::Origin(decimal("0"), decimal("0")),
            points: names(&["A"]),
        }])
    );
}

#[test]
fn origin_that_is_none() {
    assert_eq!(parse_origin(&chars("|A B| = 1")), Err(ParseErr(ParseErrType::Nothing, 0)));
    assert_eq!(parse_origin(&chars("A = 1")), Err(ParseErr(ParseErrType::Nothing, 4)));
    assert_eq!(parse_origin(&chars("A = (1 2)")), Err(ParseErr(ParseErrType::No(","), 7)));
    assert_eq!(parse_origin(&chars("A = (x, 2)")), Err(ParseErr(ParseErrType::No("number"), 5)));
}

#[test]
fn pieces_and_lines_are_found() {
    assert_eq!(split_places(&chars("a=bc="), '='), vec![(0, 1), (2, 4), (5, 5)]);
    assert_eq!(split_places(&chars(""), '='), vec![(0, 0)]);
    assert_eq!(split_lines(&chars("a\nbc\r\n\nd")), vec![(0, 1), (2, 4), (6, 6), (7, 8)]);
    assert_eq!(split_lines(&chars("a\n")), vec![(0, 1)]);
    assert_eq!(split_lines(&chars("a\r")), vec![(0, 2)]);
    assert_eq!(split_lines(&chars("")), Vec::<(usize, usize)>::new());
}

#[test]
fn quantities_stand_for_an_expression() {
    let statements = parse_multi_expr(&chars("|A B| = |B C| = 2 * |C D|")).unwrap();
    assert_eq!(statements.len(), 2);
    assert_eq!(statements[0].points, names(&["A", "B"]));
    assert_eq!(statements[1].points, names(&["B", "C"]));
    for s in &statements {
        match &s.s_type {
            StatementType::Quantity(QuantityType::Distance, m) => {
                assert_eq!(
                    m.expr,
                    vec![
                        Math::Operand(Operand::Constant(decimal("2"))),
                        Math::Operand(Operand::Quantity(
                            QuantityType::Distance,
                            names(&["C", "D"])
                        )),
                        Math::Operator(Op::Mul),
                    ]
                );
                assert_eq!(m.points, names(&["C", "D"]));
                assert_eq!(&copy_expr(m), m);
            }
            other => panic!("a distance is expected, not {other:?}"),
        }
    }
    assert_eq!(statements[0].target(), "B");
    assert_eq!(statements[0].dependencies(), names(&["A", "C", "D"]));
    assert_eq!(statements[1].target(), "C");
    assert_eq!(statements[1].dependencies(), names(&["B", "C", "D"]));
}

#[test]
fn orientations_stand_for_an_expression() {
    let statements = parse_multi_expr(&chars(" <A B> = pi / 2")).unwrap();
    assert_eq!(statements.len(), 1);
    assert_eq!(statements[0].points, names(&["A", "B"]));
    assert!(matches!(
        statements[0].s_type,
        StatementType::Quantity(QuantityType::Orientation, _)
    ));
    assert_eq!(statements[0].dependencies(), names(&["A"]));
}

#[test]
fn expression_alone_makes_no_statement() {
    assert_eq!(parse_multi_expr(&chars("1 + 2")), Ok(vec![]));
}

#[test]
fn quantities_that_are_none() {
    // The value is missing.
    assert_eq!(
        parse_multi_expr(&chars("|A B| =")),
        Err(ParseErr(ParseErrType::Nothing, 7))
    );
    // The first side breaks off.
    assert_eq!(
        parse_multi_expr(&chars("|A B = 1")),
        Err(ParseErr(ParseErrType::No("|"), 5))
    );
    // Something follows the quantity.
    assert_eq!(
        parse_multi_expr(&chars("|A B| x = 1")),
        Err(ParseErr(ParseErrType::Extra, 5))
    );
    // Where the value breaks off with nothing, a quantity is looked for at
    // its beginning, and what is wrong with that is said.
    assert_eq!(
        parse_multi_expr(&chars("|A B| = 1 +")),
        Err(ParseErr(ParseErrType::Nothing, 8))
    );
    assert_eq!(
        parse_multi_expr(&chars("|A B| = 1 2")),
        Err(ParseErr(ParseErrType::Extra, 10))
    );
    // Neither a distance nor an orientation begins the line.
    assert_eq!(parse_multi_expr(&chars("x = 1")), Err(ParseErr(ParseErrType::Nothing, 0)));
    // An orientation that breaks off is the second thing tried.
    assert_eq!(
        parse_multi_expr(&chars("<A B = 1")),
        Err(ParseErr(ParseErrType::No(">"), 5))
    );
}

#[test]
fn lines_hold_an_origin_or_quantities() {
    assert_eq!(parse_line(&chars("   ")), Ok(vec![]));
    assert_eq!(parse_line(&chars("")), Ok(vec![]));
    assert_eq!(parse_line(&chars("A = (0, 0)")).unwrap().len(), 1);
    assert_eq!(parse_line(&chars("|A B| = 1")).unwrap().len(), 1);
    assert_eq!(parse_line(&chars("|A B| = |B C| = |C A| = 1")).unwrap().len(), 3);
    // The error of the origin counts unless nothing was there.
    assert_eq!(parse_line(&chars("A = (1")), Err(ParseErr(ParseErrType::No(","), 6)));
    assert_eq!(parse_line(&chars("|A B| = ")), Err(ParseErr(ParseErrType::Nothing, 8)));
    assert_eq!(parse_line(&chars("?")), Err(ParseErr(ParseErrType::Nothing, 0)));
}

#[test]
fn texts_are_read_line_by_line() {
    let statements = parse("A\nB = (1, 0)\r\n\n|A C| = |B C| = 1\n").unwrap();
    assert_eq!(statements.len(), 4);
    assert_eq!(statements[0].points, names(&["A"]));
    assert_eq!(statements[1].points, names(&["B"]));
    assert_eq!(statements[2].points, names(&["A", "C"]));
    assert_eq!(statements[3].points, names(&["B", "C"]));
    assert_eq!(parse(""), Ok(vec![]));
}

#[test]
fn errors_name_their_place_in_the_text() {
    // The second line begins at 2; the comma is missing at 6 of the line.
    assert_eq!(parse("A\nB = (1 0)\n"), Err(ParseErr(ParseErrType::No(","), 9)));
    assert_eq!(parse("A\n\n??"), Err(ParseErr(ParseErrType::Nothing, 3)));
}
