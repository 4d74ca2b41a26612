use gcad::draw::PathCmd;
use gcad::parse::elements::{parse_element, read_angle, read_distance, Element};
use gcad::parse::math::{parse_op, Op};
use gcad::parse::path::parse_path;
use gcad::parse::quantity::{
    parse_distance, parse_orientation, wrap, ParseErr, ParseErrType, QuantityType,
};
use gcad::parsing::{
    blank, chars_of, literal, skip_space, space, take_while, text_of, word, CharClass,
};
use gcad::util::locate;

fn chars(s: &str) -> Vec<char> {
    s.chars().collect()
}

fn s(text: &str) -> String {
    text.to_string()
}

#[test]
fn chars_and_text_round_trip() {
    let text = "A ∥ B";
    let cs = chars_of(text);
    assert_eq!(cs, vec!['A', ' ', '∥', ' ', 'B']);
    assert_eq!(text_of(&cs, 0, 5), text);
    assert_eq!(text_of(&cs, 2, 3), "∥");
    assert_eq!(text_of(&cs, 4, 4), "");
}

#[test]
fn word_reads_letters() {
    let input = chars("Abc d");
    assert_eq!(word(&input, 0), Some(3));
    assert_eq!(word(&input, 1), Some(3));
    assert_eq!(word(&input, 3), None);
    assert_eq!(word(&input, 4), Some(5));
    assert_eq!(word(&input, 5), None);
    assert_eq!(word(&chars("é1"), 0), Some(1));
}

#[test]
fn space_reads_white_space() {
    let input = chars("a \t\n b");
    assert_eq!(space(&input, 0), None);
    assert_eq!(space(&input, 1), Some(5));
    assert_eq!(skip_space(&input, 1), 5);
    assert_eq!(skip_space(&input, 0), 0);
    assert_eq!(skip_space(&input, 6), 6);
}

#[test]
fn take_while_keeps_to_its_bounds() {
    let input = chars("12.5x");
    assert_eq!(take_while(&input, 0, CharClass::Numeric, 1, usize::MAX), Some(4));
    assert_eq!(take_while(&input, 0, CharClass::Numeric, 5, usize::MAX), None);
    assert_eq!(take_while(&input, 0, CharClass::Numeric, 0, 4), None);
    assert_eq!(take_while(&input, 0, CharClass::Numeric, 0, 5), Some(4));
    assert_eq!(take_while(&input, 4, CharClass::Numeric, 0, 5), Some(4));
    assert_eq!(take_while(&input, 4, CharClass::Numeric, 1, 5), None);
    assert!(CharClass::Numeric.test('.'));
    assert!(!CharClass::Numeric.test('-'));
    assert!(CharClass::Alphabetic.test('q'));
    assert!(CharClass::Whitespace.test(' '));
}

#[test]
fn literal_reads_the_pattern() {
    let input = chars("A->B");
    assert_eq!(literal(&input, 1, "->"), Some(3));
    assert_eq!(literal(&input, 1, "-"), Some(2));
    assert_eq!(literal(&input, 0, "->"), None);
    assert_eq!(literal(&input, 3, "BC"), None);
    assert_eq!(literal(&input, 4, ""), Some(4));
    assert_eq!(literal(&chars("x∥y"), 1, "∥"), Some(2));
}

#[test]
fn blank_text() {
    assert!(blank(&chars("")));
    assert!(blank(&chars(" \t ")));
    assert!(!blank(&chars(" a ")));
}

#[test]
fn path_of_lines() {
    assert_eq!(
        parse_path("A->B->C"),
        Some(vec![PathCmd::Move(s("A")), PathCmd::Line(s("B")), PathCmd::Line(s("C"))])
    );
    assert_eq!(
        parse_path("A→ B → C"),
        Some(vec![PathCmd::Move(s("A")), PathCmd::Line(s("B"))])
    );
    assert_eq!(parse_path("A"), Some(vec![PathCmd::Move(s("A"))]));
}

#[test]
fn path_of_curves() {
    assert_eq!(
        parse_path("A-B->C"),
        Some(vec![PathCmd::Move(s("A")), PathCmd::Quadratic(s("B"), s("C"))])
    );
    assert_eq!(
        parse_path("A-B-C->D->A"),
        Some(vec![
            PathCmd::Move(s("A")),
            PathCmd::Cubic(s("B"), s("C"), s("D")),
            PathCmd::Line(s("A")),
        ])
    );
}

#[test]
fn path_that_is_none() {
    assert_eq!(parse_path(""), None);
    assert_eq!(parse_path("|A B| = 5"), None);
    // The path ends in a control point.
    assert_eq!(parse_path("A-B"), None);
    // A point is missing behind the separator.
    assert_eq!(parse_path("A->"), None);
    // More than two control points.
    assert_eq!(parse_path("A-B-C-D->E"), None);
}

#[test]
fn path_ignores_what_follows() {
    assert_eq!(parse_path("A B"), Some(vec![PathCmd::Move(s("A"))]));
    assert_eq!(
        parse_path("A->B, C"),
        Some(vec![PathCmd::Move(s("A")), PathCmd::Line(s("B"))])
    );
}

#[test]
fn element_distance() {
    assert_eq!(parse_element("|A B|"), Ok(Element::Distance(s("A"), s("B"))));
    assert_eq!(parse_element("  | A  B |  "), Ok(Element::Distance(s("A"), s("B"))));
    assert_eq!(read_distance(&chars("|A B| = 5"), 0), Some((Element::Distance(s("A"), s("B")), 5)));
    assert_eq!(read_distance(&chars("|AB|"), 0), None);
}

#[test]
fn element_angle() {
    assert_eq!(parse_element("∠ A B C"), Ok(Element::Angle(s("A"), s("B"), s("C"))));
    assert_eq!(parse_element("<A B C "), Ok(Element::Angle(s("A"), s("B"), s("C"))));
    assert_eq!(read_angle(&chars("x< A B C"), 1), Some((Element::Angle(s("A"), s("B"), s("C")), 8)));
    assert_eq!(read_angle(&chars("< A B"), 0), None);
}

#[test]
fn element_that_is_none() {
    assert_eq!(parse_element(""), Err(s("no element")));
    assert_eq!(parse_element("5"), Err(s("no element")));
    assert_eq!(parse_element("|A B| C"), Err(s("no element")));
    assert_eq!(parse_element("|A B"), Err(s("no element")));
}

#[test]
fn operators() {
    let input = chars("+-*×/÷^()x");
    let expected = [
        Op::Add,
        Op::Sub,
        Op::Mul,
        Op::Mul,
        Op::Div,
        Op::Div,
        Op::Pow,
        Op::LPn,
        Op::RPn,
    ];
    for (i, op) in expected.iter().enumerate() {
        assert_eq!(parse_op(&input, i), Some((*op, i + 1)));
    }
    assert_eq!(parse_op(&input, 9), None);
    assert_eq!(parse_op(&input, 10), None);
}

#[test]
fn operator_precedence() {
    assert_eq!(Op::Add.precedence(), Some(0));
    assert_eq!(Op::Sub.precedence(), Some(0));
    assert_eq!(Op::Mul.precedence(), Some(1));
    assert_eq!(Op::Div.precedence(), Some(1));
    assert_eq!(Op::Pow.precedence(), Some(2));
    assert_eq!(Op::LPn.precedence(), None);
    assert_eq!(Op::RPn.precedence(), None);
    assert!(Op::Pow.is_r_assoc());
    assert!(!Op::Add.is_r_assoc());
    assert!(Op::Add.binds_less(&Op::Mul));
    assert!(!Op::Mul.binds_less(&Op::Div));
    assert!(Op::LPn.binds_less(&Op::Add));
    assert!(!Op::LPn.binds_less(&Op::RPn));
}

#[test]
fn operators_on_the_stack_yield() {
    // a * b + c: the product is applied before the sum is pushed.
    assert!(Op::Mul.yields_to(&Op::Add));
    // a + b * c: the sum waits.
    assert!(!Op::Add.yields_to(&Op::Mul));
    // a - b - c groups from the left, a ^ b ^ c from the right.
    assert!(Op::Sub.yields_to(&Op::Sub));
    assert!(!Op::Pow.yields_to(&Op::Pow));
    assert!(!Op::LPn.yields_to(&Op::Add));
}

#[test]
fn quantity_distance() {
    let (names, end) = parse_distance(&chars("| A B |x"), 0).unwrap();
    assert_eq!(names, vec![s("A"), s("B")]);
    assert_eq!(end, 7);
    assert_eq!(parse_distance(&chars("x"), 0), Err(ParseErr(ParseErrType::Nothing, 0)));
    assert_eq!(parse_distance(&chars("| 1"), 0), Err(ParseErr(ParseErrType::No("point"), 2)));
    assert_eq!(parse_distance(&chars("|A|"), 0), Err(ParseErr(ParseErrType::No("space"), 2)));
    assert_eq!(parse_distance(&chars("|A |"), 0), Err(ParseErr(ParseErrType::No("point"), 3)));
    assert_eq!(parse_distance(&chars("|A B >"), 0), Err(ParseErr(ParseErrType::No("|"), 5)));
}

#[test]
fn quantity_orientation() {
    let (names, end) = parse_orientation(&chars("a<A B>"), 1).unwrap();
    assert_eq!(names, vec![s("A"), s("B")]);
    assert_eq!(end, 6);
    assert_eq!(parse_orientation(&chars("<A B|"), 0), Err(ParseErr(ParseErrType::No(">"), 4)));
    assert_eq!(
        QuantityType::Orientation.parser(&chars("<A B>"), 0),
        parse_orientation(&chars("<A B>"), 0)
    );
    assert_eq!(
        QuantityType::Distance.parser(&chars("|A B|"), 0),
        parse_distance(&chars("|A B|"), 0)
    );
    assert!(QuantityType::Distance.parser(&chars("<A B>"), 0).is_err());
}

#[test]
fn errors_in_words() {
    assert_eq!(ParseErrType::Nothing.message(), "Nothing");
    assert_eq!(ParseErrType::Wrong.message(), "Wrong");
    assert_eq!(ParseErrType::No("point").message(), "No point");
    assert_eq!(ParseErrType::Invalid.message(), "Invalid");
    assert_eq!(ParseErrType::Extra.message(), "Extra");
}

#[test]
fn wrap_names_the_error() {
    assert_eq!(wrap(Some(3), ParseErrType::Extra, 1), Ok(3));
    assert_eq!(wrap(None, ParseErrType::Extra, 1), Err(ParseErr(ParseErrType::Extra, 1)));
    assert_eq!(ParseErrType::default(), ParseErrType::Nothing);
}

#[test]
fn locate_finds_the_first_place() {
    assert_eq!(locate(&[4, 7, 4], &4), Some(0));
    assert_eq!(locate(&[4, 7, 4], &7), Some(1));
    assert_eq!(locate(&[4, 7, 4], &5), None);
    assert_eq!(locate(&[], &0), None);
}
