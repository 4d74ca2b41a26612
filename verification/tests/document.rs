use gcad::constraints::constraints::{AnglePolarity, Collinear, Parallel, Perpendicular, Polarity};
use gcad::constraints::elements::{Angle, Distance};
use gcad::constraints::Constraint;
use gcad::draw::PathCmd;
use gcad::order::bfs::bfs_order;
use gcad::order::PointIndex;
use gcad::parse::document::{
    equality_sides, parse_constraint, parse_equality, parse_line, read_line, EqualityError,
};
use gcad::parsing::{find, split_trimmed, trim};

fn chars(s: &str) -> Vec<char> {
    s.chars().collect()
}

/// The number that each side of the line holds, as the caller of the
/// library reads it.
fn values(line: &str) -> Vec<Option<u64>> {
    equality_sides(line).iter().map(|side| side.parse::<f64>().ok().map(f64::to_bits)).collect()
}

fn read(text: &str) -> Result<PointIndex, String> {
    let mut index = PointIndex::new();
    let mut comment = false;
    for line in text.lines() {
        let (open, result) = read_line(comment, line, &values(line.trim()), &mut index);
        comment = open;
        if result.is_err() {
            return Err(format!("failed to parse line: {}", line.trim()));
        }
    }
    Ok(index)
}

#[test]
fn parallel_lines_are_read() {
    let mut index = PointIndex::new();
    let p = Parallel::parse("A B ∥ C D || A E", &mut index).unwrap();
    assert_eq!(p.points, vec![0, 1, 2, 3, 0, 4]);
    assert_eq!(index.len(), 5);
    assert_eq!(index.get_point(&4), "E");
    assert!(Parallel::parse("A B", &mut index).is_none());
    assert!(Parallel::parse("A B ∥ C", &mut index).is_none());
    assert!(Parallel::parse("A B ⟂ C D", &mut index).is_none());
    assert!(Parallel::parse("X Y ∥", &mut index).is_none());
    // A text that is none adds no point.
    assert_eq!(index.len(), 5);
}

#[test]
fn perpendicular_lines_are_read() {
    let mut index = PointIndex::new();
    let p = Perpendicular::parse("A B _|_ B C ⟂ C D _|_ D A", &mut index).unwrap();
    assert_eq!(p.points, vec![0, 1, 1, 2, 2, 3, 3, 0]);
    assert!(Perpendicular::parse("A B ∥ C D", &mut index).is_none());
}

#[test]
fn collinear_points_are_read() {
    let mut index = PointIndex::new();
    let c = Collinear::parse("A - B-C -D", &mut index).unwrap();
    assert_eq!(c.points, vec![0, 1, 2, 3]);
    assert!(Collinear::parse("A - B", &mut index).is_none());
    assert!(Collinear::parse("A - B -", &mut index).is_none());
    assert!(Collinear::parse("- A - B - C", &mut index).is_none());
}

#[test]
fn chirality_is_read() {
    let mut index = PointIndex::new();
    let c = AnglePolarity::parse("± ∠ A B C, ∓ < D E F, +/-<A B D,-/+ ∠ C B A", &mut index)
        .unwrap();
    assert_eq!(c.points, vec![0, 1, 2, 3, 4, 5, 0, 1, 3, 2, 1, 0]);
    assert_eq!(
        c.polarities,
        vec![Polarity::Pro, Polarity::Anti, Polarity::Pro, Polarity::Anti]
    );
    assert!(AnglePolarity::parse("± ∠ A B C", &mut index).is_none());
    assert!(AnglePolarity::parse("± ∠ A B C, ∠ D E F", &mut index).is_none());
    assert!(AnglePolarity::parse("± ∠ A B C, ± D E F", &mut index).is_none());
    assert!(AnglePolarity::parse("± ∠ A B, ± ∠ D E F", &mut index).is_none());
}

#[test]
fn distance_and_angle_are_read_with_a_measure_to_come() {
    let mut index = PointIndex::new();
    let d = Distance::parse("| A B | = 5", &mut index).unwrap();
    assert_eq!(d.points, [0, 1]);
    assert_eq!(d.dist, 0);
    let a = Angle::parse("∠ B A C", &mut index).unwrap();
    assert_eq!(a.points, [1, 0, 2]);
    assert_eq!(a.measure, 0);
    assert!(Angle::parse("< B A", &mut index).is_none());
    assert!(Distance::parse("A B", &mut index).is_none());
    assert_eq!(index.len(), 3);
}

#[test]
fn text_is_split_and_trimmed() {
    assert_eq!(find(&chars("a=b"), '=', 0), 1);
    assert_eq!(find(&chars("a=b"), '=', 2), 3);
    assert_eq!(trim(&chars("  a b \t")), (2, 5));
    assert_eq!(trim(&chars("   ")), (3, 3));
    assert_eq!(trim(&chars("")), (0, 0));
    assert_eq!(
        split_trimmed(&chars(" |A B| = 5 =x"), '='),
        vec![chars("|A B|"), chars("5"), chars("x")]
    );
    assert_eq!(split_trimmed(&chars("a="), '='), vec![chars("a"), chars("")]);
    assert_eq!(split_trimmed(&chars(""), '='), vec![chars("")]);
    assert_eq!(equality_sides("|A B| = |B C|= 1 "), vec!["|A B|", "|B C|", "1"]);
}

#[test]
fn equality_gives_each_element_the_measure() {
    let mut index = PointIndex::new();
    let line = "|A B| = |B C| = 1.5";
    let cs = parse_equality(&chars(line), &values(line), &mut index).unwrap();
    assert_eq!(cs.len(), 2);
    match (&cs[0], &cs[1]) {
        (Constraint::Distance(a), Constraint::Distance(b)) => {
            assert_eq!(a.points, [0, 1]);
            assert_eq!(b.points, [1, 2]);
            assert_eq!(a.dist, 1.5f64.to_bits());
            assert_eq!(b.dist, 1.5f64.to_bits());
        }
        _ => panic!("two distances are expected"),
    }
    let line = "2 = ∠ A B D";
    let cs = parse_equality(&chars(line), &values(line), &mut index).unwrap();
    match &cs[0] {
        Constraint::Angle(a) => {
            assert_eq!(a.points, [0, 1, 3]);
            assert_eq!(a.measure, 2f64.to_bits());
        }
        _ => panic!("an angle is expected"),
    }
}

#[test]
fn equality_errors() {
    let mut index = PointIndex::new();
    let check = |line: &str, index: &mut PointIndex| {
        parse_equality(&chars(line), &values(line), index).err()
    };
    assert_eq!(check("|A B|", &mut index), Some(EqualityError::NoEqualsSign));
    assert_eq!(index.len(), 0);
    assert_eq!(check("|A B| = |C D|", &mut index), Some(EqualityError::NoValue));
    // The points of the elements that were read stay in the figure.
    assert_eq!(index.len(), 4);
    assert_eq!(check("1 = |A B| = 2", &mut index), Some(EqualityError::MultipleValues));
    assert_eq!(check("|A E| = x = 2", &mut index), Some(EqualityError::Unparsed(1)));
    assert_eq!(index.len(), 5);
    assert_eq!(check("= 1", &mut index), Some(EqualityError::Unparsed(0)));
}

#[test]
fn equality_without_values_from_the_caller() {
    let mut index = PointIndex::new();
    assert_eq!(
        parse_equality(&chars("|A B| = 1"), &[], &mut index).err(),
        Some(EqualityError::Unparsed(1))
    );
}

#[test]
fn constraint_of_each_kind() {
    let mut index = PointIndex::new();
    let kinds = [
        "A B ∥ C D",
        "A B ⟂ C D",
        "A - B - C",
        "± ∠ A B C, ± ∠ B C D",
        "|A B| = 1",
        "< A B C = 1",
    ];
    let mut found = Vec::new();
    for line in kinds {
        let cs = parse_constraint(&chars(line), &values(line), &mut index).unwrap();
        assert_eq!(cs.len(), 1);
        found.push(match &cs[0] {
            Constraint::Parallel(_) => 0,
            Constraint::Perpendicular(_) => 1,
            Constraint::Collinear(_) => 2,
            Constraint::Chirality(_) => 3,
            Constraint::Distance(_) => 4,
            Constraint::Angle(_) => 5,
        });
    }
    assert_eq!(found, vec![0, 1, 2, 3, 4, 5]);
    assert!(parse_constraint(&chars("A->B"), &[], &mut index).is_err());
}

#[test]
fn lines_add_constraints_and_paths() {
    let mut index = PointIndex::new();
    let line = "|A B| = |B C| = 1";
    assert_eq!(parse_line(&chars(line), &values(line), &mut index), Ok(()));
    assert_eq!(index.constraint_count(), 2);
    assert_eq!(index.get_cids(&1), &vec![0, 1]);
    assert_eq!(parse_line(&chars("A->B->C->A"), &[], &mut index), Ok(()));
    assert_eq!(index.paths().len(), 1);
    assert_eq!(index.paths()[0][0], PathCmd::Move("A".to_string()));
    assert_eq!(index.paths()[0].len(), 4);
    assert_eq!(parse_line(&chars("\"a comment\""), &[], &mut index), Ok(()));
    assert_eq!(parse_line(&chars("\""), &[], &mut index), Ok(()));
    assert_eq!(parse_line(&chars("|A B| ="), &[None, None], &mut index), Err(()));
    assert_eq!(parse_line(&chars("12"), &[Some(0)], &mut index), Err(()));
    assert_eq!(index.constraint_count(), 2);
    assert_eq!(index.paths().len(), 1);
}

#[test]
fn comments_of_several_lines_are_passed_over() {
    let mut index = PointIndex::new();
    assert_eq!(read_line(false, "   ", &[], &mut index), (false, Ok(())));
    assert_eq!(read_line(true, "", &[], &mut index), (true, Ok(())));
    assert_eq!(read_line(false, "\" a comment", &[], &mut index), (true, Ok(())));
    assert_eq!(read_line(true, "|A B| = 1", &[None, Some(0)], &mut index), (true, Ok(())));
    assert_eq!(index.len(), 0);
    assert_eq!(read_line(true, "12 \"", &[], &mut index), (false, Err(())));
    assert_eq!(read_line(false, " \"one line\" ", &[], &mut index), (false, Ok(())));
    // The line that closes a comment is read: a word before the quote is
    // a path of one point.
    assert_eq!(read_line(true, "end\"", &[], &mut index), (false, Ok(())));
    assert_eq!(index.paths().len(), 1);
}

#[test]
fn document_of_a_triangle_is_read_and_ordered() {
    let mut index = read(
        "\" an equilateral triangle \"\n\n|A B| = |B C| = |C A| = 1\nA->B->C->A\n",
    )
    .unwrap();
    assert_eq!(index.len(), 3);
    assert_eq!(index.constraint_count(), 3);
    assert_eq!(index.paths().len(), 1);
    let order = bfs_order(&mut index).unwrap();
    assert_eq!(order, vec![vec![], vec![0], vec![2, 1]]);
}

#[test]
fn document_of_a_rectangle_is_read() {
    let index = read("A B _|_ B C _|_ C D _|_ D A\n|A B| = 20\n|B C| = 10\n").unwrap();
    assert_eq!(index.len(), 4);
    assert_eq!(index.constraint_count(), 3);
    match index.get_constraint(0) {
        Constraint::Perpendicular(Perpendicular { points }) => {
            assert_eq!(points, &vec![0, 1, 1, 2, 2, 3, 3, 0]);
        }
        _ => panic!("perpendicular lines are expected"),
    }
    match index.get_constraint(2) {
        Constraint::Distance(d) => assert_eq!(d.dist, 10f64.to_bits()),
        _ => panic!("a distance is expected"),
    }
}

#[test]
fn document_with_a_line_that_is_nothing_fails() {
    assert_eq!(read("|A B| = 1\n???\n").err(), Some("failed to parse line: ???".to_string()));
}
