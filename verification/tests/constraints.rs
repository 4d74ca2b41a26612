use gcad::constraints::constraints::{AnglePolarity, Collinear, Parallel, Perpendicular, Polarity};
use gcad::constraints::elements::{Angle, Distance};
use gcad::constraints::Constraint;
use gcad::flags::ConFlags;
use std::collections::HashSet;

fn known(points: &[usize]) -> HashSet<usize> {
    points.iter().copied().collect()
}

#[test]
fn flags_contains_discretizing() {
    let d = ConFlags::discretizing();
    let none = ConFlags::empty();
    assert!(d.contains(d));
    assert!(d.contains(none));
    assert!(!none.contains(d));
    assert!(none.contains(none));
    assert_eq!(ConFlags::default(), d);
    assert_eq!(d.bits(), ConFlags::DISCRETIZING);
    assert_eq!(none.bits(), ConFlags::NONE);
}

#[test]
fn flags_bit_operations() {
    let a = ConFlags { bits: 0b0101 };
    let b = ConFlags { bits: 0b0011 };
    assert_eq!(a.bitand(b).bits, 0b0001);
    assert_eq!(a.bitor(b).bits, 0b0111);
    assert_eq!(a.bitxor(b).bits, 0b0110);
    assert!(a.contains(ConFlags { bits: 0b0100 }));
    assert!(!a.contains(b));
}

#[test]
fn distance_targets_the_unknown_end() {
    let d = Distance { points: [3, 7], dist: 20f64.to_bits() };
    assert_eq!(d.targets(&known(&[3])), vec![7]);
    assert_eq!(d.targets(&known(&[7])), vec![3]);
    assert_eq!(d.targets(&known(&[])), Vec::<usize>::new());
    assert_eq!(d.targets(&known(&[3, 7])), Vec::<usize>::new());
    assert_eq!(d.points(), &[3, 7]);
    assert!(d.flags().contains(ConFlags::discretizing()));
}

#[test]
fn distance_between_a_point_and_itself_has_no_target() {
    let d = Distance { points: [2, 2], dist: 1f64.to_bits() };
    assert_eq!(d.targets(&known(&[])), Vec::<usize>::new());
    assert_eq!(d.targets(&known(&[2])), Vec::<usize>::new());
}

#[test]
fn angle_needs_two_known() {
    let a = Angle { points: [0, 1, 2], measure: 1f64.to_bits() };
    assert_eq!(a.targets(&known(&[0])), Vec::<usize>::new());
    assert_eq!(a.targets(&known(&[0, 1])), vec![2]);
    assert_eq!(a.targets(&known(&[0, 2])), vec![1]);
    assert_eq!(a.targets(&known(&[1, 2])), vec![0]);
    assert_eq!(a.targets(&known(&[0, 1, 2])), Vec::<usize>::new());
}

#[test]
fn parallel_needs_a_known_line() {
    let p = Parallel::new(vec![0, 1, 2, 3, 4, 5]).unwrap();
    // No line is known: nothing, although 2 has a known partner.
    assert_eq!(p.targets(&known(&[0, 3])), Vec::<usize>::new());
    // The first line is known: the unknown end of each line with one known end.
    assert_eq!(p.targets(&known(&[0, 1, 3])), vec![2]);
    assert_eq!(p.targets(&known(&[0, 1, 2, 5])), vec![3, 4]);
    assert_eq!(p.targets(&known(&[0, 1])), Vec::<usize>::new());
}

#[test]
fn perpendicular_chain_names_a_point_twice() {
    let p = Perpendicular::new(vec![0, 1, 1, 2, 2, 3, 3, 0]).unwrap();
    assert_eq!(p.targets(&known(&[0])), Vec::<usize>::new());
    assert_eq!(p.targets(&known(&[0, 1])), vec![2, 3]);
    assert_eq!(p.targets(&known(&[0, 1, 2])), vec![3, 3]);
    assert_eq!(p.targets(&known(&[0, 1, 2, 3])), Vec::<usize>::new());
}

#[test]
fn constructors_check_the_arity() {
    assert!(Parallel::new(vec![0, 1]).is_none());
    assert!(Parallel::new(vec![0, 1, 2]).is_none());
    assert!(Parallel::new(vec![0, 1, 2, 3, 4]).is_none());
    assert!(Parallel::new(vec![0, 1, 2, 3]).is_some());
    assert!(Perpendicular::new(vec![0, 1, 2]).is_none());
    assert!(Perpendicular::new(vec![0, 1, 2, 3]).is_some());
    assert!(Collinear::new(vec![0, 1]).is_none());
    assert!(Collinear::new(vec![0, 1, 2]).is_some());
    assert!(AnglePolarity::new(vec![0, 1, 2], vec![Polarity::Pro]).is_none());
    assert!(AnglePolarity::new(vec![0, 1, 2, 3, 4], vec![Polarity::Pro, Polarity::Anti]).is_none());
    assert!(
        AnglePolarity::new(vec![0, 1, 2, 3, 4, 5], vec![Polarity::Pro, Polarity::Anti]).is_some()
    );
}

#[test]
fn collinear_needs_two_known() {
    let c = Collinear::new(vec![0, 1, 2, 3]).unwrap();
    assert_eq!(c.targets(&known(&[0])), Vec::<usize>::new());
    assert_eq!(c.targets(&known(&[0, 2])), vec![1, 3]);
    assert_eq!(c.targets(&known(&[1, 2, 3])), vec![0]);
    assert_eq!(c.targets(&known(&[0, 1, 2, 3])), Vec::<usize>::new());
}

#[test]
fn collinear_counts_a_known_point_as_often_as_it_is_named() {
    let c = Collinear { points: vec![0, 0, 1] };
    assert_eq!(c.targets(&known(&[0])), vec![1]);
}

#[test]
fn chirality_needs_a_known_triple() {
    let c = AnglePolarity::new(vec![0, 1, 2, 3, 4, 5], vec![Polarity::Pro, Polarity::Anti])
        .unwrap();
    assert_eq!(c.targets(&known(&[0, 1, 3, 4])), Vec::<usize>::new());
    assert_eq!(c.targets(&known(&[0, 1, 2, 3, 4])), vec![5]);
    assert_eq!(c.targets(&known(&[0, 1, 2, 3])), Vec::<usize>::new());
    assert_eq!(c.targets(&known(&[3, 4, 5, 0, 2])), vec![1]);
    assert!(!c.flags().contains(ConFlags::discretizing()));
    assert_eq!(c.flags(), ConFlags::empty());
}

#[test]
fn every_constraint_but_chirality_is_discretizing() {
    let all = vec![
        Constraint::Distance(Distance { points: [0, 1], dist: 0 }),
        Constraint::Angle(Angle { points: [0, 1, 2], measure: 0 }),
        Constraint::Parallel(Parallel { points: vec![0, 1, 2, 3] }),
        Constraint::Perpendicular(Perpendicular { points: vec![0, 1, 2, 3] }),
        Constraint::Collinear(Collinear { points: vec![0, 1, 2] }),
    ];
    for c in &all {
        assert!(c.flags().contains(ConFlags::discretizing()));
    }
    let chirality = Constraint::Chirality(AnglePolarity {
        points: vec![0, 1, 2, 3, 4, 5],
        polarities: vec![Polarity::Pro, Polarity::Pro],
    });
    assert!(!chirality.flags().contains(ConFlags::discretizing()));
}

#[test]
fn targets_are_named_and_unknown() {
    let all = vec![
        Constraint::Distance(Distance { points: [0, 1], dist: 0 }),
        Constraint::Angle(Angle { points: [0, 1, 2], measure: 0 }),
        Constraint::Parallel(Parallel { points: vec![0, 1, 2, 3] }),
        Constraint::Perpendicular(Perpendicular { points: vec![0, 1, 1, 2, 2, 3] }),
        Constraint::Collinear(Collinear { points: vec![0, 1, 2, 3] }),
        Constraint::Chirality(AnglePolarity {
            points: vec![0, 1, 2, 1, 2, 3],
            polarities: vec![Polarity::Pro, Polarity::Anti],
        }),
    ];
    for mask in 0..16usize {
        let set: HashSet<usize> = (0..4).filter(|p| mask & (1 << p) != 0).collect();
        for c in &all {
            for t in c.targets(&set) {
                assert!(c.points().contains(&t));
                assert!(!set.contains(&t));
            }
        }
    }
}

#[test]
fn map_points_renames_each_point() {
    let mapping = [2usize, 0, 3, 1];
    let mut d = Constraint::Distance(Distance { points: [0, 3], dist: 5 });
    d.map_points(&mapping);
    assert_eq!(d.points(), &[2, 1]);
    let mut p = Constraint::Perpendicular(Perpendicular { points: vec![0, 1, 1, 2] });
    p.map_points(&mapping);
    assert_eq!(p.points(), &[2, 0, 0, 3]);
    let mut a = Angle { points: [1, 2, 3], measure: 9 };
    a.map_points(&mapping);
    assert_eq!(a.points, [0, 3, 1]);
    assert_eq!(a.measure, 9);
    let mut c = AnglePolarity {
        points: vec![0, 1, 2, 3, 2, 1],
        polarities: vec![Polarity::Pro, Polarity::Anti],
    };
    c.map_points(&mapping);
    assert_eq!(c.points, vec![2, 0, 3, 1, 3, 0]);
    assert_eq!(c.polarities, vec![Polarity::Pro, Polarity::Anti]);
}
