use gcad::constraints::constraints::{AnglePolarity, Collinear, Parallel, Perpendicular, Polarity};
use gcad::constraints::elements::{Angle, Distance};
use gcad::constraints::locus::{find_known, find_known_pair, find_known_triple, Locus};
use gcad::constraints::Constraint;
use gcad::order::bfs::bfs_order;
use gcad::order::PointIndex;
use gcad::solve::brute::{Action, Awaiting, Search};
use gcad::solve::lowering::{point_loci, SolveError};
use gcad::util::locate;

/// Runs a search in which the number of candidates of the next point is
/// `count` of the choices made so far.
fn run(n: usize, count: &dyn Fn(&[usize]) -> usize) -> (Option<Vec<usize>>, Vec<Action>) {
    let (mut search, mut action) = Search::new(n);
    let mut actions = vec![action];
    loop {
        action = match action {
            Action::Expand(i) => {
                assert_eq!(search.depth(), i);
                assert_eq!(search.awaiting(), Awaiting::Candidates);
                search.candidates(count(search.choices()))
            }
            Action::Place(i, k) => {
                assert_eq!(search.depth(), i + 1);
                assert_eq!(search.choices()[i], k);
                assert_eq!(search.awaiting(), Awaiting::Placement);
                search.placed()
            }
            Action::Done => return (Some(search.choices().clone()), actions),
            Action::Failed => return (None, actions),
        };
        actions.push(action);
    }
}

/// The first choice of candidates, in order, that places every point.
fn first_choice(n: usize, count: &dyn Fn(&[usize]) -> usize, prefix: &mut Vec<usize>) -> bool {
    if prefix.len() == n {
        return true;
    }
    for k in 0..count(prefix) {
        prefix.push(k);
        if first_choice(n, count, prefix) {
            return true;
        }
        prefix.pop();
    }
    false
}

#[test]
fn search_without_points_is_done() {
    let (search, action) = Search::new(0);
    assert_eq!(action, Action::Done);
    assert_eq!(search.depth(), 0);
    assert_eq!(search.awaiting(), Awaiting::Nothing);
}

#[test]
fn search_takes_the_first_candidates() {
    let (found, actions) = run(3, &|_| 2);
    assert_eq!(found, Some(vec![0, 0, 0]));
    assert_eq!(
        actions,
        vec![
            Action::Expand(0),
            Action::Place(0, 0),
            Action::Expand(1),
            Action::Place(1, 0),
            Action::Expand(2),
            Action::Place(2, 0),
            Action::Done,
        ]
    );
}

#[test]
fn search_goes_back_to_the_latest_point_with_a_candidate_left() {
    // The third point has a candidate only behind the second candidate of
    // the first point.
    let count = |choices: &[usize]| match choices {
        [] => 2,
        [_] => 1,
        [0, _] => 0,
        _ => 1,
    };
    let (found, actions) = run(3, &count);
    assert_eq!(found, Some(vec![1, 0, 0]));
    assert_eq!(
        actions,
        vec![
            Action::Expand(0),
            Action::Place(0, 0),
            Action::Expand(1),
            Action::Place(1, 0),
            Action::Expand(2),
            Action::Place(0, 1),
            Action::Expand(1),
            Action::Place(1, 0),
            Action::Expand(2),
            Action::Place(2, 0),
            Action::Done,
        ]
    );
}

#[test]
fn search_fails_when_no_choice_places_every_point() {
    let (found, actions) = run(2, &|choices| if choices.is_empty() { 3 } else { 0 });
    assert_eq!(found, None);
    assert_eq!(actions.last(), Some(&Action::Failed));
    assert_eq!(actions.iter().filter(|a| matches!(a, Action::Place(0, _))).count(), 3);
    let (found, _) = run(1, &|_| 0);
    assert_eq!(found, None);
}

#[test]
fn search_finds_the_first_choice_of_all() {
    // The numbers of candidates depend on the choices in an arbitrary way.
    for seed in 0..40usize {
        let count = move |choices: &[usize]| {
            let mut h = seed.wrapping_mul(2654435761).wrapping_add(choices.len());
            for c in choices {
                h = h.wrapping_mul(31).wrapping_add(*c + 7);
            }
            (h >> 3) % 3
        };
        for n in 0..5 {
            let mut expected = Vec::new();
            let solvable = first_choice(n, &count, &mut expected);
            let (found, _) = run(n, &count);
            assert_eq!(found, if solvable { Some(expected) } else { None });
        }
    }
}

#[test]
fn known_places_are_found() {
    assert_eq!(find_known(&[5, 1, 7, 0], 2, 0), 1);
    assert_eq!(find_known(&[5, 1, 7, 0], 2, 2), 3);
    assert_eq!(find_known(&[5, 1, 7, 0], 0, 0), 4);
    assert_eq!(find_known_pair(&[5, 1, 0, 1, 2, 3], 2, 0), 1);
    assert_eq!(find_known_pair(&[5, 1, 0, 1, 2, 3], 2, 2), 3);
    assert_eq!(find_known_pair(&[0, 1, 9], 2, 0), 0);
    assert_eq!(find_known_triple(&[0, 1, 9, 2, 1, 0], 3, 0), 1);
    assert_eq!(find_known_triple(&[0, 1, 9, 2, 1], 3, 0), 1);
}

#[test]
fn distance_is_a_circle_around_the_other_end() {
    let d = Distance { points: [4, 1], dist: 77 };
    assert!(d.geo_ready(4, 0));
    assert_eq!(d.geo(4, 0), vec![Locus::Circle { center: 1, radius: 77 }]);
    assert!(!d.geo_ready(4, 1));
    assert!(d.geo_ready(5, 1));
    assert_eq!(d.geo(5, 1), vec![Locus::Circle { center: 4, radius: 77 }]);
}

#[test]
fn angle_is_circles_for_the_middle_and_rays_for_an_arm() {
    let a = Angle { points: [0, 2, 1], measure: 9 };
    assert!(a.geo_ready(2, 1));
    assert_eq!(a.geo(2, 1), vec![Locus::Inscribed { start: 0, end: 1, measure: 9 }]);
    let a = Angle { points: [2, 0, 1], measure: 9 };
    assert!(a.geo_ready(2, 0));
    assert_eq!(a.geo(2, 0), vec![Locus::Rays { origin: 0, arm: 1, measure: 9 }]);
    let a = Angle { points: [1, 0, 2], measure: 9 };
    assert_eq!(a.geo(2, 2), vec![Locus::Rays { origin: 0, arm: 1, measure: 9 }]);
    assert!(!a.geo_ready(1, 2));
}

#[test]
fn parallel_goes_through_the_partner() {
    let p = Parallel { points: vec![0, 1, 3, 2] };
    assert!(p.geo_ready(3, 2));
    assert_eq!(
        p.geo(3, 2),
        vec![Locus::Line { through: 2, from: 0, to: 1, turned: false }]
    );
    let p = Parallel { points: vec![0, 1, 2, 3] };
    assert_eq!(
        p.geo(3, 3),
        vec![Locus::Line { through: 2, from: 0, to: 1, turned: false }]
    );
    assert!(!p.geo_ready(1, 3));
    assert!(!p.geo_ready(2, 3));
    assert!(!p.geo_ready(3, 4));
}

#[test]
fn perpendicular_turns_between_lines_an_odd_number_apart() {
    let p = Perpendicular { points: vec![0, 1, 1, 2, 2, 3, 3, 0] };
    // C, the end of the second line, with the first line known.
    assert_eq!(p.geo(2, 3), vec![Locus::Line { through: 1, from: 0, to: 1, turned: true }]);
    // D, the end of the third line: two lines from the first.
    assert_eq!(p.geo(3, 5), vec![Locus::Line { through: 2, from: 0, to: 1, turned: false }]);
    // D, the beginning of the fourth line: three lines from the first.
    assert_eq!(p.geo(3, 6), vec![Locus::Line { through: 0, from: 0, to: 1, turned: true }]);
    let p = Perpendicular { points: vec![4, 3, 0, 1] };
    assert!(p.geo_ready(4, 0));
    assert_eq!(p.geo(4, 0), vec![Locus::Line { through: 3, from: 0, to: 1, turned: true }]);
    // The partner has no place yet.
    assert!(!Perpendicular { points: vec![4, 5, 0, 1] }.geo_ready(4, 0));
}

#[test]
fn collinear_is_the_line_through_the_first_two_known_points() {
    let c = Collinear { points: vec![3, 1, 4, 0] };
    assert!(c.geo_ready(3));
    assert_eq!(c.geo(3, 0), vec![Locus::Line { through: 1, from: 1, to: 0, turned: false }]);
    assert!(!c.geo_ready(1));
    assert!(c.geo_ready(2));
}

#[test]
fn chirality_is_a_half_plane_beside_the_other_two_points() {
    let c = AnglePolarity {
        points: vec![0, 1, 2, 0, 1, 3],
        polarities: vec![Polarity::Pro, Polarity::Anti],
    };
    assert!(c.geo_ready(3, 5));
    assert_eq!(
        c.geo(3, 5),
        vec![Locus::Half { origin: 0, toward: 1, first: 0, second: 1, third: 2, same: false }]
    );
    // No angle is known: nothing.
    assert!(c.geo_ready(2, 2));
    assert_eq!(c.geo(2, 2), vec![]);
    let c = AnglePolarity {
        points: vec![0, 1, 2, 3, 1, 0],
        polarities: vec![Polarity::Anti, Polarity::Anti],
    };
    assert_eq!(
        c.geo(3, 3),
        vec![Locus::Half { origin: 1, toward: 0, first: 0, second: 1, third: 2, same: true }]
    );
    assert!(!c.geo_ready(3, 6));
}

#[test]
fn constraints_of_an_ordered_figure_can_be_lowered() {
    let mut index = PointIndex::new();
    for name in ["A", "B", "C", "D"] {
        index.get_or_insert(name);
    }
    let d = |a: usize, b: usize| Constraint::Distance(Distance { points: [a, b], dist: 1 });
    for c in [d(2, 3), d(0, 1), d(0, 2), d(1, 2), d(1, 3)] {
        index.add_constraint(c);
    }
    index.add_constraint(Constraint::Angle(Angle { points: [0, 3, 2], measure: 2 }));
    let order = bfs_order(&mut index).unwrap();
    for (i, cids) in order.iter().enumerate() {
        for cid in cids {
            let c = index.get_constraint(*cid);
            let t_ind = locate(c.points(), &i).unwrap();
            assert!(c.geo_ready(i, t_ind));
            for locus in c.geo(i, t_ind) {
                let named = match locus {
                    Locus::Circle { center, .. } => vec![center],
                    Locus::Inscribed { start, end, .. } => vec![start, end],
                    Locus::Rays { origin, arm, .. } => vec![origin, arm],
                    Locus::Line { through, from, to, .. } => vec![through, from, to],
                    Locus::Half { origin, toward, first, second, third, .. } => {
                        vec![origin, toward, first, second, third]
                    }
                };
                assert!(named.iter().all(|p| *p < i));
            }
        }
    }
}

#[test]
fn loci_of_a_point_come_constraint_by_constraint() {
    let mut index = PointIndex::new();
    for name in ["A", "B", "C"] {
        index.get_or_insert(name);
    }
    index.add_constraint(Constraint::Distance(Distance { points: [0, 2], dist: 5 }));
    index.add_constraint(Constraint::Distance(Distance { points: [2, 1], dist: 6 }));
    index.add_constraint(Constraint::Collinear(Collinear { points: vec![0, 1, 2] }));
    assert_eq!(
        point_loci(&index, &[0, 1, 2], 2),
        Ok(vec![
            vec![Locus::Circle { center: 0, radius: 5 }],
            vec![Locus::Circle { center: 1, radius: 6 }],
            vec![Locus::Line { through: 0, from: 0, to: 1, turned: false }],
        ])
    );
    assert_eq!(point_loci(&index, &[], 2), Ok(vec![]));
    // The other end of the second distance has no place yet.
    assert_eq!(point_loci(&index, &[0, 1], 1), Err(SolveError::Degenerate));
    // The first distance does not name the point.
    assert_eq!(point_loci(&index, &[0], 1), Err(SolveError::Degenerate));
    // There is no such constraint.
    assert_eq!(point_loci(&index, &[3], 2), Err(SolveError::Degenerate));
}
