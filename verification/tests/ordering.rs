use gcad::constraints::constraints::{AnglePolarity, Collinear, Perpendicular, Polarity};
use gcad::constraints::elements::Distance;
use gcad::constraints::Constraint;
use gcad::order::bfs::{bfs_order, compute_forest, compute_tree, expand_tree, root_pairs};
use gcad::order::model::OrderingError;
use gcad::order::PointIndex;
use std::collections::HashSet;

fn distance(a: usize, b: usize, d: f64) -> Constraint {
    Constraint::Distance(Distance { points: [a, b], dist: d.to_bits() })
}

fn perpendicular(points: &[usize]) -> Constraint {
    Constraint::Perpendicular(Perpendicular { points: points.to_vec() })
}

fn figure(names: &[&str], constraints: Vec<Constraint>) -> PointIndex {
    let mut index = PointIndex::new();
    for name in names {
        index.get_or_insert(name);
    }
    for c in constraints {
        index.add_constraint(c);
    }
    index
}

fn triangle() -> PointIndex {
    figure(
        &["A", "B", "C"],
        vec![distance(0, 1, 1.0), distance(1, 2, 1.0), distance(2, 0, 1.0)],
    )
}

/// Every constraint at place `i` names the point `i` and yields it as a
/// target when the points below `i` are known.
fn assert_order_correct(index: &PointIndex, order: &[Vec<usize>]) {
    assert_eq!(order.len(), index.len());
    for (i, cids) in order.iter().enumerate() {
        let below: HashSet<usize> = (0..i).collect();
        for cid in cids {
            let c = index.get_constraint(*cid);
            assert!(c.points().contains(&i));
            assert!(c.targets(&below).contains(&i));
        }
    }
}

#[test]
fn equilateral_triangle_is_ordered() {
    let mut index = triangle();
    let order = bfs_order(&mut index).unwrap();
    assert_eq!(order, vec![vec![], vec![0], vec![2, 1]]);
    assert_eq!(index.get_point(&0), "A");
    assert_eq!(index.get_point(&1), "B");
    assert_eq!(index.get_point(&2), "C");
    assert_order_correct(&index, &order);
}

#[test]
fn triangle_root_pairs_pair_two_points_once() {
    let index = triangle();
    assert_eq!(root_pairs(&index), vec![(0, 1), (0, 2), (1, 2)]);
}

#[test]
fn triangle_tree_covers_all_points() {
    let index = triangle();
    let (entries, covered) = compute_tree(0, 1, &index);
    assert_eq!(entries, vec![(0, vec![]), (1, vec![0]), (2, vec![2, 1])]);
    assert_eq!(covered, (0..3).collect::<HashSet<usize>>());
    let (entries, _) = compute_tree(2, 1, &index);
    assert_eq!(entries, vec![(2, vec![]), (1, vec![1]), (0, vec![2, 0])]);
}

#[test]
fn triangle_forest_is_one_tree() {
    let index = triangle();
    let forest = compute_forest(&index);
    assert_eq!(forest, vec![vec![(0, vec![]), (1, vec![0]), (2, vec![2, 1])]]);
}

#[test]
fn expansion_credits_each_constraint_once() {
    let index = triangle();
    let mut support = vec![Vec::new(); 3];
    let known: HashSet<usize> = [0].into_iter().collect();
    let found = expand_tree(&index, &known, 0, &mut support);
    assert_eq!(found, Vec::<usize>::new());
    assert_eq!(support, vec![vec![], vec![0], vec![2]]);
    let known: HashSet<usize> = [0, 1].into_iter().collect();
    let found = expand_tree(&index, &known, 1, &mut support);
    assert_eq!(found, vec![2]);
    assert_eq!(support, vec![vec![], vec![0], vec![2, 1]]);
    // A second expansion of the same point changes nothing.
    let found = expand_tree(&index, &known, 1, &mut support);
    assert_eq!(found, Vec::<usize>::new());
    assert_eq!(support, vec![vec![], vec![0], vec![2, 1]]);
}

#[test]
fn single_distance_orders_both_ends() {
    let mut index = figure(&["A", "B"], vec![distance(0, 1, 1.0)]);
    assert_eq!(root_pairs(&index), vec![(0, 1)]);
    let order = bfs_order(&mut index).unwrap();
    assert_eq!(order, vec![vec![], vec![0]]);
    assert_order_correct(&index, &order);
}

#[test]
fn duplicate_distance_counts_once_for_each_identifier() {
    let mut index = figure(&["A", "B"], vec![distance(0, 1, 3.0), distance(0, 1, 3.0)]);
    assert_eq!(root_pairs(&index), vec![(0, 1)]);
    let order = bfs_order(&mut index).unwrap();
    assert_eq!(order, vec![vec![], vec![0, 1]]);
    assert_order_correct(&index, &order);
}

#[test]
fn point_without_constraints_is_unreached() {
    let mut index = figure(&["A", "B", "C"], vec![distance(0, 1, 1.0)]);
    assert_eq!(bfs_order(&mut index), Err(OrderingError::Unreached));
    // The figure stays as it was.
    assert_eq!(index.get_point(&2), "C");
    assert_eq!(index.get_cids(&1), &vec![0]);
}

#[test]
fn empty_figure_has_an_empty_order() {
    let mut index = PointIndex::new();
    assert_eq!(bfs_order(&mut index), Ok(vec![]));
}

#[test]
fn point_in_two_trees_is_ambiguous() {
    // A - B and B - C by one distance each: neither tree covers the other.
    let mut index = figure(&["A", "B", "C"], vec![distance(0, 1, 1.0), distance(1, 2, 1.0)]);
    assert_eq!(
        compute_forest(&index),
        vec![vec![(0, vec![]), (1, vec![0])], vec![(1, vec![]), (2, vec![1])]]
    );
    assert_eq!(bfs_order(&mut index), Err(OrderingError::AmbiguousPlacement));
    assert_eq!(index.get_constraint(1).points(), &[1, 2]);
}

#[test]
fn later_tree_replaces_the_trees_it_covers() {
    // C hangs on A and B, D on B and C; E needs C and D. From the pair
    // (A, B) everything is reached.
    let mut index = figure(
        &["A", "B", "C", "D"],
        vec![
            distance(2, 3, 1.0),
            distance(0, 1, 1.0),
            distance(0, 2, 1.0),
            distance(1, 2, 1.0),
            distance(1, 3, 1.0),
        ],
    );
    let forest = compute_forest(&index);
    assert_eq!(forest.len(), 1);
    let mut covered: Vec<usize> = forest[0].iter().map(|e| e.0).collect();
    covered.sort();
    assert_eq!(covered, vec![0, 1, 2, 3]);
    let order = bfs_order(&mut index).unwrap();
    assert_order_correct(&index, &order);
}

#[test]
fn rectangle_with_three_sides_is_ordered() {
    let mut index = figure(
        &["A", "B", "C", "D"],
        vec![
            perpendicular(&[0, 1, 1, 2, 2, 3, 3, 0]),
            distance(0, 1, 20.0),
            distance(1, 2, 10.0),
            distance(2, 3, 20.0),
        ],
    );
    let order = bfs_order(&mut index).unwrap();
    assert_eq!(order, vec![vec![], vec![1], vec![0, 2], vec![0, 3]]);
    assert_order_correct(&index, &order);
    for (id, name) in ["A", "B", "C", "D"].iter().enumerate() {
        assert_eq!(index.get_or_insert(name), id);
    }
}

#[test]
fn separate_perpendiculars_leave_the_last_corner_open() {
    // Each perpendicular needs a known line of its own: the last corner is
    // pinned by one of them only.
    let mut index = figure(
        &["A", "B", "C", "D"],
        vec![
            perpendicular(&[0, 1, 1, 2]),
            perpendicular(&[1, 2, 2, 3]),
            perpendicular(&[2, 3, 3, 0]),
            distance(0, 1, 20.0),
            distance(1, 2, 10.0),
        ],
    );
    let (entries, _) = compute_tree(0, 1, &index);
    assert_eq!(entries, vec![(0, vec![]), (1, vec![3]), (2, vec![0, 4])]);
    assert_eq!(bfs_order(&mut index), Err(OrderingError::Unreached));
}

#[test]
fn chained_perpendicular_pins_the_last_corner_once() {
    // One constraint for the whole chain is credited to D once, so D never
    // becomes discrete.
    let mut index = figure(
        &["A", "B", "C", "D"],
        vec![
            perpendicular(&[0, 1, 1, 2, 2, 3, 3, 0]),
            distance(0, 1, 20.0),
            distance(1, 2, 10.0),
        ],
    );
    let (entries, _) = compute_tree(0, 1, &index);
    assert_eq!(entries, vec![(0, vec![]), (1, vec![1]), (2, vec![0, 2])]);
    assert_eq!(bfs_order(&mut index), Err(OrderingError::Unreached));
}

#[test]
fn collinear_points_are_ordered() {
    // A - B - C, |A B| = 1, |A C| = 2
    let mut index = figure(
        &["A", "B", "C"],
        vec![
            Constraint::Collinear(Collinear { points: vec![0, 1, 2] }),
            distance(0, 1, 1.0),
            distance(0, 2, 2.0),
        ],
    );
    let order = bfs_order(&mut index).unwrap();
    assert_eq!(order, vec![vec![], vec![1], vec![2, 0]]);
    assert_order_correct(&index, &order);
}

#[test]
fn chirality_trails_and_does_not_discretize() {
    // Two triangles on the base A B; the handedness of the second follows
    // that of the first.
    let mut index = figure(
        &["A", "B", "C", "D"],
        vec![
            Constraint::Chirality(AnglePolarity {
                points: vec![0, 1, 2, 0, 1, 3],
                polarities: vec![Polarity::Pro, Polarity::Anti],
            }),
            distance(0, 1, 1.0),
            distance(0, 2, 1.0),
            distance(1, 2, 1.0),
            distance(0, 3, 2.0),
            distance(1, 3, 2.0),
        ],
    );
    let order = bfs_order(&mut index).unwrap();
    assert_eq!(order.len(), 4);
    for cids in &order {
        // Chirality, the constraint 0, comes last where it occurs.
        if let Some(place) = cids.iter().position(|cid| *cid == 0) {
            assert_eq!(place, cids.len() - 1);
            assert!(cids.len() >= 3);
        }
    }
    assert!(order.iter().any(|cids| cids.contains(&0)));
    assert_order_correct(&index, &order);
}

#[test]
fn point_on_one_distance_grows_a_tree_of_its_own() {
    let mut index = figure(
        &["A", "B", "C", "D"],
        vec![
            Constraint::Chirality(AnglePolarity {
                points: vec![0, 1, 2, 0, 1, 3],
                polarities: vec![Polarity::Pro, Polarity::Pro],
            }),
            distance(0, 1, 1.0),
            distance(0, 2, 1.0),
            distance(1, 2, 1.0),
            distance(0, 3, 2.0),
        ],
    );
    // D has one distance and the chirality: it is not discrete in the tree
    // of A and B, and the pair of A and D grows a second tree.
    let forest = compute_forest(&index);
    assert_eq!(forest.len(), 2);
    assert_eq!(forest[1], vec![(0, vec![]), (3, vec![4])]);
    assert_eq!(bfs_order(&mut index), Err(OrderingError::AmbiguousPlacement));
}

#[test]
fn chirality_does_not_count_towards_discreteness() {
    let mut index = figure(
        &["A", "B", "C", "D"],
        vec![
            Constraint::Chirality(AnglePolarity {
                points: vec![0, 1, 2, 0, 1, 3],
                polarities: vec![Polarity::Pro, Polarity::Pro],
            }),
            distance(0, 1, 1.0),
            distance(0, 2, 1.0),
            distance(1, 2, 1.0),
        ],
    );
    let mut support = vec![Vec::new(); 4];
    let known: HashSet<usize> = [0, 1, 2].into_iter().collect();
    let found = expand_tree(&index, &known, 2, &mut support);
    assert_eq!(found, Vec::<usize>::new());
    assert_eq!(support[3], vec![0]);
    assert_eq!(bfs_order(&mut index), Err(OrderingError::Unreached));
}

#[test]
fn ordering_twice_gives_the_same_order() {
    let mut first = triangle();
    let mut second = triangle();
    let a = bfs_order(&mut first).unwrap();
    let b = bfs_order(&mut second).unwrap();
    assert_eq!(a, b);
    for p in 0..3 {
        assert_eq!(first.get_point(&p), second.get_point(&p));
        assert_eq!(first.get_cids(&p), second.get_cids(&p));
    }
    for cid in 0..3 {
        assert_eq!(first.get_constraint(cid).points(), second.get_constraint(cid).points());
    }
}

#[test]
fn ordering_renumbers_the_figure() {
    // C comes first by name, but is placed last.
    let mut index = figure(
        &["C", "A", "B"],
        vec![distance(1, 2, 1.0), distance(2, 0, 1.0), distance(0, 1, 1.0)],
    );
    let order = bfs_order(&mut index).unwrap();
    assert_order_correct(&index, &order);
    let mut names: Vec<String> = (0..3).map(|p| index.get_point(&p).clone()).collect();
    names.sort();
    assert_eq!(names, vec!["A", "B", "C"]);
    for p in 0..3 {
        let mut expected = Vec::new();
        for (cid, c) in index.constraints().iter().enumerate() {
            for q in c.points() {
                if *q == p {
                    expected.push(cid);
                }
            }
        }
        assert_eq!(index.get_cids(&p), &expected);
    }
}
