use gcad::constraints::constraints::Collinear;
use gcad::constraints::elements::Distance;
use gcad::constraints::Constraint;
use gcad::draw::PathCmd;
use gcad::order::{check_permutation, PointIndex};

fn distance(a: usize, b: usize) -> Constraint {
    Constraint::Distance(Distance { points: [a, b], dist: 1f64.to_bits() })
}

#[test]
fn points_get_the_next_free_number() {
    let mut index = PointIndex::new();
    assert_eq!(index.len(), 0);
    assert_eq!(index.get_or_insert("A"), 0);
    assert_eq!(index.get_or_insert("B"), 1);
    assert_eq!(index.get_or_insert("A"), 0);
    assert_eq!(index.get_or_insert("C"), 2);
    assert_eq!(index.len(), 3);
    assert_eq!(index.ids(), vec![0, 1, 2]);
    assert_eq!(index.get_point(&1), "B");
    assert_eq!(index.get_cids(&2), &Vec::<usize>::new());
}

#[test]
fn constraints_enter_the_reverse_index() {
    let mut index = PointIndex::new();
    for name in ["A", "B", "C"] {
        index.get_or_insert(name);
    }
    index.add_constraint(distance(0, 1));
    index.add_constraint(distance(1, 2));
    index.add_constraint(Constraint::Collinear(Collinear { points: vec![2, 0, 2] }));
    assert_eq!(index.constraint_count(), 3);
    assert_eq!(index.constraints().len(), 3);
    assert_eq!(index.get_cids(&0), &vec![0, 2]);
    assert_eq!(index.get_cids(&1), &vec![0, 1]);
    // A constraint is listed once for each time it names the point.
    assert_eq!(index.get_cids(&2), &vec![1, 2, 2]);
    assert_eq!(index.get_constraint(1).points(), &[1, 2]);
}

#[test]
fn map_ids_renumbers_everything() {
    let mut index = PointIndex::new();
    for name in ["A", "B", "C"] {
        index.get_or_insert(name);
    }
    index.add_constraint(distance(0, 1));
    index.add_constraint(distance(1, 2));
    index.add_path(vec![PathCmd::Move("A".to_string()), PathCmd::Line("B".to_string())]);
    // A -> 2, B -> 0, C -> 1
    index.map_ids(&[2, 0, 1]);
    assert_eq!(index.len(), 3);
    assert_eq!(index.get_point(&2), "A");
    assert_eq!(index.get_point(&0), "B");
    assert_eq!(index.get_point(&1), "C");
    assert_eq!(index.get_constraint(0).points(), &[2, 0]);
    assert_eq!(index.get_constraint(1).points(), &[0, 1]);
    assert_eq!(index.get_cids(&2), &vec![0]);
    assert_eq!(index.get_cids(&0), &vec![0, 1]);
    assert_eq!(index.get_cids(&1), &vec![1]);
    assert_eq!(index.get_or_insert("A"), 2);
    assert_eq!(index.get_or_insert("D"), 3);
    assert_eq!(index.paths().len(), 1);
    assert_eq!(index.paths()[0][1], PathCmd::Line("B".to_string()));
}

#[test]
fn map_ids_keeps_the_reverse_index_consistent() {
    let mut index = PointIndex::new();
    for name in ["A", "B", "C", "D"] {
        index.get_or_insert(name);
    }
    index.add_constraint(distance(0, 1));
    index.add_constraint(distance(2, 3));
    index.add_constraint(Constraint::Collinear(Collinear { points: vec![3, 1, 0] }));
    index.map_ids(&[3, 2, 1, 0]);
    for p in 0..index.len() {
        let mut expected = Vec::new();
        for (cid, c) in index.constraints().iter().enumerate() {
            for q in c.points() {
                assert!(*q < index.len());
                if *q == p {
                    expected.push(cid);
                }
            }
        }
        assert_eq!(index.get_cids(&p), &expected);
    }
}

#[test]
fn permutations_are_recognised() {
    assert!(check_permutation(&[]));
    assert!(check_permutation(&[0]));
    assert!(check_permutation(&[2, 0, 1]));
    assert!(!check_permutation(&[1]));
    assert!(!check_permutation(&[0, 0]));
    assert!(!check_permutation(&[0, 3, 1]));
    assert!(!check_permutation(&[1, 1, 2]));
}
