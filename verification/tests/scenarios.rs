use gcad::constraints::locus::Locus;
use gcad::order::bfs::bfs_order;
use gcad::order::model::OrderingError;
use gcad::order::PointIndex;
use gcad::parse::document::{equality_sides, read_line};
use gcad::solve::brute::{Action, Search};
use gcad::solve::lowering::point_loci;
use gcad::util::locate;

const EPS: f64 = 1e-9;

type V = (f64, f64);

#[derive(Debug, Clone, Copy, PartialEq)]
enum Geo {
    Point(V),
    Line { o: V, v: V, l: f64 },
    Circle { c: V, r: f64 },
    Half { o: V, n: V },
    All,
}

fn sub(a: V, b: V) -> V {
    (a.0 - b.0, a.1 - b.1)
}

fn add(a: V, b: V) -> V {
    (a.0 + b.0, a.1 + b.1)
}

fn scale(a: V, t: f64) -> V {
    (a.0 * t, a.1 * t)
}

fn dot(a: V, b: V) -> f64 {
    a.0 * b.0 + a.1 * b.1
}

fn cross(a: V, b: V) -> f64 {
    a.0 * b.1 - a.1 * b.0
}

fn mag(a: V) -> f64 {
    dot(a, a).sqrt()
}

fn unit(a: V) -> V {
    scale(a, 1.0 / mag(a))
}

fn perp(a: V) -> V {
    (-a.1, a.0)
}

fn rot(a: V, angle: f64) -> V {
    (a.0 * angle.cos() - a.1 * angle.sin(), a.0 * angle.sin() + a.1 * angle.cos())
}

fn on(p: V, g: Geo) -> bool {
    match g {
        Geo::All => true,
        Geo::Point(q) => mag(sub(p, q)) <= EPS,
        Geo::Line { o, v, l } => {
            let t = dot(sub(p, o), v).max(l);
            mag(sub(p, add(o, scale(v, t)))) <= 1e-7
        }
        Geo::Circle { c, r } => (mag(sub(p, c)) - r).abs() <= 1e-7,
        Geo::Half { o, n } => dot(n, sub(p, o)) >= -1e-7,
    }
}

fn intersect(g0: Geo, g1: Geo) -> Vec<Geo> {
    if g0 == g1 {
        return vec![g0];
    }
    match (g0, g1) {
        (Geo::All, g) | (g, Geo::All) => vec![g],
        (Geo::Point(p), g) | (g, Geo::Point(p)) => {
            if on(p, g) {
                vec![Geo::Point(p)]
            } else {
                vec![]
            }
        }
        (Geo::Half { .. }, g) | (g, Geo::Half { .. }) => vec![g],
        (Geo::Line { o: o0, v: v0, l: l0 }, Geo::Line { o: o1, v: v1, l: l1 }) => {
            let b = sub(o1, o0);
            let a = cross(v0, v1);
            if a.abs() <= EPS {
                return vec![];
            }
            let t0 = cross(b, v1) / a;
            let t1 = cross(b, v0) / a;
            if t0 < l0 || t1 < l1 {
                vec![]
            } else {
                vec![Geo::Point(add(o0, scale(v0, t0)))]
            }
        }
        (Geo::Circle { c, r }, Geo::Line { o, v, l })
        | (Geo::Line { o, v, l }, Geo::Circle { c, r }) => {
            let oc = sub(o, c);
            let b = dot(v, oc);
            let delta = b * b - (dot(oc, oc) - r * r);
            let roots = if delta.abs() <= EPS {
                vec![-b]
            } else if delta < 0.0 {
                vec![]
            } else {
                vec![-b + delta.sqrt(), -b - delta.sqrt()]
            };
            roots
                .into_iter()
                .filter(|t| *t >= l)
                .map(|t| Geo::Point(add(o, scale(v, t))))
                .collect()
        }
        (Geo::Circle { c: c0, r: r0 }, Geo::Circle { c: c1, r: r1 }) => {
            let d = mag(sub(c1, c0));
            if d < (r0 - r1).abs() || d > r0 + r1 {
                return vec![];
            }
            let dir = unit(sub(c1, c0));
            let a = (r0 * r0 - r1 * r1 + d * d) / (2.0 * d);
            let c = add(c0, scale(dir, a));
            if (d - (r0 + r1)).abs() <= EPS {
                return vec![Geo::Point(c)];
            }
            let h = (r0 * r0 - a * a).sqrt();
            let hv = scale(perp(dir), h);
            vec![Geo::Point(add(c, hv)), Geo::Point(sub(c, hv))]
        }
    }
}

fn meet(a: Vec<Geo>, b: Vec<Geo>) -> Vec<Geo> {
    let mut out = Vec::new();
    for g0 in &a {
        for g1 in &b {
            out.extend(intersect(*g0, *g1));
        }
    }
    out
}

fn pick(g: Geo) -> V {
    match g {
        Geo::All => (0.0, 0.0),
        Geo::Point(p) => p,
        Geo::Line { o, v, l } => add(o, scale(v, l.max(0.0) + 1.0)),
        Geo::Circle { c, r } => (c.0 + r, c.1),
        Geo::Half { o, n } => add(o, n),
    }
}

fn evaluate(locus: Locus, pos: &[V]) -> Vec<Geo> {
    match locus {
        Locus::Circle { center, radius } => {
            vec![Geo::Circle { c: pos[center], r: f64::from_bits(radius) }]
        }
        Locus::Inscribed { start, end, measure } => {
            let measure = f64::from_bits(measure);
            let (s, e) = (pos[start], pos[end]);
            let d = mag(sub(e, s));
            let v = unit(sub(e, s));
            let r = d / 2.0 / measure.sin();
            let mid = scale(add(s, e), 0.5);
            let a = r * measure.cos();
            if a.abs() <= EPS {
                vec![Geo::Circle { c: mid, r }]
            } else {
                let va = scale(perp(v), a);
                vec![Geo::Circle { c: add(mid, va), r }, Geo::Circle { c: sub(mid, va), r }]
            }
        }
        Locus::Rays { origin, arm, measure } => {
            let measure = f64::from_bits(measure);
            let o = pos[origin];
            let b = unit(sub(pos[arm], o));
            vec![
                Geo::Line { o, v: rot(b, measure), l: 0.0 },
                Geo::Line { o, v: rot(b, -measure), l: 0.0 },
            ]
        }
        Locus::Line { through, from, to, turned } => {
            let v = unit(sub(pos[to], pos[from]));
            vec![Geo::Line {
                o: pos[through],
                v: if turned { perp(v) } else { v },
                l: f64::NEG_INFINITY,
            }]
        }
        Locus::Half { origin, toward, first, second, third, same } => {
            let dir =
                cross(sub(pos[second], pos[first]), sub(pos[third], pos[second])).signum();
            let o = pos[origin];
            vec![Geo::Half {
                o,
                n: scale(perp(unit(sub(pos[toward], o))), if same { dir } else { -dir }),
            }]
        }
    }
}

fn candidates(index: &PointIndex, cids: &[usize], pos: &[V], i: usize) -> Vec<Geo> {
    point_loci(index, cids, i)
        .unwrap()
        .into_iter()
        .map(|loci| loci.into_iter().flat_map(|locus| evaluate(locus, pos)).collect())
        .reduce(meet)
        .unwrap_or_else(|| vec![Geo::All])
}

fn solve(index: &PointIndex, order: &[Vec<usize>]) -> Option<Vec<V>> {
    let mut pos = vec![(0.0, 0.0); order.len()];
    let mut stack: Vec<Vec<Geo>> = Vec::new();
    let (mut search, mut action) = Search::new(order.len());
    loop {
        match action {
            Action::Expand(i) => {
                stack.truncate(i);
                let geo = candidates(index, &order[i], &pos[..i], i);
                let count = geo.len();
                stack.push(geo);
                action = search.candidates(count);
            }
            Action::Place(i, k) => {
                stack.truncate(i + 1);
                pos[i] = pick(stack[i][k]);
                action = search.placed();
            }
            Action::Done => return Some(pos),
            Action::Failed => return None,
        }
    }
}

fn read(text: &str) -> PointIndex {
    let mut index = PointIndex::new();
    let mut comment = false;
    for line in text.lines() {
        let line = line.trim();
        let values: Vec<Option<u64>> = equality_sides(line)
            .iter()
            .map(|side| side.parse::<f64>().ok().map(f64::to_bits))
            .collect();
        let (open, result) = read_line(comment, line, &values, &mut index);
        comment = open;
        assert!(result.is_ok());
    }
    index
}

/// The places of the points by their names, after ordering and solving.
fn places(text: &str, names: &[&str]) -> Vec<V> {
    let mut index = read(text);
    let order = bfs_order(&mut index).unwrap();
    let pos = solve(&index, &order).unwrap();
    // Every candidate that was taken lies on every locus of its point.
    for (i, cids) in order.iter().enumerate() {
        for cid in cids {
            let c = index.get_constraint(*cid);
            let t_ind = locate(c.points(), &i).unwrap();
            let loci: Vec<Geo> =
                c.geo(i, t_ind).into_iter().flat_map(|l| evaluate(l, &pos[..i])).collect();
            assert!(loci.iter().any(|g| on(pos[i], *g)));
        }
    }
    names.iter().map(|name| pos[index.get_or_insert(name)]).collect()
}

fn about(a: f64, b: f64) -> bool {
    (a - b).abs() <= 1e-7
}

#[test]
fn equilateral_triangle_is_solved() {
    let p = places("|A B| = |B C| = |C A| = 1", &["A", "B", "C"]);
    assert!(about(mag(sub(p[0], p[1])), 1.0));
    assert!(about(mag(sub(p[1], p[2])), 1.0));
    assert!(about(mag(sub(p[2], p[0])), 1.0));
    assert!(cross(sub(p[1], p[0]), sub(p[2], p[0])).abs() > 0.5);
}

#[test]
fn single_distance_is_solved() {
    let p = places("|A B| = 1", &["A", "B"]);
    assert_eq!(p[0], (0.0, 0.0));
    assert_eq!(p[1], (1.0, 0.0));
}

#[test]
fn duplicate_distance_is_solved() {
    let p = places("|A B| = 3\n|A B| = 3", &["A", "B"]);
    assert!(about(mag(sub(p[0], p[1])), 3.0));
}

#[test]
fn collinear_points_are_solved() {
    let p = places("A - B - C\n|A B| = 1\n|A C| = 2", &["A", "B", "C"]);
    assert!(cross(sub(p[2], p[0]), sub(p[1], p[0])).abs() <= 1e-7);
    assert!(about(mag(sub(p[2], p[0])), 2.0 * mag(sub(p[1], p[0]))));
}

#[test]
fn three_sides_of_a_rectangle_are_solved() {
    let p = places(
        "A B ⟂ B C ⟂ C D ⟂ D A\n|A B| = 20\n|B C| = 10\n|C D| = 20",
        &["A", "B", "C", "D"],
    );
    assert!(about(mag(sub(p[0], p[1])), 20.0));
    assert!(about(mag(sub(p[1], p[2])), 10.0));
    assert!(about(mag(sub(p[2], p[3])), 20.0));
    // The corners at B and C are right angles. The chain is credited to D
    // once, for the line from C to D, so the corner at D is not looked at.
    for i in 0..2 {
        let a = sub(p[i + 1], p[i]);
        let b = sub(p[i + 2], p[i + 1]);
        assert!(dot(unit(a), unit(b)).abs() <= 1e-7);
    }
}

#[test]
fn rectangle_of_two_sides_is_not_ordered() {
    let mut index = read("A B ⟂ B C ⟂ C D ⟂ D A\n|A B| = 20\n|B C| = 10");
    assert_eq!(bfs_order(&mut index), Err(OrderingError::Unreached));
}

#[test]
fn angle_is_solved() {
    let quarter = std::f64::consts::FRAC_PI_2;
    let p = places(
        &format!("|A B| = 1\n|B C| = 1\n∠ A B C = {quarter}"),
        &["A", "B", "C"],
    );
    assert!(about(mag(sub(p[0], p[1])), 1.0));
    assert!(about(mag(sub(p[1], p[2])), 1.0));
    assert!(dot(sub(p[0], p[1]), sub(p[2], p[1])).abs() <= 1e-7);
}

#[test]
fn chirality_selects_the_side() {
    let base = "|A B| = 1\n|A C| = 1\n|B C| = 1\n|A D| = 1\n|B D| = 1\n";
    let side = |p: &[V]| {
        (
            cross(sub(p[1], p[0]), sub(p[2], p[1])).signum(),
            cross(sub(p[1], p[0]), sub(p[3], p[1])).signum(),
        )
    };
    // Without a word on the handedness the first candidate is taken.
    let plain = places(base, &["A", "B", "C", "D"]);
    assert!(about(mag(sub(plain[3], plain[0])), 1.0));
    assert!(about(mag(sub(plain[3], plain[1])), 1.0));
    // The same handedness: D lies where C lies.
    let same = places(&format!("{base}± ∠ A B C, ± ∠ A B D"), &["A", "B", "C", "D"]);
    let (c, d) = side(&same);
    assert_eq!(c, d);
    assert!(mag(sub(same[2], same[3])) <= 1e-7);
    // The other handedness: D lies across the line through A and B.
    let other = places(&format!("{base}± ∠ A B C, ∓ ∠ A B D"), &["A", "B", "C", "D"]);
    let (c, d) = side(&other);
    assert_eq!(c, -d);
    assert!(about(mag(sub(other[3], other[0])), 1.0));
    assert!(about(mag(sub(other[3], other[1])), 1.0));
}

#[test]
fn distances_that_cannot_be_met_fail() {
    // C is to be 1 from A and from B, which are 3 apart.
    let mut index = read("|A B| = 3\n|A C| = 1\n|B C| = 1");
    let order = bfs_order(&mut index).unwrap();
    assert_eq!(solve(&index, &order), None);
}

#[test]
fn solving_twice_gives_the_same_places() {
    let text = "|A B| = 2\n|B C| = 3\n|C A| = 4\n|C D| = 1\n|A D| = 4";
    let names = ["A", "B", "C", "D"];
    let first = places(text, &names);
    let second = places(text, &names);
    for (a, b) in first.iter().zip(second.iter()) {
        assert_eq!(a.0.to_bits(), b.0.to_bits());
        assert_eq!(a.1.to_bits(), b.1.to_bits());
    }
}
