use nalgebra::{DMatrix, DVector, LU};
use trilattice::mat_gen::{generate_mat, BoundaryValue, PointInfo, PointMap};

fn value_of(v: BoundaryValue) -> f64 {
    match v {
        BoundaryValue::Linear { base, slope, num, den } => {
            base as f64 + slope as f64 * num as f64 / den as f64
        }
        BoundaryValue::Sine { amplitude, num, den } => {
            amplitude as f64 * (num as f64 * std::f64::consts::PI / den as f64).sin()
        }
    }
}

fn right_hand_side(b: &[Vec<BoundaryValue>]) -> Vec<f64> {
    b.iter().map(|terms| terms.iter().fold(0.0, |sum, v| sum + value_of(*v))).collect()
}

fn left(num: usize, den: usize) -> BoundaryValue {
    BoundaryValue::Linear { base: 10, slope: -10, num, den }
}

fn bottom(num: usize, den: usize) -> BoundaryValue {
    BoundaryValue::Linear { base: 10, slope: 20, num, den }
}

fn slanted(num: usize, den: usize) -> BoundaryValue {
    BoundaryValue::Sine { amplitude: 30, num, den }
}

#[test]
fn system_is_square_with_fours_on_the_diagonal() {
    for width in 1..=10usize {
        let n = width * (width + 1) / 2;
        let (a, b) = generate_mat(width);
        assert_eq!(a.len(), n);
        assert_eq!(b.len(), n);
        for i in 0..n {
            assert_eq!(a[i].len(), n);
            assert_eq!(a[i][i], 4);
        }
    }
}

#[test]
fn width_zero_gives_the_empty_system() {
    let (a, b) = generate_mat(0);
    assert!(a.is_empty());
    assert!(b.is_empty());
}

#[test]
fn system_of_width_one() {
    let (a, b) = generate_mat(1);
    assert_eq!(a, vec![vec![4i8]]);
    assert_eq!(b, vec![vec![left(1, 3), slanted(2, 6), bottom(1, 3), slanted(1, 6)]]);
    assert_eq!(right_hand_side(&b), vec![64.31409544686649]);
}

#[test]
fn system_of_width_two() {
    let (a, b) = generate_mat(2);
    assert_eq!(a, vec![vec![4i8, -1, 0], vec![-1, 4, -1], vec![0, -1, 4]]);
    assert_eq!(
        b,
        vec![
            vec![left(2, 4), slanted(2, 8), slanted(1, 8)],
            vec![left(1, 4), bottom(1, 4)],
            vec![slanted(3, 8), bottom(2, 4), slanted(2, 8)],
        ]
    );
    assert_eq!(right_hand_side(&b), vec![37.69370640654912, 22.5, 68.92958941093502]);
}

#[test]
fn system_of_width_three() {
    let (a, b) = generate_mat(3);
    assert_eq!(
        a,
        vec![
            vec![4i8, -1, 0, 0, 0, 0],
            vec![-1, 4, -1, -1, 0, 0],
            vec![0, -1, 4, 0, -1, 0],
            vec![0, -1, 0, 4, -1, 0],
            vec![0, 0, -1, -1, 4, -1],
            vec![0, 0, 0, 0, -1, 4],
        ]
    );
    assert_eq!(
        b,
        vec![
            vec![left(3, 5), slanted(2, 10), slanted(1, 10)],
            vec![left(2, 5)],
            vec![left(1, 5), bottom(1, 5)],
            vec![slanted(3, 10), slanted(2, 10)],
            vec![bottom(2, 5)],
            vec![slanted(4, 10), bottom(3, 5), slanted(3, 10)],
        ]
    );
    assert_eq!(
        right_hand_side(&b),
        vec![30.904067400022615, 6.0, 22.0, 41.90406740002262, 18.0, 74.80220532010304]
    );
}

#[test]
fn each_equation_holds_its_four_neighbours() {
    for width in 1..=9usize {
        let map = PointMap::with_width(width);
        let (a, b) = generate_mat(width);
        let n = a.len();
        for i in 0..n {
            let (x, y) = map.get_point_at(i).unwrap();
            let mut row = vec![0i8; n];
            row[i] = 4;
            let mut terms = Vec::new();
            for (xd, yd) in [(x - 1, y), (x + 1, y), (x, y - 1), (x, y + 1)] {
                match map.get_point(xd, yd) {
                    PointInfo::Value(v) => terms.push(v),
                    PointInfo::Unknown(j) => row[j] = -1,
                    PointInfo::Undefined => panic!("({}, {}) lies outside the triangle", xd, yd),
                }
            }
            assert_eq!(a[i], row);
            assert_eq!(b[i], terms);
            let unknown_neighbours = a[i].iter().filter(|c| **c == -1).count();
            assert_eq!(unknown_neighbours + b[i].len(), 4);
        }
    }
}

#[test]
fn coefficients_follow_adjacency() {
    for width in 1..=7usize {
        let map = PointMap::with_width(width);
        let (a, _) = generate_mat(width);
        let n = a.len();
        for i in 0..n {
            let (x, y) = map.get_point_at(i).unwrap();
            for j in 0..n {
                let (p, q) = map.get_point_at(j).unwrap();
                let apart = x.abs_diff(p) + y.abs_diff(q);
                let expected = if i == j {
                    4
                } else if apart == 1 {
                    -1
                } else {
                    0
                };
                assert_eq!(a[i][j], expected);
                assert_eq!(a[i][j], a[j][i]);
            }
        }
    }
}

#[test]
fn solution_of_width_six_satisfies_the_system() {
    let (a, b) = generate_mat(6);
    let n = a.len();
    assert_eq!(n, 21);
    let rhs = right_hand_side(&b);
    let matrix = DMatrix::from_fn(n, n, |r, c| a[r][c] as f64);
    let solution = LU::new(matrix).solve(&DVector::from_row_slice(&rhs)).unwrap();
    for i in 0..n {
        let mut sum = 0.0;
        for j in 0..n {
            sum += a[i][j] as f64 * solution[j];
        }
        assert!((sum - rhs[i]).abs() <= 1e-9 * rhs[i].abs().max(1.0));
    }
    for u in solution.iter() {
        assert!(0.0 < *u && *u < 30.0);
    }
}
