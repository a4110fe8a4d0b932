use rand::XorShiftRng;

use smawk::{is_monge, IntMatrix, MongePrim};

#[test]
fn is_monge_handles_overflow() {
    // The x + y <= z + w computations overflow for a matrix of values
    // this close to the maximum unless is_monge is careful.
    let v = i64::MAX - 200;
    let matrix = IntMatrix::from_rows(vec![
        vec![v, v, v, v],
        vec![v, v, v, v],
        vec![v, v, v, v],
    ])
    .unwrap();
    assert!(is_monge(&matrix));
}

#[test]
fn is_monge_rejects_violations() {
    let matrix = IntMatrix::from_rows(vec![vec![1, 0], vec![0, 1]]).unwrap();
    assert!(!is_monge(&matrix));
}

#[test]
fn is_monge_one_sided_overflow() {
    // A diagonal sum that overflows counts as larger than any
    // representable value, and an antidiagonal sum that overflows
    // counts in the matrix's favour.
    let big = i64::MAX;
    let overflowing_diagonal =
        IntMatrix::from_rows(vec![vec![big, 0], vec![0, big]]).unwrap();
    assert!(!is_monge(&overflowing_diagonal));
    let overflowing_antidiagonal =
        IntMatrix::from_rows(vec![vec![0, big], vec![big, 0]]).unwrap();
    assert!(is_monge(&overflowing_antidiagonal));
}

#[test]
fn monge_constant_rows() {
    let mut rng = XorShiftRng::new_unseeded();
    let matrix = MongePrim::ConstantRows.to_matrix(5, 4, &mut rng);
    assert_eq!(
        matrix.to_rows(),
        vec![
            vec![15, 15, 15, 15],
            vec![132, 132, 132, 132],
            vec![11, 11, 11, 11],
            vec![140, 140, 140, 140],
            vec![67, 67, 67, 67],
        ]
    );
}

#[test]
fn monge_constant_cols() {
    let mut rng = XorShiftRng::new_unseeded();
    let matrix = MongePrim::ConstantCols.to_matrix(5, 4, &mut rng);
    assert!(is_monge(&matrix));
    assert_eq!(
        matrix.to_rows(),
        vec![
            vec![15, 132, 11, 140],
            vec![15, 132, 11, 140],
            vec![15, 132, 11, 140],
            vec![15, 132, 11, 140],
            vec![15, 132, 11, 140],
        ]
    );
}

#[test]
fn monge_upper_right_ones() {
    let mut rng = XorShiftRng::new_unseeded();
    let matrix = MongePrim::UpperRightOnes.to_matrix(5, 4, &mut rng);
    assert!(is_monge(&matrix));
    assert_eq!(
        matrix.to_rows(),
        vec![
            vec![0, 0, 0, 1],
            vec![0, 0, 0, 1],
            vec![0, 0, 0, 0],
            vec![0, 0, 0, 0],
            vec![0, 0, 0, 0],
        ]
    );
}

#[test]
fn monge_lower_left_ones() {
    let mut rng = XorShiftRng::new_unseeded();
    let matrix = MongePrim::LowerLeftOnes.to_matrix(5, 4, &mut rng);
    assert!(is_monge(&matrix));
    assert_eq!(
        matrix.to_rows(),
        vec![
            vec![0, 0, 0, 0],
            vec![0, 0, 0, 0],
            vec![0, 0, 0, 0],
            vec![1, 0, 0, 0],
            vec![1, 0, 0, 0],
        ]
    );
}
