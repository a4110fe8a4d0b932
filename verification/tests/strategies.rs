use rand::XorShiftRng;

use smawk::{
    brute_force_column_minima, brute_force_row_minima, random_monge_matrix,
    recursive_column_minima, recursive_row_minima, smawk_column_minima, smawk_row_minima,
    IntMatrix, MinimaError,
};

#[test]
fn brute_force_1x1() {
    let matrix = IntMatrix::from_rows(vec![vec![2]]).unwrap();
    let minima = vec![0];
    assert_eq!(brute_force_row_minima(&matrix).unwrap(), minima);
    assert_eq!(brute_force_column_minima(&matrix.reversed_axes()).unwrap(), minima);
}

#[test]
fn brute_force_2x1() {
    let matrix = IntMatrix::from_rows(vec![vec![3], vec![2]]).unwrap();
    let minima = vec![0, 0];
    assert_eq!(brute_force_row_minima(&matrix).unwrap(), minima);
    assert_eq!(brute_force_column_minima(&matrix.reversed_axes()).unwrap(), minima);
}

#[test]
fn brute_force_1x2() {
    let matrix = IntMatrix::from_rows(vec![vec![2, 1]]).unwrap();
    let minima = vec![1];
    assert_eq!(brute_force_row_minima(&matrix).unwrap(), minima);
    assert_eq!(brute_force_column_minima(&matrix.reversed_axes()).unwrap(), minima);
}

#[test]
fn brute_force_2x2() {
    let matrix = IntMatrix::from_rows(vec![vec![3, 2], vec![2, 1]]).unwrap();
    let minima = vec![1, 1];
    assert_eq!(brute_force_row_minima(&matrix).unwrap(), minima);
    assert_eq!(brute_force_column_minima(&matrix.reversed_axes()).unwrap(), minima);
}

#[test]
fn brute_force_3x3() {
    let matrix =
        IntMatrix::from_rows(vec![vec![3, 4, 4], vec![3, 4, 4], vec![2, 3, 3]]).unwrap();
    let minima = vec![0, 0, 0];
    assert_eq!(brute_force_row_minima(&matrix).unwrap(), minima);
    assert_eq!(brute_force_column_minima(&matrix.reversed_axes()).unwrap(), minima);
}

#[test]
fn brute_force_4x4() {
    let matrix = IntMatrix::from_rows(vec![
        vec![4, 5, 5, 5],
        vec![2, 3, 3, 3],
        vec![2, 3, 3, 3],
        vec![2, 2, 2, 2],
    ])
    .unwrap();
    let minima = vec![0, 0, 0, 0];
    assert_eq!(brute_force_row_minima(&matrix).unwrap(), minima);
    assert_eq!(brute_force_column_minima(&matrix.reversed_axes()).unwrap(), minima);
}

#[test]
fn brute_force_5x5() {
    let matrix = IntMatrix::from_rows(vec![
        vec![3, 2, 4, 5, 6],
        vec![2, 1, 3, 3, 4],
        vec![2, 1, 3, 3, 4],
        vec![3, 2, 4, 3, 4],
        vec![4, 3, 2, 1, 1],
    ])
    .unwrap();
    let minima = vec![1, 1, 1, 1, 3];
    assert_eq!(brute_force_row_minima(&matrix).unwrap(), minima);
    assert_eq!(brute_force_column_minima(&matrix.reversed_axes()).unwrap(), minima);
}

#[test]
fn recursive_1x1() {
    let matrix = IntMatrix::from_rows(vec![vec![2]]).unwrap();
    let minima = vec![0];
    assert_eq!(recursive_row_minima(&matrix).unwrap(), minima);
    assert_eq!(recursive_column_minima(&matrix.reversed_axes()).unwrap(), minima);
}

#[test]
fn recursive_2x1() {
    let matrix = IntMatrix::from_rows(vec![vec![3], vec![2]]).unwrap();
    let minima = vec![0, 0];
    assert_eq!(recursive_row_minima(&matrix).unwrap(), minima);
    assert_eq!(recursive_column_minima(&matrix.reversed_axes()).unwrap(), minima);
}

#[test]
fn recursive_1x2() {
    let matrix = IntMatrix::from_rows(vec![vec![2, 1]]).unwrap();
    let minima = vec![1];
    assert_eq!(recursive_row_minima(&matrix).unwrap(), minima);
    assert_eq!(recursive_column_minima(&matrix.reversed_axes()).unwrap(), minima);
}

#[test]
fn recursive_2x2() {
    let matrix = IntMatrix::from_rows(vec![vec![3, 2], vec![2, 1]]).unwrap();
    let minima = vec![1, 1];
    assert_eq!(recursive_row_minima(&matrix).unwrap(), minima);
    assert_eq!(recursive_column_minima(&matrix.reversed_axes()).unwrap(), minima);
}

#[test]
fn recursive_3x3() {
    let matrix =
        IntMatrix::from_rows(vec![vec![3, 4, 4], vec![3, 4, 4], vec![2, 3, 3]]).unwrap();
    let minima = vec![0, 0, 0];
    assert_eq!(recursive_row_minima(&matrix).unwrap(), minima);
    assert_eq!(recursive_column_minima(&matrix.reversed_axes()).unwrap(), minima);
}

#[test]
fn recursive_4x4() {
    let matrix = IntMatrix::from_rows(vec![
        vec![4, 5, 5, 5],
        vec![2, 3, 3, 3],
        vec![2, 3, 3, 3],
        vec![2, 2, 2, 2],
    ])
    .unwrap();
    let minima = vec![0, 0, 0, 0];
    assert_eq!(recursive_row_minima(&matrix).unwrap(), minima);
    assert_eq!(recursive_column_minima(&matrix.reversed_axes()).unwrap(), minima);
}

#[test]
fn recursive_5x5() {
    let matrix = IntMatrix::from_rows(vec![
        vec![3, 2, 4, 5, 6],
        vec![2, 1, 3, 3, 4],
        vec![2, 1, 3, 3, 4],
        vec![3, 2, 4, 3, 4],
        vec![4, 3, 2, 1, 1],
    ])
    .unwrap();
    let minima = vec![1, 1, 1, 1, 3];
    assert_eq!(recursive_row_minima(&matrix).unwrap(), minima);
    assert_eq!(recursive_column_minima(&matrix.reversed_axes()).unwrap(), minima);
}

#[test]
fn smawk_1x1() {
    let matrix = IntMatrix::from_rows(vec![vec![2]]).unwrap();
    let minima = vec![0];
    assert_eq!(smawk_row_minima(&matrix).unwrap(), minima);
    assert_eq!(smawk_column_minima(&matrix.reversed_axes()).unwrap(), minima);
}

#[test]
fn smawk_2x1() {
    let matrix = IntMatrix::from_rows(vec![vec![3], vec![2]]).unwrap();
    let minima = vec![0, 0];
    assert_eq!(smawk_row_minima(&matrix).unwrap(), minima);
    assert_eq!(smawk_column_minima(&matrix.reversed_axes()).unwrap(), minima);
}

#[test]
fn smawk_1x2() {
    let matrix = IntMatrix::from_rows(vec![vec![2, 1]]).unwrap();
    let minima = vec![1];
    assert_eq!(smawk_row_minima(&matrix).unwrap(), minima);
    assert_eq!(smawk_column_minima(&matrix.reversed_axes()).unwrap(), minima);
}

#[test]
fn smawk_2x2() {
    let matrix = IntMatrix::from_rows(vec![vec![3, 2], vec![2, 1]]).unwrap();
    let minima = vec![1, 1];
    assert_eq!(smawk_row_minima(&matrix).unwrap(), minima);
    assert_eq!(smawk_column_minima(&matrix.reversed_axes()).unwrap(), minima);
}

#[test]
fn smawk_3x3() {
    let matrix =
        IntMatrix::from_rows(vec![vec![3, 4, 4], vec![3, 4, 4], vec![2, 3, 3]]).unwrap();
    let minima = vec![0, 0, 0];
    assert_eq!(smawk_row_minima(&matrix).unwrap(), minima);
    assert_eq!(smawk_column_minima(&matrix.reversed_axes()).unwrap(), minima);
}

#[test]
fn smawk_4x4() {
    let matrix = IntMatrix::from_rows(vec![
        vec![4, 5, 5, 5],
        vec![2, 3, 3, 3],
        vec![2, 3, 3, 3],
        vec![2, 2, 2, 2],
    ])
    .unwrap();
    let minima = vec![0, 0, 0, 0];
    assert_eq!(smawk_row_minima(&matrix).unwrap(), minima);
    assert_eq!(smawk_column_minima(&matrix.reversed_axes()).unwrap(), minima);
}

#[test]
fn smawk_5x5() {
    let matrix = IntMatrix::from_rows(vec![
        vec![3, 2, 4, 5, 6],
        vec![2, 1, 3, 3, 4],
        vec![2, 1, 3, 3, 4],
        vec![3, 2, 4, 3, 4],
        vec![4, 3, 2, 1, 1],
    ])
    .unwrap();
    let minima = vec![1, 1, 1, 1, 3];
    assert_eq!(smawk_row_minima(&matrix).unwrap(), minima);
    assert_eq!(smawk_column_minima(&matrix.reversed_axes()).unwrap(), minima);
}

#[test]
fn implementations_agree() {
    let sizes = vec![1, 2, 3, 4, 5, 10, 15, 20, 30];
    let mut rng = XorShiftRng::new_unseeded();
    for _ in 0..4 {
        for m in sizes.clone().iter() {
            for n in sizes.clone().iter() {
                let matrix = random_monge_matrix(*m, *n, &mut rng);

                let brute_force = brute_force_row_minima(&matrix).unwrap();
                let recursive = recursive_row_minima(&matrix).unwrap();
                let smawk = smawk_row_minima(&matrix).unwrap();
                assert_eq!(
                    brute_force,
                    recursive,
                    "recursive and brute force differs on:\n{:?}",
                    matrix.to_rows()
                );
                assert_eq!(
                    brute_force,
                    smawk,
                    "SMAWK and brute force differs on:\n{:?}",
                    matrix.to_rows()
                );

                let brute_force = brute_force_column_minima(&matrix).unwrap();
                let recursive = recursive_column_minima(&matrix).unwrap();
                let smawk = smawk_column_minima(&matrix).unwrap();
                assert_eq!(
                    brute_force,
                    recursive,
                    "recursive and brute force differs on:\n{:?}",
                    matrix.to_rows()
                );
                assert_eq!(
                    brute_force,
                    smawk,
                    "SMAWK and brute force differs on:\n{:?}",
                    matrix.to_rows()
                );
            }
        }
    }
}

#[test]
fn leftmost_tie_break() {
    let matrix = IntMatrix::from_rows(vec![vec![2, 1], vec![2, 1]]).unwrap();
    let minima = vec![1, 1];
    assert_eq!(brute_force_row_minima(&matrix).unwrap(), minima);
    assert_eq!(recursive_row_minima(&matrix).unwrap(), minima);
    assert_eq!(smawk_row_minima(&matrix).unwrap(), minima);
}

#[test]
fn documented_column_minima() {
    let matrix = IntMatrix::from_rows(vec![
        vec![3, 2, 4, 5, 6],
        vec![2, 1, 3, 3, 4],
        vec![2, 1, 3, 3, 4],
        vec![3, 2, 4, 3, 4],
        vec![4, 3, 2, 1, 1],
    ])
    .unwrap();
    let minima = vec![1, 1, 4, 4, 4];
    assert_eq!(brute_force_column_minima(&matrix).unwrap(), minima);
    assert_eq!(recursive_column_minima(&matrix).unwrap(), minima);
    assert_eq!(smawk_column_minima(&matrix).unwrap(), minima);
}

#[test]
fn zero_columns_row_minima_fail() {
    let matrix = IntMatrix::from_rows(vec![vec![], vec![], vec![]]).unwrap();
    assert_eq!(brute_force_row_minima(&matrix), Err(MinimaError::EmptyInput));
    assert_eq!(recursive_row_minima(&matrix), Err(MinimaError::EmptyInput));
    assert_eq!(smawk_row_minima(&matrix), Err(MinimaError::EmptyInput));
}

#[test]
fn zero_rows_column_minima_fail() {
    let matrix = IntMatrix::from_rows(vec![]).unwrap();
    assert_eq!(brute_force_column_minima(&matrix), Err(MinimaError::EmptyInput));
    assert_eq!(recursive_column_minima(&matrix), Err(MinimaError::EmptyInput));
    assert_eq!(smawk_column_minima(&matrix), Err(MinimaError::EmptyInput));
}

#[test]
fn strategies_are_idempotent() {
    let matrix = IntMatrix::from_rows(vec![
        vec![3, 2, 4, 5, 6],
        vec![2, 1, 3, 3, 4],
        vec![2, 1, 3, 3, 4],
        vec![3, 2, 4, 3, 4],
        vec![4, 3, 2, 1, 1],
    ])
    .unwrap();
    assert_eq!(
        brute_force_row_minima(&matrix).unwrap(),
        brute_force_row_minima(&matrix).unwrap()
    );
    assert_eq!(
        recursive_row_minima(&matrix).unwrap(),
        recursive_row_minima(&matrix).unwrap()
    );
    assert_eq!(
        smawk_column_minima(&matrix).unwrap(),
        smawk_column_minima(&matrix).unwrap()
    );
}
