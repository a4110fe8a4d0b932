use rand::XorShiftRng;

use smawk::{brute_force_column_minima, online_column_minima, random_monge_matrix, IntMatrix};

#[test]
fn online_1x1() {
    let matrix = IntMatrix::from_rows(vec![vec![0]]).unwrap();
    let minima = vec![(0, 0)];
    assert_eq!(online_column_minima(0, 1, &matrix), minima);
}

#[test]
fn online_2x2() {
    let matrix = IntMatrix::from_rows(vec![vec![0, 2], vec![0, 0]]).unwrap();
    let minima = vec![(0, 0), (0, 2)];
    assert_eq!(online_column_minima(0, 2, &matrix), minima);
}

#[test]
fn online_3x3() {
    let matrix =
        IntMatrix::from_rows(vec![vec![0, 4, 4], vec![0, 0, 4], vec![0, 0, 0]]).unwrap();
    let minima = vec![(0, 0), (0, 4), (0, 4)];
    assert_eq!(online_column_minima(0, 3, &matrix), minima);
}

#[test]
fn online_4x4() {
    let matrix = IntMatrix::from_rows(vec![
        vec![0, 5, 5, 5],
        vec![0, 0, 3, 3],
        vec![0, 0, 0, 3],
        vec![0, 0, 0, 0],
    ])
    .unwrap();
    let minima = vec![(0, 0), (0, 5), (1, 3), (1, 3)];
    assert_eq!(online_column_minima(0, 4, &matrix), minima);
}

#[test]
fn online_5x5() {
    let matrix = IntMatrix::from_rows(vec![
        vec![0, 2, 4, 6, 7],
        vec![0, 0, 3, 4, 5],
        vec![0, 0, 0, 3, 4],
        vec![0, 0, 0, 0, 4],
        vec![0, 0, 0, 0, 0],
    ])
    .unwrap();
    let minima = vec![(0, 0), (0, 2), (1, 3), (2, 3), (2, 4)];
    assert_eq!(online_column_minima(0, 5, &matrix), minima);
}

#[test]
fn online_agree() {
    let sizes = vec![1, 2, 3, 4, 5, 10, 15, 20, 30, 50];
    let mut rng = XorShiftRng::new_unseeded();
    for _ in 0..5 {
        for &size in &sizes {
            // Random totally monotone square matrix of the desired
            // size.
            let matrix = random_monge_matrix(size, size, &mut rng);
            let mut rows = matrix.to_rows();

            // Adjust the matrix so the column minima are above the
            // diagonal: fill the diagonal and everything below it with
            // the maximum value of the matrix.
            let mut max = 0;
            for row in rows.iter() {
                for &elem in row.iter() {
                    if elem > max {
                        max = elem;
                    }
                }
            }
            for idx in 0..size {
                for col in 0..=idx {
                    rows[idx][col] = max;
                }
            }

            // The online algorithm always returns the initial value
            // for the left-most column without inspecting it, so force
            // the left-most column to that value for the brute-force
            // oracle as well.
            let initial = 42;
            for idx in 0..size {
                rows[idx][0] = initial;
            }

            let adjusted = IntMatrix::from_rows(rows.clone()).unwrap();
            let brute_force = brute_force_column_minima(&adjusted)
                .unwrap()
                .iter()
                .enumerate()
                .map(|(j, &i)| (i, rows[i][j]))
                .collect::<Vec<_>>();
            let online = online_column_minima(initial, size, &adjusted);
            assert_eq!(
                brute_force, online,
                "brute force and online differ on:\n{:3?}",
                rows
            );
        }
    }
}
