use matrix_engine::{dot_product, fan_in, fan_out, multiply, route, run_lane, worker_step};
use matrix_engine::{Matrix, MatrixError, MsgInput, MsgOutput, Vector, NUM_THREADS};

#[test]
fn test_matrix_multiply() {
    let a = Matrix::new(vec![1, 2, 3, 4, 5, 6], 2, 3);
    let b = Matrix::new(vec![1, 2, 3, 4, 5, 6], 3, 2);
    let c = a * b;
    assert_eq!(c.col, 2);
    assert_eq!(c.row, 2);
    assert_eq!(
        c.debug_string(),
        "Matrix { data: {22 28, 49 64}, row: 2, col: 2 }"
    );
}

#[test]
#[should_panic]
fn test_matrix_multiply_panic() {
    let a = Matrix::new(vec![1, 2, 3, 4, 5, 6], 2, 3);
    let b = Matrix::new(vec![1, 2, 3, 4, 5, 6], 2, 3);
    let _ = a * b;
}

#[test]
fn multiply_known_product() {
    let a = Matrix::new(vec![1, 2, 3, 4, 5, 6], 2, 3);
    let b = Matrix::new(vec![1, 2, 3, 4, 5, 6], 3, 2);
    let c = multiply(&a, &b).unwrap();
    assert_eq!(c.data, vec![22, 28, 49, 64]);
}

#[test]
fn multiply_dimension_mismatch_is_error_not_panic() {
    let a = Matrix::new(vec![1, 2, 3, 4, 5, 6], 2, 3);
    let b = Matrix::new(vec![1, 2, 3, 4, 5, 6], 2, 3);
    let r = multiply(&a, &b);
    assert!(matches!(r, Err(MatrixError::DimensionMismatch)));
}

#[test]
fn multiply_dimension_mismatch_degenerate_shapes() {
    let a = Matrix::new(vec![], 2, 0);
    let b = Matrix::new(vec![1], 1, 1);
    assert!(matches!(multiply(&a, &b), Err(MatrixError::DimensionMismatch)));

    let a = Matrix::new(vec![], 0, 0);
    let b = Matrix::new(vec![1, 2], 1, 2);
    assert!(matches!(multiply(&a, &b), Err(MatrixError::DimensionMismatch)));
}

#[test]
fn multiply_degenerate_compatible_shapes() {
    // 0x3 times 3x0 gives an empty 0x0 matrix.
    let a = Matrix::new(vec![], 0, 3);
    let b = Matrix::new(vec![], 3, 0);
    let c = multiply(&a, &b).unwrap();
    assert_eq!(c.row, 0);
    assert_eq!(c.col, 0);
    assert_eq!(c.data, Vec::<i64>::new());

    // 2x0 times 0x3: every cell is an empty dot product, the additive identity.
    let a = Matrix::new(vec![], 2, 0);
    let b = Matrix::new(vec![], 0, 3);
    let c = multiply(&a, &b).unwrap();
    assert_eq!(c.row, 2);
    assert_eq!(c.col, 3);
    assert_eq!(c.data, vec![0, 0, 0, 0, 0, 0]);
}

#[test]
fn multiply_one_by_one_is_scalar_product() {
    let a = Matrix::new(vec![7], 1, 1);
    let b = Matrix::new(vec![6], 1, 1);
    let c = multiply(&a, &b).unwrap();
    assert_eq!(c.row, 1);
    assert_eq!(c.col, 1);
    assert_eq!(c.data, vec![42]);
}

#[test]
fn fan_out_one_by_one_dispatches_one_task() {
    let a = Matrix::new(vec![7], 1, 1);
    let b = Matrix::new(vec![6], 1, 1);
    let lanes = fan_out(&a, &b);
    assert_eq!(lanes.len(), NUM_THREADS);
    let total: usize = lanes.iter().map(|lane| lane.len()).sum();
    assert_eq!(total, 1);
    assert_eq!(lanes[0].len(), 1);
    assert_eq!(lanes[0][0].idx, 0);
}

#[test]
fn fan_out_routes_by_linear_index() {
    let a = Matrix::new(vec![1, 2, 3, 4, 5, 6], 2, 3);
    let b = Matrix::new(vec![1, 2, 3, 4, 5, 6], 3, 2);
    let lanes = fan_out(&a, &b);
    assert_eq!(lanes.len(), NUM_THREADS);
    let total: usize = lanes.iter().map(|lane| lane.len()).sum();
    assert_eq!(total, 4);
    for (l, lane) in lanes.iter().enumerate() {
        for task in lane {
            assert_eq!(task.idx % NUM_THREADS, l);
        }
    }
}

#[test]
fn run_lane_one_by_one_collects_exactly_one_reply() {
    let a = Matrix::new(vec![7], 1, 1);
    let b = Matrix::new(vec![6], 1, 1);
    let mut lanes = fan_out(&a, &b);
    let replies: Vec<_> = lanes.drain(..).map(run_lane).collect();
    assert_eq!(replies.iter().map(|r| r.len()).sum::<usize>(), 1);
    assert_eq!(replies[0].len(), 1);
    assert_eq!(replies[0][0], MsgOutput { idx: 0, value: 42 });
}

#[test]
fn run_lane_answers_every_task_newest_first() {
    let lane = vec![
        MsgInput::new(0, Vector::new(vec![1, 2]), Vector::new(vec![3, 4])),
        MsgInput::new(4, Vector::new(vec![5]), Vector::new(vec![6])),
    ];
    let replies = run_lane(lane);
    assert_eq!(replies.len(), 2);
    assert_eq!(replies[0], MsgOutput { idx: 4, value: 30 });
    assert_eq!(replies[1], MsgOutput { idx: 0, value: 11 });
}

#[test]
fn route_is_round_robin() {
    assert_eq!(route(0), 0);
    assert_eq!(route(1), 1);
    assert_eq!(route(3), 3);
    assert_eq!(route(4), 0);
    assert_eq!(route(9), 1);
}

#[test]
fn worker_step_computes_tagged_dot_product() {
    let input = MsgInput::new(
        3,
        Vector::new(vec![1, 2]),
        Vector::new(vec![3, 4]),
    );
    let out = worker_step(input).unwrap();
    assert_eq!(out.idx, 3);
    assert_eq!(out.value, 11);
}

#[test]
fn worker_step_rejects_mismatched_operands() {
    let input = MsgInput::new(
        0,
        Vector::new(vec![1, 2, 3]),
        Vector::new(vec![3, 4]),
    );
    let r = worker_step(input);
    assert!(matches!(r, Err(MatrixError::LengthMismatch)));
}

#[test]
fn fan_in_places_replies_by_index_in_any_order() {
    let outputs = vec![
        MsgOutput { idx: 2, value: 9 },
        MsgOutput { idx: 0, value: 1 },
        MsgOutput { idx: 1, value: 4 },
    ];
    let m = fan_in(outputs, 1, 3);
    assert_eq!(m.row, 1);
    assert_eq!(m.col, 3);
    assert_eq!(m.data, vec![1, 4, 9]);
}

#[test]
fn fan_in_leaves_identity_in_unnamed_cells() {
    let m = fan_in(vec![MsgOutput { idx: 3, value: 5 }], 2, 2);
    assert_eq!(m.data, vec![0, 0, 0, 5]);
}

#[test]
fn dot_product_length_mismatch_is_error() {
    let a = Vector::new(vec![1, 2]);
    let b = Vector::new(vec![1]);
    assert!(matches!(dot_product(a, b), Err(MatrixError::LengthMismatch)));
}

#[test]
fn dot_product_of_empty_vectors_is_zero() {
    let a = Vector::new(vec![]);
    let b = Vector::new(vec![]);
    assert_eq!(dot_product(a, b).unwrap(), 0);
}

#[test]
fn dot_product_known_values() {
    let a = Vector::new(vec![1, 2, 3]);
    let b = Vector::new(vec![4, 5, 6]);
    assert_eq!(dot_product(a, b).unwrap(), 32);

    let a = Vector::new(vec![-2, 7]);
    let b = Vector::new(vec![5, -1]);
    assert_eq!(dot_product(a, b).unwrap(), -17);
}

#[test]
fn vector_accessors() {
    let v = Vector::new(vec![10, -3, 8]);
    assert_eq!(v.len(), 3);
    assert_eq!(v.get(0), 10);
    assert_eq!(v.get(1), -3);
    assert_eq!(v.get(2), 8);
}

#[test]
fn multiply_is_deterministic() {
    let data_a: Vec<i64> = (0..120).map(|x| (x * 31 % 17) - 8).collect();
    let data_b: Vec<i64> = (0..120).map(|x| (x * 13 % 23) - 11).collect();
    let a = Matrix::new(data_a, 10, 12);
    let b = Matrix::new(data_b, 12, 10);
    let c1 = multiply(&a, &b).unwrap();
    let c2 = multiply(&a, &b).unwrap();
    assert_eq!(c1.row, c2.row);
    assert_eq!(c1.col, c2.col);
    assert_eq!(c1.data, c2.data);
}

#[test]
fn large_multiply_repeated_runs_agree() {
    let n: usize = 100;
    let data_a: Vec<i64> = (0..n * n).map(|x| (x as i64 % 7) - 3).collect();
    let data_b: Vec<i64> = (0..n * n).map(|x| (x as i64 % 5) - 2).collect();
    let a = Matrix::new(data_a, n, n);
    let b = Matrix::new(data_b, n, n);
    let first = multiply(&a, &b).unwrap();
    for _ in 0..3 {
        let again = multiply(&a, &b).unwrap();
        assert_eq!(first.data, again.data);
    }
}

#[test]
fn multiply_matches_sequential_triple_loop() {
    let rows: usize = 9;
    let inner: usize = 7;
    let cols: usize = 11;
    let data_a: Vec<i64> = (0..rows * inner).map(|x| (x as i64 * 29 % 19) - 9).collect();
    let data_b: Vec<i64> = (0..inner * cols).map(|x| (x as i64 * 37 % 13) - 6).collect();
    let a = Matrix::new(data_a.clone(), rows, inner);
    let b = Matrix::new(data_b.clone(), inner, cols);
    let c = multiply(&a, &b).unwrap();

    let mut expected = vec![0i64; rows * cols];
    for i in 0..rows {
        for j in 0..cols {
            let mut acc: i64 = 0;
            for k in 0..inner {
                acc += data_a[i * inner + k] * data_b[k * cols + j];
            }
            expected[i * cols + j] = acc;
        }
    }
    assert_eq!(c.data, expected);
}

#[test]
fn display_string_renders_rows_and_cells() {
    let m = Matrix::new(vec![1, 2, 3, 4, 5, 6], 2, 3);
    assert_eq!(m.display_string(), "{1 2 3, 4 5 6}");

    let m = Matrix::new(vec![1, 2, 3, 4, 5, 6], 3, 2);
    assert_eq!(m.display_string(), "{1 2, 3 4, 5 6}");

    let m = Matrix::new(vec![-1, 0, 10, -25], 2, 2);
    assert_eq!(m.display_string(), "{-1 0, 10 -25}");

    let m = Matrix::new(vec![], 0, 0);
    assert_eq!(m.display_string(), "{}");
}

#[test]
fn debug_string_includes_shape() {
    let m = Matrix::new(vec![1, 2, 3, 4, 5, 6], 2, 3);
    assert_eq!(
        m.debug_string(),
        "Matrix { data: {1 2 3, 4 5 6}, row: 2, col: 3 }"
    );
}
