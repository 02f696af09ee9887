use intmatrix::Matrix;
use intmatrix::MatrixError;

#[test]
fn lib_init_matrix() {
    let mut matrix = Matrix::new(2, 2);
    for i in 0..4 {
        match matrix.add_value(i) {
            Ok(i) => assert!(i > usize::MIN || i == usize::MIN),
            Err(_) => panic!("Must not run into an error."),
        }
    }
    match matrix.add_value(5) {
        Ok(_) => panic!("Must run into capacity error now."),
        Err(e) => assert!(e.message() == "Capacity of 4 exhausted."),
    }
}

#[test]
fn lib_test_row() {
    // testing a matrix like this:
    //        cols
    //       0  1  2
    // rows  3  4  5
    //       6  7  8
    //       9 10 11

    let mut matrix = Matrix::new(3, 4);
    for i in 0..12 {
        matrix.add_value(i).unwrap();
    }

    assert_eq!(matrix.row(0), vec![0, 1, 2], "Row 0 failed.");
    assert_eq!(matrix.row(1), vec![3, 4, 5], "Row 1 failed.");
    assert_eq!(matrix.row(2), vec![6, 7, 8], "Row 2 failed.");
    assert_eq!(matrix.row(3), vec![9, 10, 11], "Row 3 failed.");
    assert_eq!(matrix.row(4), vec![], "Row 4 failed.");
}

#[test]
fn lib_test_col() {
    // testing a matrix like this:
    //        cols
    //       0  1  2
    // rows  3  4  5
    //       6  7  8
    //       9 10 11

    let mut matrix = Matrix::new(3, 4);
    for i in 0..12 {
        matrix.add_value(i).unwrap();
    }

    assert_eq!(matrix.col(0), vec![0, 3, 6, 9], "Col 0 failed.");
    assert_eq!(matrix.col(1), vec![1, 4, 7, 10], "Col 1 failed.");
    assert_eq!(matrix.col(2), vec![2, 5, 8, 11], "Col 2 failed.");
    assert_eq!(matrix.col(3), vec![], "Col 3 failed.");
}

#[test]
fn matrix_init_matrix() {
    let mut matrix = Matrix::new(2, 2);
    for i in 0..4 {
        match matrix.add_value(i) {
            Ok(i) => assert!(i > usize::MIN || i == usize::MIN),
            Err(_) => panic!("Must not run into an error."),
        }
    }
    match matrix.add_value(5) {
        Ok(_) => panic!("Must run into capacity error now."),
        Err(e) => assert!(e.message() == "Capacity of 4 exhausted."),
    }
}

#[test]
fn matrix_test_row() {
    // testing a matrix like this:
    //        cols
    //       0  1  2
    // rows  3  4  5
    //       6  7  8
    //       9 10 11

    let mut matrix = Matrix::new(3, 4);
    for i in 0..12 {
        matrix.add_value(i).unwrap();
    }

    assert_eq!(matrix.row(0), vec![0, 1, 2], "Row 0 failed.");
    assert_eq!(matrix.row(1), vec![3, 4, 5], "Row 1 failed.");
    assert_eq!(matrix.row(2), vec![6, 7, 8], "Row 2 failed.");
    assert_eq!(matrix.row(3), vec![9, 10, 11], "Row 3 failed.");
    assert_eq!(matrix.row(4), vec![], "Row 4 failed.");
}

#[test]
fn test_row_vector() {
    // testing a matrix like this:
    //        cols
    //       4
    // rows  5
    //       6

    let mut matrix = Matrix::new(1, 3);
    for i in &[4, 5, 6] {
        matrix.add_value(*i).unwrap();
    }
    assert_eq!(matrix.col(0), vec![4, 5, 6]);
}

#[test]
fn matrix_test_col() {
    // testing a matrix like this:
    //        cols
    //       0  1  2
    // rows  3  4  5
    //       6  7  8
    //       9 10 11

    let mut matrix = Matrix::new(3, 4);
    for i in 0..12 {
        matrix.add_value(i).unwrap();
    }

    assert_eq!(matrix.col(0), vec![0, 3, 6, 9], "Col 0 failed.");
    assert_eq!(matrix.col(1), vec![1, 4, 7, 10], "Col 1 failed.");
    assert_eq!(matrix.col(2), vec![2, 5, 8, 11], "Col 2 failed.");
    assert_eq!(matrix.col(3), vec![], "Col 3 failed.");
}

#[test]
fn test_multiply() {
    // Short explanation on the test below
    // Given the matrix
    // | 3 2 1 | * | 1 2 | = | 7 8 |
    // | 1 0 2 |   | 0 1 |   | 9 2 |
    //             | 4 0 |

    let mut lhs = Matrix::new(3, 2);
    for i in &[3, 2, 1, 1, 0, 2] {
        lhs.add_value(*i).unwrap();
    }

    let mut rhs = Matrix::new(2, 3);
    for i in &[1, 2, 0, 1, 4, 0] {
        rhs.add_value(*i).unwrap();
    }
    let result = match lhs.multiply(rhs) {
        Ok(m) => m,
        Err(_) => Matrix::new(1, 1),
    };
    assert_eq!(result.row(0), vec![7, 8]);
    assert_eq!(result.row(1), vec![9, 2]);
    assert_eq!(result.rows, 2);
    assert_eq!(result.cols, 2);
}

#[test]
fn test_multiply_rhs_vector() {
    // Short explanation on the test below
    // Given the matrix
    // | 1,2,3 | * | 4 | = | 32 |
    // | 3,2,1 |   | 5 |   | 28 |
    //             | 6 |

    let mut lhs = Matrix::new(3, 2);
    for i in &[1, 2, 3, 3, 2, 1] {
        lhs.add_value(*i).unwrap();
    }

    let mut rhs = Matrix::new(1, 3);
    for i in &[4, 5, 6] {
        rhs.add_value(*i).unwrap();
    }
    let result = match lhs.multiply(rhs) {
        Ok(m) => m,
        Err(e) => panic!("{}", e.message()),
    };
    assert_eq!(result.col(0), vec![32, 28]);
    assert_eq!(result.col(1), vec![]);
    assert_eq!(result.rows, 2);
    assert_eq!(result.cols, 1);
}

#[test]
fn test_multiply_lhs_square_rhs_vector() {
    // Short explanation on the test below
    // Given the matrix
    // | 1 2 3 | * | 4 | = |  32 |
    // | 3 2 1 |   | 5 |   |  28 |
    // | 6 7 8 |   | 6 |   | 107 |

    let mut lhs = Matrix::new(3, 3);
    for i in &[1, 2, 3, 3, 2, 1, 6, 7, 8] {
        lhs.add_value(*i).unwrap();
    }

    let mut rhs = Matrix::new(1, 3);
    for i in &[4, 5, 6] {
        rhs.add_value(*i).unwrap();
    }
    let result = match lhs.multiply(rhs) {
        Ok(m) => m,
        Err(e) => panic!("{}", e.message()),
    };
    assert_eq!(result.col(0), vec![32, 28, 107]);
    assert_eq!(result.col(1), vec![]);
    assert_eq!(result.rows, 3);
    assert_eq!(result.cols, 1);
}

#[test]
fn test_multiply_incompatible_matrix() {
    // Short explanation on the test below
    // Given the matrix
    // | 1 2 3 | * | 4 | = Error
    // | 3 2 1 |   | 5 |
    // | 6 7 8 |

    let mut lhs = Matrix::new(3, 3);
    for i in &[1, 2, 3, 3, 2, 1, 6, 7, 8] {
        lhs.add_value(*i).unwrap();
    }

    let mut rhs = Matrix::new(1, 2);
    for i in &[4, 5] {
        rhs.add_value(*i).unwrap();
    }
    let result = match lhs.multiply(rhs) {
        Ok(_) => panic!("Matrix are incompatible - must not return a result."),
        Err(e) => e,
    };
    assert_eq!(result.error, MatrixError::RowToColMismatch);
}
