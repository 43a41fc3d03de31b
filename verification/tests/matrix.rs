use gas_law_sim::matrix::{mat4_diagonal, mat4_from_diagonal, mat4_transpose};

fn numbered() -> [i32; 16] {
    let mut a = [0; 16];
    for (k, v) in a.iter_mut().enumerate() {
        *v = k as i32;
    }
    a
}

#[test]
fn transpose_swaps_rows_and_columns() {
    let t = mat4_transpose(&numbered());
    assert_eq!(t, [0, 4, 8, 12, 1, 5, 9, 13, 2, 6, 10, 14, 3, 7, 11, 15]);
}

#[test]
fn transpose_twice_is_identity_map() {
    let a = numbered();
    assert_eq!(mat4_transpose(&mat4_transpose(&a)), a);
}

#[test]
fn from_diagonal_builds_identity() {
    let id = mat4_from_diagonal(&[1.0f64; 4], 0.0);
    for r in 0..4 {
        for c in 0..4 {
            assert_eq!(id[r * 4 + c], if r == c { 1.0 } else { 0.0 });
        }
    }
}

#[test]
fn from_diagonal_places_values() {
    let m = mat4_from_diagonal(&[0.01, 100.0, 1e-4, 1e6], 0.0);
    assert_eq!(m[0], 0.01);
    assert_eq!(m[5], 100.0);
    assert_eq!(m[10], 1e-4);
    assert_eq!(m[15], 1e6);
    assert_eq!(m[1], 0.0);
    assert_eq!(m[14], 0.0);
}

#[test]
fn diagonal_reads_back() {
    assert_eq!(mat4_diagonal(&numbered()), [0, 5, 10, 15]);
    assert_eq!(mat4_diagonal(&mat4_from_diagonal(&[9, 8, 7, 6], 0)), [9, 8, 7, 6]);
    assert_eq!(mat4_diagonal(&mat4_transpose(&numbered())), [0, 5, 10, 15]);
}
