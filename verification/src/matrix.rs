//! The row-major index layout of 4x4 matrices stored as 16-element arrays.

use vstd::prelude::*;

verus! {

/// The transpose of the row-major 4x4 matrix `m`.
pub open spec fn transposed<T>(m: Seq<T>) -> Seq<T> {
    Seq::new(16, |k: int| m[4 * (k % 4) + k / 4])
}

/// The 4x4 matrix with `d` on its diagonal and `zero` everywhere else.
pub open spec fn diagonal_matrix<T>(d: Seq<T>, zero: T) -> Seq<T> {
    Seq::new(16, |k: int| if k / 4 == k % 4 { d[k / 4] } else { zero })
}

/// The four diagonal entries of the 4x4 matrix `m`, top-left first.
pub open spec fn diagonal_of<T>(m: Seq<T>) -> Seq<T> {
    Seq::new(4, |i: int| m[5 * i])
}

/// The transpose of `a`: entry (r, c) of the result is entry (c, r) of `a`.
pub fn mat4_transpose<T: Copy>(a: &[T; 16]) -> (b: [T; 16])
    ensures
        b@ == transposed(a@),
        forall|r: int, c: int| 0 <= r < 4 && 0 <= c < 4 ==> #[trigger] b@[4 * r + c] == a@[4 * c + r],
{
    let mut b = *a;
    for i in 0..4usize
        invariant
            b@.len() == 16,
            forall|k: int| 0 <= k < 16 && k % 4 < i ==> b@[k] == a@[4 * (k % 4) + k / 4],
    {
        for j in 0..4usize
            invariant
                b@.len() == 16,
                i < 4,
                forall|k: int|
                    0 <= k < 16 && (k % 4 < i || (k % 4 == i && k / 4 < j)) ==> b@[k] == a@[4 * (k
                        % 4) + k / 4],
        {
            b[j * 4 + i] = a[i * 4 + j];
        }
    }
    assert(b@ =~= transposed(a@));
    proof {
        lemma_transposed_entries(a@);
    }
    b
}

/// The 4x4 matrix with `d` on its diagonal and `zero` elsewhere; the identity
/// when `d` holds four ones.
pub fn mat4_from_diagonal<T: Copy>(d: &[T; 4], zero: T) -> (m: [T; 16])
    ensures
        m@ == diagonal_matrix(d@, zero),
        forall|r: int, c: int|
            0 <= r < 4 && 0 <= c < 4 ==> #[trigger] m@[4 * r + c] == (if r == c {
                d@[r]
            } else {
                zero
            }),
{
    let mut m = [zero; 16];
    for i in 0..4usize
        invariant
            m@.len() == 16,
            forall|k: int|
                0 <= k < 16 ==> m@[k] == (if k / 4 == k % 4 && k / 4 < i {
                    d@[k / 4]
                } else {
                    zero
                }),
    {
        m[i * 4 + i] = d[i];
    }
    assert(m@ =~= diagonal_matrix(d@, zero));
    proof {
        lemma_diagonal_matrix_entries(d@, zero);
    }
    m
}

/// The diagonal entries of `m`, top-left first.
pub fn mat4_diagonal<T: Copy>(m: &[T; 16]) -> (d: [T; 4])
    ensures
        d@ == diagonal_of(m@),
        forall|i: int| 0 <= i < 4 ==> #[trigger] d@[i] == m@[4 * i + i],
{
    [m[0], m[5], m[10], m[15]]
}

/// Entry (r, c) of the transpose is entry (c, r) of the matrix.
pub proof fn lemma_transposed_entries<T>(m: Seq<T>)
    ensures
        transposed(m).len() == 16,
        forall|r: int, c: int|
            0 <= r < 4 && 0 <= c < 4 ==> #[trigger] transposed(m)[4 * r + c] == m[4 * c + r],
{
    assert forall|r: int, c: int| 0 <= r < 4 && 0 <= c < 4 implies #[trigger] transposed(m)[4 * r + c]
        == m[4 * c + r] by {
        assert((4 * r + c) % 4 == c && (4 * r + c) / 4 == r);
    }
}

/// The matrix built from `d` holds `d[r]` at (r, r) and `zero` off the diagonal.
pub proof fn lemma_diagonal_matrix_entries<T>(d: Seq<T>, zero: T)
    ensures
        diagonal_matrix(d, zero).len() == 16,
        forall|r: int, c: int|
            0 <= r < 4 && 0 <= c < 4 ==> #[trigger] diagonal_matrix(d, zero)[4 * r + c] == (if r == c {
                d[r]
            } else {
                zero
            }),
{
    assert forall|r: int, c: int| 0 <= r < 4 && 0 <= c < 4 implies #[trigger] diagonal_matrix(d, zero)[4
        * r + c] == (if r == c {
        d[r]
    } else {
        zero
    }) by {
        assert((4 * r + c) % 4 == c && (4 * r + c) / 4 == r);
    }
}

/// Transposing twice gives the matrix back.
pub proof fn lemma_transpose_involutive<T>(m: Seq<T>)
    requires
        m.len() == 16,
    ensures
        transposed(transposed(m)) == m,
{
    assert(transposed(transposed(m)) =~= m);
}

/// A diagonal matrix is its own transpose.
pub proof fn lemma_diagonal_matrix_symmetric<T>(d: Seq<T>, zero: T)
    ensures
        transposed(diagonal_matrix(d, zero)) == diagonal_matrix(d, zero),
{
    assert(transposed(diagonal_matrix(d, zero)) =~= diagonal_matrix(d, zero));
}

/// Reading the diagonal of the matrix built from `d` gives `d` back.
pub proof fn lemma_diagonal_roundtrip<T>(d: Seq<T>, zero: T)
    requires
        d.len() == 4,
    ensures
        diagonal_of(diagonal_matrix(d, zero)) == d,
{
    assert(diagonal_of(diagonal_matrix(d, zero)) =~= d);
}

/// Transposing keeps the diagonal.
pub proof fn lemma_transpose_keeps_diagonal<T>(m: Seq<T>)
    requires
        m.len() == 16,
    ensures
        diagonal_of(transposed(m)) == diagonal_of(m),
{
    assert(diagonal_of(transposed(m)) =~= diagonal_of(m));
}

} // verus!
