use vstd::prelude::*;

verus! {

/// The entry in row `i`, column `j` of a 4x4 matrix.
pub open spec fn entrada<T>(m: [[T; 4]; 4], i: int, j: int) -> T {
    m@[i]@[j]
}

/// `r` is the transpose of `m`.
pub open spec fn eh_transposta<T>(r: [[T; 4]; 4], m: [[T; 4]; 4]) -> bool {
    forall|i: int, j: int| 0 <= i < 4 && 0 <= j < 4 ==> #[trigger] entrada(r, i, j) == entrada(m, j, i)
}

/// The transpose of a 4x4 matrix: row `i` of the result is column `i` of
/// `m`.
pub fn transpose<T: Copy>(m: &[[T; 4]; 4]) -> (r: [[T; 4]; 4])
    ensures
        eh_transposta(r, *m),
{
    let mut novo: [[T; 4]; 4] = *m;
    for i in 0..4
        invariant
            forall|a: int, b: int| 0 <= a < i && 0 <= b < 4 ==> #[trigger] entrada(novo, a, b) == entrada(*m, b, a),
    {
        for j in 0..4
            invariant
                i < 4,
                forall|a: int, b: int| 0 <= a < i && 0 <= b < 4 ==> #[trigger] entrada(novo, a, b) == entrada(*m, b, a),
                forall|b: int| 0 <= b < j ==> #[trigger] entrada(novo, i as int, b) == entrada(*m, b, i as int),
        {
            let ghost antes = novo;
            novo[i][j] = m[j][i];
            assert(novo@[i as int]@ == antes@[i as int]@.update(j as int, entrada(*m, j as int, i as int)));
            assert forall|a: int, b: int| 0 <= a < i && 0 <= b < 4 implies #[trigger] entrada(novo, a, b) == entrada(*m, b, a) by {
                assert(novo@[a] == antes@[a]);
                assert(entrada(antes, a, b) == entrada(*m, b, a));
            }
            assert forall|b: int| 0 <= b < j + 1 implies #[trigger] entrada(novo, i as int, b) == entrada(*m, b, i as int) by {
                if b < j {
                    assert(entrada(antes, i as int, b) == entrada(*m, b, i as int));
                }
            }
        }
    }
    novo
}

/// Transposing twice gives the matrix back.
pub proof fn lema_transposta_involutiva<T>(m: [[T; 4]; 4], r: [[T; 4]; 4], rr: [[T; 4]; 4])
    requires
        eh_transposta(r, m),
        eh_transposta(rr, r),
    ensures
        forall|i: int, j: int| 0 <= i < 4 && 0 <= j < 4 ==> #[trigger] entrada(rr, i, j) == entrada(m, i, j),
{
    assert forall|i: int, j: int| 0 <= i < 4 && 0 <= j < 4 implies #[trigger] entrada(rr, i, j) == entrada(m, i, j) by {
        assert(entrada(rr, i, j) == entrada(r, j, i));
    }
}

} // verus!
