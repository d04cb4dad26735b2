//! Dense matrices over any scalar, and their Kronecker product.

use vstd::prelude::*;
use vstd::std_specs::ops::MulSpec;
use std::ops::Mul;

verus! {

/// A dense matrix, stored row by row. The scalar type is left open: the
/// library places and multiplies entries and never inspects them.
#[derive(Debug, PartialEq)]
pub struct Matrix<T> {
    rows: Vec<Vec<T>>,
}

impl<T> View for Matrix<T> {
    type V = Seq<Seq<T>>;

    /// The rows of the matrix.
    closed spec fn view(&self) -> Seq<Seq<T>> {
        self.rows@.map_values(|row: Vec<T>| row@)
    }
}

/// Whether every row of `rows` has `ncols` entries.
pub open spec fn rectangular<T>(rows: Seq<Seq<T>>, ncols: nat) -> bool {
    forall|i: int| 0 <= i < rows.len() ==> (#[trigger] rows[i]).len() == ncols
}

/// The number of columns of a matrix with the rows `rows`: the length of
/// its first row, and 0 where it has no rows.
pub open spec fn width<T>(rows: Seq<Seq<T>>) -> nat {
    if rows.len() == 0 {
        0
    } else {
        rows[0].len()
    }
}

/// Whether `rows` are the rows of a matrix: all of one length.
pub open spec fn is_matrix<T>(rows: Seq<Seq<T>>) -> bool {
    rectangular(rows, width(rows))
}

impl<T> Matrix<T> {
    /// The number of columns.
    pub open spec fn width(&self) -> nat {
        width(self@)
    }

    /// The invariant of a matrix: all rows have the width of the matrix.
    pub open spec fn wf(&self) -> bool {
        is_matrix(self@)
    }

    /// Whether the matrix has `nrows` rows and `ncols` columns.
    pub open spec fn has_shape(&self, nrows: nat, ncols: nat) -> bool {
        self@.len() == nrows && self.width() == ncols
    }

    /// Builds a matrix from its rows. Rows of different lengths make no
    /// matrix.
    pub fn from_rows(rows: Vec<Vec<T>>) -> (matrix: Option<Matrix<T>>)
        ensures
            matrix is Some <==> is_matrix(rows@.map_values(|row: Vec<T>| row@)),
            matrix matches Some(m) ==> m@ == rows@.map_values(|row: Vec<T>| row@),
    {
        let ghost seqs = rows@.map_values(|row: Vec<T>| row@);
        let ncols = if rows.len() == 0 {
            0
        } else {
            rows[0].len()
        };
        let mut i: usize = 0;
        while i < rows.len()
            invariant
                i <= rows.len(),
                seqs == rows@.map_values(|row: Vec<T>| row@),
                ncols == width(seqs),
                forall|k: int| 0 <= k < i ==> (#[trigger] seqs[k]).len() == ncols,
            decreases rows.len() - i,
        {
            if rows[i].len() != ncols {
                proof {
                    assert(seqs[i as int].len() != width(seqs));
                }
                return None;
            }
            i += 1;
        }
        Some(Matrix { rows })
    }

    pub fn nrows(&self) -> (nrows: usize)
        ensures
            nrows == self@.len(),
    {
        self.rows.len()
    }

    pub fn ncols(&self) -> (ncols: usize)
        ensures
            ncols == self.width(),
    {
        if self.rows.len() == 0 {
            0
        } else {
            self.rows[0].len()
        }
    }

    /// The numbers of rows and columns.
    pub fn shape(&self) -> (shape: (usize, usize))
        ensures
            shape.0 == self@.len(),
            shape.1 == self.width(),
    {
        (self.rows.len(), self.ncols())
    }

    /// The entry in row `i` and column `j`.
    pub fn get(&self, i: usize, j: usize) -> (entry: &T)
        requires
            self.wf(),
            i < self@.len(),
            j < self.width(),
        ensures
            *entry == self@[i as int][j as int],
    {
        proof {
            assert(self@[i as int].len() == self.width());
        }
        &self.rows[i][j]
    }

    /// Hands the rows out.
    pub fn into_rows(self) -> (rows: Vec<Vec<T>>)
        ensures
            rows@.map_values(|row: Vec<T>| row@) == self@,
    {
        self.rows
    }
}

impl<T: Copy> Clone for Matrix<T> {
    fn clone(&self) -> (copy: Matrix<T>)
        ensures
            copy@ == self@,
    {
        let mut rows: Vec<Vec<T>> = Vec::new();
        let mut i: usize = 0;
        while i < self.rows.len()
            invariant
                i <= self.rows.len(),
                rows@.len() == i,
                forall|k: int| 0 <= k < i ==> (#[trigger] rows@[k])@ == self.rows@[k]@,
            decreases self.rows.len() - i,
        {
            let mut row: Vec<T> = Vec::new();
            let mut j: usize = 0;
            while j < self.rows[i].len()
                invariant
                    i < self.rows.len(),
                    j <= self.rows@[i as int]@.len(),
                    row@ == self.rows@[i as int]@.take(j as int),
                decreases self.rows@[i as int]@.len() - j,
            {
                row.push(self.rows[i][j]);
                j += 1;
            }
            proof {
                assert(self.rows@[i as int]@.take(j as int) =~= self.rows@[i as int]@);
            }
            rows.push(row);
            i += 1;
        }
        let copy = Matrix { rows };
        proof {
            assert(copy@ =~= self@);
        }
        copy
    }
}

/// The entry of the Kronecker product of `a` and `b` in row `i * b.len() +
/// k` and column `j * b[0].len() + l`: the product of entry `(i, j)` of `a`
/// and entry `(k, l)` of `b`.
pub open spec fn kronecker_entry<T: Mul<Output = T>>(
    a: Seq<Seq<T>>,
    b: Seq<Seq<T>>,
    i: int,
    j: int,
    k: int,
    l: int,
) -> T {
    a[i][j].mul_spec(b[k][l])
}

/// Whether every entry of `a` may be multiplied by every entry of `b`.
pub open spec fn can_multiply<T: Mul<Output = T>>(a: Seq<Seq<T>>, b: Seq<Seq<T>>) -> bool {
    forall|i: int, j: int, k: int, l: int|
        0 <= i < a.len() && 0 <= j < width(a) && 0 <= k < b.len() && 0 <= l < width(b)
            ==> #[trigger] a[i][j].mul_req(b[k][l])
}

/// The Kronecker product of the matrices `a` and `b`: the block matrix whose
/// block `(i, j)` is `b` multiplied by entry `(i, j)` of `a`.
pub open spec fn kronecker_product<T: Mul<Output = T>>(a: Seq<Seq<T>>, b: Seq<Seq<T>>) -> Seq<
    Seq<T>,
> {
    Seq::new(
        a.len() * b.len(),
        |r: int|
            Seq::new(
                width(a) * width(b),
                |c: int|
                    a[r / b.len() as int][c / width(b) as int].mul_spec(
                        b[r % b.len() as int][c % width(b) as int],
                    ),
            ),
    )
}

/// The Kronecker product by blocks: in row `k` and column `l` of block
/// `(i, j)` stands the product of entry `(i, j)` of `a` and entry `(k, l)` of
/// `b`.
pub proof fn lemma_kronecker_blocks<T: Mul<Output = T>>(
    a: Seq<Seq<T>>,
    b: Seq<Seq<T>>,
    i: int,
    j: int,
    k: int,
    l: int,
)
    requires
        0 <= i < a.len(),
        0 <= j < width(a),
        0 <= k < b.len(),
        0 <= l < width(b),
    ensures
        0 <= i * b.len() + k < a.len() * b.len(),
        0 <= j * width(b) + l < width(a) * width(b),
        kronecker_product(a, b)[i * b.len() + k][j * width(b) + l] == kronecker_entry(
            a,
            b,
            i,
            j,
            k,
            l,
        ),
{
    lemma_block_index(i, k, a.len() as int, b.len() as int);
    lemma_block_index(j, l, width(a) as int, width(b) as int);
    lemma_block_split(i, k, b.len() as int);
    lemma_block_split(j, l, width(b) as int);
}

/// The Kronecker product of two matrices.
///
/// The shape of the result holds for every scalar type. Its entries are
/// stated for scalar types whose multiplication has a specification.
pub fn kronecker<T>(a: &Matrix<T>, b: &Matrix<T>) -> (out: Matrix<T>) where
    T: Copy + Mul<Output = T>,

    requires
        a.wf(),
        b.wf(),
        a@.len() * b@.len() <= usize::MAX,
        a.width() * b.width() <= usize::MAX,
        can_multiply(a@, b@),
    ensures
        out.wf(),
        out.has_shape(a@.len() * b@.len(), a.width() * b.width()),
        T::obeys_mul_spec() ==> out@ == kronecker_product(a@, b@),
{
    let (a_rows, a_cols) = a.shape();
    let (b_rows, b_cols) = b.shape();
    let mut rows: Vec<Vec<T>> = Vec::new();
    let mut i: usize = 0;
    while i < a_rows
        invariant
            i <= a_rows,
            a.wf(),
            b.wf(),
            a.has_shape(a_rows as nat, a_cols as nat),
            b.has_shape(b_rows as nat, b_cols as nat),
            a_rows * b_rows <= usize::MAX,
            a_cols * b_cols <= usize::MAX,
            can_multiply(a@, b@),
            rows@.len() == i * b_rows,
            forall|r: int| 0 <= r < rows@.len() ==> (#[trigger] rows@[r])@.len() == a_cols * b_cols,
            T::obeys_mul_spec() ==> forall|i0: int, j: int, k: int, l: int|
                0 <= i0 < i && 0 <= j < a_cols && 0 <= k < b_rows && 0 <= l < b_cols ==> rows@[i0
                    * b_rows + k]@[j * b_cols + l] == #[trigger] kronecker_entry(
                    a@,
                    b@,
                    i0,
                    j,
                    k,
                    l,
                ),
        decreases a_rows - i,
    {
        let mut k: usize = 0;
        while k < b_rows
            invariant
                i < a_rows,
                k <= b_rows,
                a.wf(),
                b.wf(),
                a.has_shape(a_rows as nat, a_cols as nat),
                b.has_shape(b_rows as nat, b_cols as nat),
                a_rows * b_rows <= usize::MAX,
                a_cols * b_cols <= usize::MAX,
                can_multiply(a@, b@),
                rows@.len() == i * b_rows + k,
                forall|r: int|
                    0 <= r < rows@.len() ==> (#[trigger] rows@[r])@.len() == a_cols * b_cols,
                T::obeys_mul_spec() ==> forall|i0: int, j: int, k0: int, l: int|
                    0 <= i0 < i && 0 <= j < a_cols && 0 <= k0 < b_rows && 0 <= l < b_cols
                        ==> rows@[i0 * b_rows + k0]@[j * b_cols + l] == #[trigger] kronecker_entry(
                        a@,
                        b@,
                        i0,
                        j,
                        k0,
                        l,
                    ),
                T::obeys_mul_spec() ==> forall|j: int, k0: int, l: int|
                    0 <= j < a_cols && 0 <= k0 < k && 0 <= l < b_cols ==> rows@[i * b_rows
                        + k0]@[j * b_cols + l] == #[trigger] kronecker_entry(
                        a@,
                        b@,
                        i as int,
                        j,
                        k0,
                        l,
                    ),
            decreases b_rows - k,
        {
            let row = kronecker_row(a, b, i, k);
            let ghost before = rows@;
            proof {
                lemma_block_index(i as int, k as int, a_rows as int, b_rows as int);
            }
            rows.push(row);
            proof {
                assert forall|i0: int, k0: int|
                    0 <= i0 < i && 0 <= k0 < b_rows implies 0 <= #[trigger] (i0 * b_rows + k0) < i
                    * b_rows by {
                    lemma_block_index(i0, k0, i as int, b_rows as int);
                }
            }
            k += 1;
        }
        proof {
            assert(i * b_rows + b_rows == (i + 1) * b_rows) by (nonlinear_arith);
        }
        i += 1;
    }
    let out = Matrix { rows };
    proof {
        assert(out@.len() == a_rows * b_rows);
        assert forall|r: int| 0 <= r < out@.len() implies (#[trigger] out@[r]).len() == a_cols
            * b_cols by {
            assert(out@[r] == rows@[r]@);
        }
        if out@.len() == 0 {
            assert(a_cols * b_cols == 0) by (nonlinear_arith)
                requires
                    a_rows * b_rows == 0,
                    a_rows == 0 ==> a_cols == 0,
                    b_rows == 0 ==> b_cols == 0,
            ;
        }
        if T::obeys_mul_spec() {
            let product = kronecker_product(a@, b@);
            assert forall|r: int| 0 <= r < out@.len() implies out@[r] =~= product[r] by {
                assert(out@[r] == rows@[r]@);
                let i0 = r / b_rows as int;
                let k = r % b_rows as int;
                lemma_block_join(r, a_rows as int, b_rows as int);
                assert forall|c: int| 0 <= c < a_cols * b_cols implies out@[r][c]
                    == product[r][c] by {
                    let j = c / b_cols as int;
                    let l = c % b_cols as int;
                    lemma_block_join(c, a_cols as int, b_cols as int);
                    assert(rows@[i0 * b_rows + k]@[j * b_cols + l] == kronecker_entry(
                        a@,
                        b@,
                        i0,
                        j,
                        k,
                        l,
                    ));
                }
            }
            assert(out@ =~= product);
        }
    }
    out
}

/// Row `i * b.nrows() + k` of the Kronecker product of `a` and `b`.
fn kronecker_row<T>(a: &Matrix<T>, b: &Matrix<T>, i: usize, k: usize) -> (row: Vec<T>) where
    T: Copy + Mul<Output = T>,

    requires
        a.wf(),
        b.wf(),
        i < a@.len(),
        k < b@.len(),
        a.width() * b.width() <= usize::MAX,
        can_multiply(a@, b@),
    ensures
        row@.len() == a.width() * b.width(),
        T::obeys_mul_spec() ==> forall|j: int, l: int|
            0 <= j < a.width() && 0 <= l < b.width() ==> row@[j * b.width() + l]
                == #[trigger] kronecker_entry(a@, b@, i as int, j, k as int, l),
{
    let a_cols = a.ncols();
    let b_cols = b.ncols();
    let mut row: Vec<T> = Vec::new();
    let mut j: usize = 0;
    while j < a_cols
        invariant
            j <= a_cols,
            a.wf(),
            b.wf(),
            i < a@.len(),
            k < b@.len(),
            a_cols == a.width(),
            b_cols == b.width(),
            a_cols * b_cols <= usize::MAX,
            can_multiply(a@, b@),
            row@.len() == j * b_cols,
            T::obeys_mul_spec() ==> forall|j0: int, l: int|
                0 <= j0 < j && 0 <= l < b_cols ==> row@[j0 * b_cols + l]
                    == #[trigger] kronecker_entry(a@, b@, i as int, j0, k as int, l),
        decreases a_cols - j,
    {
        let a_val = *a.get(i, j);
        let mut l: usize = 0;
        while l < b_cols
            invariant
                j < a_cols,
                l <= b_cols,
                a.wf(),
                b.wf(),
                i < a@.len(),
                k < b@.len(),
                a_cols == a.width(),
                b_cols == b.width(),
                a_cols * b_cols <= usize::MAX,
                a_val == a@[i as int][j as int],
                can_multiply(a@, b@),
                row@.len() == j * b_cols + l,
                T::obeys_mul_spec() ==> forall|j0: int, l0: int|
                    0 <= j0 < j && 0 <= l0 < b_cols ==> row@[j0 * b_cols + l0]
                        == #[trigger] kronecker_entry(a@, b@, i as int, j0, k as int, l0),
                T::obeys_mul_spec() ==> forall|l0: int|
                    0 <= l0 < l ==> row@[j * b_cols + l0] == #[trigger] kronecker_entry(
                        a@,
                        b@,
                        i as int,
                        j as int,
                        k as int,
                        l0,
                    ),
            decreases b_cols - l,
        {
            let product = a_val * *b.get(k, l);
            proof {
                lemma_block_index(j as int, l as int, a_cols as int, b_cols as int);
                assert forall|j0: int, l0: int|
                    0 <= j0 < j && 0 <= l0 < b_cols implies 0 <= #[trigger] (j0 * b_cols + l0) < j
                    * b_cols by {
                    lemma_block_index(j0, l0, j as int, b_cols as int);
                }
            }
            row.push(product);
            l += 1;
        }
        proof {
            assert(j * b_cols + b_cols == (j + 1) * b_cols) by (nonlinear_arith);
        }
        j += 1;
    }
    row
}

/// Place `inner` of block `outer` lies inside the blocks, and before the
/// blocks that follow.
proof fn lemma_block_index(outer: int, inner: int, blocks: int, size: int)
    requires
        0 <= outer < blocks,
        0 <= inner < size,
    ensures
        0 <= outer * size + inner < blocks * size,
        outer * size + inner < (outer + 1) * size,
        outer * size <= outer * size + inner,
{
    assert(outer * size + size <= blocks * size) by (nonlinear_arith)
        requires
            0 <= outer < blocks,
            0 <= size,
    ;
    assert(0 <= outer * size) by (nonlinear_arith)
        requires
            0 <= outer,
            0 <= size,
    ;
    assert((outer + 1) * size == outer * size + size) by (nonlinear_arith);
}

/// 2 to the power `n`.
pub open spec fn power_of_two(n: nat) -> nat
    decreases n,
{
    if n == 0 {
        1
    } else {
        2 * power_of_two((n - 1) as nat)
    }
}

/// A larger exponent gives a power of two that is no smaller.
pub proof fn lemma_power_of_two_grows(low: nat, high: nat)
    requires
        low <= high,
    ensures
        1 <= power_of_two(low) <= power_of_two(high),
    decreases high,
{
    if low < high {
        lemma_power_of_two_grows(low, (high - 1) as nat);
    } else if low > 0 {
        lemma_power_of_two_grows((low - 1) as nat, (low - 1) as nat);
    }
}

/// 2 to the power `n`, where a `usize` holds it.
pub fn checked_power_of_two(n: usize) -> (power: Option<usize>)
    ensures
        power is Some <==> power_of_two(n as nat) <= usize::MAX,
        power matches Some(p) ==> p == power_of_two(n as nat),
{
    let mut power: usize = 1;
    let mut i: usize = 0;
    while i < n
        invariant
            i <= n,
            power == power_of_two(i as nat),
        decreases n - i,
    {
        match power.checked_mul(2) {
            Some(doubled) => {
                power = doubled;
            },
            None => {
                proof {
                    lemma_power_of_two_grows((i + 1) as nat, n as nat);
                }
                return None;
            },
        }
        i += 1;
    }
    Some(power)
}

/// Place `inner` of block `outer` splits back into the two.
proof fn lemma_block_split(outer: int, inner: int, size: int)
    requires
        0 <= outer,
        0 <= inner < size,
    ensures
        (outer * size + inner) / size == outer,
        (outer * size + inner) % size == inner,
{
    vstd::arithmetic::div_mod::lemma_fundamental_div_mod_converse(
        outer * size + inner,
        size,
        outer,
        inner,
    );
}

/// A place among `blocks` blocks of `size` places lies in one block, at one
/// place inside it.
proof fn lemma_block_join(place: int, blocks: int, size: int)
    requires
        0 <= place < blocks * size,
        0 <= size,
    ensures
        0 <= place / size < blocks,
        0 <= place % size < size,
        place == (place / size) * size + place % size,
{
    assert(size > 0) by (nonlinear_arith)
        requires
            0 <= place < blocks * size,
            0 <= size,
    ;
    vstd::arithmetic::div_mod::lemma_fundamental_div_mod(place, size);
    vstd::arithmetic::div_mod::lemma_div_pos_is_pos(place, size);
    vstd::arithmetic::div_mod::lemma_mod_bound(place, size);
    let q = place / size;
    assert(q < blocks) by (nonlinear_arith)
        requires
            place == size * q + place % size,
            0 <= place % size,
            place < blocks * size,
            size > 0,
    ;
    assert(size * q == q * size) by (nonlinear_arith);
}

} // verus!
