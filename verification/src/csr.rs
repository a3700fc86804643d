//! Compressed-sparse-row matrices over the scalar field, and their product
//! with a dense vector.

use crate::field::{modulus, Scalar};
use vstd::arithmetic::div_mod::lemma_add_mod_noop;
use vstd::prelude::*;

verus! {

/// CSR format sparse matrix; the field names follow scipy.
#[derive(Clone, Debug, PartialEq, Eq)]
pub struct SparseMatrix {
    /// all non-zero values in the matrix
    pub data: Vec<Scalar>,
    /// column indices
    pub indices: Vec<usize>,
    /// row information
    pub indptr: Vec<usize>,
    /// number of columns
    pub cols: usize,
}

/// A walk over the stored entries of a sparse matrix.
pub struct Iter<'a> {
    matrix: &'a SparseMatrix,
    row: usize,
    i: usize,
    nnz: usize,
}

/// Whether a sequence never decreases.
pub open spec fn non_decreasing(s: Seq<usize>) -> bool {
    forall|i: int, j: int| 0 <= i <= j < s.len() ==> s[i] <= s[j]
}

/// The sum of `data[k] * vector[indices[k]]` over `lo <= k < hi`, as an
/// integer.
pub open spec fn dot(
    data: Seq<Scalar>,
    indices: Seq<usize>,
    vector: Seq<Scalar>,
    lo: int,
    hi: int,
) -> int
    decreases hi - lo,
{
    if hi <= lo {
        0
    } else {
        dot(data, indices, vector, lo, hi - 1) + data[hi - 1]@ * vector[indices[hi - 1] as int]@
    }
}

/// The entries of a coordinate list that lie in row `r`, each as its value
/// and its column, in the order in which the list holds them.
pub open spec fn row_entries_of(coo: Seq<(usize, usize, Scalar)>, r: int) -> Seq<(Scalar, usize)>
    decreases coo.len(),
{
    if coo.len() == 0 {
        Seq::empty()
    } else {
        let before = row_entries_of(coo.drop_last(), r);
        let entry = coo.last();
        if entry.0 == r {
            before.push((entry.2, entry.1))
        } else {
            before
        }
    }
}

/// Whether every entry of a coordinate list names a row below `rows`, and
/// entries of one row come with strictly increasing columns.
pub open spec fn coo_ordered(coo: Seq<(usize, usize, Scalar)>, rows: int) -> bool {
    &&& forall|i: int| 0 <= i < coo.len() ==> (#[trigger] coo[i]).0 < rows
    &&& forall|i: int, j: int|
        0 <= i < j < coo.len() && (#[trigger] coo[i]).0 == (#[trigger] coo[j]).0 ==> coo[i].1
            < coo[j].1
}

/// Whether `data` and `indices` hold the entries `row` from position `lo` on.
pub open spec fn holds_row(
    data: Seq<Scalar>,
    indices: Seq<usize>,
    lo: int,
    row: Seq<(Scalar, usize)>,
) -> bool {
    &&& 0 <= lo
    &&& lo + row.len() <= data.len()
    &&& lo + row.len() <= indices.len()
    &&& forall|k: int|
        0 <= k < row.len() ==> data[lo + k] == (#[trigger] row[k]).0 && indices[lo + k] == row[k].1
}

impl SparseMatrix {
    /// The shape that every operation relies on: one row pointer per row
    /// boundary, starting at zero, never decreasing, ending at the number
    /// of stored values, and one column index per stored value.
    pub open spec fn wf(&self) -> bool {
        &&& self.indptr@.len() >= 1
        &&& self.indptr@[0] == 0
        &&& non_decreasing(self.indptr@)
        &&& self.indptr@.last() == self.data@.len()
        &&& self.indices@.len() == self.data@.len()
    }

    /// Number of rows.
    pub open spec fn rows(&self) -> int {
        self.indptr@.len() - 1
    }

    /// Number of stored values in row `r`.
    pub open spec fn row_len(&self, r: int) -> int {
        self.indptr@[r + 1] - self.indptr@[r]
    }

    /// The stored entries of row `r`, each as its value and its column.
    pub open spec fn row(&self, r: int) -> Seq<(Scalar, usize)> {
        Seq::new(
            self.row_len(r) as nat,
            |k: int| (self.data@[self.indptr@[r] + k], self.indices@[self.indptr@[r] + k]),
        )
    }

    /// Whether stored position `k` lies in row `r`.
    pub open spec fn in_row(&self, r: int, k: int) -> bool {
        0 <= r < self.rows() && self.indptr@[r] <= k < self.indptr@[r + 1]
    }

    /// The row that holds stored position `k`.
    pub open spec fn row_of(&self, k: int) -> int {
        choose|r: int| self.in_row(r, k)
    }

    /// Stored position `k` as a coordinate entry: its row, its column and
    /// its value.
    pub open spec fn entry(&self, k: int) -> (usize, usize, Scalar) {
        (self.row_of(k) as usize, self.indices@[k], self.data@[k])
    }

    /// Whether every column index is below `n`.
    pub open spec fn columns_within(&self, n: int) -> bool {
        forall|k: int| 0 <= k < self.indices@.len() ==> self.indices@[k] < n
    }

    /// Whether, within each row, the column indices strictly increase.
    pub open spec fn rows_sorted(&self) -> bool {
        forall|r: int, j: int, k: int|
            0 <= r < self.rows() && #[trigger] self.indptr@[r] <= j < k < self.indptr@[r + 1]
                ==> #[trigger] self.indices@[j] < #[trigger] self.indices@[k]
    }

    /// Entry `r` of the product with `vector`: the row's dot product,
    /// reduced into the field.
    pub open spec fn row_product(&self, vector: Seq<Scalar>, r: int) -> nat {
        (dot(
            self.data@,
            self.indices@,
            vector,
            self.indptr@[r] as int,
            self.indptr@[r + 1] as int,
        ) % (modulus() as int)) as nat
    }

    /// Whether `out` is the product of this matrix with `vector`, every
    /// entry in canonical form.
    pub open spec fn is_product(&self, vector: Seq<Scalar>, out: Seq<Scalar>) -> bool {
        &&& out.len() == self.rows()
        &&& forall|r: int|
            0 <= r < self.rows() ==> (#[trigger] out[r])@ == self.row_product(vector, r)
                && out[r].canonical()
    }

    /// Whether `to` is where a block that starts at boundary `from` ends. A
    /// row that alone holds `block_size` values or more is a block of its
    /// own. Otherwise `to` is the furthest boundary that the block reaches
    /// while holding fewer than `block_size` values.
    pub open spec fn reaches(&self, from: int, block_size: int, to: int) -> bool {
        &&& 0 <= from <= to <= self.rows()
        &&& if from < self.rows() && self.row_len(from) >= block_size {
            to == from + 1
        } else {
            &&& self.indptr@[to] - self.indptr@[from] < block_size
            &&& to < self.rows() ==> self.indptr@[to + 1] - self.indptr@[from] >= block_size
        }
    }

    /// Whether `blocks` is the greedy partition of the rows for a block
    /// size: it starts at row 0, each boundary is where the block before it
    /// ends, and only the last one is the final row boundary.
    pub open spec fn is_partition(&self, block_size: int, blocks: Seq<usize>) -> bool {
        &&& blocks.len() >= 2
        &&& blocks[0] == 0
        &&& blocks.last() == self.rows()
        &&& forall|k: int|
            1 <= k < blocks.len() ==> self.reaches(
                blocks[k - 1] as int,
                block_size,
                #[trigger] blocks[k] as int,
            )
        &&& forall|k: int| 1 <= k < blocks.len() - 1 ==> #[trigger] blocks[k] < self.rows()
    }

    /// Whether the arrays have the shape that every operation relies on.
    pub fn is_well_formed(&self) -> (b: bool)
        ensures
            b == self.wf(),
    {
        let boundaries: usize = self.indptr.len();
        if boundaries == 0 || self.indptr[0] != 0 || self.indptr[boundaries - 1]
            != self.data.len() || self.indices.len() != self.data.len() {
            return false;
        }
        let mut i: usize = 1;
        while i < boundaries
            invariant
                1 <= i <= boundaries,
                boundaries == self.indptr@.len(),
                forall|a: int, b: int| 0 <= a <= b < i ==> self.indptr@[a] <= self.indptr@[b],
            decreases boundaries - i,
        {
            if self.indptr[i - 1] > self.indptr[i] {
                return false;
            }
            i += 1;
        }
        true
    }

    /// Whether every column index is below `n`.
    pub fn columns_below(&self, n: usize) -> (b: bool)
        ensures
            b == self.columns_within(n as int),
    {
        let mut k: usize = 0;
        while k < self.indices.len()
            invariant
                k <= self.indices@.len(),
                forall|j: int| 0 <= j < k ==> self.indices@[j] < n,
            decreases self.indices@.len() - k,
        {
            if self.indices[k] >= n {
                return false;
            }
            k += 1;
        }
        true
    }

    /// 0x0 empty matrix
    pub fn empty() -> (m: SparseMatrix)
        ensures
            m.wf(),
            m.rows() == 0,
            m.cols == 0,
            m.data@.len() == 0,
    {
        let mut indptr: Vec<usize> = Vec::new();
        indptr.push(0);
        SparseMatrix { data: Vec::new(), indices: Vec::new(), indptr, cols: 0 }
    }

    /// Construct from the COO representation: entries of row, column and
    /// value. Entries may come in any order of rows; within one row they
    /// must come by increasing column.
    pub fn new(matrix: &[(usize, usize, Scalar)], rows: usize, cols: usize) -> (m: SparseMatrix)
        requires
            rows < usize::MAX,
            coo_ordered(matrix@, rows as int),
        ensures
            m.wf(),
            m.rows() == rows,
            m.cols == cols,
            m.data@.len() == matrix@.len(),
            forall|r: int| 0 <= r < rows ==> #[trigger] m.row(r) == row_entries_of(matrix@, r),
            m.rows_sorted(),
            (forall|i: int| 0 <= i < matrix@.len() ==> (#[trigger] matrix@[i]).1 < cols)
                ==> m.columns_within(cols as int),
    {
        let mut new_matrix: Vec<Vec<(Scalar, usize)>> = Vec::new();
        let mut r: usize = 0;
        while r < rows
            invariant
                r <= rows,
                new_matrix@.len() == r,
                forall|t: int| 0 <= t < r ==> (#[trigger] new_matrix@[t])@.len() == 0,
            decreases rows - r,
        {
            new_matrix.push(Vec::new());
            r += 1;
        }
        let mut i: usize = 0;
        while i < matrix.len()
            invariant
                i <= matrix@.len(),
                coo_ordered(matrix@, rows as int),
                new_matrix@.len() == rows,
                forall|t: int|
                    0 <= t < rows ==> (#[trigger] new_matrix@[t])@ == row_entries_of(
                        matrix@.take(i as int),
                        t,
                    ),
            decreases matrix@.len() - i,
        {
            let (row, col, val) = matrix[i];
            assert(matrix@.take(i + 1).drop_last() =~= matrix@.take(i as int));
            new_matrix[row].push((val, col));
            i += 1;
        }
        assert(matrix@.take(matrix@.len() as int) =~= matrix@);

        let mut indptr: Vec<usize> = Vec::new();
        let mut indices: Vec<usize> = Vec::new();
        let mut data: Vec<Scalar> = Vec::new();
        indptr.push(0);
        let mut r: usize = 0;
        while r < rows
            invariant
                r <= rows < usize::MAX,
                new_matrix@.len() == rows,
                indptr@.len() == r + 1,
                indptr@[0] == 0,
                non_decreasing(indptr@),
                indptr@.last() == data@.len(),
                indices@.len() == data@.len(),
                data@.len() == entries_below(matrix@, r as int),
                forall|t: int|
                    0 <= t < rows ==> (#[trigger] new_matrix@[t])@ == row_entries_of(matrix@, t),
                forall|t: int|
                    0 <= t < r ==> indptr@[t + 1] - indptr@[t] == (#[trigger] new_matrix@[t])@.len()
                        && holds_row(data@, indices@, indptr@[t] as int, new_matrix@[t]@),
            decreases rows - r,
        {
            let row = &new_matrix[r];
            let ghost start = data@.len();
            let ghost data_before = data@;
            let ghost indices_before = indices@;
            let mut k: usize = 0;
            while k < row.len()
                invariant
                    k <= row@.len(),
                    data@.len() == start + k,
                    indices@.len() == data@.len(),
                    data_before.len() == start,
                    indices_before.len() == start,
                    data@.take(start as int) == data_before,
                    indices@.take(start as int) == indices_before,
                    holds_row(data@, indices@, start as int, row@.take(k as int)),
                decreases row@.len() - k,
            {
                let (val, col) = row[k];
                data.push(val);
                indices.push(col);
                k += 1;
                assert(data@.take(start as int) =~= data_before);
                assert(indices@.take(start as int) =~= indices_before);
            }
            assert(row@.take(row@.len() as int) =~= row@);
            let ghost indptr_before = indptr@;
            indptr.push(data.len());
            assert forall|t: int| 0 <= t < r + 1 implies indptr@[t + 1] - indptr@[t] == (
            #[trigger] new_matrix@[t])@.len() && holds_row(
                data@,
                indices@,
                indptr@[t] as int,
                new_matrix@[t]@,
            ) by {
                if t < r {
                    assert(indptr@[t] == indptr_before[t]);
                    assert(indptr@[t + 1] == indptr_before[t + 1]);
                    assert(indptr_before[t + 1] <= indptr_before[r as int]);
                    assert(holds_row(
                        data_before,
                        indices_before,
                        indptr@[t] as int,
                        new_matrix@[t]@,
                    ));
                    assert forall|j: int| 0 <= j < new_matrix@[t]@.len() implies data@[indptr@[t]
                        + j] == (#[trigger] new_matrix@[t]@[j]).0 && indices@[indptr@[t] + j]
                        == new_matrix@[t]@[j].1 by {
                        assert(data@[indptr@[t] + j] == data@.take(start as int)[indptr@[t] + j]);
                        assert(indices@[indptr@[t] + j] == indices@.take(start as int)[indptr@[t]
                            + j]);
                    }
                }
            }
            r += 1;
        }
        proof {
            lemma_entries_below_all(matrix@, rows as int);
        }
        let m = SparseMatrix { data, indices, indptr, cols };
        assert forall|t: int| 0 <= t < rows implies #[trigger] m.row(t) == row_entries_of(
            matrix@,
            t,
        ) by {
            assert(holds_row(m.data@, m.indices@, m.indptr@[t] as int, new_matrix@[t]@));
            assert(m.row(t) =~= new_matrix@[t]@);
        }
        assert forall|t: int, j: int, k: int|
            0 <= t < m.rows() && #[trigger] m.indptr@[t] <= j < k < m.indptr@[t + 1] implies
            #[trigger] m.indices@[j] < #[trigger] m.indices@[k] by {
            lemma_row_entries_increasing(matrix@, rows as int, t);
            let lo = m.indptr@[t] as int;
            assert(m.row(t)[j - lo].1 == m.indices@[j]);
            assert(m.row(t)[k - lo].1 == m.indices@[k]);
        }
        proof {
            if forall|i: int| 0 <= i < matrix@.len() ==> (#[trigger] matrix@[i]).1 < cols {
                assert forall|k: int| 0 <= k < m.indices@.len() implies m.indices@[k] < cols by {
                    m.lemma_row_of(k);
                    let t = m.row_of(k);
                    lemma_row_entries_increasing(matrix@, rows as int, t);
                    assert(m.row(t)[k - m.indptr@[t]].1 == m.indices@[k]);
                    assert(has_entry(matrix@, t, m.indices@[k]));
                }
            }
        }
        m
    }

    /// Retrieves the data for row slice [i..j] from `ptrs`.
    /// We assume that `ptrs` is indexed from `indptrs` and do not check if the
    /// returned slice is actually a valid row.
    pub fn get_row_unchecked(&self, ptrs: &[usize; 2]) -> (row: Vec<(Scalar, usize)>)
        requires
            ptrs[0] <= ptrs[1],
            ptrs[1] <= self.data@.len(),
            ptrs[1] <= self.indices@.len(),
        ensures
            row@.len() == ptrs[1] - ptrs[0],
            forall|k: int|
                0 <= k < row@.len() ==> row@[k] == (
                    self.data@[ptrs[0] + k],
                    self.indices@[ptrs[0] + k],
                ),
    {
        let lo: usize = ptrs[0];
        let hi: usize = ptrs[1];
        let mut row: Vec<(Scalar, usize)> = Vec::new();
        let mut k: usize = lo;
        while k < hi
            invariant
                lo <= k <= hi,
                hi <= self.data@.len(),
                hi <= self.indices@.len(),
                row@.len() == k - lo,
                forall|j: int|
                    0 <= j < row@.len() ==> row@[j] == (self.data@[lo + j], self.indices@[lo + j]),
            decreases hi - k,
        {
            row.push((self.data[k], self.indices[k]));
            k += 1;
        }
        row
    }

    /// The dot product of row `r` with `vector`, in the field.
    fn multiply_row(&self, vector: &[Scalar], r: usize) -> (out: Scalar)
        requires
            self.wf(),
            self.columns_within(vector@.len() as int),
            r < self.rows(),
            r < usize::MAX,
        ensures
            out@ == self.row_product(vector@, r as int),
            out.canonical(),
    {
        let ptrs: [usize; 2] = [self.indptr[r], self.indptr[r + 1]];
        let row = self.get_row_unchecked(&ptrs);
        let ghost lo: int = self.indptr@[r as int] as int;
        let mut acc = Scalar::zero();
        let mut k: usize = 0;
        while k < row.len()
            invariant
                k <= row@.len(),
                0 <= lo,
                lo + row@.len() <= self.data@.len(),
                self.indices@.len() == self.data@.len(),
                self.columns_within(vector@.len() as int),
                forall|j: int|
                    0 <= j < row@.len() ==> row@[j] == (self.data@[lo + j], self.indices@[lo + j]),
                acc@ == dot(self.data@, self.indices@, vector@, lo, lo + k) % (modulus() as int),
            decreases row@.len() - k,
        {
            let (val, col) = row[k];
            let term = val.mul(&vector[col]);
            proof {
                lemma_add_mod_noop(
                    dot(self.data@, self.indices@, vector@, lo, lo + k),
                    (val@ * vector@[col as int]@) as int,
                    modulus() as int,
                );
            }
            acc = acc.add(&term);
            k += 1;
        }
        acc
    }

    /// Multiply by a dense vector, block by block.
    pub fn multiply_vec_blocked(&self, vector: &[Scalar], block_size: usize) -> (res: Vec<Scalar>)
        requires
            self.wf(),
            self.cols == vector@.len(),
            self.columns_within(self.cols as int),
            block_size >= 1,
        ensures
            self.is_product(vector@, res@),
    {
        let rows: usize = self.indptr.len() - 1;
        let mut res: Vec<Scalar> = vec![Scalar::zero(); rows];
        let blocks = self.blocks(block_size);
        let mut w: usize = 0;
        while w + 1 < blocks.len()
            invariant
                self.wf(),
                self.columns_within(vector@.len() as int),
                self.is_partition(block_size as int, blocks@),
                rows == self.rows(),
                res@.len() == rows,
                w < blocks@.len(),
                forall|t: int|
                    0 <= t < blocks@[w as int] ==> (#[trigger] res@[t])@ == self.row_product(
                        vector@,
                        t,
                    ) && res@[t].canonical(),
            decreases blocks@.len() - w,
        {
            let end: usize = blocks[w + 1];
            let mut i: usize = blocks[w];
            assert(self.reaches(blocks@[w as int] as int, block_size as int, blocks@[w + 1] as int));
            while i < end
                invariant
                    self.wf(),
                    self.columns_within(vector@.len() as int),
                    rows == self.rows(),
                    res@.len() == rows,
                    i <= end <= rows,
                    forall|t: int|
                        0 <= t < i ==> (#[trigger] res@[t])@ == self.row_product(vector@, t)
                            && res@[t].canonical(),
                decreases end - i,
            {
                let out = self.multiply_row(vector, i);
                res[i] = out;
                i += 1;
            }
            w += 1;
        }
        res
    }

    /// Multiply by a dense vector.
    /// This does not check that the shape of the matrix/vector are compatible.
    pub fn multiply_vec_unchecked(&self, vector: &[Scalar]) -> (res: Vec<Scalar>)
        requires
            self.wf(),
            self.columns_within(vector@.len() as int),
        ensures
            self.is_product(vector@, res@),
    {
        let rows: usize = self.indptr.len() - 1;
        let mut res: Vec<Scalar> = Vec::new();
        let mut r: usize = 0;
        while r < rows
            invariant
                r <= rows,
                rows == self.rows(),
                self.wf(),
                self.columns_within(vector@.len() as int),
                res@.len() == r,
                forall|t: int|
                    0 <= t < r ==> (#[trigger] res@[t])@ == self.row_product(vector@, t)
                        && res@[t].canonical(),
            decreases rows - r,
        {
            let out = self.multiply_row(vector, r);
            res.push(out);
            r += 1;
        }
        res
    }

    /// Row boundaries that cut the matrix into blocks, never splitting a
    /// row. A block takes rows for as long as it holds fewer than
    /// `block_size` stored values; a row that alone holds that many or more
    /// is a block of its own.
    pub fn blocks(&self, block_size: usize) -> (blocks: Vec<usize>)
        requires
            self.wf(),
            block_size >= 1,
        ensures
            self.is_partition(block_size as int, blocks@),
    {
        let boundaries: usize = self.indptr.len();
        let mut n: usize = block_size;
        let mut blocks: Vec<usize> = Vec::new();
        blocks.push(0);
        let mut from: usize = 0;
        loop
            invariant_except_break
                self.wf(),
                block_size >= 1,
                boundaries == self.indptr@.len(),
                from <= self.rows(),
                n == self.indptr@[from as int] + block_size,
                blocks@.len() >= 1,
                blocks@[0] == 0,
                blocks@.last() == from,
                blocks@.len() > 1 ==> from < self.rows(),
                forall|k: int|
                    1 <= k < blocks@.len() ==> self.reaches(
                        blocks@[k - 1] as int,
                        block_size as int,
                        #[trigger] blocks@[k] as int,
                    ),
                forall|k: int| 1 <= k < blocks@.len() ==> #[trigger] blocks@[k] < self.rows(),
            ensures
                self.is_partition(block_size as int, blocks@),
            decreases self.rows() - from,
        {
            let i = lower_bound(&self.indptr, n);
            // a row that fills the block by itself would hold the search in place
            let to: usize = if i - 1 == from && i < boundaries {
                i
            } else {
                i - 1
            };
            blocks.push(to);
            if to + 1 == boundaries {
                break ;
            }
            match self.indptr[to].checked_add(block_size) {
                Some(next) => {
                    n = next;
                    from = to;
                },
                None => {
                    blocks.push(boundaries - 1);
                    break ;
                },
            }
        }
        blocks
    }

    /// number of non-zero entries
    pub fn len(&self) -> (n: usize)
        requires
            self.indptr@.len() >= 1,
        ensures
            n == self.indptr@.last(),
    {
        self.indptr[self.indptr.len() - 1]
    }

    /// empty matrix
    pub fn is_empty(&self) -> (b: bool)
        requires
            self.indptr@.len() >= 1,
        ensures
            b == (self.indptr@.last() == 0),
    {
        self.len() == 0
    }

    /// Walks the stored entries in row-major order, from the first one.
    pub fn iter(&self) -> (it: Iter<'_>)
        requires
            self.wf(),
            self.data@.len() > 0,
        ensures
            it.wf(),
            *it.matrix() == *self,
            it.position() == 0,
    {
        let last: usize = self.indptr.len() - 1;
        let mut row: usize = 0;
        while self.indptr[row + 1] == 0
            invariant
                self.wf(),
                last == self.rows(),
                self.data@.len() > 0,
                row < last,
                self.indptr@[row as int] == 0,
            decreases last - row,
        {
            row += 1;
        }
        Iter { matrix: self, row, i: 0, nnz: self.indptr[last] }
    }
}

impl<'a> Iter<'a> {
    /// The matrix being walked.
    pub closed spec fn matrix(&self) -> &'a SparseMatrix {
        self.matrix
    }

    /// How many entries have been handed out.
    pub closed spec fn position(&self) -> int {
        self.i as int
    }

    /// The walk stands inside a well-formed matrix, on the row of its next
    /// entry.
    pub closed spec fn wf(&self) -> bool {
        &&& self.matrix.wf()
        &&& self.matrix.indptr@.len() <= usize::MAX
        &&& self.nnz == self.matrix.data@.len()
        &&& self.i <= self.nnz
        &&& self.i < self.nnz ==> self.matrix.in_row(self.row as int, self.i as int)
    }

    /// What a walk that is in order says of its matrix: the matrix is
    /// well-formed, and the walk stands at one of its stored positions or
    /// at their end.
    pub proof fn lemma_wf(&self)
        requires
            self.wf(),
        ensures
            self.matrix().wf(),
            0 <= self.position() <= self.matrix().data@.len(),
    {
    }

    /// The next stored entry as (row, column, value), or `None` once all
    /// have been handed out.
    pub fn next(&mut self) -> (item: Option<(usize, usize, Scalar)>)
        requires
            old(self).wf(),
        ensures
            final(self).wf(),
            final(self).matrix() == old(self).matrix(),
            old(self).position() == old(self).matrix().data@.len() ==> item.is_none()
                && final(self).position() == old(self).position(),
            old(self).position() < old(self).matrix().data@.len() ==> item == Some(
                old(self).matrix().entry(old(self).position()),
            ) && final(self).position() == old(self).position() + 1,
    {
        // are we at the end?
        if self.i == self.nnz {
            return None;
        }
        proof {
            self.matrix.lemma_row_of(self.i as int);
        }
        // compute current item
        let curr_item = (self.row, self.matrix.indices[self.i], self.matrix.data[self.i]);

        // advance the iterator
        self.i += 1;
        // edge case at the end
        if self.i == self.nnz {
            return Some(curr_item);
        }
        // if `i` has moved to next row
        while self.i >= self.matrix.indptr[self.row + 1]
            invariant
                self.matrix.wf(),
                self.matrix.indptr@.len() <= usize::MAX,
                self.matrix == old(self).matrix,
                self.nnz == self.matrix.data@.len(),
                self.i < self.nnz,
                self.i == old(self).i + 1,
                self.row < self.matrix.rows(),
                self.matrix.indptr@[self.row as int] <= self.i,
            decreases self.matrix.rows() - self.row,
        {
            self.row += 1;
        }

        Some(curr_item)
    }
}

/// The first position of a non-decreasing sequence whose value is at least
/// `target`, or its length where there is none.
fn lower_bound(sorted: &Vec<usize>, target: usize) -> (i: usize)
    requires
        non_decreasing(sorted@),
    ensures
        i <= sorted@.len(),
        forall|j: int| 0 <= j < i ==> sorted@[j] < target,
        forall|j: int| i <= j < sorted@.len() ==> sorted@[j] >= target,
{
    let mut lo: usize = 0;
    let mut hi: usize = sorted.len();
    while lo < hi
        invariant
            lo <= hi <= sorted@.len(),
            non_decreasing(sorted@),
            forall|j: int| 0 <= j < lo ==> sorted@[j] < target,
            forall|j: int| hi <= j < sorted@.len() ==> sorted@[j] >= target,
        decreases hi - lo,
    {
        let mid: usize = lo + (hi - lo) / 2;
        if sorted[mid] < target {
            lo = mid + 1;
        } else {
            hi = mid;
        }
    }
    lo
}

impl SparseMatrix {
    /// Every stored position lies in exactly one row.
    pub proof fn lemma_row_of(&self, k: int)
        requires
            self.wf(),
            0 <= k < self.data@.len(),
        ensures
            self.in_row(self.row_of(k), k),
            forall|r: int| self.in_row(r, k) ==> r == self.row_of(k),
    {
        self.lemma_row_from(k, 0);
        let found = self.row_of(k);
        assert forall|r: int| self.in_row(r, k) implies r == found by {
            if r < found {
                assert(self.indptr@[r + 1] <= self.indptr@[found]);
            } else if found < r {
                assert(self.indptr@[found + 1] <= self.indptr@[r]);
            }
        }
    }

    proof fn lemma_row_from(&self, k: int, r: int)
        requires
            self.wf(),
            0 <= r < self.rows(),
            self.indptr@[r] <= k < self.data@.len(),
        ensures
            exists|t: int| self.in_row(t, k),
        decreases self.rows() - r,
    {
        if k < self.indptr@[r + 1] {
            assert(self.in_row(r, k));
        } else {
            self.lemma_row_from(k, r + 1);
        }
    }

    /// Whether row `r` belongs to block `k` of a list of row boundaries.
    pub open spec fn in_block(blocks: Seq<usize>, k: int, r: int) -> bool {
        0 <= k < blocks.len() - 1 && blocks[k] <= r < blocks[k + 1]
    }

    /// Whether some block of a list of row boundaries holds row `r`.
    pub open spec fn has_block(blocks: Seq<usize>, r: int) -> bool {
        exists|k: int| Self::in_block(blocks, k, r)
    }

    /// The boundaries that `blocks` returns start at row 0, end at the last
    /// row boundary and never decrease; no block but that of a matrix
    /// without rows is empty; every row lies in exactly one block, whole;
    /// and a block holds fewer than `block_size` values unless it is one row
    /// that alone holds that many or more.
    pub proof fn lemma_partition_covers_rows(&self, block_size: int, blocks: Seq<usize>)
        requires
            self.wf(),
            block_size >= 1,
            self.is_partition(block_size, blocks),
        ensures
            non_decreasing(blocks),
            blocks[0] == 0,
            blocks.last() == self.rows(),
            forall|k: int|
                0 <= k < blocks.len() - 1 && self.rows() > 0 ==> #[trigger] blocks[k] < blocks[k
                    + 1],
            forall|r: int| 0 <= r < self.rows() ==> #[trigger] Self::has_block(blocks, r),
            forall|r: int, k: int, l: int|
                #[trigger] Self::in_block(blocks, k, r) && #[trigger] Self::in_block(blocks, l, r)
                    ==> k == l,
            forall|k: int|
                0 <= k < blocks.len() - 1 ==> self.indptr@[blocks[k + 1] as int]
                    - self.indptr@[#[trigger] blocks[k] as int] < block_size || (blocks[k + 1]
                    == blocks[k] + 1 && self.row_len(blocks[k] as int) >= block_size),
    {
        assert forall|i: int, j: int| 0 <= i <= j < blocks.len() implies blocks[i] <= blocks[j] by {
            self.lemma_partition_ordered(block_size, blocks, i, j);
        }
        assert forall|k: int| 0 <= k < blocks.len() - 1 && self.rows() > 0 implies #[trigger]
            blocks[k] < blocks[k + 1] by {
            assert(self.reaches(blocks[k] as int, block_size, blocks[k + 1] as int));
            if k > 0 {
                assert(blocks[k] < self.rows());
            }
            let from = blocks[k] as int;
            if self.row_len(from) < block_size && blocks[k + 1] == from {
                assert(self.indptr@[from + 1] - self.indptr@[from] >= block_size);
            }
        }
        assert forall|r: int| 0 <= r < self.rows() implies #[trigger] Self::has_block(
            blocks,
            r,
        ) by {
            self.lemma_partition_finds(block_size, blocks, r, 0);
        }
        assert forall|r: int, k: int, l: int|
            #[trigger] Self::in_block(blocks, k, r) && #[trigger] Self::in_block(
                blocks,
                l,
                r,
            ) implies k == l by {
            if k < l {
                self.lemma_partition_ordered(block_size, blocks, k + 1, l);
            } else if l < k {
                self.lemma_partition_ordered(block_size, blocks, l + 1, k);
            }
        }
        assert forall|k: int| 0 <= k < blocks.len() - 1 implies self.indptr@[blocks[k + 1] as int]
            - self.indptr@[#[trigger] blocks[k] as int] < block_size || (blocks[k + 1] == blocks[k]
            + 1 && self.row_len(blocks[k] as int) >= block_size) by {
            assert(self.reaches(blocks[k] as int, block_size, blocks[k + 1] as int));
        }
    }

    /// There is one partition for each block size: the contract of
    /// `blocks` leaves nothing open.
    pub proof fn lemma_partition_determined(&self, block_size: int, a: Seq<usize>, b: Seq<usize>)
        requires
            self.wf(),
            self.is_partition(block_size, a),
            self.is_partition(block_size, b),
        ensures
            a == b,
    {
        if a.len() < b.len() {
            self.lemma_partition_agrees(block_size, a, b, a.len() - 1);
            assert(b[a.len() - 1] < self.rows());
        } else if b.len() < a.len() {
            self.lemma_partition_agrees(block_size, a, b, b.len() - 1);
            assert(a[b.len() - 1] < self.rows());
        }
        assert forall|k: int| 0 <= k < a.len() implies a[k] == b[k] by {
            self.lemma_partition_agrees(block_size, a, b, k);
        }
        assert(a =~= b);
    }

    /// A partition never steps backwards.
    proof fn lemma_partition_ordered(&self, block_size: int, blocks: Seq<usize>, i: int, j: int)
        requires
            self.is_partition(block_size, blocks),
            0 <= i <= j < blocks.len(),
        ensures
            blocks[i] <= blocks[j],
        decreases j - i,
    {
        if i < j {
            self.lemma_partition_ordered(block_size, blocks, i, j - 1);
            assert(self.reaches(blocks[j - 1] as int, block_size, blocks[j] as int));
        }
    }

    /// Some block from `k` on holds row `r`.
    proof fn lemma_partition_finds(&self, block_size: int, blocks: Seq<usize>, r: int, k: int)
        requires
            self.is_partition(block_size, blocks),
            0 <= k < blocks.len() - 1,
            blocks[k] <= r < self.rows(),
        ensures
            exists|b: int| Self::in_block(blocks, b, r),
        decreases blocks.len() - k,
    {
        if r < blocks[k + 1] {
            assert(Self::in_block(blocks, k, r));
        } else {
            self.lemma_partition_finds(block_size, blocks, r, k + 1);
        }
    }

    /// Two partitions for one block size agree up to any position that
    /// both have.
    proof fn lemma_partition_agrees(
        &self,
        block_size: int,
        a: Seq<usize>,
        b: Seq<usize>,
        k: int,
    )
        requires
            self.wf(),
            self.is_partition(block_size, a),
            self.is_partition(block_size, b),
            0 <= k < a.len(),
            k < b.len(),
        ensures
            a[k] == b[k],
        decreases k,
    {
        if k > 0 {
            self.lemma_partition_agrees(block_size, a, b, k - 1);
            let from = a[k - 1] as int;
            assert(self.reaches(from, block_size, a[k] as int));
            assert(self.reaches(from, block_size, b[k] as int));
            if !(from < self.rows() && self.row_len(from) >= block_size) {
                if a[k] < b[k] {
                    assert(self.indptr@[a[k] + 1] <= self.indptr@[b[k] as int]);
                } else if b[k] < a[k] {
                    assert(self.indptr@[b[k] + 1] <= self.indptr@[a[k] as int]);
                }
            }
        }
    }

    /// The product is one value: whatever block size it was computed
    /// with, or with none, the outcome is the same vector.
    pub proof fn lemma_product_determined(&self, vector: Seq<Scalar>, a: Seq<Scalar>, b: Seq<Scalar>)
        requires
            self.is_product(vector, a),
            self.is_product(vector, b),
        ensures
            a == b,
    {
        assert forall|r: int| 0 <= r < a.len() implies a[r] == b[r] by {
            a[r].lemma_view_injective(b[r]);
        }
        assert(a =~= b);
    }

    /// Entry `r` of the product of the dense matrix that this one spells
    /// out with `vector`: the sum over all columns, reduced into the field.
    pub open spec fn dense_row_product(&self, vector: Seq<Scalar>, r: int) -> nat {
        (dense_dot(
            self.data@,
            self.indices@,
            vector,
            self.indptr@[r] as int,
            self.indptr@[r + 1] as int,
            self.cols as int,
        ) % (modulus() as int)) as nat
    }

    /// Where the columns of each row strictly increase and lie inside the
    /// matrix, the product of a row with a vector is the dot product of the
    /// dense row with it: columns that the row does not store count as
    /// zero.
    pub proof fn lemma_product_is_dense_product(&self, vector: Seq<Scalar>, r: int)
        requires
            self.wf(),
            self.rows_sorted(),
            self.columns_within(self.cols as int),
            0 <= r < self.rows(),
        ensures
            self.row_product(vector, r) == self.dense_row_product(vector, r),
    {
        let lo = self.indptr@[r] as int;
        let hi = self.indptr@[r + 1] as int;
        assert(hi <= self.indptr@[self.rows()]);
        assert(increasing(self.indices@, lo, hi));
        lemma_dense_dot_is_dot(self.data@, self.indices@, vector, lo, hi, self.cols as int);
        lemma_split_is(self.indices@, lo, hi, self.cols as int, hi);
    }
}

/// The value that positions `lo <= k < hi` store for column `c`, and zero
/// where they store none.
pub open spec fn stored(data: Seq<Scalar>, indices: Seq<usize>, lo: int, hi: int, c: int) -> nat
    decreases hi - lo,
{
    if hi <= lo {
        0
    } else if indices[hi - 1] == c {
        data[hi - 1]@
    } else {
        stored(data, indices, lo, hi - 1, c)
    }
}

/// The dot product of the dense row that positions `lo <= k < hi` spell
/// out with the first `n` entries of `vector`, as an integer.
pub open spec fn dense_dot(
    data: Seq<Scalar>,
    indices: Seq<usize>,
    vector: Seq<Scalar>,
    lo: int,
    hi: int,
    n: int,
) -> int
    decreases n,
{
    if n <= 0 {
        0
    } else {
        dense_dot(data, indices, vector, lo, hi, n - 1) + stored(data, indices, lo, hi, n - 1)
            * vector[n - 1]@
    }
}

/// Whether the column indices at positions `lo <= k < hi` strictly increase.
pub open spec fn increasing(indices: Seq<usize>, lo: int, hi: int) -> bool {
    forall|j: int, k: int| lo <= j < k < hi ==> indices[j] < indices[k]
}

/// The first position from `lo` on whose column is at least `n`, or `hi`.
pub open spec fn split(indices: Seq<usize>, lo: int, hi: int, n: int) -> int
    decreases hi - lo,
{
    if lo >= hi || indices[lo] >= n {
        lo
    } else {
        split(indices, lo + 1, hi, n)
    }
}

proof fn lemma_split(indices: Seq<usize>, lo: int, hi: int, n: int)
    requires
        0 <= lo <= hi <= indices.len(),
        increasing(indices, lo, hi),
    ensures
        lo <= split(indices, lo, hi, n) <= hi,
        forall|k: int| lo <= k < split(indices, lo, hi, n) ==> indices[k] < n,
        forall|k: int| split(indices, lo, hi, n) <= k < hi ==> indices[k] >= n,
    decreases hi - lo,
{
    if lo < hi && indices[lo] < n {
        lemma_split(indices, lo + 1, hi, n);
    }
}

proof fn lemma_split_is(indices: Seq<usize>, lo: int, hi: int, n: int, m: int)
    requires
        0 <= lo <= m <= hi <= indices.len(),
        increasing(indices, lo, hi),
        forall|k: int| lo <= k < m ==> indices[k] < n,
        forall|k: int| m <= k < hi ==> indices[k] >= n,
    ensures
        split(indices, lo, hi, n) == m,
{
    lemma_split(indices, lo, hi, n);
    let found = split(indices, lo, hi, n);
    if found < m {
        assert(indices[found] < n);
    } else if m < found {
        assert(indices[m] >= n);
    }
}

proof fn lemma_stored_absent(data: Seq<Scalar>, indices: Seq<usize>, lo: int, hi: int, c: int)
    requires
        0 <= lo <= hi <= indices.len(),
        forall|k: int| lo <= k < hi ==> indices[k] != c,
    ensures
        stored(data, indices, lo, hi, c) == 0,
    decreases hi - lo,
{
    if lo < hi {
        lemma_stored_absent(data, indices, lo, hi - 1, c);
    }
}

proof fn lemma_stored_present(
    data: Seq<Scalar>,
    indices: Seq<usize>,
    lo: int,
    hi: int,
    c: int,
    at: int,
)
    requires
        0 <= lo <= at < hi <= indices.len(),
        increasing(indices, lo, hi),
        indices[at] == c,
    ensures
        stored(data, indices, lo, hi, c) == data[at]@,
    decreases hi - lo,
{
    if at < hi - 1 {
        assert(indices[at] < indices[hi - 1]);
        lemma_stored_present(data, indices, lo, hi - 1, c, at);
    }
}

/// Summing over the columns below `n` is summing over the stored positions
/// whose column is below `n`.
proof fn lemma_dense_dot_is_dot(
    data: Seq<Scalar>,
    indices: Seq<usize>,
    vector: Seq<Scalar>,
    lo: int,
    hi: int,
    n: int,
)
    requires
        0 <= lo <= hi <= indices.len(),
        indices.len() == data.len(),
        increasing(indices, lo, hi),
        0 <= n,
    ensures
        dense_dot(data, indices, vector, lo, hi, n) == dot(
            data,
            indices,
            vector,
            lo,
            split(indices, lo, hi, n),
        ),
    decreases n,
{
    lemma_split(indices, lo, hi, n);
    if n == 0 {
        lemma_split_is(indices, lo, hi, 0, lo);
    } else {
        lemma_dense_dot_is_dot(data, indices, vector, lo, hi, n - 1);
        lemma_split(indices, lo, hi, n - 1);
        let m = split(indices, lo, hi, n - 1);
        if m < hi && indices[m] == n - 1 {
            assert forall|k: int| m + 1 <= k < hi implies indices[k] >= n by {
                assert(indices[m] < indices[k]);
            }
            lemma_split_is(indices, lo, hi, n, m + 1);
            lemma_stored_present(data, indices, lo, hi, n - 1, m);
        } else {
            assert forall|k: int| m <= k < hi implies indices[k] >= n by {
                if k > m {
                    assert(indices[m] < indices[k]);
                }
            }
            lemma_split_is(indices, lo, hi, n, m);
            lemma_stored_absent(data, indices, lo, hi, n - 1);
        }
    }
}

/// How many entries of a coordinate list lie in the rows below `rows`.
pub open spec fn entries_below(coo: Seq<(usize, usize, Scalar)>, rows: int) -> int
    decreases rows,
{
    if rows <= 0 {
        0
    } else {
        entries_below(coo, rows - 1) + row_entries_of(coo, rows - 1).len()
    }
}

/// One more entry is one more entry in the rows that reach past its row,
/// and none in the others.
proof fn lemma_entries_below_push(coo: Seq<(usize, usize, Scalar)>, rows: int)
    requires
        coo.len() > 0,
        0 <= rows,
    ensures
        entries_below(coo, rows) == entries_below(coo.drop_last(), rows) + (if coo.last().0
            < rows {
            1int
        } else {
            0int
        }),
    decreases rows,
{
    if rows > 0 {
        lemma_entries_below_push(coo, rows - 1);
    }
}

/// Where every entry names a row below `rows`, those rows hold all of them.
proof fn lemma_entries_below_all(coo: Seq<(usize, usize, Scalar)>, rows: int)
    requires
        0 <= rows,
        forall|i: int| 0 <= i < coo.len() ==> (#[trigger] coo[i]).0 < rows,
    ensures
        entries_below(coo, rows) == coo.len(),
    decreases coo.len(),
{
    if coo.len() == 0 {
        assert(coo =~= Seq::empty());
        lemma_entries_below_none(rows);
    } else {
        let head = coo.drop_last();
        assert forall|i: int| 0 <= i < head.len() implies (#[trigger] head[i]).0 < rows by {
            assert(head[i] == coo[i]);
        }
        lemma_entries_below_all(head, rows);
        lemma_entries_below_push(coo, rows);
        assert(coo[coo.len() - 1].0 < rows);
    }
}

proof fn lemma_entries_below_none(rows: int)
    requires
        0 <= rows,
    ensures
        entries_below(Seq::<(usize, usize, Scalar)>::empty(), rows) == 0,
    decreases rows,
{
    if rows > 0 {
        lemma_entries_below_none(rows - 1);
    }
}

/// Whether the coordinate list has an entry in row `r` and column `col`.
pub open spec fn has_entry(coo: Seq<(usize, usize, Scalar)>, r: int, col: usize) -> bool {
    exists|p: int| 0 <= p < coo.len() && (#[trigger] coo[p]).0 == r && coo[p].1 == col
}

/// The entries picked for one row keep the columns of the list, in
/// strictly increasing order.
proof fn lemma_row_entries_increasing(coo: Seq<(usize, usize, Scalar)>, rows: int, r: int)
    requires
        coo_ordered(coo, rows),
    ensures
        forall|j: int|
            0 <= j < row_entries_of(coo, r).len() ==> has_entry(
                coo,
                r,
                (#[trigger] row_entries_of(coo, r)[j]).1,
            ),
        forall|j: int, k: int|
            0 <= j < k < row_entries_of(coo, r).len() ==> (#[trigger] row_entries_of(coo, r)[j]).1
                < (#[trigger] row_entries_of(coo, r)[k]).1,
    decreases coo.len(),
{
    if coo.len() > 0 {
        let head = coo.drop_last();
        let before = row_entries_of(head, r);
        let all = row_entries_of(coo, r);
        lemma_row_entries_increasing(head, rows, r);
        assert forall|j: int| 0 <= j < before.len() implies has_entry(
            coo,
            r,
            (#[trigger] before[j]).1,
        ) by {
            let p = choose|p: int|
                0 <= p < head.len() && (#[trigger] head[p]).0 == r && head[p].1 == before[j].1;
            assert(coo[p] == head[p]);
        }
        if coo.last().0 == r {
            assert(coo[coo.len() - 1].0 == r);
            assert forall|j: int| 0 <= j < before.len() implies (#[trigger] before[j]).1
                < coo.last().1 by {
                let p = choose|p: int|
                    0 <= p < head.len() && (#[trigger] head[p]).0 == r && head[p].1 == before[j].1;
                assert(coo[p] == head[p]);
            }
            assert forall|j: int| 0 <= j < all.len() implies has_entry(
                coo,
                r,
                (#[trigger] all[j]).1,
            ) by {
                if j < before.len() {
                    assert(all[j] == before[j]);
                }
            }
            assert forall|j: int, k: int| 0 <= j < k < all.len() implies (#[trigger] all[j]).1 < (
            #[trigger] all[k]).1 by {
                assert(all[j] == before[j]);
                if k < before.len() {
                    assert(all[k] == before[k]);
                }
            }
        }
    }
}

} // verus!
