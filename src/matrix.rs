//! The dense allele-count matrix, held in an `ndarray` array.
use vstd::prelude::*;
use crate::sample::GenomicsError;

verus! {

/// The sum of a sequence of counts.
pub open spec fn sum_cells(c: Seq<u32>) -> nat
    decreases c.len(),
{
    if c.len() == 0 {
        0
    } else {
        sum_cells(c.drop_last()) + c.last() as nat
    }
}

/// A two-dimensional `ndarray` array of allele counts. Verus does not take the declaration
/// of `ndarray::ArrayBase` (its `RawData` bound), so the array is held here, opaque.
#[verifier::external_body]
pub struct CountArray {
    inner: ndarray::Array2<u32>,
}

#[verifier::external_type_specification]
#[verifier::external_body]
pub struct ExShapeError(ndarray::ShapeError);

/// The cells of a two-dimensional array, row after row.
pub uninterp spec fn array_cells(a: CountArray) -> Seq<u32>;

/// The number of rows and of columns of a two-dimensional array.
pub uninterp spec fn array_shape(a: CountArray) -> (nat, nat);

/// Relies on `ndarray::Array::from_shape_vec` with a `(rows, cols)` shape (row-major
/// strides): it fails when `rows * cols` differs from the length of `v` and, when they
/// agree and no axis exceeds `isize::MAX`, returns the array whose cells are `v` in order.
#[verifier::external_body]
pub(crate) fn array_from_vec(rows: usize, cols: usize, v: Vec<u32>) -> (r: Result<CountArray, ndarray::ShapeError>)
    ensures
        rows * cols != v@.len() ==> r is Err,
        rows * cols == v@.len() && rows <= isize::MAX && cols <= isize::MAX ==> r is Ok,
        r is Ok ==> array_cells(r->Ok_0) == v@ && array_shape(r->Ok_0) == (rows as nat, cols as nat),
{
    ndarray::Array::from_shape_vec((rows, cols), v).map(|inner| CountArray { inner })
}

/// Relies on `ndarray::Array2::zeros` with shape `(0, 0)`: the empty array.
#[verifier::external_body]
pub(crate) fn array_empty() -> (r: CountArray)
    ensures
        array_cells(r) == Seq::<u32>::empty(),
        array_shape(r) == (0nat, 0nat),
{
    CountArray { inner: ndarray::Array2::zeros((0, 0)) }
}

/// Relies on indexing an `ndarray::Array2` by `[row, col]`: in bounds, the cell stored at
/// `row * cols + col` of a row-major array.
#[verifier::external_body]
pub(crate) fn array_cell(a: &CountArray, row: usize, col: usize) -> (r: u32)
    requires
        row < array_shape(*a).0,
        col < array_shape(*a).1,
    ensures
        r == array_cells(*a)[row * array_shape(*a).1 + col],
{
    a.inner[[row, col]]
}

/// The allele-count matrix of a sample: one row per individual, one column per
/// (locus, variation), with the column range of each locus.
pub struct AlleleMatrix {
    pub(crate) data: CountArray,
    pub(crate) rows: usize,
    pub(crate) cols: usize,
    pub(crate) loci: Vec<(usize, usize)>,
    pub(crate) dirty: bool,
}

impl AlleleMatrix {
    /// The empty matrix.
    pub fn new() -> (r: Self)
        ensures
            r.wf(),
            r.cells() == Seq::<u32>::empty(),
            r.shape() == (0nat, 0nat),
            r.ranges() == Seq::<(usize, usize)>::empty(),
            !r.is_stale(),
    {
        AlleleMatrix { data: array_empty(), rows: 0, cols: 0, loci: Vec::new(), dirty: false }
    }

    /// A matrix of `individuals` rows holding `data` row after row, as many columns as
    /// that makes, with the given locus column ranges.
    pub fn from_vec(individuals: usize, loci: Vec<(usize, usize)>, data: Vec<u32>) -> (r: Result<Self, GenomicsError>)
        ensures
            individuals == 0 || data@.len() % (individuals as nat) != 0 ==> r matches Err(GenomicsError::Shape),
            individuals > 0 && data@.len() % (individuals as nat) == 0 && individuals <= isize::MAX
                && data@.len() / (individuals as nat) <= isize::MAX ==> r is Ok,
            r matches Ok(m) ==> {
                &&& m.wf()
                &&& individuals > 0
                &&& m.cells() == data@
                &&& m.shape() == (individuals as nat, data@.len() / (individuals as nat))
                &&& m.ranges() == loci@
                &&& !m.is_stale()
            },
            r is Err ==> r matches Err(GenomicsError::Shape),
    {
        if individuals == 0 {
            return Err(GenomicsError::Shape);
        }
        let alleles = data.len() / individuals;
        proof {
            assert(individuals * alleles + data@.len() % (individuals as nat) == data@.len()) by (nonlinear_arith)
                requires individuals > 0, alleles == data@.len() / (individuals as nat);
        }
        match array_from_vec(individuals, alleles, data) {
            Ok(a) => Ok(AlleleMatrix { data: a, rows: individuals, cols: alleles, loci, dirty: false }),
            Err(_) => Err(GenomicsError::Shape),
        }
    }

    /// The cells, row after row.
    pub open(crate) spec fn cells(&self) -> Seq<u32> {
        array_cells(self.data)
    }

    /// The number of rows and of columns.
    pub open(crate) spec fn shape(&self) -> (nat, nat) {
        array_shape(self.data)
    }

    /// The column range `[start, end)` of each locus, in canonical locus order.
    pub open(crate) spec fn ranges(&self) -> Seq<(usize, usize)> {
        self.loci@
    }

    /// Whether the registry changed since the matrix was built.
    pub open(crate) spec fn is_stale(&self) -> bool {
        self.dirty
    }

    pub open(crate) spec fn wf(&self) -> bool {
        &&& array_shape(self.data) == (self.rows as nat, self.cols as nat)
        &&& array_cells(self.data).len() == self.rows * self.cols
    }

    pub fn n_rows(&self) -> (r: usize)
        requires
            self.wf(),
        ensures
            r == self.shape().0,
    {
        self.rows
    }

    pub fn n_cols(&self) -> (r: usize)
        requires
            self.wf(),
        ensures
            r == self.shape().1,
    {
        self.cols
    }

    /// The count in row `row`, column `col`.
    pub fn get(&self, row: usize, col: usize) -> (r: u32)
        requires
            self.wf(),
            row < self.shape().0,
            col < self.shape().1,
        ensures
            r == self.cells()[row * self.shape().1 + col],
    {
        array_cell(&self.data, row, col)
    }

    /// The sum of row `row` over the column range of locus `l`.
    pub fn locus_sum(&self, row: usize, l: usize) -> (r: u128)
        requires
            self.wf(),
            row < self.shape().0,
            l < self.ranges().len(),
            self.ranges()[l as int].0 <= self.ranges()[l as int].1 <= self.shape().1,
        ensures
            r == sum_cells(self.cells().subrange(
                row * self.shape().1 + self.ranges()[l as int].0,
                row * self.shape().1 + self.ranges()[l as int].1,
            )),
    {
        let (start, end) = self.loci[l];
        let ghost base = row * self.cols;
        proof {
            assert(base + end <= self.rows * self.cols) by (nonlinear_arith)
                requires base == row * self.cols, row < self.rows, end <= self.cols;
        }
        let mut total: u128 = 0;
        let mut c: usize = start;
        while c < end
            invariant
                start <= c <= end <= self.cols,
                base == row * self.cols,
                base + end <= self.cells().len(),
                row < self.rows,
                self.wf(),
                total == sum_cells(self.cells().subrange(base + start, base + c)),
                total <= (c - start) * 0xffff_ffffu128,
            decreases end - c,
        {
            let x = array_cell(&self.data, row, c);
            proof {
                let s0 = self.cells().subrange(base + start, base + c);
                let s1 = self.cells().subrange(base + start, base + c + 1);
                assert(s1.drop_last() =~= s0);
                assert(s1.last() == x);
                assert((c - start) * 0xffff_ffffu128 + 0xffff_ffffu128 == (c + 1 - start) * 0xffff_ffffu128) by (nonlinear_arith);
                assert((c + 1 - start) * 0xffff_ffffu128 <= 0xffff_ffff_ffff_ffffu128 * 0xffff_ffffu128) by (nonlinear_arith)
                    requires c + 1 - start <= 0xffff_ffff_ffff_ffffu128;
            }
            total = total + x as u128;
            c = c + 1;
        }
        total
    }

    /// The column range of each locus.
    pub fn locus_ranges(&self) -> (r: Vec<(usize, usize)>)
        ensures
            r@ == self.ranges(),
    {
        let mut r: Vec<(usize, usize)> = Vec::new();
        let mut i: usize = 0;
        while i < self.loci.len()
            invariant
                i <= self.loci@.len(),
                r@ == self.loci@.subrange(0, i as int),
            decreases self.loci@.len() - i,
        {
            r.push(self.loci[i]);
            assert(r@ =~= self.loci@.subrange(0, i + 1));
            i = i + 1;
        }
        assert(r@ =~= self.loci@);
        r
    }
}

} // verus!
