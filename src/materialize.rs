//! Building the allele-count matrix from the registry.
use vstd::prelude::*;
use crate::entities::{AlleleCount, Individual, Locus};
use crate::matrix::{array_from_vec, AlleleMatrix};
use crate::names::Named;
use crate::sample::{GenomicsError, Sample};

verus! {

/// The number of columns of the given loci: their variations, all together.
pub open spec fn total_columns(loci: Seq<Locus>) -> nat
    decreases loci.len(),
{
    if loci.len() == 0 {
        0
    } else {
        total_columns(loci.drop_last()) + loci.last().variation_names().len()
    }
}

/// The first column of locus `l`.
pub open spec fn column_offset(loci: Seq<Locus>, l: int) -> nat {
    total_columns(loci.subrange(0, l))
}

/// The column range `[start, end)` of each locus.
pub open spec fn canonical_ranges(loci: Seq<Locus>) -> Seq<(usize, usize)> {
    Seq::new(loci.len(), |l: int| (column_offset(loci, l) as usize, column_offset(loci, l + 1) as usize))
}

/// An individual's counts at one locus, one per variation in canonical order.
pub open spec fn locus_cells(x: Individual, locus: Locus) -> Seq<u32> {
    Seq::new(locus.variation_names().len(), |k: int| x.count(locus.key(), locus.variation_names()[k]) as u32)
}

/// An individual's row: its counts at each locus in turn.
pub open spec fn row_cells(x: Individual, loci: Seq<Locus>) -> Seq<u32>
    decreases loci.len(),
{
    if loci.len() == 0 {
        Seq::empty()
    } else {
        row_cells(x, loci.drop_last()) + locus_cells(x, loci.last())
    }
}

/// All rows, one individual after the other.
pub open spec fn all_cells(xs: Seq<Individual>, loci: Seq<Locus>) -> Seq<u32>
    decreases xs.len(),
{
    if xs.len() == 0 {
        Seq::empty()
    } else {
        all_cells(xs.drop_last(), loci) + row_cells(xs.last(), loci)
    }
}

pub proof fn lemma_row_len(x: Individual, loci: Seq<Locus>)
    ensures
        row_cells(x, loci).len() == total_columns(loci),
    decreases loci.len(),
{
    if loci.len() > 0 {
        lemma_row_len(x, loci.drop_last());
    }
}

pub proof fn lemma_all_len(xs: Seq<Individual>, loci: Seq<Locus>)
    ensures
        all_cells(xs, loci).len() == xs.len() * total_columns(loci),
    decreases xs.len(),
{
    if xs.len() > 0 {
        lemma_all_len(xs.drop_last(), loci);
        lemma_row_len(xs.last(), loci);
        assert(xs.len() * total_columns(loci) == (xs.len() - 1) * total_columns(loci) + total_columns(loci)) by (nonlinear_arith);
    }
}

pub proof fn lemma_total_prefix(loci: Seq<Locus>, l: int)
    requires
        0 <= l <= loci.len(),
    ensures
        total_columns(loci.subrange(0, l)) <= total_columns(loci),
    decreases loci.len() - l,
{
    if l < loci.len() {
        lemma_total_prefix(loci, l + 1);
        assert(loci.subrange(0, l + 1).drop_last() =~= loci.subrange(0, l));
    } else {
        assert(loci.subrange(0, l) =~= loci);
    }
}

/// The loci of a sample, in canonical order.
pub type Loci = Vec<Locus>;

/// Counting the alleles of a collection of loci.
pub trait LociExt {
    spec fn n_alleles_spec(&self) -> nat;

    /// The number of variations over all the loci.
    fn n_alleles(&self) -> (r: usize)
        requires
            self.n_alleles_spec() <= usize::MAX,
        ensures
            r == self.n_alleles_spec();
}

impl LociExt for Loci {
    open spec fn n_alleles_spec(&self) -> nat {
        total_columns(self@)
    }

    fn n_alleles(&self) -> (r: usize) {
        let mut total: usize = 0;
        let mut l: usize = 0;
        while l < self.len()
            invariant
                l <= self@.len(),
                total == total_columns(self@.subrange(0, l as int)),
                total_columns(self@) <= usize::MAX,
            decreases self@.len() - l,
        {
            assert(self@.subrange(0, l + 1).drop_last() =~= self@.subrange(0, l as int));
            proof {
                lemma_total_prefix(self@, l + 1);
            }
            total = total + self[l].n_variations();
            l = l + 1;
        }
        assert(self@.subrange(0, l as int) =~= self@);
        total
    }
}

impl Sample {
    /// The number of columns of the matrix.
    pub open(crate) spec fn n_columns(&self) -> nat {
        total_columns(self.loci@)
    }

    /// Whether the registry's dimensions make a matrix: individuals and columns are both
    /// present or both absent, and the cells can be addressed.
    pub open(crate) spec fn shape_ok(&self) -> bool {
        &&& (self.individuals@.len() == 0) == (self.n_columns() == 0)
        &&& self.individuals@.len() * self.n_columns() <= isize::MAX
    }

    /// The matrix describes the registry: one row per individual and one column per
    /// (locus, variation), both in canonical order, holding the allele counts.
    pub open(crate) spec fn matrix_current(&self) -> bool {
        &&& self.matrix.shape() == (self.individuals@.len(), self.n_columns())
        &&& self.matrix.cells() == all_cells(self.individuals@, self.loci@)
        &&& self.matrix.ranges() == canonical_ranges(self.loci@)
    }

    /// Rebuilds the matrix from the registry, whether or not it is stale.
    pub fn flush(&mut self) -> (r: Result<(), GenomicsError>)
        requires
            old(self).wf(),
        ensures
            final(self).wf(),
            final(self).same_loci(*old(self)),
            final(self).same_members(*old(self)),
            final(self).group_names() == old(self).group_names(),
            r is Ok <==> old(self).shape_ok(),
            r is Ok ==> !final(self).is_stale() && final(self).matrix_current(),
            r is Err ==> r == Err::<(), GenomicsError>(GenomicsError::Shape) && *final(self) == *old(self),
    {
        let ghost loci = self.loci@;
        let (ranges, total) = match self.column_ranges() {
            Some(p) => p,
            None => {
                proof {
                    if self.individuals@.len() > 0 {
                        assert(self.individuals@.len() * self.n_columns() >= self.n_columns()) by (nonlinear_arith)
                            requires self.individuals@.len() > 0;
                    }
                }
                return Err(GenomicsError::Shape);
            },
        };
        let rows = self.individuals.len();
        if (rows == 0) != (total == 0) {
            return Err(GenomicsError::Shape);
        }
        if rows > 0 && total > (isize::MAX as usize) / rows {
            proof {
                assert(rows * total > isize::MAX) by (nonlinear_arith)
                    requires rows > 0, total > (isize::MAX as usize) / rows;
            }
            return Err(GenomicsError::Shape);
        }
        proof {
            if rows > 0 {
                assert(rows * total <= isize::MAX) by (nonlinear_arith)
                    requires rows > 0, total <= (isize::MAX as usize) / rows;
                assert(rows <= isize::MAX && total <= isize::MAX) by (nonlinear_arith)
                    requires rows > 0, total > 0, rows * total <= isize::MAX;
            }
        }
        let data = self.build_cells();
        proof {
            lemma_all_len(self.individuals@, loci);
        }
        match array_from_vec(rows, total, data) {
            Ok(a) => {
                self.matrix = AlleleMatrix { data: a, rows, cols: total, loci: ranges, dirty: false };
                Ok(())
            },
            Err(_) => Err(GenomicsError::Shape),
        }
    }

    /// Rebuilds the matrix when it is stale; a current matrix is kept as it is.
    pub fn rebuild(&mut self) -> (r: Result<(), GenomicsError>)
        requires
            old(self).wf(),
        ensures
            final(self).wf(),
            final(self).same_loci(*old(self)),
            final(self).same_members(*old(self)),
            final(self).group_names() == old(self).group_names(),
            !old(self).is_stale() ==> r is Ok && *final(self) == *old(self),
            old(self).is_stale() ==> (r is Ok <==> old(self).shape_ok()),
            r is Ok ==> !final(self).is_stale() && final(self).matrix_current(),
            r is Err ==> r == Err::<(), GenomicsError>(GenomicsError::Shape) && *final(self) == *old(self),
    {
        if !self.matrix.dirty {
            return Ok(());
        }
        self.flush()
    }

    /// The column range of each locus and the number of columns; `None` when the
    /// number of columns exceeds `usize`.
    fn column_ranges(&self) -> (r: Option<(Vec<(usize, usize)>, usize)>)
        ensures
            r is None ==> self.n_columns() > usize::MAX,
            r matches Some(p) ==> p.0@ == canonical_ranges(self.loci@) && p.1 == self.n_columns(),
    {
        let ghost loci = self.loci@;
        let mut ranges: Vec<(usize, usize)> = Vec::new();
        let mut total: usize = 0;
        let mut l: usize = 0;
        while l < self.loci.len()
            invariant
                l <= loci.len(),
                loci == self.loci@,
                total == total_columns(loci.subrange(0, l as int)),
                ranges@ == canonical_ranges(loci).subrange(0, l as int),
            decreases loci.len() - l,
        {
            let n = self.loci[l].n_variations();
            assert(loci.subrange(0, l + 1).drop_last() =~= loci.subrange(0, l as int));
            if total > usize::MAX - n {
                proof {
                    lemma_total_prefix(loci, l + 1);
                }
                return None;
            }
            ranges.push((total, total + n));
            total = total + n;
            proof {
                assert(ranges@ =~= canonical_ranges(loci).subrange(0, l + 1));
            }
            l = l + 1;
        }
        assert(loci.subrange(0, l as int) =~= loci);
        assert(ranges@ =~= canonical_ranges(loci));
        Some((ranges, total))
    }

    /// The cells of the matrix, row after row.
    fn build_cells(&self) -> (r: Vec<u32>)
        requires
            self.wf(),
        ensures
            r@ == all_cells(self.individuals@, self.loci@),
    {
        let ghost xs = self.individuals@;
        let ghost loci = self.loci@;
        let mut data: Vec<u32> = Vec::new();
        let mut i: usize = 0;
        while i < self.individuals.len()
            invariant
                i <= xs.len(),
                xs == self.individuals@,
                loci == self.loci@,
                self.wf(),
                data@ == all_cells(xs.subrange(0, i as int), loci),
            decreases xs.len() - i,
        {
            let x = &self.individuals[i];
            assert(x.wf());
            let mut l: usize = 0;
            while l < self.loci.len()
                invariant
                    i < xs.len(),
                    l <= loci.len(),
                    xs == self.individuals@,
                    loci == self.loci@,
                    *x == xs[i as int],
                    x.wf(),
                    data@ == all_cells(xs.subrange(0, i as int), loci) + row_cells(*x, loci.subrange(0, l as int)),
                decreases loci.len() - l,
            {
                let locus = &self.loci[l];
                let ghost before = data@;
                let mut k: usize = 0;
                while k < locus.variations.len()
                    invariant
                        l < loci.len(),
                        *locus == loci[l as int],
                        x.wf(),
                        k <= locus.variations@.len(),
                        data@ == before + locus_cells(*x, *locus).subrange(0, k as int),
                    decreases locus.variations@.len() - k,
                {
                    let c = x.count_of(locus.name(), locus.variations[k].name());
                    data.push(c);
                    proof {
                        assert(locus.variation_names()[k as int] == locus.variations@[k as int].key());
                        assert(locus_cells(*x, *locus).subrange(0, k + 1) =~= locus_cells(*x, *locus).subrange(0, k as int).push(c));
                    }
                    k = k + 1;
                }
                proof {
                    assert(locus_cells(*x, *locus).subrange(0, k as int) =~= locus_cells(*x, *locus));
                    assert(loci.subrange(0, l + 1).drop_last() =~= loci.subrange(0, l as int));
                    assert(data@ =~= all_cells(xs.subrange(0, i as int), loci) + row_cells(*x, loci.subrange(0, l + 1)));
                }
                l = l + 1;
            }
            proof {
                assert(loci.subrange(0, l as int) =~= loci);
                assert(xs.subrange(0, i + 1).drop_last() =~= xs.subrange(0, i as int));
            }
            i = i + 1;
        }
        assert(xs.subrange(0, i as int) =~= xs);
        data
    }
}

} // verus!
