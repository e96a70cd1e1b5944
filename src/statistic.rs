//! The preconditions of the index of association.
use vstd::prelude::*;
use crate::sample::{GenomicsError, Sample};

verus! {

impl Sample {
    /// The sample has no locus, or a locus without any variation: no distance can be
    /// formed at it.
    pub open(crate) spec fn has_empty_locus(&self) -> bool {
        self.loci@.len() == 0 || exists|l: int| 0 <= l < self.loci@.len() && self.loci@[l].variation_names().len() == 0
    }

    fn find_empty_locus(&self) -> (r: bool)
        ensures
            r == self.has_empty_locus(),
    {
        if self.loci.len() == 0 {
            return true;
        }
        let mut l: usize = 0;
        while l < self.loci.len()
            invariant
                l <= self.loci@.len(),
                forall|k: int| 0 <= k < l ==> self.loci@[k].variation_names().len() != 0,
            decreases self.loci@.len() - l,
        {
            if self.loci[l].n_variations() == 0 {
                return true;
            }
            l = l + 1;
        }
        false
    }

    /// Brings the matrix up to date and checks that the index of association can be
    /// formed: at least two individuals, and every locus with a column.
    pub fn prepare_index_of_association(&mut self) -> (r: Result<(), GenomicsError>)
        requires
            old(self).wf(),
        ensures
            final(self).wf(),
            final(self).same_loci(*old(self)),
            final(self).same_members(*old(self)),
            final(self).group_names() == old(self).group_names(),
            (r == Err::<(), GenomicsError>(GenomicsError::Shape)) <==> (old(self).is_stale() && !old(self).shape_ok()),
            (r == Err::<(), GenomicsError>(GenomicsError::TooFewIndividuals)) <==> (
                (old(self).is_stale() ==> old(self).shape_ok()) && old(self).individual_names().len() < 2),
            (r == Err::<(), GenomicsError>(GenomicsError::EmptyLocus)) <==> (
                (old(self).is_stale() ==> old(self).shape_ok()) && old(self).individual_names().len() >= 2
                && old(self).has_empty_locus()),
            r is Ok ==> !final(self).is_stale() && final(self).matrix_current(),
            r is Ok || r == Err::<(), GenomicsError>(GenomicsError::Shape) || r == Err::<(), GenomicsError>(
                GenomicsError::TooFewIndividuals) || r == Err::<(), GenomicsError>(GenomicsError::EmptyLocus),
    {
        match self.rebuild() {
            Ok(()) => {},
            Err(e) => {
                return Err(e);
            },
        }
        if self.individuals.len() < 2 {
            return Err(GenomicsError::TooFewIndividuals);
        }
        if self.find_empty_locus() {
            return Err(GenomicsError::EmptyLocus);
        }
        Ok(())
    }
}

} // verus!
