//! The sample: a registry of loci, groups and individuals kept in canonical order.
use vstd::prelude::*;
use crate::entities::{Allele, AlleleCount, Group, Individual, Locus, Observation, Variation};
use crate::matrix::AlleleMatrix;
use crate::names::{Named, lookup, names_of, search, lemma_lookup_at, lemma_lookup_insert, lemma_lookup_update};
use crate::text::{sorted_names, lemma_insert_sorted};

verus! {

/// What can go wrong in this library.
#[derive(Debug)]
pub enum GenomicsError {
    /// An ingestion source failed to deliver an observation.
    Ingestion(String),
    /// One more copy of an allele would not fit an allele count.
    CountOverflow,
    /// The registry's dimensions do not make a matrix.
    Shape,
    /// The index of association needs at least two individuals.
    TooFewIndividuals,
    /// A locus has no column, so no distance can be formed at it.
    EmptyLocus,
    /// The expected variance is zero: the index of association is undefined.
    ZeroExpectedVariance,
}

impl GenomicsError {
    /// A copy of the error.
    pub fn duplicate(&self) -> (r: Self)
        ensures
            r == *self,
    {
        match self {
            GenomicsError::Ingestion(m) => GenomicsError::Ingestion(m.clone()),
            GenomicsError::CountOverflow => GenomicsError::CountOverflow,
            GenomicsError::Shape => GenomicsError::Shape,
            GenomicsError::TooFewIndividuals => GenomicsError::TooFewIndividuals,
            GenomicsError::EmptyLocus => GenomicsError::EmptyLocus,
            GenomicsError::ZeroExpectedVariance => GenomicsError::ZeroExpectedVariance,
        }
    }
}

/// Extends a trace by one recorded observation.
pub proof fn lemma_trace_push(states: Seq<Sample>, obs: Seq<Result<Observation, GenomicsError>>, next: Sample)
    requires
        ingestion_trace(states, obs),
        states.len() <= obs.len(),
        obs[states.len() - 1] is Ok,
        states.last().fits(obs[states.len() - 1]->Ok_0),
        Sample::ingested(states.last(), next, obs[states.len() - 1]->Ok_0),
        next.wf(),
    ensures
        ingestion_trace(states.push(next), obs),
{
    reveal(ingestion_trace);
    let t = states.push(next);
    assert forall|j: int| 0 <= j < t.len() implies (#[trigger] t[j]).wf() by {
        if j < states.len() {
            assert(t[j] == states[j]);
        }
    }
    assert forall|j: int| 0 <= j < t.len() - 1 implies #[trigger] trace_step(t, obs, j) by {
        if j < states.len() - 1 {
            assert(t[j] == states[j] && t[j + 1] == states[j + 1]);
            assert(trace_step(states, obs, j));
        } else {
            assert(t[j] == states.last() && t[j + 1] == next);
        }
    }
}

/// Whether the sequence of samples `states` arises from its first element by recording,
/// one after the other, the first `states.len() - 1` observations of `obs`.
#[verifier::opaque]
pub open spec fn ingestion_trace(states: Seq<Sample>, obs: Seq<Result<Observation, GenomicsError>>) -> bool {
    &&& 1 <= states.len() <= obs.len() + 1
    &&& forall|j: int| 0 <= j < states.len() ==> (#[trigger] states[j]).wf()
    &&& forall|j: int| 0 <= j < states.len() - 1 ==> #[trigger] trace_step(states, obs, j)
}

/// Step `j` of a trace records observation `j`.
pub open spec fn trace_step(states: Seq<Sample>, obs: Seq<Result<Observation, GenomicsError>>, j: int) -> bool {
    &&& obs[j] is Ok
    &&& states[j].fits(obs[j]->Ok_0)
    &&& Sample::ingested(states[j], states[j + 1], obs[j]->Ok_0)
}

/// Whether ingestion stops at item `k` of `obs`, reached in state `s`: the item is an
/// error, or its allele count would overflow.
pub open spec fn stops_at(s: Sample, obs: Seq<Result<Observation, GenomicsError>>, k: int) -> bool {
    obs[k] is Err || !s.fits(obs[k]->Ok_0)
}

/// The error that ingestion reports when it stops at item `k` of `obs`.
pub open spec fn stop_error(obs: Seq<Result<Observation, GenomicsError>>, k: int) -> GenomicsError {
    match obs[k] {
        Err(e) => e,
        Ok(_) => GenomicsError::CountOverflow,
    }
}

/// A population sample: its loci, groups and individuals, and the allele-count matrix
/// derived from them.
pub struct Sample {
    pub(crate) loci: Vec<Locus>,
    pub(crate) groups: Vec<Group>,
    pub(crate) individuals: Vec<Individual>,
    pub(crate) matrix: AlleleMatrix,
}

impl Sample {
    pub open(crate) spec fn wf(&self) -> bool {
        &&& sorted_names(names_of(self.loci@))
        &&& forall|i: int| 0 <= i < self.loci@.len() ==> (#[trigger] self.loci@[i]).wf()
        &&& sorted_names(names_of(self.individuals@))
        &&& forall|i: int| 0 <= i < self.individuals@.len() ==> (#[trigger] self.individuals@[i]).wf()
        &&& names_of(self.groups@).no_duplicates()
        &&& self.matrix.wf()
        &&& !self.matrix.is_stale() ==> self.matrix_current()
    }

    /// The names of the loci, in canonical order.
    pub open(crate) spec fn locus_names(&self) -> Seq<Seq<char>> {
        names_of(self.loci@)
    }

    /// The names of the variations of the locus named `name`, in canonical order.
    pub open(crate) spec fn variation_names(&self, name: Seq<char>) -> Option<Seq<Seq<char>>> {
        match lookup(self.loci@, name) {
            Some(l) => Some(l.variation_names()),
            None => None,
        }
    }

    /// The variations registered at the locus named `name` (none for an unknown locus).
    pub open(crate) spec fn variation_set(&self, name: Seq<char>) -> Set<Seq<char>> {
        match self.variation_names(name) {
            Some(s) => s.to_set(),
            None => Set::empty(),
        }
    }

    /// The names of the individuals, in canonical order.
    pub open(crate) spec fn individual_names(&self) -> Seq<Seq<char>> {
        names_of(self.individuals@)
    }

    /// The names of the groups.
    pub open(crate) spec fn group_names(&self) -> Set<Seq<char>> {
        names_of(self.groups@).to_set()
    }

    /// The individual named `name`, if any.
    pub open(crate) spec fn member(&self, name: Seq<char>) -> Option<Individual> {
        lookup(self.individuals@, name)
    }

    /// How many copies of the allele (`l`, `v`) the individual named `ind` carries.
    pub open(crate) spec fn count(&self, ind: Seq<char>, l: Seq<char>, v: Seq<char>) -> nat {
        match lookup(self.individuals@, ind) {
            Some(x) => x.count(l, v),
            None => 0,
        }
    }

    /// The groups that the individual named `ind` belongs to.
    pub open(crate) spec fn groups_of(&self, ind: Seq<char>) -> Set<Seq<char>> {
        match lookup(self.individuals@, ind) {
            Some(x) => x.group_set(),
            None => Set::empty(),
        }
    }

    /// The metadata value of the individual named `ind` under `key`.
    pub open(crate) spec fn meta_of(&self, ind: Seq<char>, key: Seq<char>) -> Option<Seq<char>> {
        match lookup(self.individuals@, ind) {
            Some(x) => x.meta_value(key),
            None => None,
        }
    }

    /// The matrix as last built.
    pub open(crate) spec fn allele_matrix(&self) -> AlleleMatrix {
        self.matrix
    }

    /// Whether the matrix must be rebuilt before it is read.
    pub open(crate) spec fn is_stale(&self) -> bool {
        self.matrix.is_stale()
    }

    /// The individuals, groups and metadata of two samples agree.
    pub open(crate) spec fn same_individuals(&self, other: Sample) -> bool {
        &&& self.individuals@ == other.individuals@
        &&& self.groups@ == other.groups@
    }

    /// The loci of two samples agree.
    pub open(crate) spec fn same_loci(&self, other: Sample) -> bool {
        self.loci@ == other.loci@
    }

    /// The individuals of two samples agree.
    pub open(crate) spec fn same_members(&self, other: Sample) -> bool {
        self.individuals@ == other.individuals@
    }

    /// Constructs an empty sample.
    pub fn new() -> (r: Self)
        ensures
            r.wf(),
            r.locus_names() == Seq::<Seq<char>>::empty(),
            r.individual_names() == Seq::<Seq<char>>::empty(),
            r.group_names() == Set::<Seq<char>>::empty(),
            !r.is_stale(),
    {
        let r = Sample { loci: Vec::new(), groups: Vec::new(), individuals: Vec::new(), matrix: AlleleMatrix::new() };
        proof {
            assert(names_of(r.groups@) =~= Seq::<Seq<char>>::empty());
            assert(r.locus_names() =~= Seq::<Seq<char>>::empty());
            assert(r.individual_names() =~= Seq::<Seq<char>>::empty());
            assert(r.group_names() =~= Set::<Seq<char>>::empty());
            assert(crate::materialize::canonical_ranges(r.loci@) =~= Seq::<(usize, usize)>::empty());
        }
        r
    }

    /// Returns the allele (`locus`, `variation`), registering the locus and the variation
    /// where they are new; a registration marks the sample stale.
    pub fn allele(&mut self, locus: &str, variation: &str) -> (r: Allele)
        requires
            old(self).wf(),
        ensures
            final(self).wf(),
            r@ == (locus@, variation@),
            final(self).locus_names().to_set() == old(self).locus_names().to_set().insert(locus@),
            final(self).variation_set(locus@) == old(self).variation_set(locus@).insert(variation@),
            forall|n: Seq<char>| n != locus@ ==> final(self).variation_names(n) == old(self).variation_names(n),
            final(self).same_individuals(*old(self)),
            old(self).variation_set(locus@).contains(variation@) ==> *final(self) == *old(self),
            !old(self).variation_set(locus@).contains(variation@) ==> final(self).is_stale(),
            final(self).is_stale() == (old(self).is_stale() || !old(self).variation_set(locus@).contains(variation@)),
    {
        let ghost s0 = self.loci@;
        let (li, found) = search(&self.loci, locus);
        if !found {
            let loc = Locus::new(locus);
            proof {
                lemma_insert_sorted(names_of(s0), li as int, locus@);
                assert(names_of(s0.insert(li as int, loc)) =~= names_of(s0).insert(li as int, locus@));
                assert(loc.variation_names() =~= Seq::<Seq<char>>::empty());
            }
            self.loci.insert(li, loc);
            self.matrix.dirty = true;
            proof {
                assert forall|n: Seq<char>| n != locus@ implies self.variation_names(n) == old(self).variation_names(n) by {
                    lemma_lookup_insert(s0, li as int, loc, n);
                }
                lemma_lookup_insert(s0, li as int, loc, locus@);
                assert forall|x: Seq<char>| #[trigger] self.locus_names().to_set().contains(x) <==> old(self).locus_names().to_set().insert(locus@).contains(x) by {
                    let t = self.locus_names();
                    let s = old(self).locus_names();
                    assert(t =~= s.insert(li as int, locus@));
                    if t.contains(x) {
                        let k = choose|k: int| 0 <= k < t.len() && t[k] == x;
                        if k < li {
                            assert(s[k] == x);
                        } else if k > li {
                            assert(s[k - 1] == x);
                        }
                    }
                    if s.contains(x) {
                        let k = choose|k: int| 0 <= k < s.len() && s[k] == x;
                        if k < li {
                            assert(t[k] == x);
                        } else {
                            assert(t[k + 1] == x);
                        }
                    }
                    if x == locus@ {
                        assert(t[li as int] == x);
                    }
                }
                assert(self.locus_names().to_set() =~= old(self).locus_names().to_set().insert(locus@));
            }
        } else {
            proof {
                lemma_lookup_at(s0, li as int);
                assert(self.locus_names().to_set() =~= old(self).locus_names().to_set().insert(locus@));
            }
        }
        let ghost s1 = self.loci@;
        proof {
            lemma_lookup_at(s1, li as int);
        }
        let (vi, vfound) = search(&self.loci[li].variations, variation);
        if !vfound {
            let mut loc = self.loci.remove(li);
            let ghost v0 = loc.variations@;
            let var = Variation::new(variation);
            proof {
                lemma_insert_sorted(names_of(v0), vi as int, variation@);
                assert(names_of(v0.insert(vi as int, var)) =~= names_of(v0).insert(vi as int, variation@));
            }
            loc.insert_variation(vi, var);
            self.loci.insert(li, loc);
            self.matrix.dirty = true;
            proof {
                assert(self.loci@ =~= s1.update(li as int, loc));
                lemma_lookup_update(s1, li as int, loc, locus@);
                assert forall|n: Seq<char>| n != locus@ implies self.variation_names(n) == old(self).variation_names(n) by {
                    lemma_lookup_update(s1, li as int, loc, n);
                }
                assert(names_of(self.loci@) =~= names_of(s1));
                let vn = loc.variation_names();
                let vo = names_of(v0);
                assert(vn =~= vo.insert(vi as int, variation@));
                assert forall|x: Seq<char>| #[trigger] vn.to_set().contains(x) <==> vo.to_set().insert(variation@).contains(x) by {
                    if vn.contains(x) {
                        let k = choose|k: int| 0 <= k < vn.len() && vn[k] == x;
                        if k < vi {
                            assert(vo[k] == x);
                        } else if k > vi {
                            assert(vo[k - 1] == x);
                        }
                    }
                    if vo.contains(x) {
                        let k = choose|k: int| 0 <= k < vo.len() && vo[k] == x;
                        if k < vi {
                            assert(vn[k] == x);
                        } else {
                            assert(vn[k + 1] == x);
                        }
                    }
                    if x == variation@ {
                        assert(vn[vi as int] == x);
                    }
                }
                assert(self.variation_set(locus@) =~= old(self).variation_set(locus@).insert(variation@));
                assert forall|i: int| 0 <= i < self.loci@.len() implies (#[trigger] self.loci@[i]).wf() by {
                    if i != li {
                        assert(self.loci@[i] == s1[i]);
                    }
                }
            }
        } else {
            proof {
                let vn = self.loci@[li as int].variation_names();
                assert(vn[vi as int] == variation@);
                assert(self.variation_set(locus@) =~= old(self).variation_set(locus@).insert(variation@));
                if old(self).variation_set(locus@).contains(variation@) {
                    if !found {
                        lemma_lookup_insert(s0, li as int, s1[li as int], locus@);
                    }
                }
            }
        }
        Allele { locus: locus.to_owned(), variation: variation.to_owned() }
    }

    fn has_group(&self, name: &str) -> (r: bool)
        ensures
            r == names_of(self.groups@).contains(name@),
    {
        let ghost g0 = names_of(self.groups@);
        let mut i: usize = 0;
        while i < self.groups.len()
            invariant
                i <= self.groups@.len(),
                g0 == names_of(self.groups@),
                forall|k: int| 0 <= k < i ==> g0[k] != name@,
            decreases self.groups@.len() - i,
        {
            let here = self.groups[i].name();
            if !crate::text::less_than(here, name) && !crate::text::less_than(name, here) {
                proof {
                    crate::text::lemma_name_lt_total(here@, name@);
                    assert(g0[i as int] == name@);
                }
                return true;
            }
            proof {
                if here@ == name@ {
                    crate::text::lemma_name_lt_irreflexive(name@);
                }
            }
            i = i + 1;
        }
        false
    }

    /// Returns the group named `name`, registering it where it is new; a registration
    /// marks the sample stale.
    pub fn group(&mut self, name: &str) -> (r: Group)
        requires
            old(self).wf(),
        ensures
            final(self).wf(),
            r.key() == name@,
            final(self).group_names() == old(self).group_names().insert(name@),
            final(self).same_loci(*old(self)),
            final(self).same_members(*old(self)),
            old(self).group_names().contains(name@) ==> *final(self) == *old(self),
            final(self).is_stale() == (old(self).is_stale() || !old(self).group_names().contains(name@)),
    {
        let ghost g0 = names_of(self.groups@);
        if self.has_group(name) {
            proof {
                assert(self.group_names() =~= old(self).group_names().insert(name@));
            }
            return Group::new(name);
        }
        let g = Group::new(name);
        self.groups.push(g);
        self.matrix.dirty = true;
        proof {
            let g1 = names_of(self.groups@);
            assert(g1 =~= g0.push(name@));
            assert forall|x: Seq<char>| #[trigger] g1.to_set().contains(x) <==> g0.to_set().insert(name@).contains(x) by {
                if g1.contains(x) && x != name@ {
                    let k = choose|k: int| 0 <= k < g1.len() && g1[k] == x;
                    assert(g0[k] == x);
                }
                if g0.contains(x) {
                    let k = choose|k: int| 0 <= k < g0.len() && g0[k] == x;
                    assert(g1[k] == x);
                }
                if x == name@ {
                    assert(g1[g0.len() as int] == x);
                }
            }
            assert(self.group_names() =~= old(self).group_names().insert(name@));
        }
        Group::new(name)
    }

    /// The position of the individual named `name`, registering a new individual where
    /// there is none; a registration marks the sample stale.
    fn individual_index(&mut self, name: &str) -> (r: usize)
        requires
            old(self).wf(),
        ensures
            final(self).wf(),
            r < final(self).individuals@.len(),
            final(self).individuals@[r as int].key() == name@,
            lookup(final(self).individuals@, name@) == Some(final(self).individuals@[r as int]),
            lookup(old(self).individuals@, name@) is Some ==> *final(self) == *old(self),
            lookup(old(self).individuals@, name@) is None ==> {
                let x = final(self).individuals@[r as int];
                &&& forall|l: Seq<char>, v: Seq<char>| x.count(l, v) == 0
                &&& x.group_set() == Set::<Seq<char>>::empty()
                &&& forall|k: Seq<char>| x.meta_value(k) is None
                &&& final(self).is_stale()
            },
            forall|n: Seq<char>| n != name@ ==> lookup(final(self).individuals@, n) == lookup(old(self).individuals@, n),
            final(self).individual_names().to_set() == old(self).individual_names().to_set().insert(name@),
            final(self).loci == old(self).loci,
            final(self).groups == old(self).groups,
    {
        let ghost s0 = self.individuals@;
        let (pos, found) = search(&self.individuals, name);
        if found {
            proof {
                lemma_lookup_at(s0, pos as int);
                assert(self.individual_names().to_set() =~= old(self).individual_names().to_set().insert(name@));
            }
            return pos;
        }
        let x = Individual::new(name);
        proof {
            lemma_insert_sorted(names_of(s0), pos as int, name@);
            assert(names_of(s0.insert(pos as int, x)) =~= names_of(s0).insert(pos as int, name@));
        }
        self.individuals.insert(pos, x);
        self.matrix.dirty = true;
        proof {
            lemma_lookup_insert(s0, pos as int, x, name@);
            assert forall|n: Seq<char>| n != name@ implies lookup(self.individuals@, n) == lookup(s0, n) by {
                lemma_lookup_insert(s0, pos as int, x, n);
            }
            assert forall|i: int| 0 <= i < self.individuals@.len() implies (#[trigger] self.individuals@[i]).wf() by {
                if i < pos {
                    assert(self.individuals@[i] == s0[i]);
                } else if i > pos {
                    assert(self.individuals@[i] == s0[i - 1]);
                }
            }
            let t = self.individual_names();
            let s = names_of(s0);
            assert(t =~= s.insert(pos as int, name@));
            assert forall|y: Seq<char>| #[trigger] t.to_set().contains(y) <==> s.to_set().insert(name@).contains(y) by {
                if t.contains(y) {
                    let k = choose|k: int| 0 <= k < t.len() && t[k] == y;
                    if k < pos {
                        assert(s[k] == y);
                    } else if k > pos {
                        assert(s[k - 1] == y);
                    }
                }
                if s.contains(y) {
                    let k = choose|k: int| 0 <= k < s.len() && s[k] == y;
                    if k < pos {
                        assert(t[k] == y);
                    } else {
                        assert(t[k + 1] == y);
                    }
                }
                if y == name@ {
                    assert(t[pos as int] == y);
                }
            }
            assert(t.to_set() =~= s.to_set().insert(name@));
        }
        pos
    }

    /// Whether recording `o` keeps every allele count within its type.
    pub open(crate) spec fn fits(&self, o: Observation) -> bool {
        match o {
            Observation::Allele(i, l, v) => self.count(i@, l@, v@) < AlleleCount::MAX,
            _ => true,
        }
    }

    /// How `after` follows from `before` by recording the observation `o`.
    #[verifier::opaque]
    pub open(crate) spec fn ingested(before: Sample, after: Sample, o: Observation) -> bool {
        let ind = o.individual();
        &&& after.individual_names().to_set() == before.individual_names().to_set().insert(ind)
        &&& match o {
            Observation::Allele(i, l, v) => {
                &&& after.locus_names().to_set() == before.locus_names().to_set().insert(l@)
                &&& after.variation_set(l@) == before.variation_set(l@).insert(v@)
                &&& forall|n: Seq<char>| n != l@ ==> after.variation_names(n) == before.variation_names(n)
                &&& after.count(i@, l@, v@) == before.count(i@, l@, v@) + 1
                &&& forall|a: Seq<char>, b: Seq<char>, c: Seq<char>| (a, b, c) != (i@, l@, v@) ==> after.count(a, b, c) == before.count(a, b, c)
                &&& after.group_names() == before.group_names()
                &&& forall|a: Seq<char>| after.groups_of(a) == before.groups_of(a)
                &&& forall|a: Seq<char>, k: Seq<char>| after.meta_of(a, k) == before.meta_of(a, k)
                &&& after.is_stale()
            },
            Observation::Group(i, g) => {
                &&& after.same_loci(before)
                &&& forall|a: Seq<char>, b: Seq<char>, c: Seq<char>| after.count(a, b, c) == before.count(a, b, c)
                &&& after.group_names() == before.group_names().insert(g@)
                &&& after.groups_of(i@) == before.groups_of(i@).insert(g@)
                &&& forall|a: Seq<char>| a != i@ ==> after.groups_of(a) == before.groups_of(a)
                &&& forall|a: Seq<char>, k: Seq<char>| after.meta_of(a, k) == before.meta_of(a, k)
            },
            Observation::Meta(i, k, v) => {
                &&& after.same_loci(before)
                &&& forall|a: Seq<char>, b: Seq<char>, c: Seq<char>| after.count(a, b, c) == before.count(a, b, c)
                &&& after.group_names() == before.group_names()
                &&& forall|a: Seq<char>| after.groups_of(a) == before.groups_of(a)
                &&& after.meta_of(i@, k@) == Some(v@)
                &&& forall|a: Seq<char>, b: Seq<char>| (a, b) != (i@, k@) ==> after.meta_of(a, b) == before.meta_of(a, b)
            },
        }
    }

    /// Records one observation: an allele copy, a group membership or a metadata value of
    /// an individual, registering whatever it names that is new.
    pub fn apply(&mut self, o: &Observation)
        requires
            old(self).wf(),
            old(self).fits(*o),
        ensures
            final(self).wf(),
            Self::ingested(*old(self), *final(self), *o),
    {
        match o {
            Observation::Allele(..) => self.apply_allele(o),
            Observation::Group(..) => self.apply_group(o),
            Observation::Meta(..) => self.apply_meta(o),
        }
    }

    fn apply_allele(&mut self, o: &Observation)
        requires
            old(self).wf(),
            old(self).fits(*o),
            o is Allele,
        ensures
            final(self).wf(),
            Self::ingested(*old(self), *final(self), *o),
    {
        reveal(Sample::ingested);
        let Observation::Allele(ind, l, v) = o else { return };
        let _a = self.allele(l.as_str(), v.as_str());
        let ghost s1 = *self;
        let idx = self.individual_index(ind.as_str());
        self.mark_stale();
        let ghost s2 = *self;
        let mut x = self.individuals.remove(idx);
        proof {
            assert(s2.individuals@[idx as int] == x);
            assert(x.wf());
            if lookup(s1.individuals@, ind@) is Some {
                assert(x.count(l@, v@) == old(self).count(ind@, l@, v@));
            }
        }
        x.add_allele(l.as_str(), v.as_str());
        self.individuals.insert(idx, x);
        proof {
            let s3 = *self;
            assert(s3.individuals@ =~= s2.individuals@.update(idx as int, x));
            lemma_lookup_update(s2.individuals@, idx as int, x, ind@);
            assert forall|n: Seq<char>| n != ind@ implies lookup(s3.individuals@, n) == lookup(s2.individuals@, n) by {
                lemma_lookup_update(s2.individuals@, idx as int, x, n);
            }
            assert forall|i: int| 0 <= i < s3.individuals@.len() implies (#[trigger] s3.individuals@[i]).wf() by {
                if i != idx {
                    assert(s3.individuals@[i] == s2.individuals@[i]);
                }
            }
            assert(names_of(s3.individuals@) =~= names_of(s2.individuals@));
        }
    }

    fn apply_group(&mut self, o: &Observation)
        requires
            old(self).wf(),
            o is Group,
        ensures
            final(self).wf(),
            Self::ingested(*old(self), *final(self), *o),
    {
        reveal(Sample::ingested);
        let Observation::Group(ind, g) = o else { return };
        let _g = self.group(g.as_str());
        let idx = self.individual_index(ind.as_str());
        self.mark_stale();
        let ghost s2 = *self;
        let mut x = self.individuals.remove(idx);
        proof {
            assert(s2.individuals@[idx as int] == x);
        }
        x.add_group(g.as_str());
        self.individuals.insert(idx, x);
        proof {
            let s3 = *self;
            assert(s3.individuals@ =~= s2.individuals@.update(idx as int, x));
            lemma_lookup_update(s2.individuals@, idx as int, x, ind@);
            assert forall|n: Seq<char>| n != ind@ implies lookup(s3.individuals@, n) == lookup(s2.individuals@, n) by {
                lemma_lookup_update(s2.individuals@, idx as int, x, n);
            }
            assert forall|i: int| 0 <= i < s3.individuals@.len() implies (#[trigger] s3.individuals@[i]).wf() by {
                if i != idx {
                    assert(s3.individuals@[i] == s2.individuals@[i]);
                }
            }
            assert(names_of(s3.individuals@) =~= names_of(s2.individuals@));
        }
    }

    fn apply_meta(&mut self, o: &Observation)
        requires
            old(self).wf(),
            o is Meta,
        ensures
            final(self).wf(),
            Self::ingested(*old(self), *final(self), *o),
    {
        reveal(Sample::ingested);
        let Observation::Meta(ind, k, v) = o else { return };
        let idx = self.individual_index(ind.as_str());
        self.mark_stale();
        let ghost s2 = *self;
        let mut x = self.individuals.remove(idx);
        proof {
            assert(s2.individuals@[idx as int] == x);
        }
        x.set_meta(k.as_str(), v.as_str());
        self.individuals.insert(idx, x);
        proof {
            let s3 = *self;
            assert(s3.individuals@ =~= s2.individuals@.update(idx as int, x));
            lemma_lookup_update(s2.individuals@, idx as int, x, ind@);
            assert forall|n: Seq<char>| n != ind@ implies lookup(s3.individuals@, n) == lookup(s2.individuals@, n) by {
                lemma_lookup_update(s2.individuals@, idx as int, x, n);
            }
            assert forall|i: int| 0 <= i < s3.individuals@.len() implies (#[trigger] s3.individuals@[i]).wf() by {
                if i != idx {
                    assert(s3.individuals@[i] == s2.individuals@[i]);
                }
            }
            assert(names_of(s3.individuals@) =~= names_of(s2.individuals@));
        }
    }

    /// Records the observations in order. Stops at the first item that is an error, or
    /// whose allele count would overflow, and returns that error; what was recorded before
    /// it stays recorded.
    pub fn observe(&mut self, obs: Vec<Result<Observation, GenomicsError>>) -> (r: Result<(), GenomicsError>)
        requires
            old(self).wf(),
        ensures
            final(self).wf(),
            exists|states: Seq<Sample>| {
                &&& ingestion_trace(states, obs@)
                &&& states[0] == *old(self)
                &&& states.last() == *final(self)
                &&& match r {
                    Ok(_) => states.len() == obs@.len() + 1,
                    Err(e) => states.len() <= obs@.len() && stops_at(*final(self), obs@, states.len() - 1)
                        && e == stop_error(obs@, states.len() - 1),
                }
            },
    {
        let ghost mut states: Seq<Sample> = seq![*self];
        proof {
            reveal(ingestion_trace);
        }
        let mut i: usize = 0;
        while i < obs.len()
            invariant
                i <= obs@.len(),
                self.wf(),
                states.len() == i + 1,
                ingestion_trace(states, obs@),
                states[0] == *old(self),
                states.last() == *self,
            decreases obs@.len() - i,
        {
            match &obs[i] {
                Err(e) => {
                    return Err(e.duplicate());
                },
                Ok(o) => {
                    if !self.can_record(o) {
                        return Err(GenomicsError::CountOverflow);
                    }
                    self.apply(o);
                    proof {
                        lemma_trace_push(states, obs@, *self);
                        states = states.push(*self);
                    }
                },
            }
            i = i + 1;
        }
        Ok(())
    }

    /// Whether `o` can be recorded without overflowing an allele count.
    fn can_record(&self, o: &Observation) -> (r: bool)
        requires
            self.wf(),
        ensures
            r == self.fits(*o),
    {
        match o {
            Observation::Allele(ind, l, v) => {
                let (pos, found) = search(&self.individuals, ind.as_str());
                if !found {
                    return true;
                }
                proof {
                    lemma_lookup_at(self.individuals@, pos as int);
                }
                self.individuals[pos].count_of(l.as_str(), v.as_str()) < AlleleCount::MAX
            },
            _ => true,
        }
    }

    /// The names of the loci, in canonical order.
    pub fn loci_names(&self) -> (r: Vec<String>)
        ensures
            r@.map_values(|n: String| n@) == self.locus_names(),
    {
        let mut r: Vec<String> = Vec::new();
        let mut i: usize = 0;
        while i < self.loci.len()
            invariant
                i <= self.loci@.len(),
                r@.map_values(|n: String| n@) == self.locus_names().subrange(0, i as int),
            decreases self.loci@.len() - i,
        {
            let n = self.loci[i].name().to_owned();
            assert(self.locus_names()[i as int] == n@);
            let ghost r0 = r@;
            r.push(n);
            assert(r@.map_values(|n: String| n@) =~= r0.map_values(|n: String| n@).push(n@));
            assert(r@.map_values(|n: String| n@) =~= self.locus_names().subrange(0, i + 1));
            i = i + 1;
        }
        assert(self.locus_names().subrange(0, i as int) =~= self.locus_names());
        r
    }

    /// The names of the variations of the locus named `locus`, in canonical order;
    /// `None` for an unknown locus.
    pub fn variations(&self, locus: &str) -> (r: Option<Vec<String>>)
        requires
            self.wf(),
        ensures
            match r {
                Some(v) => self.variation_names(locus@) == Some(v@.map_values(|n: String| n@)),
                None => self.variation_names(locus@) is None,
            },
    {
        let (li, found) = search(&self.loci, locus);
        if !found {
            return None;
        }
        proof {
            lemma_lookup_at(self.loci@, li as int);
        }
        let loc = &self.loci[li];
        let mut r: Vec<String> = Vec::new();
        let mut i: usize = 0;
        while i < loc.variations.len()
            invariant
                i <= loc.variations@.len(),
                r@.map_values(|n: String| n@) == loc.variation_names().subrange(0, i as int),
            decreases loc.variations@.len() - i,
        {
            let n = loc.variations[i].name().to_owned();
            assert(loc.variation_names()[i as int] == n@);
            let ghost r0 = r@;
            r.push(n);
            assert(r@.map_values(|n: String| n@) =~= r0.map_values(|n: String| n@).push(n@));
            assert(r@.map_values(|n: String| n@) =~= loc.variation_names().subrange(0, i + 1));
            i = i + 1;
        }
        assert(loc.variation_names().subrange(0, i as int) =~= loc.variation_names());
        Some(r)
    }

    /// The individual named `name`, if any.
    pub fn individual(&self, name: &str) -> (r: Option<&Individual>)
        requires
            self.wf(),
        ensures
            match r {
                Some(x) => self.member(name@) == Some(*x) && x.wf(),
                None => self.member(name@) is None,
            },
    {
        let (pos, found) = search(&self.individuals, name);
        if !found {
            return None;
        }
        proof {
            lemma_lookup_at(self.individuals@, pos as int);
        }
        Some(&self.individuals[pos])
    }

    /// The allele-count matrix as last built.
    pub fn matrix(&self) -> (r: &AlleleMatrix)
        ensures
            *r == self.allele_matrix(),
    {
        &self.matrix
    }

    /// Whether the matrix must be rebuilt before it is read.
    pub fn stale(&self) -> (r: bool)
        ensures
            r == self.is_stale(),
    {
        self.matrix.dirty
    }

    fn mark_stale(&mut self)
        requires
            old(self).wf(),
        ensures
            final(self).wf(),
            final(self).loci == old(self).loci,
            final(self).groups == old(self).groups,
            final(self).individuals == old(self).individuals,
            final(self).matrix.data == old(self).matrix.data,
            final(self).matrix.rows == old(self).matrix.rows,
            final(self).matrix.cols == old(self).matrix.cols,
            final(self).matrix.loci == old(self).matrix.loci,
            final(self).is_stale(),
    {
        self.matrix.dirty = true;
    }
}

} // verus!
