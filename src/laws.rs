//! Properties that relate several operations on a sample.
use vstd::prelude::*;
use crate::entities::{Individual, Locus};
use crate::matrix::sum_cells;
use crate::materialize::{all_cells, column_offset, locus_cells, row_cells, total_columns, lemma_row_len, lemma_total_prefix};
use crate::names::{lookup, names_of, lemma_lookup_at, Named};
use crate::entities::Observation;
use crate::sample::{GenomicsError, Sample, ingestion_trace, trace_step};
use crate::text::lemma_sorted_names_unique;

verus! {

/// Canonical order does not depend on the order of ingestion: two samples that hold the
/// same loci, each with the same variations, list the loci, and the variations of each
/// locus, identically.
pub proof fn lemma_canonical_order(a: Sample, b: Sample)
    requires
        a.wf(),
        b.wf(),
        a.locus_names().to_set() == b.locus_names().to_set(),
        forall|n: Seq<char>| a.variation_set(n) == b.variation_set(n),
    ensures
        a.locus_names() == b.locus_names(),
        forall|n: Seq<char>| a.variation_names(n) == b.variation_names(n),
{
    lemma_sorted_names_unique(a.locus_names(), b.locus_names());
    assert forall|n: Seq<char>| a.variation_names(n) == b.variation_names(n) by {
        if names_of(a.loci@).contains(n) {
            let la = lookup(a.loci@, n)->Some_0;
            let lb = lookup(b.loci@, n)->Some_0;
            let i = names_of(a.loci@).index_of(n);
            let j = names_of(b.loci@).index_of(n);
            assert(la == a.loci@[i]);
            assert(lb == b.loci@[j]);
            assert(la.wf() && lb.wf());
            assert(a.variation_set(n) == la.variation_names().to_set());
            assert(b.variation_set(n) == lb.variation_names().to_set());
            lemma_sorted_names_unique(la.variation_names(), lb.variation_names());
        }
    }
}

/// The loci named by the allele observations of `obs`.
pub open spec fn allele_loci(obs: Seq<Result<Observation, GenomicsError>>) -> Set<Seq<char>> {
    Set::new(|l: Seq<char>| exists|j: int| 0 <= j < obs.len() && #[trigger] obs[j] is Ok
        && obs[j]->Ok_0 is Allele && obs[j]->Ok_0->Allele_1@ == l)
}

/// The variations that the allele observations of `obs` name at locus `l`.
pub open spec fn allele_variations(obs: Seq<Result<Observation, GenomicsError>>, l: Seq<char>) -> Set<Seq<char>> {
    Set::new(|v: Seq<char>| exists|j: int| 0 <= j < obs.len() && #[trigger] obs[j] is Ok
        && obs[j]->Ok_0 is Allele && obs[j]->Ok_0->Allele_1@ == l && obs[j]->Ok_0->Allele_2@ == v)
}

/// Along a trace of `observe`, the loci and variations grow by exactly those that the
/// recorded allele observations name.
pub proof fn lemma_trace_registry(states: Seq<Sample>, obs: Seq<Result<Observation, GenomicsError>>)
    requires
        ingestion_trace(states, obs),
    ensures
        states.last().locus_names().to_set() == states[0].locus_names().to_set().union(
            allele_loci(obs.subrange(0, states.len() - 1))),
        forall|n: Seq<char>| #[trigger] states.last().variation_set(n) == states[0].variation_set(n).union(
            allele_variations(obs.subrange(0, states.len() - 1), n)),
    decreases states.len(),
{
    reveal(ingestion_trace);
    let k = states.len() - 1;
    if k == 0 {
        assert(allele_loci(obs.subrange(0, 0)) =~= Set::<Seq<char>>::empty());
        assert(states[0].locus_names().to_set().union(Set::<Seq<char>>::empty()) =~= states[0].locus_names().to_set());
        assert forall|n: Seq<char>| #[trigger] states.last().variation_set(n) == states[0].variation_set(n).union(
            allele_variations(obs.subrange(0, 0), n)) by {
            assert(allele_variations(obs.subrange(0, 0), n) =~= Set::<Seq<char>>::empty());
            assert(states[0].variation_set(n).union(Set::<Seq<char>>::empty()) =~= states[0].variation_set(n));
        }
    } else {
        let prev = states.drop_last();
        assert(ingestion_trace(prev, obs)) by {
            assert forall|j: int| 0 <= j < prev.len() - 1 implies #[trigger] trace_step(prev, obs, j) by {
                assert(trace_step(states, obs, j));
                assert(prev[j] == states[j] && prev[j + 1] == states[j + 1]);
            }
            assert forall|j: int| 0 <= j < prev.len() implies (#[trigger] prev[j]).wf() by {
                assert(prev[j] == states[j]);
            }
        }
        lemma_trace_registry(prev, obs);
        assert(trace_step(states, obs, k - 1));
        let a = states[k - 1];
        let b = states[k];
        assert(prev.last() == a && prev[0] == states[0]);
        let o = obs[k - 1]->Ok_0;
        let p = obs.subrange(0, k - 1);
        let q = obs.subrange(0, k);
        assert(q =~= p.push(obs[k - 1]));
        reveal(Sample::ingested);
        if o is Allele {
            let l = o->Allele_1@;
            let v = o->Allele_2@;
            assert(allele_loci(q) =~= allele_loci(p).insert(l)) by {
                assert(q[k - 1] == obs[k - 1]);
                assert forall|x: Seq<char>| allele_loci(q).contains(x) implies allele_loci(p).insert(l).contains(x) by {
                    let j = choose|j: int| 0 <= j < q.len() && #[trigger] q[j] is Ok && q[j]->Ok_0 is Allele && q[j]->Ok_0->Allele_1@ == x;
                    if j < k - 1 {
                        assert(p[j] == q[j]);
                    }
                }
                assert forall|x: Seq<char>| allele_loci(p).contains(x) implies allele_loci(q).contains(x) by {
                    let j = choose|j: int| 0 <= j < p.len() && #[trigger] p[j] is Ok && p[j]->Ok_0 is Allele && p[j]->Ok_0->Allele_1@ == x;
                    assert(q[j] == p[j]);
                }
            }
            assert(b.locus_names().to_set() =~= states[0].locus_names().to_set().union(allele_loci(q)));
            assert forall|n: Seq<char>| #[trigger] b.variation_set(n) == states[0].variation_set(n).union(allele_variations(q, n)) by {
                assert(q[k - 1] == obs[k - 1]);
                if n == l {
                    assert(allele_variations(q, n) =~= allele_variations(p, n).insert(v)) by {
                        assert forall|x: Seq<char>| allele_variations(q, n).contains(x) implies allele_variations(p, n).insert(v).contains(x) by {
                            let j = choose|j: int| 0 <= j < q.len() && #[trigger] q[j] is Ok && q[j]->Ok_0 is Allele
                                && q[j]->Ok_0->Allele_1@ == n && q[j]->Ok_0->Allele_2@ == x;
                            if j < k - 1 {
                                assert(p[j] == q[j]);
                            }
                        }
                        assert forall|x: Seq<char>| allele_variations(p, n).contains(x) implies allele_variations(q, n).contains(x) by {
                            let j = choose|j: int| 0 <= j < p.len() && #[trigger] p[j] is Ok && p[j]->Ok_0 is Allele
                                && p[j]->Ok_0->Allele_1@ == n && p[j]->Ok_0->Allele_2@ == x;
                            assert(q[j] == p[j]);
                        }
                    }
                    assert(a.variation_set(n) == states[0].variation_set(n).union(allele_variations(p, n)));
                    assert(b.variation_set(n) =~= states[0].variation_set(n).union(allele_variations(q, n)));
                } else {
                    assert(allele_variations(q, n) =~= allele_variations(p, n)) by {
                        assert forall|x: Seq<char>| allele_variations(q, n).contains(x) implies allele_variations(p, n).contains(x) by {
                            let j = choose|j: int| 0 <= j < q.len() && #[trigger] q[j] is Ok && q[j]->Ok_0 is Allele
                                && q[j]->Ok_0->Allele_1@ == n && q[j]->Ok_0->Allele_2@ == x;
                            if j < k - 1 {
                                assert(p[j] == q[j]);
                            }
                        }
                        assert forall|x: Seq<char>| allele_variations(p, n).contains(x) implies allele_variations(q, n).contains(x) by {
                            let j = choose|j: int| 0 <= j < p.len() && #[trigger] p[j] is Ok && p[j]->Ok_0 is Allele
                                && p[j]->Ok_0->Allele_1@ == n && p[j]->Ok_0->Allele_2@ == x;
                            assert(q[j] == p[j]);
                        }
                    }
                    assert(a.variation_set(n) == states[0].variation_set(n).union(allele_variations(p, n)));
                    assert(b.variation_names(n) == a.variation_names(n));
                }
            }
        } else {
            assert(allele_loci(q) =~= allele_loci(p)) by {
                assert(q[k - 1] == obs[k - 1]);
                assert forall|x: Seq<char>| allele_loci(q).contains(x) implies allele_loci(p).contains(x) by {
                    let j = choose|j: int| 0 <= j < q.len() && #[trigger] q[j] is Ok && q[j]->Ok_0 is Allele && q[j]->Ok_0->Allele_1@ == x;
                    if j < k - 1 {
                        assert(p[j] == q[j]);
                    }
                }
                assert forall|x: Seq<char>| allele_loci(p).contains(x) implies allele_loci(q).contains(x) by {
                    let j = choose|j: int| 0 <= j < p.len() && #[trigger] p[j] is Ok && p[j]->Ok_0 is Allele && p[j]->Ok_0->Allele_1@ == x;
                    assert(q[j] == p[j]);
                }
            }
            assert(b.same_loci(a));
            assert forall|n: Seq<char>| #[trigger] b.variation_set(n) == states[0].variation_set(n).union(allele_variations(q, n)) by {
                assert(q[k - 1] == obs[k - 1]);
                assert(allele_variations(q, n) =~= allele_variations(p, n)) by {
                    assert forall|x: Seq<char>| allele_variations(q, n).contains(x) implies allele_variations(p, n).contains(x) by {
                        let j = choose|j: int| 0 <= j < q.len() && #[trigger] q[j] is Ok && q[j]->Ok_0 is Allele
                            && q[j]->Ok_0->Allele_1@ == n && q[j]->Ok_0->Allele_2@ == x;
                        if j < k - 1 {
                            assert(p[j] == q[j]);
                        }
                    }
                    assert forall|x: Seq<char>| allele_variations(p, n).contains(x) implies allele_variations(q, n).contains(x) by {
                        let j = choose|j: int| 0 <= j < p.len() && #[trigger] p[j] is Ok && p[j]->Ok_0 is Allele
                            && p[j]->Ok_0->Allele_1@ == n && p[j]->Ok_0->Allele_2@ == x;
                        assert(q[j] == p[j]);
                    }
                }
                assert(a.variation_set(n) == states[0].variation_set(n).union(allele_variations(p, n)));
            }
        }
    }
}

/// Ingesting the same observations in any order, starting from the same sample, lists
/// the loci, and the variations of each locus, identically.
pub proof fn lemma_ingestion_order_irrelevant(
    s1: Seq<Sample>,
    obs1: Seq<Result<Observation, GenomicsError>>,
    s2: Seq<Sample>,
    obs2: Seq<Result<Observation, GenomicsError>>,
)
    requires
        ingestion_trace(s1, obs1),
        ingestion_trace(s2, obs2),
        s1.len() == obs1.len() + 1,
        s2.len() == obs2.len() + 1,
        s1[0] == s2[0],
        obs1.to_set() == obs2.to_set(),
    ensures
        s1.last().locus_names() == s2.last().locus_names(),
        forall|n: Seq<char>| s1.last().variation_names(n) == s2.last().variation_names(n),
{
    lemma_trace_registry(s1, obs1);
    lemma_trace_registry(s2, obs2);
    assert(obs1.subrange(0, obs1.len() as int) =~= obs1);
    assert(obs2.subrange(0, obs2.len() as int) =~= obs2);
    assert(allele_loci(obs1) =~= allele_loci(obs2)) by {
        assert forall|x: Seq<char>| allele_loci(obs1).contains(x) implies allele_loci(obs2).contains(x) by {
            let j = choose|j: int| 0 <= j < obs1.len() && #[trigger] obs1[j] is Ok && obs1[j]->Ok_0 is Allele && obs1[j]->Ok_0->Allele_1@ == x;
            assert(obs1.to_set().contains(obs1[j]));
            let i = choose|i: int| 0 <= i < obs2.len() && obs2[i] == obs1[j];
            assert(obs2[i] is Ok);
        }
        assert forall|x: Seq<char>| allele_loci(obs2).contains(x) implies allele_loci(obs1).contains(x) by {
            let j = choose|j: int| 0 <= j < obs2.len() && #[trigger] obs2[j] is Ok && obs2[j]->Ok_0 is Allele && obs2[j]->Ok_0->Allele_1@ == x;
            assert(obs2.to_set().contains(obs2[j]));
            let i = choose|i: int| 0 <= i < obs1.len() && obs1[i] == obs2[j];
            assert(obs1[i] is Ok);
        }
    }
    assert forall|n: Seq<char>| s1.last().variation_set(n) == s2.last().variation_set(n) by {
        assert(s1.last().variation_set(n) == s1[0].variation_set(n).union(allele_variations(obs1, n)));
        assert(s2.last().variation_set(n) == s2[0].variation_set(n).union(allele_variations(obs2, n)));
        assert(allele_variations(obs1, n) =~= allele_variations(obs2, n)) by {
            assert forall|x: Seq<char>| allele_variations(obs1, n).contains(x) implies allele_variations(obs2, n).contains(x) by {
                let j = choose|j: int| 0 <= j < obs1.len() && #[trigger] obs1[j] is Ok && obs1[j]->Ok_0 is Allele
                    && obs1[j]->Ok_0->Allele_1@ == n && obs1[j]->Ok_0->Allele_2@ == x;
                assert(obs1.to_set().contains(obs1[j]));
                let i = choose|i: int| 0 <= i < obs2.len() && obs2[i] == obs1[j];
                assert(obs2[i] is Ok);
            }
            assert forall|x: Seq<char>| allele_variations(obs2, n).contains(x) implies allele_variations(obs1, n).contains(x) by {
                let j = choose|j: int| 0 <= j < obs2.len() && #[trigger] obs2[j] is Ok && obs2[j]->Ok_0 is Allele
                    && obs2[j]->Ok_0->Allele_1@ == n && obs2[j]->Ok_0->Allele_2@ == x;
                assert(obs2.to_set().contains(obs2[j]));
                let i = choose|i: int| 0 <= i < obs1.len() && obs1[i] == obs2[j];
                assert(obs1[i] is Ok);
            }
        }
    }
    reveal(ingestion_trace);
    assert(s1[0].wf() && s1.last().wf() && s2.last().wf());
    lemma_canonical_order(s1.last(), s2.last());
}

/// Building the matrix is a function of the registry: two samples whose matrices are
/// current and that hold the same loci and individuals have bit-identical matrices, so
/// flushing twice without a mutation in between gives the same matrix.
pub proof fn lemma_rebuild_deterministic(a: Sample, b: Sample)
    requires
        a.wf(),
        b.wf(),
        a.matrix_current(),
        b.matrix_current(),
        a.same_loci(b),
        a.same_members(b),
    ensures
        a.allele_matrix().cells() == b.allele_matrix().cells(),
        a.allele_matrix().shape() == b.allele_matrix().shape(),
        a.allele_matrix().ranges() == b.allele_matrix().ranges(),
{
}

/// The copies that the individual named `ind` carries of the variations `vs` at `locus`.
pub open spec fn allele_total(s: Sample, ind: Seq<char>, locus: Seq<char>, vs: Seq<Seq<char>>) -> nat
    decreases vs.len(),
{
    if vs.len() == 0 {
        0
    } else {
        allele_total(s, ind, locus, vs.drop_last()) + s.count(ind, locus, vs.last())
    }
}

proof fn lemma_rows_of_all(xs: Seq<Individual>, loci: Seq<Locus>, r: int)
    requires
        0 <= r < xs.len(),
    ensures
        all_cells(xs, loci).len() == xs.len() * total_columns(loci),
        all_cells(xs, loci).subrange(r * total_columns(loci), (r + 1) * total_columns(loci)) == row_cells(xs[r], loci),
    decreases xs.len(),
{
    let w = total_columns(loci);
    let n = xs.len();
    let first = all_cells(xs.drop_last(), loci);
    lemma_row_len(xs.last(), loci);
    if n == 1 {
        assert(xs.drop_last().len() == 0);
        assert(first =~= Seq::<u32>::empty());
        assert(all_cells(xs, loci) == first + row_cells(xs.last(), loci));
        assert(all_cells(xs, loci) =~= row_cells(xs[0], loci));
        assert(r == 0);
        assert(n * w == w) by (nonlinear_arith)
            requires n == 1;
        assert(all_cells(xs, loci).subrange(0, w as int) =~= row_cells(xs[0], loci));
    } else {
        assert(n * w == (n - 1) * w + w) by (nonlinear_arith);
        assert((r + 1) * w == r * w + w) by (nonlinear_arith);
        assert(r * w >= 0) by (nonlinear_arith)
            requires r >= 0, w >= 0;
        assert(all_cells(xs, loci) == first + row_cells(xs.last(), loci));
        if r < n - 1 {
            lemma_rows_of_all(xs.drop_last(), loci, r);
            assert((r + 1) * w <= (n - 1) * w) by (nonlinear_arith)
                requires r + 1 <= n - 1, w >= 0;
            assert(all_cells(xs, loci).subrange(r * w, (r + 1) * w) =~= first.subrange(r * w, (r + 1) * w));
        } else {
            lemma_rows_of_all(xs.drop_last(), loci, 0);
            assert(r * w == (n - 1) * w);
            assert(all_cells(xs, loci).subrange(r * w, (r + 1) * w) =~= row_cells(xs.last(), loci));
        }
    }
}

proof fn lemma_locus_of_row(x: Individual, loci: Seq<Locus>, l: int)
    requires
        0 <= l < loci.len(),
    ensures
        column_offset(loci, l + 1) == column_offset(loci, l) + loci[l].variation_names().len(),
        column_offset(loci, l + 1) <= total_columns(loci),
        row_cells(x, loci).subrange(column_offset(loci, l) as int, column_offset(loci, l + 1) as int) == locus_cells(x, loci[l]),
    decreases loci.len(),
{
    let n = loci.len();
    lemma_row_len(x, loci.drop_last());
    lemma_total_prefix(loci, l + 1);
    assert(loci.subrange(0, l + 1).drop_last() =~= loci.subrange(0, l));
    if l < n - 1 {
        lemma_locus_of_row(x, loci.drop_last(), l);
        assert(loci.drop_last().subrange(0, l) =~= loci.subrange(0, l));
        assert(loci.drop_last().subrange(0, l + 1) =~= loci.subrange(0, l + 1));
        assert(row_cells(x, loci).subrange(column_offset(loci, l) as int, column_offset(loci, l + 1) as int)
            =~= row_cells(x, loci.drop_last()).subrange(column_offset(loci, l) as int, column_offset(loci, l + 1) as int));
    } else {
        assert(loci.subrange(0, l) =~= loci.drop_last());
        assert(row_cells(x, loci).subrange(column_offset(loci, l) as int, column_offset(loci, l + 1) as int) =~= locus_cells(x, loci.last()));
    }
}

proof fn lemma_count_fits(x: Individual, l: Seq<char>, v: Seq<char>)
    ensures
        x.count(l, v) <= u32::MAX,
{
}

proof fn lemma_sum_locus(s: Sample, x: Individual, locus: Locus, k: int)
    requires
        lookup(s.individuals@, x.key()) == Some(x),
        0 <= k <= locus.variation_names().len(),
    ensures
        sum_cells(locus_cells(x, locus).subrange(0, k)) == allele_total(s, x.key(), locus.key(), locus.variation_names().subrange(0, k)),
    decreases k,
{
    if k > 0 {
        lemma_sum_locus(s, x, locus, k - 1);
        let vs = locus.variation_names();
        assert(locus_cells(x, locus).subrange(0, k).drop_last() =~= locus_cells(x, locus).subrange(0, k - 1));
        assert(vs.subrange(0, k).drop_last() =~= vs.subrange(0, k - 1));
        lemma_count_fits(x, locus.key(), vs[k - 1]);
    } else {
        assert(locus_cells(x, locus).subrange(0, 0) =~= Seq::<u32>::empty());
        assert(locus.variation_names().subrange(0, 0) =~= Seq::<Seq<char>>::empty());
    }
}

/// After a rebuild, the entries of an individual's row in a locus's column range add up
/// to the copies the individual carries over that locus's variations, that is, to the
/// number of allele observations recorded for that individual at that locus.
pub proof fn lemma_locus_range_sums(s: Sample, r: int, l: int)
    requires
        s.wf(),
        !s.is_stale(),
        0 <= r < s.individual_names().len(),
        0 <= l < s.locus_names().len(),
    ensures
        ({
            let m = s.allele_matrix();
            let w = m.shape().1 as int;
            let range = m.ranges()[l];
            let vs = s.variation_names(s.locus_names()[l])->Some_0;
            sum_cells(m.cells().subrange(r * w + range.0, r * w + range.1))
                == allele_total(s, s.individual_names()[r], s.locus_names()[l], vs)
        }),
{
    let xs = s.individuals@;
    let loci = s.loci@;
    let x = xs[r];
    let w = total_columns(loci);
    lemma_rows_of_all(xs, loci, r);
    lemma_locus_of_row(x, loci, l);
    lemma_total_prefix(loci, l);
    lemma_lookup_at(xs, r);
    lemma_lookup_at(loci, l);
    assert(names_of(xs)[r] == x.key());
    assert(names_of(loci)[l] == loci[l].key());
    let off = column_offset(loci, l) as int;
    let end = column_offset(loci, l + 1) as int;
    let m = s.allele_matrix();
    assert(m.ranges()[l] == (off as usize, end as usize));
    assert(w <= usize::MAX);
    assert(r * w + w <= xs.len() * w) by (nonlinear_arith)
        requires r < xs.len(), w >= 0;
    assert(m.cells().subrange(r * w + off, r * w + end) =~= row_cells(x, loci).subrange(off, end)) by {
        let row = all_cells(xs, loci).subrange(r * w, (r + 1) * w);
        assert(r * w + w == (r + 1) * w) by (nonlinear_arith);
        assert forall|i: int| 0 <= i < end - off implies m.cells().subrange(r * w + off, r * w + end)[i] == row_cells(x, loci).subrange(off, end)[i] by {
            assert(row[off + i] == all_cells(xs, loci)[r * w + off + i]);
        }
    }
    lemma_sum_locus(s, x, loci[l], loci[l].variation_names().len() as int);
    assert(loci[l].variation_names().subrange(0, loci[l].variation_names().len() as int) =~= loci[l].variation_names());
    assert(locus_cells(x, loci[l]).subrange(0, loci[l].variation_names().len() as int) =~= locus_cells(x, loci[l]));
}

} // verus!
