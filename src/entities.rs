//! The entities of a sample: variations, loci, groups and individuals.
use vstd::prelude::*;
use crate::names::{Named, names_of};
use crate::text::sorted_names;

verus! {

/// The number of times an individual carries an allele.
pub type AlleleCount = u32;

/// One observed state at a locus; identified by its name.
pub struct Variation {
    pub(crate) name: String,
}

impl Variation {
    pub fn new(name: &str) -> (r: Self)
        ensures
            r.key() == name@,
    {
        Variation { name: name.to_owned() }
    }
}

impl Named for Variation {
    closed spec fn key(&self) -> Seq<char> {
        self.name@
    }

    fn name(&self) -> (r: &str) {
        self.name.as_str()
    }
}

/// How a locus is typed; carried along, not used by the statistics.
pub enum LocusHint {
    Classical,
    Microsatellite,
}

/// A marker at which variations are observed; identified by its name, it owns its
/// variations in canonical order.
pub struct Locus {
    pub(crate) name: String,
    pub(crate) variations: Vec<Variation>,
    pub(crate) hint: LocusHint,
}

impl Locus {
    pub fn new(name: &str) -> (r: Self)
        ensures
            r.key() == name@,
            r.variation_names() == Seq::<Seq<char>>::empty(),
            r.hint() is Microsatellite,
    {
        Locus { name: name.to_owned(), variations: Vec::new(), hint: LocusHint::Microsatellite }
    }

    /// How the locus is typed.
    pub open(crate) spec fn hint(&self) -> LocusHint {
        self.hint
    }

    /// The names of the locus's variations, in the order they are held.
    pub open(crate) spec fn variation_names(&self) -> Seq<Seq<char>> {
        names_of(self.variations@)
    }

    pub open(crate) spec fn wf(&self) -> bool {
        sorted_names(self.variation_names())
    }

    pub(crate) fn insert_variation(&mut self, pos: usize, var: Variation)
        requires
            pos <= old(self).variations@.len(),
        ensures
            final(self).key() == old(self).key(),
            final(self).hint() == old(self).hint(),
            final(self).variations@ == old(self).variations@.insert(pos as int, var),
    {
        self.variations.insert(pos, var);
    }

    /// The number of variations of the locus.
    pub fn n_variations(&self) -> (r: usize)
        ensures
            r == self.variation_names().len(),
    {
        self.variations.len()
    }
}

impl Named for Locus {
    closed spec fn key(&self) -> Seq<char> {
        self.name@
    }

    fn name(&self) -> (r: &str) {
        self.name.as_str()
    }
}

/// A group that individuals belong to; identified by its name.
pub struct Group {
    pub(crate) name: String,
}

impl Group {
    pub fn new(name: &str) -> (r: Self)
        ensures
            r.key() == name@,
    {
        Group { name: name.to_owned() }
    }
}

impl Named for Group {
    closed spec fn key(&self) -> Seq<char> {
        self.name@
    }

    fn name(&self) -> (r: &str) {
        self.name.as_str()
    }
}

/// A (locus, variation) pair, named by the two names.
pub struct Allele {
    pub(crate) locus: String,
    pub(crate) variation: String,
}

impl Allele {
    pub open(crate) spec fn view(&self) -> (Seq<char>, Seq<char>) {
        (self.locus@, self.variation@)
    }

    pub fn locus(&self) -> (r: &str)
        ensures
            r@ == self.view().0,
    {
        self.locus.as_str()
    }

    pub fn variation(&self) -> (r: &str)
        ensures
            r@ == self.view().1,
    {
        self.variation.as_str()
    }
}

/// How many copies of one allele an individual carries.
pub struct GenomeEntry {
    pub(crate) allele: Allele,
    pub(crate) count: AlleleCount,
}

/// A sampled individual: its genome (allele counts), group memberships and metadata.
pub struct Individual {
    pub(crate) name: String,
    pub(crate) genome: Vec<GenomeEntry>,
    pub(crate) groups: Vec<String>,
    pub(crate) meta: Vec<(String, String)>,
}

pub open spec fn keys_unique<K, V>(s: Seq<(K, V)>) -> bool {
    forall|i: int, j: int| 0 <= i < j < s.len() ==> s[i].0 != s[j].0
}

impl Individual {
    pub fn new(name: &str) -> (r: Self)
        ensures
            r.key() == name@,
            r.wf(),
            forall|l: Seq<char>, v: Seq<char>| r.count(l, v) == 0,
            r.group_set() == Set::<Seq<char>>::empty(),
            forall|k: Seq<char>| r.meta_value(k) is None,
    {
        let r = Individual { name: name.to_owned(), genome: Vec::new(), groups: Vec::new(), meta: Vec::new() };
        proof {
            assert(r.group_names() =~= Seq::<Seq<char>>::empty());
        }
        r
    }

    pub open(crate) spec fn genome_view(&self) -> Seq<((Seq<char>, Seq<char>), AlleleCount)> {
        self.genome@.map_values(|e: GenomeEntry| (e.allele.view(), e.count))
    }

    pub open(crate) spec fn meta_view(&self) -> Seq<(Seq<char>, Seq<char>)> {
        self.meta@.map_values(|e: (String, String)| (e.0@, e.1@))
    }

    pub open(crate) spec fn group_names(&self) -> Seq<Seq<char>> {
        self.groups@.map_values(|g: String| g@)
    }

    pub open(crate) spec fn wf(&self) -> bool {
        &&& keys_unique(self.genome_view())
        &&& keys_unique(self.meta_view())
        &&& self.group_names().no_duplicates()
    }

    /// How many copies of the allele (locus `l`, variation `v`) the individual carries.
    pub open(crate) spec fn count(&self, l: Seq<char>, v: Seq<char>) -> nat {
        let g = self.genome_view();
        if exists|i: int| 0 <= i < g.len() && g[i].0 == (l, v) {
            g[choose|i: int| 0 <= i < g.len() && g[i].0 == (l, v)].1 as nat
        } else {
            0
        }
    }

    /// The groups the individual belongs to.
    pub open(crate) spec fn group_set(&self) -> Set<Seq<char>> {
        self.group_names().to_set()
    }

    /// The metadata value stored under `k`, if any.
    pub open(crate) spec fn meta_value(&self, k: Seq<char>) -> Option<Seq<char>> {
        let m = self.meta_view();
        if exists|i: int| 0 <= i < m.len() && m[i].0 == k {
            Some(m[choose|i: int| 0 <= i < m.len() && m[i].0 == k].1)
        } else {
            None
        }
    }

    fn genome_position(&self, l: &String, v: &String) -> (r: Option<usize>)
        ensures
            r matches Some(i) ==> i < self.genome@.len() && self.genome_view()[i as int].0 == (l@, v@),
            r is None ==> forall|k: int| 0 <= k < self.genome@.len() ==> self.genome_view()[k].0 != (l@, v@),
    {
        let mut i: usize = 0;
        while i < self.genome.len()
            invariant
                i <= self.genome@.len(),
                forall|k: int| 0 <= k < i ==> self.genome_view()[k].0 != (l@, v@),
            decreases self.genome@.len() - i,
        {
            assert(self.genome_view()[i as int].0 == self.genome@[i as int].allele.view());
            if self.genome[i].allele.locus == *l && self.genome[i].allele.variation == *v {
                return Some(i);
            }
            i = i + 1;
        }
        None
    }

    /// How many copies of the allele (`locus`, `variation`) the individual carries.
    pub fn count_of(&self, locus: &str, variation: &str) -> (r: AlleleCount)
        requires
            self.wf(),
        ensures
            r == self.count(locus@, variation@),
    {
        let l = locus.to_owned();
        let v = variation.to_owned();
        match self.genome_position(&l, &v) {
            Some(i) => {
                proof {
                    let g = self.genome_view();
                    let j = choose|j: int| 0 <= j < g.len() && g[j].0 == (locus@, variation@);
                    assert(j == i);
                }
                self.genome[i].count
            },
            None => 0,
        }
    }

    /// Whether the individual belongs to the group named `group`.
    pub fn in_group(&self, group: &str) -> (r: bool)
        ensures
            r == self.group_set().contains(group@),
    {
        self.has_group(&group.to_owned())
    }

    /// The metadata value under `key`, if any.
    pub fn meta(&self, key: &str) -> (r: Option<String>)
        requires
            self.wf(),
        ensures
            r matches Some(v) ==> self.meta_value(key@) == Some(v@),
            r is None ==> self.meta_value(key@) is None,
    {
        match self.meta_position(&key.to_owned()) {
            Some(i) => {
                proof {
                    let m = self.meta_view();
                    let j = choose|j: int| 0 <= j < m.len() && m[j].0 == key@;
                    assert(j == i);
                }
                Some(self.meta[i].1.clone())
            },
            None => None,
        }
    }

    /// The number of groups the individual belongs to.
    pub fn n_groups(&self) -> (r: usize)
        requires
            self.wf(),
        ensures
            r == self.group_set().len(),
    {
        proof {
            self.group_names().unique_seq_to_set();
        }
        self.groups.len()
    }

    /// Records one more copy of the allele.
    pub(crate) fn add_allele(&mut self, locus: &str, variation: &str)
        requires
            old(self).wf(),
            old(self).count(locus@, variation@) < AlleleCount::MAX,
        ensures
            final(self).wf(),
            final(self).key() == old(self).key(),
            final(self).count(locus@, variation@) == old(self).count(locus@, variation@) + 1,
            forall|l: Seq<char>, v: Seq<char>| (l, v) != (locus@, variation@) ==> final(self).count(l, v) == old(self).count(l, v),
            final(self).group_set() == old(self).group_set(),
            forall|k: Seq<char>| final(self).meta_value(k) == old(self).meta_value(k),
    {
        let l = locus.to_owned();
        let v = variation.to_owned();
        let ghost key = (locus@, variation@);
        if let Some(i) = self.genome_position(&l, &v) {
            {
                let ghost g0 = self.genome_view();
                assert(g0[i as int].0 == key);
                let c = self.genome[i].count;
                proof {
                    assert(self.count(locus@, variation@) == c as nat);
                }
                let entry = GenomeEntry { allele: Allele { locus: l, variation: v }, count: c + 1 };
                self.genome.set(i, entry);
                proof {
                    let g1 = self.genome_view();
                    assert(g1 =~= g0.update(i as int, (key, (c + 1) as AlleleCount)));
                    assert(g1[i as int].0 == key);
                    assert forall|a: Seq<char>, b: Seq<char>| (a, b) != key implies self.count(a, b) == old(self).count(a, b) by {
                        if exists|j: int| 0 <= j < g0.len() && g0[j].0 == (a, b) {
                            let j = choose|j: int| 0 <= j < g0.len() && g0[j].0 == (a, b);
                            assert(g1[j].0 == (a, b));
                        }
                        if exists|j: int| 0 <= j < g1.len() && g1[j].0 == (a, b) {
                            let j = choose|j: int| 0 <= j < g1.len() && g1[j].0 == (a, b);
                            assert(g0[j].0 == (a, b));
                        }
                    }
                    assert(self.meta_view() == old(self).meta_view());
                    assert(self.group_names() == old(self).group_names());
                }
                return;
            }
        }
        let ghost g0 = self.genome_view();
        self.genome.push(GenomeEntry { allele: Allele { locus: l, variation: v }, count: 1 });
        proof {
            let g1 = self.genome_view();
            assert(g1 =~= g0.push((key, 1 as AlleleCount)));
            assert(g1[g0.len() as int].0 == key);
            assert forall|a: Seq<char>, b: Seq<char>| (a, b) != key implies self.count(a, b) == old(self).count(a, b) by {
                if exists|j: int| 0 <= j < g0.len() && g0[j].0 == (a, b) {
                    let j = choose|j: int| 0 <= j < g0.len() && g0[j].0 == (a, b);
                    assert(g1[j].0 == (a, b));
                }
                if exists|j: int| 0 <= j < g1.len() && g1[j].0 == (a, b) {
                    let j = choose|j: int| 0 <= j < g1.len() && g1[j].0 == (a, b);
                    assert(g0[j].0 == (a, b));
                }
            }
            assert(self.meta_view() == old(self).meta_view());
            assert(self.group_names() == old(self).group_names());
        }
    }

    fn has_group(&self, g: &String) -> (r: bool)
        ensures
            r == self.group_names().contains(g@),
    {
        let mut i: usize = 0;
        while i < self.groups.len()
            invariant
                i <= self.groups@.len(),
                forall|k: int| 0 <= k < i ==> self.group_names()[k] != g@,
            decreases self.groups@.len() - i,
        {
            if self.groups[i] == *g {
                assert(self.group_names()[i as int] == g@);
                return true;
            }
            i = i + 1;
        }
        false
    }

    /// Adds the individual to a group (no effect when it already belongs to it).
    pub(crate) fn add_group(&mut self, group: &str)
        requires
            old(self).wf(),
        ensures
            final(self).wf(),
            final(self).key() == old(self).key(),
            forall|l: Seq<char>, v: Seq<char>| final(self).count(l, v) == old(self).count(l, v),
            final(self).group_set() == old(self).group_set().insert(group@),
            forall|k: Seq<char>| final(self).meta_value(k) == old(self).meta_value(k),
    {
        let g = group.to_owned();
        if self.has_group(&g) {
            proof {
                let j = choose|j: int| 0 <= j < self.group_names().len() && self.group_names()[j] == group@;
                assert(self.group_set() =~= old(self).group_set().insert(group@));
            }
            return;
        }
        let ghost n0 = self.group_names();
        self.groups.push(g);
        proof {
            assert(self.group_names() =~= n0.push(group@));
            assert forall|x: Seq<char>| #[trigger] self.group_set().contains(x) <==> old(self).group_set().insert(group@).contains(x) by {
                if x == group@ {
                    assert(self.group_names()[n0.len() as int] == x);
                }
                if n0.contains(x) {
                    let j = choose|j: int| 0 <= j < n0.len() && n0[j] == x;
                    assert(self.group_names()[j] == x);
                }
                if self.group_names().contains(x) && x != group@ {
                    let j = choose|j: int| 0 <= j < self.group_names().len() && self.group_names()[j] == x;
                    assert(n0[j] == x);
                }
            }
            assert(self.group_set() =~= old(self).group_set().insert(group@));
            assert(self.meta_view() == old(self).meta_view());
            assert(self.genome_view() == old(self).genome_view());
        }
    }

    fn meta_position(&self, k: &String) -> (r: Option<usize>)
        ensures
            r matches Some(i) ==> i < self.meta@.len() && self.meta_view()[i as int].0 == k@,
            r is None ==> forall|j: int| 0 <= j < self.meta@.len() ==> self.meta_view()[j].0 != k@,
    {
        let mut i: usize = 0;
        while i < self.meta.len()
            invariant
                i <= self.meta@.len(),
                forall|j: int| 0 <= j < i ==> self.meta_view()[j].0 != k@,
            decreases self.meta@.len() - i,
        {
            if self.meta[i].0 == *k {
                return Some(i);
            }
            i = i + 1;
        }
        None
    }

    /// Sets the metadata value under `key` (the last value written wins).
    pub(crate) fn set_meta(&mut self, key: &str, value: &str)
        requires
            old(self).wf(),
        ensures
            final(self).wf(),
            final(self).key() == old(self).key(),
            forall|l: Seq<char>, v: Seq<char>| final(self).count(l, v) == old(self).count(l, v),
            final(self).group_set() == old(self).group_set(),
            final(self).meta_value(key@) == Some(value@),
            forall|k: Seq<char>| k != key@ ==> final(self).meta_value(k) == old(self).meta_value(k),
    {
        let k = key.to_owned();
        let v = value.to_owned();
        let ghost m0 = self.meta_view();
        if let Some(i) = self.meta_position(&k) {
            self.meta.set(i, (k, v));
            proof {
                let m1 = self.meta_view();
                assert(m1 =~= m0.update(i as int, (key@, value@)));
                assert(m1[i as int].0 == key@);
                assert(forall|j: int| 0 <= j < m1.len() ==> m1[j].0 == m0[j].0);
                assert forall|a: Seq<char>| a != key@ implies self.meta_value(a) == old(self).meta_value(a) by {
                    if exists|j: int| 0 <= j < m0.len() && m0[j].0 == a {
                        let j = choose|j: int| 0 <= j < m0.len() && m0[j].0 == a;
                        assert(m1[j] == m0[j]);
                    }
                    if exists|j: int| 0 <= j < m1.len() && m1[j].0 == a {
                        let j = choose|j: int| 0 <= j < m1.len() && m1[j].0 == a;
                        assert(m0[j] == m1[j]);
                    }
                }
                assert(self.genome_view() == old(self).genome_view());
                assert(self.group_names() == old(self).group_names());
            }
            return;
        }
        self.meta.push((k, v));
        proof {
            let m1 = self.meta_view();
            assert(m1 =~= m0.push((key@, value@)));
            assert(m1[m0.len() as int].0 == key@);
            assert forall|a: Seq<char>| a != key@ implies self.meta_value(a) == old(self).meta_value(a) by {
                if exists|j: int| 0 <= j < m0.len() && m0[j].0 == a {
                    let j = choose|j: int| 0 <= j < m0.len() && m0[j].0 == a;
                    assert(m1[j].0 == a);
                }
                if exists|j: int| 0 <= j < m1.len() && m1[j].0 == a {
                    let j = choose|j: int| 0 <= j < m1.len() && m1[j].0 == a;
                    assert(m0[j].0 == a);
                }
            }
            assert(self.genome_view() == old(self).genome_view());
            assert(self.group_names() == old(self).group_names());
        }
    }
}

impl Named for Individual {
    closed spec fn key(&self) -> Seq<char> {
        self.name@
    }

    fn name(&self) -> (r: &str) {
        self.name.as_str()
    }
}

/// One fact about an individual, as an ingestion source delivers it.
#[derive(Debug)]
pub enum Observation {
    /// The individual (first name) carries the variation (third) at the locus (second).
    Allele(String, String, String),
    /// The individual (first name) belongs to the group (second).
    Group(String, String),
    /// The individual (first name) has the metadata value (third) under the key (second).
    Meta(String, String, String),
}

/// An observation, as names.
pub ghost enum ObservationView {
    Allele(Seq<char>, Seq<char>, Seq<char>),
    Group(Seq<char>, Seq<char>),
    Meta(Seq<char>, Seq<char>, Seq<char>),
}

impl Observation {
    pub open spec fn view(&self) -> ObservationView {
        match self {
            Observation::Allele(i, l, v) => ObservationView::Allele(i@, l@, v@),
            Observation::Group(i, g) => ObservationView::Group(i@, g@),
            Observation::Meta(i, k, v) => ObservationView::Meta(i@, k@, v@),
        }
    }

    /// The name of the individual the observation is about.
    pub open spec fn individual(&self) -> Seq<char> {
        match self {
            Observation::Allele(i, _, _) => i@,
            Observation::Group(i, _) => i@,
            Observation::Meta(i, _, _) => i@,
        }
    }
}

} // verus!
