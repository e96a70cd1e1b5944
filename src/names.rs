//! Collections kept in canonical name order, and lookup in them.
use vstd::prelude::*;
use crate::text::{less_than, name_lt, sorted_names, lemma_name_lt_total, lemma_name_lt_transitive, lemma_name_lt_irreflexive, lemma_sorted_index_of};

verus! {

/// An entity identified by its name.
pub trait Named {
    spec fn key(&self) -> Seq<char>;

    fn name(&self) -> (r: &str)
        ensures
            r@ == self.key();
}

/// The names of a sequence of entities, in the same order.
pub open spec fn names_of<T: Named>(s: Seq<T>) -> Seq<Seq<char>> {
    s.map_values(|x: T| x.key())
}

/// The entity of a collection that bears `name`, if any.
pub open spec fn lookup<T: Named>(s: Seq<T>, name: Seq<char>) -> Option<T> {
    if names_of(s).contains(name) {
        Some(s[names_of(s).index_of(name)])
    } else {
        None
    }
}

pub proof fn lemma_lookup_at<T: Named>(s: Seq<T>, i: int)
    requires
        sorted_names(names_of(s)),
        0 <= i < s.len(),
    ensures
        lookup(s, s[i].key()) == Some(s[i]),
{
    assert(names_of(s)[i] == s[i].key());
    lemma_sorted_index_of(names_of(s), i);
}

/// Inserting an entity into an ordered collection adds it and leaves every other name's entity.
pub proof fn lemma_lookup_insert<T: Named>(s: Seq<T>, pos: int, x: T, name: Seq<char>)
    requires
        sorted_names(names_of(s)),
        sorted_names(names_of(s.insert(pos, x))),
        0 <= pos <= s.len(),
    ensures
        lookup(s.insert(pos, x), name) == (if name == x.key() { Some(x) } else { lookup(s, name) }),
{
    let t = s.insert(pos, x);
    assert(names_of(t) =~= names_of(s).insert(pos, x.key()));
    if name == x.key() {
        lemma_lookup_at(t, pos);
    } else if names_of(s).contains(name) {
        let j = names_of(s).index_of(name);
        lemma_sorted_index_of(names_of(s), j);
        if j < pos {
            assert(t[j] == s[j]);
            lemma_lookup_at(t, j);
        } else {
            assert(t[j + 1] == s[j]);
            lemma_lookup_at(t, j + 1);
        }
    } else {
        if names_of(t).contains(name) {
            let k = names_of(t).index_of(name);
            if k < pos {
                assert(names_of(s)[k] == name);
            } else if k > pos {
                assert(names_of(s)[k - 1] == name);
            }
        }
    }
}

/// Replacing an entity by one of the same name changes only that name's entity.
pub proof fn lemma_lookup_update<T: Named>(s: Seq<T>, pos: int, x: T, name: Seq<char>)
    requires
        sorted_names(names_of(s)),
        0 <= pos < s.len(),
        x.key() == s[pos].key(),
    ensures
        sorted_names(names_of(s.update(pos, x))),
        lookup(s.update(pos, x), name) == (if name == x.key() { Some(x) } else { lookup(s, name) }),
{
    let t = s.update(pos, x);
    assert(names_of(t) =~= names_of(s));
    if name == x.key() {
        lemma_lookup_at(t, pos);
    } else if names_of(s).contains(name) {
        let j = names_of(s).index_of(name);
        lemma_sorted_index_of(names_of(s), j);
        assert(t[j] == s[j]);
        lemma_lookup_at(t, j);
    }
}

/// Where `name` stands, or would be inserted, in a canonically ordered collection.
pub open spec fn search_result(names: Seq<Seq<char>>, name: Seq<char>, pos: int, found: bool) -> bool {
    &&& 0 <= pos <= names.len()
    &&& found ==> pos < names.len() && names[pos] == name
    &&& !found ==> (forall|k: int| 0 <= k < pos ==> name_lt(#[trigger] names[k], name))
    &&& !found ==> (pos < names.len() ==> name_lt(name, names[pos]))
    &&& !found ==> !names.contains(name)
}

/// Finds `name` in a collection kept in canonical order.
pub fn search<T: Named>(v: &Vec<T>, name: &str) -> (r: (usize, bool))
    requires
        sorted_names(names_of(v@)),
    ensures
        search_result(names_of(v@), name@, r.0 as int, r.1),
{
    let ghost names = names_of(v@);
    let mut i: usize = 0;
    while i < v.len()
        invariant
            i <= v.len(),
            names == names_of(v@),
            sorted_names(names),
            forall|k: int| 0 <= k < i ==> name_lt(#[trigger] names[k], name@),
        decreases v.len() - i,
    {
        let here = v[i].name();
        assert(names[i as int] == here@);
        if !less_than(here, name) {
            proof {
                lemma_name_lt_total(here@, name@);
            }
            if !less_than(name, here) {
                return (i, true);
            }
            proof {
                assert forall|k: int| 0 <= k < names.len() implies names[k] != name@ by {
                    if k > i {
                        assert(name_lt(names[i as int], names[k]));
                        lemma_name_lt_transitive(name@, names[i as int], names[k]);
                        lemma_name_lt_irreflexive(name@);
                    } else if k < i {
                        lemma_name_lt_irreflexive(name@);
                    }
                }
            }
            return (i, false);
        }
        i = i + 1;
    }
    proof {
        assert forall|k: int| 0 <= k < names.len() implies names[k] != name@ by {
            lemma_name_lt_irreflexive(name@);
        }
    }
    (i, false)
}

} // verus!
