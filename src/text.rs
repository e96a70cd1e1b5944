//! Canonical (lexicographic) order on names.
use vstd::prelude::*;

verus! {

/// Lexicographic "strictly less" on character sequences, comparing code points.
pub open spec fn name_lt(a: Seq<char>, b: Seq<char>) -> bool
    decreases a.len(),
{
    if a.len() == 0 {
        b.len() > 0
    } else if b.len() == 0 {
        false
    } else if a[0] != b[0] {
        (a[0] as int) < (b[0] as int)
    } else {
        name_lt(a.drop_first(), b.drop_first())
    }
}

/// A sequence of names in strictly increasing canonical order (hence without repeats).
pub open spec fn sorted_names(s: Seq<Seq<char>>) -> bool {
    forall|i: int, j: int| 0 <= i < j < s.len() ==> name_lt(#[trigger] s[i], #[trigger] s[j])
}

pub proof fn lemma_name_lt_irreflexive(a: Seq<char>)
    ensures
        !name_lt(a, a),
    decreases a.len(),
{
    if a.len() > 0 {
        lemma_name_lt_irreflexive(a.drop_first());
    }
}

pub proof fn lemma_name_lt_transitive(a: Seq<char>, b: Seq<char>, c: Seq<char>)
    requires
        name_lt(a, b),
        name_lt(b, c),
    ensures
        name_lt(a, c),
    decreases a.len(),
{
    if a.len() > 0 && b.len() > 0 && c.len() > 0 && a[0] == b[0] && b[0] == c[0] {
        lemma_name_lt_transitive(a.drop_first(), b.drop_first(), c.drop_first());
    }
}

pub proof fn lemma_name_lt_total(a: Seq<char>, b: Seq<char>)
    ensures
        a == b || name_lt(a, b) || name_lt(b, a),
    decreases a.len(),
{
    if a.len() > 0 && b.len() > 0 && a[0] == b[0] {
        lemma_name_lt_total(a.drop_first(), b.drop_first());
        if a.drop_first() == b.drop_first() {
            assert(a =~= seq![a[0]] + a.drop_first());
            assert(b =~= seq![b[0]] + b.drop_first());
        }
    } else if a.len() == 0 && b.len() == 0 {
        assert(a =~= b);
    }
}

pub proof fn lemma_name_lt_asymmetric(a: Seq<char>, b: Seq<char>)
    requires
        name_lt(a, b),
    ensures
        !name_lt(b, a),
{
    if name_lt(b, a) {
        lemma_name_lt_transitive(a, b, a);
        lemma_name_lt_irreflexive(a);
    }
}

/// Two canonically ordered sequences holding the same names are the same sequence.
pub proof fn lemma_sorted_names_unique(s: Seq<Seq<char>>, t: Seq<Seq<char>>)
    requires
        sorted_names(s),
        sorted_names(t),
        s.to_set() == t.to_set(),
    ensures
        s == t,
    decreases s.len(),
{
    if s.len() == 0 {
        if t.len() > 0 {
            assert(t.to_set().contains(t[0]));
            assert(!s.to_set().contains(t[0]));
        }
        assert(s =~= t);
    } else if t.len() == 0 {
        assert(s.to_set().contains(s[0]));
    } else {
        // the least elements agree
        assert(s.to_set().contains(s[0]));
        assert(t.to_set().contains(t[0]));
        let i = choose|i: int| 0 <= i < t.len() && t[i] == s[0];
        let j = choose|j: int| 0 <= j < s.len() && s[j] == t[0];
        if i > 0 {
            assert(name_lt(t[0], t[i]));
            if j > 0 {
                assert(name_lt(s[0], s[j]));
                lemma_name_lt_asymmetric(t[0], s[0]);
            } else {
                lemma_name_lt_irreflexive(s[0]);
            }
        }
        assert(s[0] == t[0]);
        let s1 = s.drop_first();
        let t1 = t.drop_first();
        assert forall|x: Seq<char>| s1.to_set().contains(x) implies t1.to_set().contains(x) by {
            let k = choose|k: int| 0 <= k < s1.len() && s1[k] == x;
            assert(s.to_set().contains(s[k + 1]));
            let m = choose|m: int| 0 <= m < t.len() && t[m] == x;
            assert(name_lt(s[0], s[k + 1]));
            if m == 0 {
                lemma_name_lt_irreflexive(s[0]);
            }
            assert(t1[m - 1] == x);
        }
        assert forall|x: Seq<char>| t1.to_set().contains(x) implies s1.to_set().contains(x) by {
            let k = choose|k: int| 0 <= k < t1.len() && t1[k] == x;
            assert(t.to_set().contains(t[k + 1]));
            let m = choose|m: int| 0 <= m < s.len() && s[m] == x;
            assert(name_lt(t[0], t[k + 1]));
            if m == 0 {
                lemma_name_lt_irreflexive(t[0]);
            }
            assert(s1[m - 1] == x);
        }
        assert(s1.to_set() =~= t1.to_set());
        lemma_sorted_names_unique(s1, t1);
        assert(s =~= seq![s[0]] + s1);
        assert(t =~= seq![t[0]] + t1);
    }
}

/// In a canonically ordered sequence each name stands at one place only.
pub proof fn lemma_sorted_index_of(s: Seq<Seq<char>>, i: int)
    requires
        sorted_names(s),
        0 <= i < s.len(),
    ensures
        s.contains(s[i]),
        s.index_of(s[i]) == i,
{
    assert(s[i] == s[i]);
    let j = s.index_of(s[i]);
    if j != i {
        if j < i {
            assert(name_lt(s[j], s[i]));
        } else {
            assert(name_lt(s[i], s[j]));
        }
        lemma_name_lt_irreflexive(s[i]);
    }
}

/// Inserting a name at the first position whose name is not smaller keeps the order.
pub proof fn lemma_insert_sorted(s: Seq<Seq<char>>, i: int, key: Seq<char>)
    requires
        sorted_names(s),
        0 <= i <= s.len(),
        forall|k: int| 0 <= k < i ==> name_lt(#[trigger] s[k], key),
        i < s.len() ==> name_lt(key, s[i]),
    ensures
        sorted_names(s.insert(i, key)),
{
    let t = s.insert(i, key);
    assert forall|a: int, b: int| 0 <= a < b < t.len() implies name_lt(#[trigger] t[a], #[trigger] t[b]) by {
        if a < i && b == i {
        } else if a < i && b > i {
            assert(t[b] == s[b - 1]);
        } else if a == i {
            assert(t[b] == s[b - 1]);
            if b - 1 > i {
                lemma_name_lt_transitive(key, s[i], s[b - 1]);
            }
        } else if b < i {
        } else {
            assert(t[a] == s[a - 1] && t[b] == s[b - 1]);
        }
    }
}

/// Compares two names in canonical order.
pub fn less_than(a: &str, b: &str) -> (r: bool)
    ensures
        r == name_lt(a@, b@),
{
    let la = a.unicode_len();
    let lb = b.unicode_len();
    let mut k: usize = 0;
    assert(a@.subrange(0, la as int) =~= a@);
    assert(b@.subrange(0, lb as int) =~= b@);
    while k < la && k < lb
        invariant
            la == a@.len(),
            lb == b@.len(),
            k <= la,
            k <= lb,
            a@.subrange(0, k as int) == b@.subrange(0, k as int),
            name_lt(a@, b@) == name_lt(a@.subrange(k as int, la as int), b@.subrange(k as int, lb as int)),
        decreases la - k,
    {
        let ca = a.get_char(k);
        let cb = b.get_char(k);
        let ghost ra = a@.subrange(k as int, la as int);
        let ghost rb = b@.subrange(k as int, lb as int);
        if ca != cb {
            return ca < cb;
        }
        assert(ra.drop_first() =~= a@.subrange(k + 1, la as int));
        assert(rb.drop_first() =~= b@.subrange(k + 1, lb as int));
        assert(a@.subrange(0, k + 1) =~= a@.subrange(0, k as int).push(ca));
        assert(b@.subrange(0, k + 1) =~= b@.subrange(0, k as int).push(cb));
        k = k + 1;
    }
    k < lb
}

} // verus!
