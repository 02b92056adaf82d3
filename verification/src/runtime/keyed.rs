//! Lists of `(handle, value)` entries with pairwise distinct handles, seen
//! as maps from handle text to value.

use vstd::prelude::*;
use crate::runtime::types::RuntimeHandle;

verus! {

/// The handles of `s` are pairwise distinct.
pub open spec fn distinct_keys<V>(s: Seq<(RuntimeHandle, V)>) -> bool {
    forall|i: int, j: int| 0 <= i < s.len() && 0 <= j < s.len() && i != j ==> s[i].0@ != s[j].0@
}

/// Contents of an entry list as a map from handle text to value.
pub open spec fn keyed<V>(s: Seq<(RuntimeHandle, V)>) -> Map<Seq<char>, V> {
    Map::new(
        |k: Seq<char>| exists|i: int| 0 <= i < s.len() && s[i].0@ == k,
        |k: Seq<char>| s[choose|i: int| 0 <= i < s.len() && s[i].0@ == k].1,
    )
}

pub proof fn lemma_keyed_empty<V>(s: Seq<(RuntimeHandle, V)>)
    requires
        s.len() == 0,
    ensures
        distinct_keys(s),
        keyed(s) =~= Map::<Seq<char>, V>::empty(),
{
}

pub proof fn lemma_keyed_lookup<V>(s: Seq<(RuntimeHandle, V)>, i: int)
    requires
        distinct_keys(s),
        0 <= i < s.len(),
    ensures
        keyed(s).dom().contains(s[i].0@),
        keyed(s)[s[i].0@] == s[i].1,
{
    let k = s[i].0@;
    assert(exists|j: int| 0 <= j < s.len() && s[j].0@ == k);
    let j = choose|j: int| 0 <= j < s.len() && s[j].0@ == k;
    assert(j == i);
}

pub proof fn lemma_keyed_push<V>(s: Seq<(RuntimeHandle, V)>, e: (RuntimeHandle, V))
    requires
        distinct_keys(s),
        !keyed(s).dom().contains(e.0@),
    ensures
        distinct_keys(s.push(e)),
        keyed(s.push(e)) =~= keyed(s).insert(e.0@, e.1),
{
    let t = s.push(e);
    assert forall|i: int, j: int| 0 <= i < t.len() && 0 <= j < t.len() && i != j implies t[i].0@
        != t[j].0@ by {
        if i == s.len() {
            assert(!(exists|k: int| 0 <= k < s.len() && s[k].0@ == e.0@));
            assert(t[j] == s[j]);
        } else if j == s.len() {
            assert(!(exists|k: int| 0 <= k < s.len() && s[k].0@ == e.0@));
            assert(t[i] == s[i]);
        }
    }
    assert forall|k: Seq<char>| #[trigger] keyed(t).dom().contains(k) <==> keyed(s).insert(
        e.0@,
        e.1,
    ).dom().contains(k) by {
        if keyed(t).dom().contains(k) {
            let i = choose|i: int| 0 <= i < t.len() && t[i].0@ == k;
            if i < s.len() {
                assert(s[i].0@ == k);
            }
        }
        if keyed(s).dom().contains(k) {
            let i = choose|i: int| 0 <= i < s.len() && s[i].0@ == k;
            assert(t[i].0@ == k);
        }
        if k == e.0@ {
            assert(t[s.len() as int].0@ == k);
        }
    }
    assert forall|k: Seq<char>| #[trigger] keyed(t).dom().contains(k) implies keyed(t)[k] == keyed(
        s,
    ).insert(e.0@, e.1)[k] by {
        let i = choose|i: int| 0 <= i < t.len() && t[i].0@ == k;
        lemma_keyed_lookup(t, i);
        if i < s.len() {
            assert(t[i] == s[i]);
            lemma_keyed_lookup(s, i);
        }
    }
}

/// Replacing entry `i` by one with the same handle text replaces that
/// handle's value and nothing else.
pub proof fn lemma_keyed_set<V>(s: Seq<(RuntimeHandle, V)>, i: int, e: (RuntimeHandle, V))
    requires
        distinct_keys(s),
        0 <= i < s.len(),
        e.0@ == s[i].0@,
    ensures
        distinct_keys(s.update(i, e)),
        keyed(s.update(i, e)) =~= keyed(s).insert(e.0@, e.1),
{
    let t = s.update(i, e);
    assert forall|a: int, b: int| 0 <= a < t.len() && 0 <= b < t.len() && a != b implies t[a].0@
        != t[b].0@ by {
        assert(t[a].0@ == s[a].0@);
        assert(t[b].0@ == s[b].0@);
    }
    lemma_keyed_lookup(s, i);
    assert forall|k: Seq<char>| #[trigger] keyed(t).dom().contains(k) <==> keyed(s).insert(
        e.0@,
        e.1,
    ).dom().contains(k) by {
        if keyed(t).dom().contains(k) {
            let j = choose|j: int| 0 <= j < t.len() && t[j].0@ == k;
            assert(s[j].0@ == k);
        }
        if keyed(s).dom().contains(k) {
            let j = choose|j: int| 0 <= j < s.len() && s[j].0@ == k;
            assert(t[j].0@ == k);
        }
    }
    assert forall|k: Seq<char>| #[trigger] keyed(t).dom().contains(k) implies keyed(t)[k] == keyed(
        s,
    ).insert(e.0@, e.1)[k] by {
        let j = choose|j: int| 0 <= j < t.len() && t[j].0@ == k;
        lemma_keyed_lookup(t, j);
        if j != i {
            lemma_keyed_lookup(s, j);
        }
    }
}

/// Removing entry `i` removes its handle and nothing else.
pub proof fn lemma_keyed_remove<V>(s: Seq<(RuntimeHandle, V)>, i: int)
    requires
        distinct_keys(s),
        0 <= i < s.len(),
    ensures
        distinct_keys(s.remove(i)),
        keyed(s.remove(i)) =~= keyed(s).remove(s[i].0@),
{
    let t = s.remove(i);
    let gone = s[i].0@;
    assert forall|a: int| 0 <= a < t.len() implies #[trigger] t[a] == s[if a < i {
        a
    } else {
        a + 1
    }] by {}
    assert forall|a: int, b: int| 0 <= a < t.len() && 0 <= b < t.len() && a != b implies t[a].0@
        != t[b].0@ by {
        let sa = if a < i { a } else { a + 1 };
        let sb = if b < i { b } else { b + 1 };
        assert(t[a] == s[sa]);
        assert(t[b] == s[sb]);
    }
    assert forall|k: Seq<char>| #[trigger] keyed(t).dom().contains(k) <==> keyed(s).remove(
        gone,
    ).dom().contains(k) by {
        if keyed(t).dom().contains(k) {
            let a = choose|a: int| 0 <= a < t.len() && t[a].0@ == k;
            let sa = if a < i { a } else { a + 1 };
            assert(t[a] == s[sa]);
            assert(s[sa].0@ == k);
            assert(sa != i);
        }
        if keyed(s).dom().contains(k) && k != gone {
            let a = choose|a: int| 0 <= a < s.len() && s[a].0@ == k;
            assert(a != i);
            let ta = if a < i { a } else { a - 1 };
            assert(t[ta] == s[a]);
            assert(t[ta].0@ == k);
        }
    }
    assert forall|k: Seq<char>| #[trigger] keyed(t).dom().contains(k) implies keyed(t)[k] == keyed(
        s,
    ).remove(gone)[k] by {
        let a = choose|a: int| 0 <= a < t.len() && t[a].0@ == k;
        lemma_keyed_lookup(t, a);
        let sa = if a < i { a } else { a + 1 };
        assert(t[a] == s[sa]);
        lemma_keyed_lookup(s, sa);
    }
}

/// Index of the entry for `handle`, if there is one.
pub fn find_key<V>(s: &Vec<(RuntimeHandle, V)>, handle: &RuntimeHandle) -> (r: Option<usize>)
    requires
        distinct_keys(s@),
    ensures
        match r {
            Some(i) => i < s@.len() && s@[i as int].0@ == handle@ && keyed(s@).dom().contains(
                handle@,
            ) && keyed(s@)[handle@] == s@[i as int].1,
            None => !keyed(s@).dom().contains(handle@),
        },
{
    let mut i: usize = 0;
    while i < s.len()
        invariant
            i <= s@.len(),
            distinct_keys(s@),
            forall|j: int| 0 <= j < i ==> s@[j].0@ != handle@,
        decreases s@.len() - i,
    {
        if s[i].0.same(handle) {
            proof {
                lemma_keyed_lookup(s@, i as int);
            }
            return Some(i);
        }
        i = i + 1;
    }
    proof {
        if keyed(s@).dom().contains(handle@) {
            let j = choose|j: int| 0 <= j < s@.len() && s@[j].0@ == handle@;
            assert(s@[j].0@ != handle@);
        }
    }
    None
}

} // verus!
