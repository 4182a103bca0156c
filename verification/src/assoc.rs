//! Small association lists keyed by identifier values: the directory's
//! replacement for hash maps, with unique keys and exact contracts.

use vstd::prelude::*;

verus! {

/// The keys are pairwise distinct.
pub open spec fn keys_unique<V>(s: Seq<(u128, V)>) -> bool {
    forall|i: int, j: int| 0 <= i < j < s.len() ==> (#[trigger] s[i]).0 != (#[trigger] s[j]).0
}

/// An entry with this key exists.
pub open spec fn assoc_has<V>(s: Seq<(u128, V)>, k: u128) -> bool {
    exists|i: int| 0 <= i < s.len() && (#[trigger] s[i]).0 == k
}

/// The index of the entry with this key.
pub open spec fn assoc_index<V>(s: Seq<(u128, V)>, k: u128) -> int {
    choose|i: int| 0 <= i < s.len() && (#[trigger] s[i]).0 == k
}

/// The value stored under this key.
pub open spec fn assoc_val<V>(s: Seq<(u128, V)>, k: u128) -> V {
    s[assoc_index(s, k)].1
}

/// With unique keys, any entry carrying the key sits at the key's
/// index.
pub proof fn lemma_assoc_index_unique<V>(s: Seq<(u128, V)>, k: u128, i: int)
    requires
        keys_unique(s),
        0 <= i < s.len(),
        s[i].0 == k,
    ensures
        assoc_index(s, k) == i,
        assoc_val(s, k) == s[i].1,
        assoc_has(s, k),
{
    assert(assoc_has(s, k));
    let j = assoc_index(s, k);
    assert(0 <= j < s.len() && s[j].0 == k);
    if i != j {
        assert(s[i].0 != s[j].0);
    }
}

/// Replacing one entry's value, key kept, leaves every other key's
/// presence and value alone.
pub proof fn lemma_assoc_update_frame<V>(s: Seq<(u128, V)>, i: int, v: V)
    requires
        keys_unique(s),
        0 <= i < s.len(),
    ensures
        keys_unique(s.update(i, (s[i].0, v))),
        assoc_has(s.update(i, (s[i].0, v)), s[i].0),
        assoc_val(s.update(i, (s[i].0, v)), s[i].0) == v,
        forall|k: u128|
            #![trigger assoc_has(s.update(i, (s[i].0, v)), k)]
            #![trigger assoc_val(s.update(i, (s[i].0, v)), k)]
            k != s[i].0 ==> (assoc_has(s.update(i, (s[i].0, v)), k) == assoc_has(s, k) && (
            assoc_has(s, k) ==> assoc_val(s.update(i, (s[i].0, v)), k) == assoc_val(s, k))),
{
    let s2 = s.update(i, (s[i].0, v));
    assert(forall|m: int| 0 <= m < s2.len() ==> (#[trigger] s2[m]).0 == s[m].0);
    lemma_assoc_index_unique(s2, s[i].0, i);
    assert forall|k: u128|
        #![trigger assoc_has(s2, k)]
        #![trigger assoc_val(s2, k)]
        k != s[i].0 implies (assoc_has(s2, k) == assoc_has(s, k) && (assoc_has(s, k) ==> assoc_val(
        s2,
        k,
    ) == assoc_val(s, k))) by {
        if assoc_has(s, k) {
            let m = assoc_index(s, k);
            assert(s[m].0 == k);
            assert(s2[m].0 == k);
            lemma_assoc_index_unique(s2, k, m);
        }
        if assoc_has(s2, k) {
            let m = assoc_index(s2, k);
            assert(s[m].0 == k);
        }
    }
}

/// Appending an entry under a fresh key keeps every old key's presence
/// and value, and adds the new one.
pub proof fn lemma_assoc_push_frame<V>(s: Seq<(u128, V)>, k: u128, v: V)
    requires
        keys_unique(s),
        !assoc_has(s, k),
    ensures
        keys_unique(s.push((k, v))),
        assoc_has(s.push((k, v)), k),
        assoc_val(s.push((k, v)), k) == v,
        forall|k2: u128|
            #![trigger assoc_has(s.push((k, v)), k2)]
            #![trigger assoc_val(s.push((k, v)), k2)]
            k2 != k ==> (assoc_has(s.push((k, v)), k2) == assoc_has(s, k2) && (assoc_has(s, k2)
                ==> assoc_val(s.push((k, v)), k2) == assoc_val(s, k2))),
{
    let s2 = s.push((k, v));
    assert forall|i: int, j: int| 0 <= i < j < s2.len() implies (#[trigger] s2[i]).0 != (
    #[trigger] s2[j]).0 by {
        if j < s.len() {
            assert(s[i].0 != s[j].0);
        } else {
            assert(s2[j].0 == k);
            assert(s2[i] == s[i]);
            assert(assoc_has(s, s[i].0));
        }
    }
    lemma_assoc_index_unique(s2, k, s.len() as int);
    assert forall|k2: u128|
        #![trigger assoc_has(s2, k2)]
        #![trigger assoc_val(s2, k2)]
        k2 != k implies (assoc_has(s2, k2) == assoc_has(s, k2) && (assoc_has(s, k2) ==> assoc_val(
        s2,
        k2,
    ) == assoc_val(s, k2))) by {
        if assoc_has(s, k2) {
            let m = assoc_index(s, k2);
            assert(s[m].0 == k2);
            assert(s2[m].0 == k2);
            lemma_assoc_index_unique(s2, k2, m);
        }
        if assoc_has(s2, k2) {
            let m = assoc_index(s2, k2);
            assert(0 <= m < s.len());
            assert(s[m].0 == k2);
        }
    }
}

/// Removing one entry drops its key and leaves every other key's
/// presence and value alone.
pub proof fn lemma_assoc_remove_frame<V>(s: Seq<(u128, V)>, i: int)
    requires
        keys_unique(s),
        0 <= i < s.len(),
    ensures
        keys_unique(s.remove(i)),
        !assoc_has(s.remove(i), s[i].0),
        forall|k: u128|
            #![trigger assoc_has(s.remove(i), k)]
            #![trigger assoc_val(s.remove(i), k)]
            k != s[i].0 ==> (assoc_has(s.remove(i), k) == assoc_has(s, k) && (assoc_has(s, k)
                ==> assoc_val(s.remove(i), k) == assoc_val(s, k))),
{
    let s2 = s.remove(i);
    assert(forall|m: int|
        0 <= m < s2.len() ==> (#[trigger] s2[m]) == (if m < i {
            s[m]
        } else {
            s[m + 1]
        }));
    assert forall|k: u128|
        #![trigger assoc_has(s2, k)]
        #![trigger assoc_val(s2, k)]
        k != s[i].0 implies (assoc_has(s2, k) == assoc_has(s, k) && (assoc_has(s, k) ==> assoc_val(
        s2,
        k,
    ) == assoc_val(s, k))) by {
        if assoc_has(s, k) {
            let m = assoc_index(s, k);
            assert(s[m].0 == k);
            let m2 = if m < i {
                m
            } else {
                m - 1
            };
            assert(s2[m2].0 == k);
            lemma_assoc_index_unique(s2, k, m2);
        }
        if assoc_has(s2, k) {
            let m = assoc_index(s2, k);
            let m2 = if m < i {
                m
            } else {
                m + 1
            };
            assert(s[m2].0 == k);
            assert(assoc_has(s, k));
        }
    }
    if assoc_has(s2, s[i].0) {
        let m = assoc_index(s2, s[i].0);
        let m2 = if m < i {
            m
        } else {
            m + 1
        };
        assert(s[m2].0 == s[i].0);
        assert(false);
    }
}

/// The index of the entry with this key, if one exists.
pub fn assoc_find<V>(v: &Vec<(u128, V)>, k: u128) -> (r: Option<usize>)
    requires
        keys_unique(v@),
    ensures
        r matches Some(i) ==> i < v@.len() && v@[i as int].0 == k && i as int == assoc_index(
            v@,
            k,
        ) && assoc_has(v@, k),
        r is None <==> !assoc_has(v@, k),
{
    let n = v.len();
    let mut i: usize = 0;
    while i < n
        invariant
            i <= n,
            n == v@.len(),
            keys_unique(v@),
            forall|m: int| 0 <= m < i ==> (#[trigger] v@[m]).0 != k,
        decreases n - i,
    {
        if v[i].0 == k {
            proof {
                lemma_assoc_index_unique(v@, k, i as int);
            }
            return Some(i);
        }
        i += 1;
    }
    None
}

/// Replaces the value at a known index, handing the old value back.
pub fn assoc_replace<V>(v: &mut Vec<(u128, V)>, i: usize, k: u128, value: V) -> (old_value: V)
    requires
        i < old(v)@.len(),
        old(v)@[i as int].0 == k,
    ensures
        final(v)@ == old(v)@.update(i as int, (k, value)),
        old_value == old(v)@[i as int].1,
{
    let mut entry = (k, value);
    v.set_and_swap(i, &mut entry);
    entry.1
}

/// A key no entry uses: one past the largest key in use. `None` only
/// when the largest possible key is already taken.
pub fn assoc_fresh_key<V>(v: &Vec<(u128, V)>) -> (r: Option<u128>)
    ensures
        r matches Some(k) ==> !assoc_has(v@, k),
        r is None ==> assoc_has(v@, u128::MAX),
{
    let n = v.len();
    let mut max: Option<u128> = None;
    let mut i: usize = 0;
    while i < n
        invariant
            i <= n,
            n == v@.len(),
            match max {
                Some(m) => (exists|p: int| 0 <= p < i && (#[trigger] v@[p]).0 == m) && forall|
                    p: int,
                |
                    0 <= p < i ==> (#[trigger] v@[p]).0 <= m,
                None => i == 0,
            },
        decreases n - i,
    {
        let key = v[i].0;
        max = match max {
            Some(m) => if key > m {
                Some(key)
            } else {
                Some(m)
            },
            None => Some(key),
        };
        i += 1;
    }
    match max {
        None => Some(0),
        Some(m) => {
            if m < u128::MAX {
                proof {
                    if assoc_has(v@, (m + 1) as u128) {
                        let p = assoc_index(v@, (m + 1) as u128);
                        assert(v@[p].0 <= m);
                    }
                }
                Some(m + 1)
            } else {
                None
            }
        },
    }
}

} // verus!
