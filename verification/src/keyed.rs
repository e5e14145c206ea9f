use vstd::prelude::*;

verus! {

// The persistent tables of the contract are modelled as association sequences:
// sequences of key/value pairs with pairwise-distinct keys, kept in insertion
// order. Numeric ids are compared as values, string ids by their character
// sequences.
// ---------------------------------------------------------------------------
// u32-keyed association sequences
// ---------------------------------------------------------------------------

/// Some pair of the sequence carries the key `k`.
pub open spec fn nkv_has<V>(s: Seq<(u32, V)>, k: u32) -> bool {
    exists|i: int| 0 <= i < s.len() && s[i].0 == k
}

/// An index at which the key `k` sits.
pub open spec fn nkv_index<V>(s: Seq<(u32, V)>, k: u32) -> int {
    choose|i: int| 0 <= i < s.len() && s[i].0 == k
}

/// The value stored under the key `k`.
pub open spec fn nkv_get<V>(s: Seq<(u32, V)>, k: u32) -> V
    recommends
        nkv_has(s, k),
{
    s[nkv_index(s, k)].1
}

/// The keys are pairwise distinct.
pub open spec fn nkv_unique<V>(s: Seq<(u32, V)>) -> bool {
    forall|i: int, j: int| 0 <= i < j < s.len() ==> s[i].0 != s[j].0
}

/// With distinct keys, a pair seen at index `i` is the pair that lookups find.
pub proof fn nkv_index_at<V>(s: Seq<(u32, V)>, k: u32, i: int)
    requires
        nkv_unique(s),
        0 <= i < s.len(),
        s[i].0 == k,
    ensures
        nkv_has(s, k),
        nkv_index(s, k) == i,
        nkv_get(s, k) == s[i].1,
{
    assert(nkv_has(s, k));
    let j = nkv_index(s, k);
    if j != i {
        if j < i {
            assert(s[j].0 != s[i].0);
        } else {
            assert(s[i].0 != s[j].0);
        }
    }
}

/// Appending a fresh key binds it and leaves every other key unchanged.
pub proof fn nkv_push<V>(s: Seq<(u32, V)>, k: u32, v: V)
    requires
        nkv_unique(s),
        !nkv_has(s, k),
    ensures
        nkv_unique(s.push((k, v))),
        nkv_has(s.push((k, v)), k),
        nkv_get(s.push((k, v)), k) == v,
        forall|k2: u32| k2 != k ==> nkv_has(s.push((k, v)), k2) == nkv_has(s, k2),
        forall|k2: u32|
            k2 != k && nkv_has(s, k2) ==> nkv_get(s.push((k, v)), k2) == nkv_get(s, k2),
{
    let t = s.push((k, v));
    assert forall|i: int, j: int| 0 <= i < j < t.len() implies t[i].0 != t[j].0 by {
        if j == s.len() {
            if t[i].0 == k {
                assert(s[i].0 == k);
            }
        }
    }
    nkv_index_at(t, k, s.len() as int);
    assert forall|k2: u32| k2 != k implies nkv_has(t, k2) == nkv_has(s, k2) by {
        if nkv_has(s, k2) {
            let i = nkv_index(s, k2);
            assert(t[i].0 == k2);
        }
        if nkv_has(t, k2) {
            let i = nkv_index(t, k2);
            assert(i < s.len());
            assert(s[i].0 == k2);
        }
    }
    assert forall|k2: u32| k2 != k && nkv_has(s, k2) implies nkv_get(t, k2) == nkv_get(
        s,
        k2,
    ) by {
        let i = nkv_index(s, k2);
        nkv_index_at(s, k2, i);
        assert(t[i].0 == k2);
        nkv_index_at(t, k2, i);
    }
}

/// Replacing the value at the pair of key `k` rebinds `k` and nothing else.
pub proof fn nkv_update<V>(s: Seq<(u32, V)>, i: int, k: u32, v: V)
    requires
        nkv_unique(s),
        0 <= i < s.len(),
        s[i].0 == k,
    ensures
        nkv_unique(s.update(i, (k, v))),
        forall|k2: u32| nkv_has(s.update(i, (k, v)), k2) == nkv_has(s, k2),
        nkv_get(s.update(i, (k, v)), k) == v,
        forall|k2: u32|
            k2 != k && nkv_has(s, k2) ==> nkv_get(s.update(i, (k, v)), k2) == nkv_get(s, k2),
{
    let t = s.update(i, (k, v));
    assert forall|i2: int, j2: int| 0 <= i2 < j2 < t.len() implies t[i2].0 != t[j2].0 by {
        assert(s[i2].0 != s[j2].0);
    }
    assert forall|k2: u32| nkv_has(t, k2) == nkv_has(s, k2) by {
        if nkv_has(s, k2) {
            let w = nkv_index(s, k2);
            assert(t[w].0 == k2);
        }
        if nkv_has(t, k2) {
            let w = nkv_index(t, k2);
            assert(s[w].0 == k2);
        }
    }
    nkv_index_at(t, k, i);
    assert forall|k2: u32| k2 != k && nkv_has(s, k2) implies nkv_get(t, k2) == nkv_get(
        s,
        k2,
    ) by {
        let w = nkv_index(s, k2);
        nkv_index_at(s, k2, w);
        assert(w != i);
        assert(t[w].0 == k2);
        nkv_index_at(t, k2, w);
    }
}

// ---------------------------------------------------------------------------
// string-keyed association sequences (keys compared by character sequence)
// ---------------------------------------------------------------------------

/// Some pair of the sequence carries the key `k`.
pub open spec fn skv_has<V>(s: Seq<(String, V)>, k: Seq<char>) -> bool {
    exists|i: int| 0 <= i < s.len() && s[i].0@ == k
}

/// An index at which the key `k` sits.
pub open spec fn skv_index<V>(s: Seq<(String, V)>, k: Seq<char>) -> int {
    choose|i: int| 0 <= i < s.len() && s[i].0@ == k
}

/// The value stored under the key `k`.
pub open spec fn skv_get<V>(s: Seq<(String, V)>, k: Seq<char>) -> V
    recommends
        skv_has(s, k),
{
    s[skv_index(s, k)].1
}

/// The keys are pairwise distinct.
pub open spec fn skv_unique<V>(s: Seq<(String, V)>) -> bool {
    forall|i: int, j: int| 0 <= i < j < s.len() ==> s[i].0@ != s[j].0@
}

/// With distinct keys, a pair seen at index `i` is the pair that lookups find.
pub proof fn skv_index_at<V>(s: Seq<(String, V)>, k: Seq<char>, i: int)
    requires
        skv_unique(s),
        0 <= i < s.len(),
        s[i].0@ == k,
    ensures
        skv_has(s, k),
        skv_index(s, k) == i,
        skv_get(s, k) == s[i].1,
{
    assert(skv_has(s, k));
    let j = skv_index(s, k);
    if j != i {
        if j < i {
            assert(s[j].0@ != s[i].0@);
        } else {
            assert(s[i].0@ != s[j].0@);
        }
    }
}

/// Appending a fresh key binds it and leaves every other key unchanged.
pub proof fn skv_push<V>(s: Seq<(String, V)>, key: String, k: Seq<char>, v: V)
    requires
        skv_unique(s),
        !skv_has(s, k),
        key@ == k,
    ensures
        skv_unique(s.push((key, v))),
        skv_has(s.push((key, v)), k),
        skv_get(s.push((key, v)), k) == v,
        forall|k2: Seq<char>| k2 != k ==> skv_has(s.push((key, v)), k2) == skv_has(s, k2),
        forall|k2: Seq<char>|
            k2 != k && skv_has(s, k2) ==> skv_get(s.push((key, v)), k2) == skv_get(s, k2),
{
    let t = s.push((key, v));
    assert forall|i: int, j: int| 0 <= i < j < t.len() implies t[i].0@ != t[j].0@ by {
        if j == s.len() {
            if t[i].0@ == k {
                assert(s[i].0@ == k);
            }
        }
    }
    skv_index_at(t, k, s.len() as int);
    assert forall|k2: Seq<char>| k2 != k implies skv_has(t, k2) == skv_has(s, k2) by {
        if skv_has(s, k2) {
            let i = skv_index(s, k2);
            assert(t[i].0@ == k2);
        }
        if skv_has(t, k2) {
            let i = skv_index(t, k2);
            assert(i < s.len());
            assert(s[i].0@ == k2);
        }
    }
    assert forall|k2: Seq<char>| k2 != k && skv_has(s, k2) implies skv_get(t, k2) == skv_get(
        s,
        k2,
    ) by {
        let i = skv_index(s, k2);
        skv_index_at(s, k2, i);
        assert(t[i].0@ == k2);
        skv_index_at(t, k2, i);
    }
}

/// Replacing the value at the pair of key `k` rebinds `k` and nothing else.
pub proof fn skv_update<V>(s: Seq<(String, V)>, i: int, k: Seq<char>, v: V)
    requires
        skv_unique(s),
        0 <= i < s.len(),
        s[i].0@ == k,
    ensures
        skv_unique(s.update(i, (s[i].0, v))),
        forall|k2: Seq<char>| skv_has(s.update(i, (s[i].0, v)), k2) == skv_has(s, k2),
        skv_get(s.update(i, (s[i].0, v)), k) == v,
        forall|k2: Seq<char>|
            k2 != k && skv_has(s, k2) ==> skv_get(s.update(i, (s[i].0, v)), k2) == skv_get(s, k2),
{
    let t = s.update(i, (s[i].0, v));
    assert forall|i2: int, j2: int| 0 <= i2 < j2 < t.len() implies t[i2].0@ != t[j2].0@ by {
        assert(s[i2].0@ != s[j2].0@);
    }
    assert forall|k2: Seq<char>| skv_has(t, k2) == skv_has(s, k2) by {
        if skv_has(s, k2) {
            let w = skv_index(s, k2);
            assert(t[w].0@ == k2);
        }
        if skv_has(t, k2) {
            let w = skv_index(t, k2);
            assert(s[w].0@ == k2);
        }
    }
    skv_index_at(t, k, i);
    assert forall|k2: Seq<char>| k2 != k && skv_has(s, k2) implies skv_get(t, k2) == skv_get(
        s,
        k2,
    ) by {
        let w = skv_index(s, k2);
        skv_index_at(s, k2, w);
        assert(w != i);
        assert(t[w].0@ == k2);
        skv_index_at(t, k2, w);
    }
}

/// Removing the pair at index `i` unbinds its key and nothing else.
pub proof fn skv_remove<V>(s: Seq<(String, V)>, i: int)
    requires
        skv_unique(s),
        0 <= i < s.len(),
    ensures
        skv_unique(s.remove(i)),
        !skv_has(s.remove(i), s[i].0@),
        forall|k2: Seq<char>|
            k2 != s[i].0@ ==> skv_has(s.remove(i), k2) == skv_has(s, k2),
        forall|k2: Seq<char>|
            k2 != s[i].0@ && skv_has(s, k2) ==> skv_get(s.remove(i), k2) == skv_get(s, k2),
{
    let t = s.remove(i);
    s.remove_ensures(i);
    assert forall|i2: int, j2: int| 0 <= i2 < j2 < t.len() implies t[i2].0@ != t[j2].0@ by {
        let oi = if i2 < i { i2 } else { i2 + 1 };
        let oj = if j2 < i { j2 } else { j2 + 1 };
        assert(t[i2] == s[oi]);
        assert(t[j2] == s[oj]);
        assert(s[oi].0@ != s[oj].0@);
    }
    if skv_has(t, s[i].0@) {
        let w = skv_index(t, s[i].0@);
        let ow = if w < i { w } else { w + 1 };
        assert(t[w] == s[ow]);
        assert(s[ow].0@ != s[i].0@);
    }
    assert forall|k2: Seq<char>| k2 != s[i].0@ implies skv_has(t, k2) == skv_has(s, k2) by {
        if skv_has(s, k2) {
            let w = skv_index(s, k2);
            assert(w != i);
            let nw = if w < i { w } else { w - 1 };
            assert(t[nw] == s[w]);
        }
        if skv_has(t, k2) {
            let w = skv_index(t, k2);
            let ow = if w < i { w } else { w + 1 };
            assert(t[w] == s[ow]);
        }
    }
    assert forall|k2: Seq<char>| k2 != s[i].0@ && skv_has(s, k2) implies skv_get(t, k2) == skv_get(
        s,
        k2,
    ) by {
        let w = skv_index(s, k2);
        skv_index_at(s, k2, w);
        assert(w != i);
        let nw = if w < i { w } else { w - 1 };
        assert(t[nw] == s[w]);
        skv_index_at(t, k2, nw);
    }
}

// ---------------------------------------------------------------------------
// sequences of numeric ids, read as sets
// ---------------------------------------------------------------------------

/// The ids are pairwise distinct.
pub open spec fn nid_unique(s: Seq<u32>) -> bool {
    forall|i: int, j: int| 0 <= i < j < s.len() ==> s[i] != s[j]
}

/// Appending a fresh id adds it and keeps every other id.
pub proof fn nid_push(s: Seq<u32>, id: u32)
    requires
        nid_unique(s),
        !s.contains(id),
    ensures
        nid_unique(s.push(id)),
        s.push(id).contains(id),
        forall|k2: u32| k2 != id ==> s.push(id).contains(k2) == s.contains(k2),
{
    let t = s.push(id);
    assert forall|i: int, j: int| 0 <= i < j < t.len() implies t[i] != t[j] by {
        if j == s.len() {
            if t[i] == id {
                assert(s[i] == id);
                assert(s.contains(id));
            }
        }
    }
    assert(t[s.len() as int] == id);
    assert forall|k2: u32| k2 != id implies t.contains(k2) == s.contains(k2) by {
        if s.contains(k2) {
            let i = choose|i: int| 0 <= i < s.len() && s[i] == k2;
            assert(t[i] == k2);
        }
        if t.contains(k2) {
            let i = choose|i: int| 0 <= i < t.len() && t[i] == k2;
            assert(i < s.len());
            assert(s[i] == k2);
        }
    }
}

// ---------------------------------------------------------------------------
// sequences of string ids, read as sets
// ---------------------------------------------------------------------------

/// Some element of the sequence has the character sequence `k`.
pub open spec fn sid_has(s: Seq<String>, k: Seq<char>) -> bool {
    exists|i: int| 0 <= i < s.len() && s[i]@ == k
}

/// An index at which `k` sits.
pub open spec fn sid_index(s: Seq<String>, k: Seq<char>) -> int {
    choose|i: int| 0 <= i < s.len() && s[i]@ == k
}

/// The elements are pairwise distinct.
pub open spec fn sid_unique(s: Seq<String>) -> bool {
    forall|i: int, j: int| 0 <= i < j < s.len() ==> s[i]@ != s[j]@
}

/// Appending a fresh id adds it and keeps every other id.
pub proof fn sid_push(s: Seq<String>, id: String, k: Seq<char>)
    requires
        sid_unique(s),
        !sid_has(s, k),
        id@ == k,
    ensures
        sid_unique(s.push(id)),
        sid_has(s.push(id), k),
        forall|k2: Seq<char>| k2 != k ==> sid_has(s.push(id), k2) == sid_has(s, k2),
{
    let t = s.push(id);
    assert forall|i: int, j: int| 0 <= i < j < t.len() implies t[i]@ != t[j]@ by {
        if j == s.len() {
            if t[i]@ == k {
                assert(s[i]@ == k);
            }
        }
    }
    assert(t[s.len() as int]@ == k);
    assert forall|k2: Seq<char>| k2 != k implies sid_has(t, k2) == sid_has(s, k2) by {
        if sid_has(s, k2) {
            let i = sid_index(s, k2);
            assert(t[i]@ == k2);
        }
        if sid_has(t, k2) {
            let i = sid_index(t, k2);
            assert(i < s.len());
            assert(s[i]@ == k2);
        }
    }
}

/// Removing the id at index `i` drops it and keeps every other id.
pub proof fn sid_remove(s: Seq<String>, i: int)
    requires
        sid_unique(s),
        0 <= i < s.len(),
    ensures
        sid_unique(s.remove(i)),
        !sid_has(s.remove(i), s[i]@),
        forall|k2: Seq<char>| k2 != s[i]@ ==> sid_has(s.remove(i), k2) == sid_has(s, k2),
{
    let t = s.remove(i);
    s.remove_ensures(i);
    assert forall|i2: int, j2: int| 0 <= i2 < j2 < t.len() implies t[i2]@ != t[j2]@ by {
        let oi = if i2 < i { i2 } else { i2 + 1 };
        let oj = if j2 < i { j2 } else { j2 + 1 };
        assert(t[i2] == s[oi]);
        assert(t[j2] == s[oj]);
        assert(s[oi]@ != s[oj]@);
    }
    if sid_has(t, s[i]@) {
        let w = sid_index(t, s[i]@);
        let ow = if w < i { w } else { w + 1 };
        assert(t[w] == s[ow]);
        assert(s[ow]@ != s[i]@);
    }
    assert forall|k2: Seq<char>| k2 != s[i]@ implies sid_has(t, k2) == sid_has(s, k2) by {
        if sid_has(s, k2) {
            let w = sid_index(s, k2);
            assert(w != i);
            let nw = if w < i { w } else { w - 1 };
            assert(t[nw] == s[w]);
        }
        if sid_has(t, k2) {
            let w = sid_index(t, k2);
            let ow = if w < i { w } else { w + 1 };
            assert(t[w] == s[ow]);
        }
    }
}

} // verus!
