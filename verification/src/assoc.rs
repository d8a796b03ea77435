use vstd::prelude::*;

verus! {

/// First match of a key in an association list.
pub open spec fn find_pair<K, T>(s: Seq<(K, T)>, q: K) -> Option<T>
    decreases s.len(),
{
    if s.len() == 0 {
        None
    } else if s[0].0 == q {
        Some(s[0].1)
    } else {
        find_pair(s.skip(1), q)
    }
}

/// No key appears twice.
pub open spec fn keys_unique<K, T>(s: Seq<(K, T)>) -> bool {
    forall|i: int, j: int| 0 <= i < j < s.len() ==> (#[trigger] s[i]).0 != (#[trigger] s[j]).0
}

/// `find_pair` finds an entry with the key exactly when one exists.
pub proof fn lemma_find_char<K, T>(s: Seq<(K, T)>, q: K)
    ensures
        match find_pair(s, q) {
            Some(v) => exists|k: int| 0 <= k < s.len() && #[trigger] s[k] == (q, v),
            None => forall|k: int| 0 <= k < s.len() ==> (#[trigger] s[k]).0 != q,
        },
    decreases s.len(),
{
    if s.len() > 0 {
        if s[0].0 == q {
        } else {
            lemma_find_char(s.skip(1), q);
            match find_pair(s, q) {
                Some(v) => {
                    let k = choose|k: int|
                        0 <= k < s.skip(1).len() && #[trigger] s.skip(1)[k] == (q, v);
                    assert(s[k + 1] == (q, v));
                },
                None => {
                    assert forall|k: int| 0 <= k < s.len() implies (#[trigger] s[k]).0 != q by {
                        if k > 0 {
                            assert(s.skip(1)[k - 1] == s[k]);
                        }
                    }
                },
            }
        }
    }
}

/// Under unique keys, an entry at any position determines `find_pair`.
pub proof fn lemma_find_at<K, T>(s: Seq<(K, T)>, k: int)
    requires
        keys_unique(s),
        0 <= k < s.len(),
    ensures
        find_pair(s, s[k].0) == Some(s[k].1),
{
    lemma_find_char(s, s[k].0);
    match find_pair(s, s[k].0) {
        Some(v) => {
            let j = choose|j: int| 0 <= j < s.len() && #[trigger] s[j] == (s[k].0, v);
            if j != k {
                assert(s[j].0 == s[k].0);
            }
        },
        None => {
            assert(s[k].0 == s[k].0);
        },
    }
}

/// After pushing an entry with a fresh key, lookups at other keys are
/// unchanged and the new key maps to the pushed value.
pub proof fn lemma_find_push<K, T>(prior: Seq<(K, T)>, q: K, v: T)
    requires
        forall|k: int| 0 <= k < prior.len() ==> (#[trigger] prior[k]).0 != q,
        keys_unique(prior),
    ensures
        keys_unique(prior.push((q, v))),
        find_pair(prior.push((q, v)), q) == Some(v),
        forall|x: K| x != q ==> #[trigger] find_pair(prior.push((q, v)), x) == find_pair(prior, x),
{
    let s = prior.push((q, v));
    assert forall|i: int, j: int| 0 <= i < j < s.len() implies (#[trigger] s[i]).0 != (
    #[trigger] s[j]).0 by {
        if j < prior.len() {
            assert(s[i] == prior[i] && s[j] == prior[j]);
        } else {
            assert(s[j] == (q, v));
            assert(s[i] == prior[i]);
        }
    }
    lemma_find_at(s, s.len() - 1);
    assert forall|x: K| x != q implies #[trigger] find_pair(s, x) == find_pair(prior, x) by {
        lemma_find_char(s, x);
        lemma_find_char(prior, x);
        match find_pair(s, x) {
            Some(w) => {
                let k = choose|k: int| 0 <= k < s.len() && #[trigger] s[k] == (x, w);
                assert(k < prior.len());
                assert(prior[k] == (x, w));
                lemma_find_at(prior, k);
            },
            None => {
                match find_pair(prior, x) {
                    Some(w) => {
                        let k = choose|k: int|
                            0 <= k < prior.len() && #[trigger] prior[k] == (x, w);
                        assert(s[k] == (x, w));
                    },
                    None => {},
                }
            },
        }
    }
}

/// After replacing the value at one position (same key), lookups at
/// all other keys are unchanged.
pub proof fn lemma_find_update<K, T>(prior: Seq<(K, T)>, cur: Seq<(K, T)>, i: int)
    requires
        0 <= i < prior.len(),
        keys_unique(prior),
        cur.len() == prior.len(),
        cur[i].0 == prior[i].0,
        forall|k: int| 0 <= k < prior.len() && k != i ==> cur[k] == prior[k],
    ensures
        keys_unique(cur),
        find_pair(cur, prior[i].0) == Some(cur[i].1),
        forall|x: K| x != prior[i].0 ==> #[trigger] find_pair(cur, x) == find_pair(prior, x),
{
    assert forall|a: int, b: int| 0 <= a < b < cur.len() implies (#[trigger] cur[a]).0 != (
    #[trigger] cur[b]).0 by {
        assert(cur[a].0 == prior[a].0 && cur[b].0 == prior[b].0);
    }
    lemma_find_at(cur, i);
    assert forall|x: K| x != prior[i].0 implies #[trigger] find_pair(cur, x) == find_pair(
        prior,
        x,
    ) by {
        lemma_find_char(cur, x);
        lemma_find_char(prior, x);
        match find_pair(cur, x) {
            Some(w) => {
                let k = choose|k: int| 0 <= k < cur.len() && #[trigger] cur[k] == (x, w);
                assert(k != i);
                assert(prior[k] == (x, w));
                lemma_find_at(prior, k);
            },
            None => {
                match find_pair(prior, x) {
                    Some(w) => {
                        let k = choose|k: int|
                            0 <= k < prior.len() && #[trigger] prior[k] == (x, w);
                        assert(k != i);
                        assert(cur[k] == (x, w));
                    },
                    None => {},
                }
            },
        }
    }
}

/// After removing the entry at one position, the removed key is gone
/// and lookups at all other keys are unchanged.
pub proof fn lemma_find_remove<K, T>(prior: Seq<(K, T)>, i: int)
    requires
        0 <= i < prior.len(),
        keys_unique(prior),
    ensures
        keys_unique(prior.remove(i)),
        find_pair(prior.remove(i), prior[i].0) is None,
        forall|x: K|
            x != prior[i].0 ==> #[trigger] find_pair(prior.remove(i), x) == find_pair(prior, x),
{
    let cur = prior.remove(i);
    assert forall|a: int, b: int| 0 <= a < b < cur.len() implies (#[trigger] cur[a]).0 != (
    #[trigger] cur[b]).0 by {
        let pa = if a < i {
            a
        } else {
            a + 1
        };
        let pb = if b < i {
            b
        } else {
            b + 1
        };
        assert(cur[a] == prior[pa] && cur[b] == prior[pb]);
    }
    lemma_find_char(cur, prior[i].0);
    match find_pair(cur, prior[i].0) {
        Some(w) => {
            let k = choose|k: int| 0 <= k < cur.len() && #[trigger] cur[k] == (prior[i].0, w);
            let pk = if k < i {
                k
            } else {
                k + 1
            };
            assert(cur[k] == prior[pk]);
            assert(prior[pk].0 != prior[i].0);
        },
        None => {},
    }
    assert forall|x: K| x != prior[i].0 implies #[trigger] find_pair(cur, x) == find_pair(
        prior,
        x,
    ) by {
        lemma_find_char(cur, x);
        lemma_find_char(prior, x);
        match find_pair(cur, x) {
            Some(w) => {
                let k = choose|k: int| 0 <= k < cur.len() && #[trigger] cur[k] == (x, w);
                let pk = if k < i {
                    k
                } else {
                    k + 1
                };
                assert(prior[pk] == (x, w));
                lemma_find_at(prior, pk);
            },
            None => {
                match find_pair(prior, x) {
                    Some(w) => {
                        let k = choose|k: int|
                            0 <= k < prior.len() && #[trigger] prior[k] == (x, w);
                        assert(k != i);
                        let ck = if k < i {
                            k
                        } else {
                            k - 1
                        };
                        assert(cur[ck] == (x, w));
                    },
                    None => {},
                }
            },
        }
    }
}

} // verus!
