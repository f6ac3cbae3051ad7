use vstd::prelude::*;

verus! {

/// No key occurs twice in the association list.
pub open spec fn assoc_unique<K, V>(s: Seq<(K, V)>) -> bool {
    forall|i: int, j: int| 0 <= i < j < s.len() ==> s[i].0 != s[j].0
}

/// The map an association list denotes: a key is bound exactly when some
/// entry carries it. With unique keys the bound value is that entry's value.
pub open spec fn assoc_map<K, V>(s: Seq<(K, V)>) -> Map<K, V> {
    Map::new(
        |k: K| exists|i: int| 0 <= i < s.len() && s[i].0 == k,
        |k: K| s[choose|i: int| 0 <= i < s.len() && s[i].0 == k].1,
    )
}

/// Each entry of a unique association list is bound in the map to its own value.
pub proof fn lemma_assoc_at<K, V>(s: Seq<(K, V)>, i: int)
    requires
        assoc_unique(s),
        0 <= i < s.len(),
    ensures
        assoc_map(s).dom().contains(s[i].0),
        assoc_map(s)[s[i].0] == s[i].1,
{
    let k = s[i].0;
    assert(0 <= i < s.len() && s[i].0 == k);
    assert(assoc_map(s).dom().contains(k));
    let j = choose|j: int| 0 <= j < s.len() && s[j].0 == k;
    if j != i {
        if i < j {
            assert(s[i].0 != s[j].0);
        } else {
            assert(s[j].0 != s[i].0);
        }
        assert(false);
    }
}

/// A key carried by no entry is not bound in the map.
pub proof fn lemma_assoc_absent<K, V>(s: Seq<(K, V)>, k: K)
    requires
        forall|i: int| 0 <= i < s.len() ==> s[i].0 != k,
    ensures
        !assoc_map(s).dom().contains(k),
{
}

/// Appending an entry with a fresh key binds exactly that key in addition.
pub proof fn lemma_assoc_push<K, V>(s: Seq<(K, V)>, k: K, v: V)
    requires
        assoc_unique(s),
        forall|i: int| 0 <= i < s.len() ==> s[i].0 != k,
    ensures
        assoc_unique(s.push((k, v))),
        assoc_map(s.push((k, v))) == assoc_map(s).insert(k, v),
{
    let t = s.push((k, v));
    assert forall|i: int, j: int| 0 <= i < j < t.len() implies t[i].0 != t[j].0 by {
        if j < s.len() {
            assert(t[i] == s[i] && t[j] == s[j]);
        } else {
            assert(t[i] == s[i] && t[j] == (k, v));
        }
    }
    assert forall|a: K|
        assoc_map(t).dom().contains(a) <==> assoc_map(s).insert(k, v).dom().contains(a) by {
        if a == k {
            assert(t[s.len() as int].0 == a);
        } else if assoc_map(t).dom().contains(a) {
            let i = choose|i: int| 0 <= i < t.len() && t[i].0 == a;
            assert(i < s.len() && s[i].0 == a);
        } else if assoc_map(s).dom().contains(a) {
            let i = choose|i: int| 0 <= i < s.len() && s[i].0 == a;
            assert(t[i].0 == a);
        }
    }
    assert forall|a: K| #[trigger] assoc_map(t).dom().contains(a) implies assoc_map(t)[a]
        == assoc_map(s).insert(k, v)[a] by {
        let i = choose|i: int| 0 <= i < t.len() && t[i].0 == a;
        if a == k {
            if i < s.len() {
                assert(s[i].0 != k);
                assert(false);
            }
            assert(assoc_map(t)[a] == v);
        } else {
            assert(i < s.len() && t[i] == s[i]);
            lemma_assoc_at(s, i);
            let j = choose|j: int| 0 <= j < s.len() && s[j].0 == a;
            if j != i {
                if i < j {
                    assert(s[i].0 != s[j].0);
                } else {
                    assert(s[j].0 != s[i].0);
                }
                assert(false);
            }
        }
    }
    assert(assoc_map(t) =~= assoc_map(s).insert(k, v));
}

/// Replacing the value of an entry rebinds exactly that entry's key.
pub proof fn lemma_assoc_update<K, V>(s: Seq<(K, V)>, i: int, v: V)
    requires
        assoc_unique(s),
        0 <= i < s.len(),
    ensures
        assoc_unique(s.update(i, (s[i].0, v))),
        assoc_map(s.update(i, (s[i].0, v))) == assoc_map(s).insert(s[i].0, v),
{
    let k = s[i].0;
    let t = s.update(i, (k, v));
    assert forall|p: int, q: int| 0 <= p < q < t.len() implies t[p].0 != t[q].0 by {
        assert(s[p].0 != s[q].0);
        assert(t[p].0 == s[p].0 && t[q].0 == s[q].0);
    }
    assert forall|a: K|
        assoc_map(t).dom().contains(a) <==> assoc_map(s).insert(k, v).dom().contains(a) by {
        if assoc_map(t).dom().contains(a) {
            let p = choose|p: int| 0 <= p < t.len() && t[p].0 == a;
            assert(s[p].0 == a);
        } else if assoc_map(s).dom().contains(a) {
            let p = choose|p: int| 0 <= p < s.len() && s[p].0 == a;
            assert(t[p].0 == a);
        }
    }
    assert forall|a: K| #[trigger] assoc_map(t).dom().contains(a) implies assoc_map(t)[a]
        == assoc_map(s).insert(k, v)[a] by {
        let p = choose|p: int| 0 <= p < t.len() && t[p].0 == a;
        if a == k {
            if p != i {
                if p < i {
                    assert(t[p].0 != t[i].0);
                } else {
                    assert(t[i].0 != t[p].0);
                }
                assert(false);
            }
            assert(assoc_map(t)[a] == v);
        } else {
            assert(p != i);
            assert(t[p] == s[p]);
            lemma_assoc_at(s, p);
            let q = choose|q: int| 0 <= q < s.len() && s[q].0 == a;
            if q != p {
                if p < q {
                    assert(s[p].0 != s[q].0);
                } else {
                    assert(s[q].0 != s[p].0);
                }
                assert(false);
            }
        }
    }
    assert(assoc_map(t) =~= assoc_map(s).insert(k, v));
}

/// Inserting an entry with a fresh key at any position binds exactly that key
/// in addition.
pub proof fn lemma_assoc_insert_at<K, V>(s: Seq<(K, V)>, i: int, k: K, v: V)
    requires
        assoc_unique(s),
        0 <= i <= s.len(),
        forall|j: int| 0 <= j < s.len() ==> s[j].0 != k,
    ensures
        assoc_unique(s.insert(i, (k, v))),
        assoc_map(s.insert(i, (k, v))) == assoc_map(s).insert(k, v),
{
    let t = s.insert(i, (k, v));
    assert forall|p: int| 0 <= p < t.len() implies t[p] == (if p < i {
        s[p]
    } else if p == i {
        (k, v)
    } else {
        s[p - 1]
    }) by {}
    assert forall|p: int, q: int| 0 <= p < q < t.len() implies t[p].0 != t[q].0 by {
        if p == i {
            assert(t[q] == s[q - 1]);
        } else if q == i {
            assert(t[p] == s[p]);
        } else {
            let p0 = if p < i {
                p
            } else {
                p - 1
            };
            let q0 = if q < i {
                q
            } else {
                q - 1
            };
            assert(t[p] == s[p0] && t[q] == s[q0]);
            assert(p0 < q0);
            assert(s[p0].0 != s[q0].0);
        }
    }
    assert forall|a: K|
        assoc_map(t).dom().contains(a) <==> assoc_map(s).insert(k, v).dom().contains(a) by {
        if assoc_map(t).dom().contains(a) {
            let p = choose|p: int| 0 <= p < t.len() && t[p].0 == a;
            if p != i {
                let p0 = if p < i {
                    p
                } else {
                    p - 1
                };
                assert(s[p0].0 == a);
            }
        } else {
            if a == k {
                assert(t[i].0 == a);
                assert(false);
            }
            if assoc_map(s).dom().contains(a) {
                let p = choose|p: int| 0 <= p < s.len() && s[p].0 == a;
                let q = if p < i {
                    p
                } else {
                    p + 1
                };
                assert(t[q].0 == a);
                assert(false);
            }
        }
    }
    assert forall|a: K| #[trigger] assoc_map(t).dom().contains(a) implies assoc_map(t)[a]
        == assoc_map(s).insert(k, v)[a] by {
        let p = choose|p: int| 0 <= p < t.len() && t[p].0 == a;
        if a == k {
            if p != i {
                let p0 = if p < i {
                    p
                } else {
                    p - 1
                };
                assert(s[p0].0 != k);
                assert(false);
            }
            assert(assoc_map(t)[a] == v);
        } else {
            assert(p != i);
            let p0 = if p < i {
                p
            } else {
                p - 1
            };
            assert(t[p] == s[p0]);
            lemma_assoc_at(s, p0);
            let q = choose|q: int| 0 <= q < s.len() && s[q].0 == a;
            if q != p0 {
                if p0 < q {
                    assert(s[p0].0 != s[q].0);
                } else {
                    assert(s[q].0 != s[p0].0);
                }
                assert(false);
            }
        }
    }
    assert(assoc_map(t) =~= assoc_map(s).insert(k, v));
}

/// Removing an entry unbinds exactly that entry's key.
pub proof fn lemma_assoc_remove<K, V>(s: Seq<(K, V)>, i: int)
    requires
        assoc_unique(s),
        0 <= i < s.len(),
    ensures
        assoc_unique(s.remove(i)),
        assoc_map(s.remove(i)) == assoc_map(s).remove(s[i].0),
{
    let k = s[i].0;
    let t = s.remove(i);
    assert forall|p: int, q: int| 0 <= p < q < t.len() implies t[p].0 != t[q].0 by {
        let p0 = if p < i { p } else { p + 1 };
        let q0 = if q < i { q } else { q + 1 };
        assert(t[p] == s[p0] && t[q] == s[q0]);
        assert(s[p0].0 != s[q0].0);
    }
    assert forall|a: K|
        assoc_map(t).dom().contains(a) <==> assoc_map(s).remove(k).dom().contains(a) by {
        if assoc_map(t).dom().contains(a) {
            let p = choose|p: int| 0 <= p < t.len() && t[p].0 == a;
            let p0 = if p < i { p } else { p + 1 };
            assert(t[p] == s[p0]);
            assert(s[p0].0 == a);
            if a == k {
                if p0 < i {
                    assert(s[p0].0 != s[i].0);
                } else {
                    assert(s[i].0 != s[p0].0);
                }
                assert(false);
            }
        } else if assoc_map(s).remove(k).dom().contains(a) {
            let p = choose|p: int| 0 <= p < s.len() && s[p].0 == a;
            assert(p != i);
            let q = if p < i { p } else { p - 1 };
            assert(t[q] == s[p]);
            assert(t[q].0 == a);
        }
    }
    assert forall|a: K| #[trigger] assoc_map(t).dom().contains(a) implies assoc_map(t)[a]
        == assoc_map(s).remove(k)[a] by {
        let p = choose|p: int| 0 <= p < t.len() && t[p].0 == a;
        let p0 = if p < i { p } else { p + 1 };
        assert(t[p] == s[p0]);
        lemma_assoc_at(s, p0);
        assert(a != k);
    }
    assert(assoc_map(t) =~= assoc_map(s).remove(k));
}

} // verus!
