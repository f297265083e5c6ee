use vstd::prelude::*;

verus! {

/// Association lists: sequences of key/value pairs with pairwise distinct keys,
/// read as finite maps.
/// No key occurs twice in `s`.
pub open spec fn keys_distinct<K, V>(s: Seq<(K, V)>) -> bool {
    forall|i: int, j: int| 0 <= i < s.len() && 0 <= j < s.len() && i != j ==> s[i].0 != s[j].0
}

pub open spec fn has_key<K, V>(s: Seq<(K, V)>, k: K) -> bool {
    exists|i: int| 0 <= i < s.len() && s[i].0 == k
}

/// The map that an association list stands for.
pub open spec fn as_map<K, V>(s: Seq<(K, V)>) -> Map<K, V> {
    Map::new(|k: K| has_key(s, k), |k: K| s[choose|i: int| 0 <= i < s.len() && s[i].0 == k].1)
}

pub proof fn lemma_as_map_at<K, V>(s: Seq<(K, V)>, i: int)
    requires
        keys_distinct(s),
        0 <= i < s.len(),
    ensures
        as_map(s).dom().contains(s[i].0),
        as_map(s)[s[i].0] == s[i].1,
{
    assert(has_key(s, s[i].0));
    let c = choose|c: int| 0 <= c < s.len() && s[c].0 == s[i].0;
    assert(c == i);
}

pub proof fn lemma_as_map_push<K, V>(s: Seq<(K, V)>, k: K, v: V)
    requires
        keys_distinct(s),
        !has_key(s, k),
    ensures
        keys_distinct(s.push((k, v))),
        as_map(s.push((k, v))) == as_map(s).insert(k, v),
{
    let t = s.push((k, v));
    assert(keys_distinct(t)) by {
        assert forall|a: int, b: int|
            0 <= a < t.len() && 0 <= b < t.len() && a != b implies t[a].0 != t[b].0 by {
            if a < s.len() && b < s.len() {
                assert(t[a] == s[a] && t[b] == s[b]);
            } else if a < s.len() {
                assert(t[a] == s[a]);
            } else {
                assert(t[b] == s[b]);
            }
        }
    }
    let m1 = as_map(t);
    let m2 = as_map(s).insert(k, v);
    assert forall|x: K| #[trigger] m1.dom().contains(x) <==> m2.dom().contains(x) by {
        if has_key(t, x) {
            let a = choose|a: int| 0 <= a < t.len() && t[a].0 == x;
            if a < s.len() {
                assert(s[a].0 == x);
            }
        }
        if has_key(s, x) {
            let a = choose|a: int| 0 <= a < s.len() && s[a].0 == x;
            assert(t[a].0 == x);
        }
        assert(t[s.len() as int].0 == k);
    }
    assert forall|x: K| #[trigger] m1.dom().contains(x) implies m1[x] == m2[x] by {
        let a = choose|a: int| 0 <= a < t.len() && t[a].0 == x;
        lemma_as_map_at(t, a);
        if a < s.len() {
            assert(t[a] == s[a]);
            lemma_as_map_at(s, a);
        }
    }
    assert(m1 =~= m2);
}

pub proof fn lemma_as_map_update<K, V>(s: Seq<(K, V)>, i: int, v: V)
    requires
        keys_distinct(s),
        0 <= i < s.len(),
    ensures
        keys_distinct(s.update(i, (s[i].0, v))),
        as_map(s.update(i, (s[i].0, v))) == as_map(s).insert(s[i].0, v),
{
    let k = s[i].0;
    let t = s.update(i, (k, v));
    assert(keys_distinct(t)) by {
        assert forall|a: int, b: int|
            0 <= a < t.len() && 0 <= b < t.len() && a != b implies t[a].0 != t[b].0 by {
            assert(t[a].0 == s[a].0 && t[b].0 == s[b].0);
        }
    }
    let m1 = as_map(t);
    let m2 = as_map(s).insert(k, v);
    lemma_as_map_at(s, i);
    assert forall|x: K| #[trigger] m1.dom().contains(x) <==> m2.dom().contains(x) by {
        if has_key(t, x) {
            let a = choose|a: int| 0 <= a < t.len() && t[a].0 == x;
            assert(s[a].0 == x);
        }
        if has_key(s, x) {
            let a = choose|a: int| 0 <= a < s.len() && s[a].0 == x;
            assert(t[a].0 == x);
        }
    }
    assert forall|x: K| #[trigger] m1.dom().contains(x) implies m1[x] == m2[x] by {
        let a = choose|a: int| 0 <= a < t.len() && t[a].0 == x;
        lemma_as_map_at(t, a);
        if a != i {
            assert(t[a] == s[a]);
            lemma_as_map_at(s, a);
        }
    }
    assert(m1 =~= m2);
}

pub proof fn lemma_as_map_remove<K, V>(s: Seq<(K, V)>, i: int)
    requires
        keys_distinct(s),
        0 <= i < s.len(),
    ensures
        keys_distinct(s.remove(i)),
        as_map(s.remove(i)) == as_map(s).remove(s[i].0),
{
    let k = s[i].0;
    let t = s.remove(i);
    assert forall|a: int| 0 <= a < t.len() implies #[trigger] t[a] == (if a < i {
        s[a]
    } else {
        s[a + 1]
    }) by {}
    assert(keys_distinct(t)) by {
        assert forall|a: int, b: int|
            0 <= a < t.len() && 0 <= b < t.len() && a != b implies t[a].0 != t[b].0 by {
            let a2 = if a < i {
                a
            } else {
                a + 1
            };
            let b2 = if b < i {
                b
            } else {
                b + 1
            };
            assert(t[a] == s[a2] && t[b] == s[b2]);
        }
    }
    let m1 = as_map(t);
    let m2 = as_map(s).remove(k);
    assert forall|x: K| #[trigger] m1.dom().contains(x) <==> m2.dom().contains(x) by {
        if has_key(t, x) {
            let a = choose|a: int| 0 <= a < t.len() && t[a].0 == x;
            let a2 = if a < i {
                a
            } else {
                a + 1
            };
            assert(t[a] == s[a2]);
            assert(s[a2].0 == x);
            assert(a2 != i);
            assert(x != k);
        }
        if has_key(s, x) && x != k {
            let a = choose|a: int| 0 <= a < s.len() && s[a].0 == x;
            assert(a != i);
            let a2 = if a < i {
                a
            } else {
                a - 1
            };
            assert(t[a2] == s[a]);
        }
    }
    assert forall|x: K| #[trigger] m1.dom().contains(x) implies m1[x] == m2[x] by {
        let a = choose|a: int| 0 <= a < t.len() && t[a].0 == x;
        lemma_as_map_at(t, a);
        let a2 = if a < i {
            a
        } else {
            a + 1
        };
        assert(t[a] == s[a2]);
        lemma_as_map_at(s, a2);
    }
    assert(m1 =~= m2);
}

pub proof fn lemma_as_map_insert<K, V>(s: Seq<(K, V)>, i: int, k: K, v: V)
    requires
        keys_distinct(s),
        !has_key(s, k),
        0 <= i <= s.len(),
    ensures
        keys_distinct(s.insert(i, (k, v))),
        as_map(s.insert(i, (k, v))) == as_map(s).insert(k, v),
{
    let t = s.insert(i, (k, v));
    assert forall|a: int| 0 <= a < t.len() implies #[trigger] t[a] == (if a < i {
        s[a]
    } else if a == i {
        (k, v)
    } else {
        s[a - 1]
    }) by {}
    assert(keys_distinct(t)) by {
        assert forall|a: int, b: int|
            0 <= a < t.len() && 0 <= b < t.len() && a != b implies t[a].0 != t[b].0 by {
            if a != i && b != i {
                let a2 = if a < i { a } else { a - 1 };
                let b2 = if b < i { b } else { b - 1 };
                assert(t[a] == s[a2] && t[b] == s[b2]);
            } else if a == i {
                let b2 = if b < i { b } else { b - 1 };
                assert(t[b] == s[b2]);
            } else {
                let a2 = if a < i { a } else { a - 1 };
                assert(t[a] == s[a2]);
            }
        }
    }
    let m1 = as_map(t);
    let m2 = as_map(s).insert(k, v);
    assert forall|x: K| #[trigger] m1.dom().contains(x) <==> m2.dom().contains(x) by {
        if has_key(t, x) {
            let a = choose|a: int| 0 <= a < t.len() && t[a].0 == x;
            if a != i {
                let a2 = if a < i { a } else { a - 1 };
                assert(t[a] == s[a2]);
                assert(has_key(s, x));
            }
        }
        if has_key(s, x) {
            let a = choose|a: int| 0 <= a < s.len() && s[a].0 == x;
            let a2 = if a < i { a } else { a + 1 };
            assert(t[a2] == s[a]);
        }
        assert(t[i].0 == k);
    }
    assert forall|x: K| #[trigger] m1.dom().contains(x) implies m1[x] == m2[x] by {
        let a = choose|a: int| 0 <= a < t.len() && t[a].0 == x;
        lemma_as_map_at(t, a);
        if a != i {
            let a2 = if a < i { a } else { a - 1 };
            assert(t[a] == s[a2]);
            lemma_as_map_at(s, a2);
        }
    }
    assert(m1 =~= m2);
}

} // verus!
