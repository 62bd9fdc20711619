//! Association lists: sequences of key/value pairs with distinct keys, read as maps.
use vstd::prelude::*;

verus! {

/// The map an association list stands for (a later pair wins over an earlier one, which
/// never matters when keys are distinct).
pub open spec fn assoc_map<K, V>(s: Seq<(K, V)>) -> Map<K, V>
    decreases s.len(),
{
    if s.len() == 0 {
        Map::empty()
    } else {
        assoc_map(s.drop_last()).insert(s.last().0, s.last().1)
    }
}

/// No key occurs twice.
pub open spec fn keys_distinct<K, V>(s: Seq<(K, V)>) -> bool {
    forall|i: int, j: int| 0 <= i < j < s.len() ==> s[i].0 != s[j].0
}

/// The keys of an association list, in order.
pub open spec fn assoc_keys<K, V>(s: Seq<(K, V)>) -> Seq<K> {
    s.map_values(|p: (K, V)| p.0)
}

pub proof fn lemma_assoc_dom<K, V>(s: Seq<(K, V)>, k: K)
    ensures
        assoc_map(s).dom().contains(k) <==> exists|i: int| 0 <= i < s.len() && s[i].0 == k,
    decreases s.len(),
{
    if s.len() > 0 {
        let p = s.drop_last();
        lemma_assoc_dom(p, k);
        if assoc_map(s).dom().contains(k) {
            if k != s.last().0 {
                let i = choose|i: int| 0 <= i < p.len() && p[i].0 == k;
                assert(s[i] == p[i]);
            } else {
                assert(s[s.len() - 1].0 == k);
            }
        }
        if exists|i: int| 0 <= i < s.len() && s[i].0 == k {
            let i = choose|i: int| 0 <= i < s.len() && s[i].0 == k;
            if i < s.len() - 1 {
                assert(p[i] == s[i]);
            }
        }
    }
}

pub proof fn lemma_assoc_index<K, V>(s: Seq<(K, V)>, i: int)
    requires
        keys_distinct(s),
        0 <= i < s.len(),
    ensures
        assoc_map(s).dom().contains(s[i].0),
        assoc_map(s)[s[i].0] == s[i].1,
    decreases s.len(),
{
    if i < s.len() - 1 {
        let p = s.drop_last();
        assert(p[i] == s[i]);
        lemma_assoc_index(p, i);
        assert(s[i].0 != s[s.len() - 1].0);
    }
}

pub proof fn lemma_assoc_push<K, V>(s: Seq<(K, V)>, k: K, v: V)
    requires
        keys_distinct(s),
        !assoc_map(s).dom().contains(k),
    ensures
        assoc_map(s.push((k, v))) == assoc_map(s).insert(k, v),
        keys_distinct(s.push((k, v))),
{
    assert(s.push((k, v)).drop_last() =~= s);
    assert forall|i: int, j: int| 0 <= i < j < s.len() + 1 implies s.push((k, v))[i].0 != s.push((k, v))[j].0 by {
        if j == s.len() {
            lemma_assoc_index(s, i);
        }
    }
}

pub proof fn lemma_assoc_remove<K, V>(s: Seq<(K, V)>, i: int)
    requires
        keys_distinct(s),
        0 <= i < s.len(),
    ensures
        assoc_map(s.remove(i)) == assoc_map(s).remove(s[i].0),
        keys_distinct(s.remove(i)),
    decreases s.len(),
{
    let r = s.remove(i);
    assert forall|a: int, b: int| 0 <= a < b < r.len() implies r[a].0 != r[b].0 by {
        let a2 = if a < i { a } else { a + 1 };
        let b2 = if b < i { b } else { b + 1 };
        assert(r[a] == s[a2] && r[b] == s[b2]);
    }
    if i == s.len() - 1 {
        assert(r =~= s.drop_last());
        let p = s.drop_last();
        assert forall|k: K| #![auto] assoc_map(p).dom().contains(k) implies k != s[i].0 by {
            lemma_assoc_dom(p, k);
            let j = choose|j: int| 0 <= j < p.len() && p[j].0 == k;
            assert(p[j] == s[j]);
        }
        assert(assoc_map(r) =~= assoc_map(s).remove(s[i].0));
    } else {
        let p = s.drop_last();
        assert(p[i] == s[i]);
        assert forall|a: int, b: int| 0 <= a < b < p.len() implies p[a].0 != p[b].0 by {
            assert(p[a] == s[a] && p[b] == s[b]);
        }
        lemma_assoc_remove(p, i);
        assert(r.drop_last() =~= p.remove(i));
        assert(r.last() == s.last());
        assert(s.last().0 != s[i].0);
        assert(assoc_map(r) =~= assoc_map(s).remove(s[i].0));
    }
}

pub proof fn lemma_assoc_update<K, V>(s: Seq<(K, V)>, i: int, v: V)
    requires
        keys_distinct(s),
        0 <= i < s.len(),
    ensures
        assoc_map(s.update(i, (s[i].0, v))) == assoc_map(s).insert(s[i].0, v),
        keys_distinct(s.update(i, (s[i].0, v))),
    decreases s.len(),
{
    let u = s.update(i, (s[i].0, v));
    assert forall|a: int, b: int| 0 <= a < b < u.len() implies u[a].0 != u[b].0 by {
        assert(u[a].0 == s[a].0 && u[b].0 == s[b].0);
    }
    if i == s.len() - 1 {
        assert(u.drop_last() =~= s.drop_last());
        assert(assoc_map(u) =~= assoc_map(s).insert(s[i].0, v));
    } else {
        let p = s.drop_last();
        assert(p[i] == s[i]);
        assert forall|a: int, b: int| 0 <= a < b < p.len() implies p[a].0 != p[b].0 by {
            assert(p[a] == s[a] && p[b] == s[b]);
        }
        lemma_assoc_update(p, i, v);
        assert(u.drop_last() =~= p.update(i, (p[i].0, v)));
        assert(s.last().0 != s[i].0);
        assert(assoc_map(u) =~= assoc_map(s).insert(s[i].0, v));
    }
}

/// The test "differs from `x`".
pub open spec fn other_than<A>(x: A) -> spec_fn(A) -> bool {
    |y: A| y != x
}

/// Removing every occurrence of a value from a sequence without duplicates keeps it free
/// of duplicates and removes exactly that value.
pub proof fn lemma_filter_out<A>(s: Seq<A>, x: A)
    requires
        s.no_duplicates(),
    ensures
        s.filter(other_than(x)).no_duplicates(),
        forall|y: A| s.filter(other_than(x)).contains(y) <==> (s.contains(y) && y != x),
        !s.contains(x) ==> s.filter(other_than(x)) == s,
    decreases s.len(),
{
    let f = other_than(x);
    broadcast use vstd::seq_lib::group_filter_ensures;
    if s.len() > 0 {
        let p = s.drop_last();
        assert(p.no_duplicates()) by {
            assert forall|i: int, j: int| 0 <= i < p.len() && 0 <= j < p.len() && i != j implies p[i] != p[j] by {
                assert(p[i] == s[i] && p[j] == s[j]);
            }
        }
        lemma_filter_out(p, x);
        assert(s =~= p.push(s.last()));
        p.lemma_filter_push(s.last(), f);
        assert(!p.contains(s.last())) by {
            if p.contains(s.last()) {
                let i = choose|i: int| 0 <= i < p.len() && p[i] == s.last();
                assert(s[i] == s[s.len() - 1]);
            }
        }
        let fp = p.filter(f);
        if s.last() != x {
            assert(s.filter(f) == fp.push(s.last()));
            assert forall|i: int, j: int| 0 <= i < fp.len() + 1 && 0 <= j < fp.len() + 1 && i != j
                implies fp.push(s.last())[i] != fp.push(s.last())[j] by {
                if i == fp.len() {
                    assert(fp.contains(fp[j]));
                } else if j == fp.len() {
                    assert(fp.contains(fp[i]));
                }
            }
            assert forall|y: A| s.filter(f).contains(y) <==> (s.contains(y) && y != x) by {
                if s.contains(y) && y != x {
                    let i = choose|i: int| 0 <= i < s.len() && s[i] == y;
                    if i < p.len() {
                        assert(p[i] == y);
                        assert(p.contains(y));
                        assert(fp.contains(y));
                        let k = choose|k: int| 0 <= k < fp.len() && fp[k] == y;
                        assert(fp.push(s.last())[k] == y);
                    } else {
                        assert(fp.push(s.last())[fp.len() as int] == y);
                    }
                }
                if s.filter(f).contains(y) {
                    let k = choose|k: int| 0 <= k < fp.len() + 1 && fp.push(s.last())[k] == y;
                    if k < fp.len() {
                        assert(fp.push(s.last())[k] == fp[k]);
                        assert(fp.contains(y));
                        assert(p.contains(y));
                        let i = choose|i: int| 0 <= i < p.len() && p[i] == y;
                        assert(s[i] == y);
                    } else {
                        assert(s[s.len() - 1] == y);
                    }
                }
            }
            if !s.contains(x) {
                assert(!p.contains(x)) by {
                    if p.contains(x) {
                        let i = choose|i: int| 0 <= i < p.len() && p[i] == x;
                        assert(s[i] == x);
                    }
                }
                assert(s.filter(f) =~= s);
            }
        } else {
            assert(s.filter(f) == fp);
            assert(s.contains(x)) by {
                assert(s[s.len() - 1] == x);
            }
            assert forall|y: A| s.filter(f).contains(y) <==> (s.contains(y) && y != x) by {
                if s.contains(y) && y != x {
                    let i = choose|i: int| 0 <= i < s.len() && s[i] == y;
                    if i < p.len() {
                        assert(p[i] == y);
                        assert(p.contains(y));
                        assert(fp.contains(y));
                    }
                }
                if fp.contains(y) {
                    assert(p.contains(y));
                    let i = choose|i: int| 0 <= i < p.len() && p[i] == y;
                    assert(s[i] == y);
                }
            }
        }
    } else {
        assert(s.filter(f) =~= s);
    }
}

/// In a sequence without duplicates, removing the position of `x` is removing `x`.
pub proof fn lemma_remove_is_filter<A>(s: Seq<A>, i: int)
    requires
        s.no_duplicates(),
        0 <= i < s.len(),
    ensures
        s.remove(i) == s.filter(other_than(s[i])),
    decreases s.len(),
{
    let x = s[i];
    let f = other_than(x);
    let p = s.drop_last();
    assert(p.no_duplicates()) by {
        assert forall|a: int, b: int| 0 <= a < p.len() && 0 <= b < p.len() && a != b implies p[a] != p[b] by {
            assert(p[a] == s[a] && p[b] == s[b]);
        }
    }
    assert(s =~= p.push(s.last()));
    p.lemma_filter_push(s.last(), f);
    if i == s.len() - 1 {
        lemma_filter_out(p, x);
        assert(!p.contains(x)) by {
            if p.contains(x) {
                let j = choose|j: int| 0 <= j < p.len() && p[j] == x;
                assert(s[j] == s[i]);
            }
        }
        assert(s.remove(i) =~= p);
    } else {
        assert(p[i] == x);
        lemma_remove_is_filter(p, i);
        assert(s.last() != x) by {
            assert(s[s.len() - 1] != s[i]);
        }
        assert(s.remove(i) =~= p.remove(i).push(s.last()));
    }
}

} // verus!
