//! Keyed tables stored as vectors of `(key, value)` pairs, each key at most once.
//!
//! The peer records, the outstanding chunk requests and the long-poll
//! subscriptions are all small tables keyed by a peer id or a version.
//! Their meaning is the map `table_map` built from the pairs.
use vstd::prelude::*;

verus! {

/// No key occurs twice.
pub open spec fn keys_unique<V>(s: Seq<(u64, V)>) -> bool {
    forall|i: int, j: int|
        0 <= i < s.len() && 0 <= j < s.len() && i != j ==> #[trigger] s[i].0 != #[trigger] s[j].0
}

/// The map that a sequence of pairs stands for.
pub open spec fn table_map<V>(s: Seq<(u64, V)>) -> Map<u64, V>
    decreases s.len(),
{
    if s.len() == 0 {
        Map::empty()
    } else {
        table_map(s.drop_last()).insert(s.last().0, s.last().1)
    }
}

/// The map holds exactly the keys of the pairs, each with its pair's value.
pub proof fn lemma_table_map_index<V>(s: Seq<(u64, V)>)
    requires
        keys_unique(s),
    ensures
        forall|k: u64| #[trigger]
            table_map(s).contains_key(k) <==> exists|i: int| 0 <= i < s.len() && s[i].0 == k,
        forall|i: int|
            0 <= i < s.len() ==> table_map(s).contains_key(#[trigger] s[i].0) && table_map(s)[s[i].0]
                == s[i].1,
    decreases s.len(),
{
    if s.len() > 0 {
        let t = s.drop_last();
        let n = s.len() - 1;
        assert forall|i: int, j: int|
            0 <= i < t.len() && 0 <= j < t.len() && i != j implies #[trigger] t[i].0
            != #[trigger] t[j].0 by {
            assert(t[i] == s[i] && t[j] == s[j]);
        }
        lemma_table_map_index(t);
        assert forall|k: u64|
            table_map(s).contains_key(k) <==> exists|i: int| 0 <= i < s.len() && s[i].0 == k by {
            if table_map(s).contains_key(k) {
                if k == s[n].0 {
                    assert(s[n].0 == k);
                } else {
                    assert(table_map(t).contains_key(k));
                    let i = choose|i: int| 0 <= i < t.len() && t[i].0 == k;
                    assert(t[i] == s[i]);
                    assert(s[i].0 == k);
                }
            }
            if exists|i: int| 0 <= i < s.len() && s[i].0 == k {
                let i = choose|i: int| 0 <= i < s.len() && s[i].0 == k;
                if i < n {
                    assert(t[i].0 == k);
                }
            }
        }
        assert forall|i: int| 0 <= i < s.len() implies table_map(s).contains_key(
            #[trigger] s[i].0,
        ) && table_map(s)[s[i].0] == s[i].1 by {
            if i < n {
                assert(t[i] == s[i]);
                assert(s[i].0 != s[n].0);
            }
        }
    }
}

/// Replacing the value of one pair replaces it in the map.
pub proof fn lemma_table_map_update<V>(s: Seq<(u64, V)>, i: int, v: V)
    requires
        keys_unique(s),
        0 <= i < s.len(),
    ensures
        keys_unique(s.update(i, (s[i].0, v))),
        table_map(s.update(i, (s[i].0, v))) == table_map(s).insert(s[i].0, v),
    decreases s.len(),
{
    let u = s.update(i, (s[i].0, v));
    assert forall|a: int, b: int|
        0 <= a < u.len() && 0 <= b < u.len() && a != b implies #[trigger] u[a].0
        != #[trigger] u[b].0 by {
        assert(u[a].0 == s[a].0 && u[b].0 == s[b].0);
    }
    let n = s.len() - 1;
    if i == n {
        assert(u.drop_last() =~= s.drop_last());
        assert(table_map(u) =~= table_map(s).insert(s[i].0, v));
    } else {
        let t = s.drop_last();
        assert forall|a: int, b: int|
            0 <= a < t.len() && 0 <= b < t.len() && a != b implies #[trigger] t[a].0
            != #[trigger] t[b].0 by {
            assert(t[a] == s[a] && t[b] == s[b]);
        }
        lemma_table_map_update(t, i, v);
        assert(u.drop_last() =~= t.update(i, (t[i].0, v)));
        assert(s[i].0 != s[n].0);
        assert(table_map(u) =~= table_map(s).insert(s[i].0, v));
    }
}

/// Removing one pair removes its key from the map.
pub proof fn lemma_table_map_remove<V>(s: Seq<(u64, V)>, i: int)
    requires
        keys_unique(s),
        0 <= i < s.len(),
    ensures
        keys_unique(s.remove(i)),
        table_map(s.remove(i)) == table_map(s).remove(s[i].0),
    decreases s.len(),
{
    let r = s.remove(i);
    assert forall|a: int, b: int|
        0 <= a < r.len() && 0 <= b < r.len() && a != b implies #[trigger] r[a].0
        != #[trigger] r[b].0 by {
        let a2 = if a < i { a } else { a + 1 };
        let b2 = if b < i { b } else { b + 1 };
        assert(r[a] == s[a2] && r[b] == s[b2]);
    }
    let n = s.len() - 1;
    let t = s.drop_last();
    assert forall|a: int, b: int|
        0 <= a < t.len() && 0 <= b < t.len() && a != b implies #[trigger] t[a].0
        != #[trigger] t[b].0 by {
        assert(t[a] == s[a] && t[b] == s[b]);
    }
    lemma_table_map_index(t);
    if i == n {
        assert(r =~= t);
        assert forall|a: int| 0 <= a < t.len() implies #[trigger] t[a].0 != s[n].0 by {
            assert(t[a] == s[a]);
        }
        assert(!table_map(t).contains_key(s[n].0));
        assert(table_map(r) =~= table_map(s).remove(s[i].0));
    } else {
        lemma_table_map_remove(t, i);
        assert(r.drop_last() =~= t.remove(i));
        assert(r.last() == s.last());
        assert(s[i].0 != s[n].0);
        assert(table_map(r) =~= table_map(s).remove(s[i].0));
    }
}

/// The pairs after setting key `k` to `v`: in place where `k` is present, else
/// appended.
pub open spec fn table_upsert<V>(s: Seq<(u64, V)>, k: u64, v: V) -> Seq<(u64, V)> {
    if exists|i: int| 0 <= i < s.len() && s[i].0 == k {
        s.map_values(|e: (u64, V)| if e.0 == k { (k, v) } else { e })
    } else {
        s.push((k, v))
    }
}

/// Where the key `k` stands in the table, if anywhere.
pub fn table_position<V>(t: &Vec<(u64, V)>, k: u64) -> (r: Option<usize>)
    requires
        keys_unique(t@),
    ensures
        match r {
            Some(i) => i < t@.len() && t@[i as int].0 == k && table_map(t@).contains_key(k)
                && table_map(t@)[k] == t@[i as int].1,
            None => !table_map(t@).contains_key(k),
        },
{
    let mut i: usize = 0;
    while i < t.len()
        invariant
            i <= t@.len(),
            keys_unique(t@),
            forall|j: int| 0 <= j < i ==> t@[j].0 != k,
        decreases t@.len() - i,
    {
        if t[i].0 == k {
            proof {
                lemma_table_map_index(t@);
            }
            return Some(i);
        }
        i = i + 1;
    }
    proof {
        lemma_table_map_index(t@);
    }
    None
}

/// Sets the value of key `k`, adding the key where it is new.
pub fn table_put<V>(t: &mut Vec<(u64, V)>, k: u64, v: V)
    requires
        keys_unique(old(t)@),
    ensures
        keys_unique(final(t)@),
        table_map(final(t)@) == table_map(old(t)@).insert(k, v),
        final(t)@ == table_upsert(old(t)@, k, v),
        forall|i: int|
            0 <= i < old(t)@.len() && #[trigger] old(t)@[i].0 == k ==> final(t)@ == old(t)@.update(
                i,
                (k, v),
            ),
        (forall|i: int| 0 <= i < old(t)@.len() ==> #[trigger] old(t)@[i].0 != k) ==> final(t)@
            == old(t)@.push((k, v)),
{
    match table_position(t, k) {
        Some(i) => {
            proof {
                lemma_table_map_update(t@, i as int, v);
            }
            let ghost s = t@;
            t.set(i, (k, v));
            proof {
                assert forall|j: int| 0 <= j < s.len() && j != i implies s[j].0 != k by {
                    assert(s[j].0 != s[i as int].0);
                }
                assert(t@ =~= table_upsert(s, k, v));
            }
        },
        None => {
            proof {
                lemma_table_map_index(t@);
                assert(t@.push((k, v)).drop_last() =~= t@);
            }
            t.push((k, v));
        },
    }
}

/// Takes the key `k` out of the table, if it is there.
pub fn table_remove<V>(t: &mut Vec<(u64, V)>, k: u64)
    requires
        keys_unique(old(t)@),
    ensures
        keys_unique(final(t)@),
        table_map(final(t)@) == table_map(old(t)@).remove(k),
{
    match table_position(t, k) {
        Some(i) => {
            proof {
                lemma_table_map_remove(t@, i as int);
            }
            t.remove(i);
        },
        None => {
            assert(table_map(t@).remove(k) =~= table_map(t@));
        },
    }
}

/// The keys strictly above `v`.
pub open spec fn keys_above(v: u64) -> Set<u64> {
    Set::new(|k: u64| k > v)
}

/// Keeps the pairs whose key is strictly above `v`, in their order.
pub fn table_keep_above<V: Copy>(t: &mut Vec<(u64, V)>, v: u64)
    requires
        keys_unique(old(t)@),
    ensures
        keys_unique(final(t)@),
        table_map(final(t)@) == table_map(old(t)@).restrict(keys_above(v)),
{
    let ghost s = t@;
    let mut kept: Vec<(u64, V)> = Vec::new();
    let mut i: usize = 0;
    assert(table_map(s.take(0)) =~= table_map(kept@).restrict(keys_above(v))) by {
        assert(s.take(0).len() == 0);
    }
    while i < t.len()
        invariant
            t@ == s,
            i <= s.len(),
            keys_unique(s),
            keys_unique(kept@),
            forall|j: int|
                0 <= j < kept@.len() ==> exists|m: int| 0 <= m < i && s[m].0 == #[trigger] kept@[j].0,
            table_map(kept@) == table_map(s.take(i as int)).restrict(keys_above(v)),
        decreases s.len() - i,
    {
        let e = t[i];
        assert(s.take(i as int + 1).drop_last() =~= s.take(i as int));
        assert(s.take(i as int + 1).last() == e);
        if e.0 > v {
            proof {
                assert forall|j: int| 0 <= j < kept@.len() implies kept@[j].0 != e.0 by {
                    let m = choose|m: int| 0 <= m < i && s[m].0 == kept@[j].0;
                    assert(s[m].0 != s[i as int].0);
                }
                assert(kept@.push(e).drop_last() =~= kept@);
            }
            kept.push(e);
            assert(table_map(kept@) =~= table_map(s.take(i as int + 1)).restrict(keys_above(v)));
        } else {
            assert(table_map(kept@) =~= table_map(s.take(i as int + 1)).restrict(keys_above(v)));
        }
        i = i + 1;
        assert forall|j: int| 0 <= j < kept@.len() implies exists|m: int|
            0 <= m < i && s[m].0 == #[trigger] kept@[j].0 by {
            if j == kept@.len() - 1 && e.0 > v {
                assert(s[i - 1].0 == kept@[j].0);
            } else {
                let m = choose|m: int| 0 <= m < i - 1 && s[m].0 == kept@[j].0;
                assert(s[m].0 == kept@[j].0);
            }
        }
    }
    assert(s.take(s.len() as int) =~= s);
    *t = kept;
}

} // verus!
