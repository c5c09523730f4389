use crate::order::{ascending, lemma_ascending_unique};
use std::collections::BTreeMap;
use vstd::prelude::*;
use vstd::std_specs::iter::IteratorSpec;

verus! {

/// The integers that a sequence of clock values stands for.
pub open spec fn tick_ints(s: Seq<i64>) -> Seq<int> {
    s.map_values(|x: i64| x as int)
}

/// Whether `s` lists exactly the members of `set` that are not after `now`,
/// earliest first.
pub open spec fn lists_due(s: Seq<i64>, set: Set<i64>, now: i64) -> bool {
    &&& ascending(tick_ints(s))
    &&& forall|x: i64| s.contains(x) <==> set.contains(x) && x <= now
}

/// The clock values of a schedule that are due at `now`, earliest first.
pub open spec fn due_ticks(set: Set<i64>, now: i64) -> Seq<i64> {
    choose|s: Seq<i64>| lists_due(s, set, now)
}

/// The entries of a schedule that are due at `now`, earliest first.
pub open spec fn due_entries<V>(schedule: Map<i64, V>, now: i64) -> Seq<V> {
    due_ticks(schedule.dom(), now).map_values(|k: i64| schedule[k])
}

/// The entries of a schedule that are not yet due at `now`.
pub open spec fn not_due<V>(schedule: Map<i64, V>, now: i64) -> Map<i64, V> {
    schedule.restrict(Set::new(|k: i64| k > now))
}

proof fn lemma_due_is(s: Seq<i64>, set: Set<i64>, now: i64)
    requires
        lists_due(s, set, now),
    ensures
        s == due_ticks(set, now),
{
    let t = due_ticks(set, now);
    assert(lists_due(t, set, now));
    let a = tick_ints(s);
    let b = tick_ints(t);
    assert forall|x: int| a.contains(x) <==> b.contains(x) by {
        if a.contains(x) {
            let k = choose|k: int| 0 <= k < a.len() && a[k] == x;
            assert(s.contains(s[k]));
            let m = choose|m: int| 0 <= m < t.len() && t[m] == s[k];
            assert(b[m] == x);
        }
        if b.contains(x) {
            let k = choose|k: int| 0 <= k < b.len() && b[k] == x;
            assert(t.contains(t[k]));
            let m = choose|m: int| 0 <= m < s.len() && s[m] == t[k];
            assert(a[m] == x);
        }
    }
    lemma_ascending_unique(a, b);
    assert(s.len() == t.len());
    assert forall|k: int| 0 <= k < s.len() implies s[k] == t[k] by {
        assert(a[k] == b[k]);
    }
    assert(s =~= t);
}

/// The clock values of a schedule that are due at `now`, earliest first.
pub fn due_keys<V>(schedule: &BTreeMap<i64, V>, now: i64) -> (r: Vec<i64>)
    ensures
        r@ == due_ticks(schedule@.dom(), now),
        lists_due(r@, schedule@.dom(), now),
        r@.no_duplicates(),
        forall|i: int| 0 <= i < r@.len() ==> schedule@.contains_key(#[trigger] r@[i]),
{
    broadcast use vstd::std_specs::btree::group_btree_axioms;

    let mut out: Vec<i64> = Vec::new();
    let ghost all = schedule.keys().remaining().unref();
    for k in iter: schedule.keys()
        invariant
            iter.seq().unref() == all,
            ascending(tick_ints(out@)),
            forall|x: i64| out@.contains(x) <==> all.take(iter.index()).contains(x) && x <= now,
    {
        let key: i64 = *k;
        let ghost before = out@;
        let ghost seen = all.take(iter.index());
        let ghost next = all.take(iter.index() + 1);
        assert(all[iter.index()] == key);
        assert(!seen.contains(key)) by {
            if seen.contains(key) {
                let j = choose|j: int| 0 <= j < seen.len() && seen[j] == key;
                assert(all[j] == all[iter.index()]);
            }
        }
        assert forall|x: i64| next.contains(x) <==> seen.contains(x) || x == key by {
            if next.contains(x) {
                let n = choose|n: int| 0 <= n < next.len() && next[n] == x;
                if n < iter.index() {
                    assert(seen[n] == x);
                }
            }
            if seen.contains(x) {
                let n = choose|n: int| 0 <= n < seen.len() && seen[n] == x;
                assert(next[n] == x);
            }
            if x == key {
                assert(next[iter.index()] == x);
            }
        }
        if key <= now {
            let mut pos: usize = 0;
            while pos < out.len() && out[pos] < key
                invariant
                    pos <= out@.len(),
                    out@ == before,
                    forall|j: int| 0 <= j < pos ==> out@[j] < key,
                decreases out@.len() - pos,
            {
                pos = pos + 1;
            }
            assert(!before.contains(key));
            out.insert(pos, key);
            proof {
                let after = out@;
                assert forall|i: int, j: int| 0 <= i < j < after.len() implies tick_ints(
                    after,
                )[i] < tick_ints(after)[j] by {
                    let bi = if i < pos {
                        i
                    } else {
                        i - 1
                    };
                    let bj = if j < pos {
                        j
                    } else {
                        j - 1
                    };
                    if i != pos && j != pos {
                        assert(tick_ints(before)[bi] < tick_ints(before)[bj]);
                    } else if i == pos {
                        assert(before.contains(before[bj]));
                        assert(tick_ints(before)[pos as int] <= tick_ints(before)[bj]);
                    }
                }
                assert forall|x: i64| after.contains(x) <==> next.contains(x) && x <= now by {
                    if after.contains(x) {
                        let j = choose|j: int| 0 <= j < after.len() && after[j] == x;
                        if j != pos {
                            let bj = if j < pos {
                                j
                            } else {
                                j - 1
                            };
                            assert(before.contains(before[bj]));
                        }
                    }
                    if next.contains(x) && x <= now {
                        if x == key {
                            assert(after[pos as int] == x);
                        } else {
                            assert(before.contains(x));
                            let j = choose|j: int| 0 <= j < before.len() && before[j] == x;
                            let aj = if j < pos {
                                j
                            } else {
                                j + 1
                            };
                            assert(after[aj] == x);
                        }
                    }
                }
            }
        }
    }
    proof {
        assert(all.take(all.len() as int) =~= all);
        assert forall|x: i64| out@.contains(x) <==> schedule@.dom().contains(x) && x <= now by {
            assert(all.to_set().contains(x) <==> all.contains(x));
        }
        lemma_due_is(out@, schedule@.dom(), now);
        assert forall|i: int, j: int| 0 <= i < out@.len() && 0 <= j < out@.len() && i
            != j implies out@[i] != out@[j] by {
            assert(tick_ints(out@)[i] != tick_ints(out@)[j]);
        }
        assert forall|i: int| 0 <= i < out@.len() implies schedule@.contains_key(
            #[trigger] out@[i],
        ) by {
            assert(out@.contains(out@[i]));
        }
    }
    out
}

/// Takes the entries that are due at `now` out of a schedule and returns
/// them, earliest first.
pub fn take_due<V>(schedule: &mut BTreeMap<i64, V>, now: i64) -> (due: Vec<V>)
    ensures
        due@ == due_entries(old(schedule)@, now),
        final(schedule)@ == not_due(old(schedule)@, now),
{
    broadcast use vstd::std_specs::btree::group_btree_axioms;

    let keys = due_keys(schedule, now);
    let ghost before = schedule@;
    let mut out: Vec<V> = Vec::new();
    let mut i: usize = 0;
    while i < keys.len()
        invariant
            i <= keys@.len(),
            keys@ == due_ticks(before.dom(), now),
            lists_due(keys@, before.dom(), now),
            keys@.no_duplicates(),
            forall|j: int| 0 <= j < keys@.len() ==> before.contains_key(#[trigger] keys@[j]),
            out@ == keys@.take(i as int).map_values(|k: i64| before[k]),
            schedule@ == before.remove_keys(keys@.take(i as int).to_set()),
        decreases keys@.len() - i,
    {
        let key = keys[i];
        let ghost taken = keys@.take(i as int);
        assert(!taken.contains(key)) by {
            if taken.contains(key) {
                let j = choose|j: int| 0 <= j < taken.len() && taken[j] == key;
                assert(keys@[j] == keys@[i as int]);
            }
        }
        assert(before.contains_key(keys@[i as int]));
        match schedule.remove(&key) {
            Some(v) => {
                out.push(v);
            },
            None => {
                assert(false);
            },
        }
        proof {
            let upto = keys@.take(i + 1);
            assert(upto =~= taken.push(key));
            assert forall|x: i64| upto.to_set().contains(x) <==> taken.to_set().insert(
                key,
            ).contains(x) by {
                assert(upto.to_set().contains(x) <==> upto.contains(x));
                assert(taken.to_set().contains(x) <==> taken.contains(x));
                if upto.contains(x) {
                    let n = choose|n: int| 0 <= n < upto.len() && upto[n] == x;
                    if n < taken.len() {
                        assert(taken[n] == x);
                    }
                }
                if taken.contains(x) {
                    let n = choose|n: int| 0 <= n < taken.len() && taken[n] == x;
                    assert(upto[n] == x);
                }
                if x == key {
                    assert(upto[taken.len() as int] == x);
                }
            }
            assert(upto.to_set() =~= taken.to_set().insert(key));
            assert(schedule@ =~= before.remove_keys(upto.to_set()));
            assert(out@ =~= upto.map_values(|k: i64| before[k]));
        }
        i = i + 1;
    }
    proof {
        assert(keys@.take(i as int) =~= keys@);
        assert forall|k: i64| keys@.to_set().contains(k) <==> before.contains_key(k) && k
            <= now by {
            assert(keys@.to_set().contains(k) <==> keys@.contains(k));
        }
        assert(schedule@ =~= not_due(before, now));
    }
    out
}

} // verus!
