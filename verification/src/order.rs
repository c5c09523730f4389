use std::collections::HashMap;
use vstd::prelude::*;
use vstd::std_specs::iter::IteratorSpec;

verus! {

/// Whether each element is smaller than every later one.
pub open spec fn ascending(s: Seq<int>) -> bool {
    forall|i: int, j: int| 0 <= i < j < s.len() ==> s[i] < s[j]
}

/// The integers that a sequence of identifier values stands for.
pub open spec fn as_ints(s: Seq<u64>) -> Seq<int> {
    s.map_values(|x: u64| x as int)
}

/// Whether `s` lists exactly the members of `set`, smallest first.
pub open spec fn lists_in_order(s: Seq<u64>, set: Set<u64>) -> bool {
    &&& ascending(as_ints(s))
    &&& forall|x: u64| s.contains(x) <==> set.contains(x)
}

/// The members of a finite set of identifier values, smallest first. This is
/// the order in which the library walks its maps.
pub open spec fn in_order(set: Set<u64>) -> Seq<u64> {
    choose|s: Seq<u64>| lists_in_order(s, set)
}

/// Two ascending sequences with the same elements are the same sequence.
pub proof fn lemma_ascending_unique(a: Seq<int>, b: Seq<int>)
    requires
        ascending(a),
        ascending(b),
        forall|x: int| a.contains(x) <==> b.contains(x),
    ensures
        a == b,
    decreases a.len(),
{
    if a.len() == 0 {
        if b.len() > 0 {
            assert(b.contains(b[0]));
        }
        assert(a =~= b);
    } else {
        let top = a.last();
        assert(a.contains(top));
        assert(b.contains(top));
        assert(b.len() > 0);
        assert(b.contains(b.last()));
        assert(a.contains(b.last()));
        let i = choose|i: int| 0 <= i < a.len() && a[i] == b.last();
        let j = choose|j: int| 0 <= j < b.len() && b[j] == top;
        assert(b.last() == top);
        let a2 = a.drop_last();
        let b2 = b.drop_last();
        assert forall|x: int| a2.contains(x) <==> b2.contains(x) by {
            if a2.contains(x) {
                let k = choose|k: int| 0 <= k < a2.len() && a2[k] == x;
                assert(a[k] == x);
                assert(a.contains(x));
                let m = choose|m: int| 0 <= m < b.len() && b[m] == x;
                assert(m < b.len() - 1);
                assert(b2[m] == x);
            }
            if b2.contains(x) {
                let k = choose|k: int| 0 <= k < b2.len() && b2[k] == x;
                assert(b[k] == x);
                assert(b.contains(x));
                let m = choose|m: int| 0 <= m < a.len() && a[m] == x;
                assert(m < a.len() - 1);
                assert(a2[m] == x);
            }
        }
        assert(ascending(a2));
        assert(ascending(b2));
        lemma_ascending_unique(a2, b2);
        assert(a =~= a2.push(top));
        assert(b =~= b2.push(top));
    }
}

/// A sequence that lists a set in order is the one the library walks.
pub proof fn lemma_in_order_is(s: Seq<u64>, set: Set<u64>)
    requires
        lists_in_order(s, set),
    ensures
        s == in_order(set),
{
    let t = in_order(set);
    assert(lists_in_order(t, set));
    let a = as_ints(s);
    let b = as_ints(t);
    assert forall|x: int| a.contains(x) <==> b.contains(x) by {
        if a.contains(x) {
            let k = choose|k: int| 0 <= k < a.len() && a[k] == x;
            assert(s.contains(s[k]));
            let m = choose|m: int| 0 <= m < t.len() && t[m] == s[k];
            assert(b[m] == x);
        }
        if b.contains(x) {
            let k = choose|k: int| 0 <= k < b.len() && b[k] == x;
            assert(t.contains(t[k]));
            let m = choose|m: int| 0 <= m < s.len() && s[m] == t[k];
            assert(a[m] == x);
        }
    }
    lemma_ascending_unique(a, b);
    assert(s.len() == t.len());
    assert forall|k: int| 0 <= k < s.len() implies s[k] == t[k] by {
        assert(a[k] == b[k]);
    }
    assert(s =~= t);
}

/// What walking a set in order yields: each member once, smallest first.
pub proof fn lemma_in_order_lists(set: Set<u64>)
    requires
        set.finite(),
    ensures
        lists_in_order(in_order(set), set),
        in_order(set).no_duplicates(),
        in_order(set).len() == set.len(),
{
    lemma_some_order(set);
    let s = in_order(set);
    assert(lists_in_order(s, set));
    assert forall|i: int, j: int| 0 <= i < s.len() && 0 <= j < s.len() && i != j implies s[i]
        != s[j] by {
        assert(as_ints(s)[i] != as_ints(s)[j]);
    }
    assert(s.to_set() =~= set);
    s.unique_seq_to_set();
}

proof fn lemma_some_order(set: Set<u64>)
    requires
        set.finite(),
    ensures
        exists|s: Seq<u64>| lists_in_order(s, set),
    decreases set.len(),
{
    if set.len() == 0 {
        let s = Seq::<u64>::empty();
        assert forall|x: u64| s.contains(x) <==> set.contains(x) by {
            if set.contains(x) {
                assert(set.len() != 0);
            }
        }
        assert(lists_in_order(s, set));
    } else {
        let top = greatest(set);
        lemma_greatest(set);
        let rest = set.remove(top);
        lemma_some_order(rest);
        let r = choose|r: Seq<u64>| lists_in_order(r, rest);
        let s = r.push(top);
        assert forall|i: int, j: int| 0 <= i < j < s.len() implies as_ints(s)[i] < as_ints(
            s,
        )[j] by {
            assert(r.contains(r[i]));
            if j < r.len() {
                assert(as_ints(r)[i] < as_ints(r)[j]);
            }
        }
        assert forall|x: u64| s.contains(x) <==> set.contains(x) by {
            if s.contains(x) {
                let k = choose|k: int| 0 <= k < s.len() && s[k] == x;
                if k < r.len() {
                    assert(r.contains(r[k]));
                }
            }
            if set.contains(x) {
                if x == top {
                    assert(s[r.len() as int] == x);
                } else {
                    assert(rest.contains(x));
                    let k = choose|k: int| 0 <= k < r.len() && r[k] == x;
                    assert(s[k] == x);
                }
            }
        }
        assert(lists_in_order(s, set));
    }
}

/// The largest member of a non-empty finite set.
pub closed spec fn greatest(set: Set<u64>) -> u64 {
    choose|m: u64| set.contains(m) && forall|x: u64| set.contains(x) ==> x <= m
}

proof fn lemma_greatest(set: Set<u64>)
    requires
        set.finite(),
        set.len() > 0,
    ensures
        set.contains(greatest(set)),
        forall|x: u64| set.contains(x) ==> x <= greatest(set),
    decreases set.len(),
{
    let e = set.choose();
    let rest = set.remove(e);
    if rest.len() == 0 {
        assert forall|x: u64| set.contains(x) implies x <= e by {
            if x != e {
                assert(rest.contains(x));
            }
        }
    } else {
        lemma_greatest(rest);
        let g = greatest(rest);
        let m = if g < e {
            e
        } else {
            g
        };
        assert forall|x: u64| set.contains(x) implies x <= m by {
            if x != e {
                assert(rest.contains(x));
            }
        }
        assert(set.contains(m));
    }
}

/// The keys of a map, smallest first.
pub fn sorted_keys<V>(m: &HashMap<u64, V>) -> (r: Vec<u64>)
    ensures
        r@ == in_order(m@.dom()),
{
    broadcast use vstd::std_specs::hash::group_hash_axioms;

    let mut out: Vec<u64> = Vec::new();
    let ghost all = m.keys().remaining().unref();
    for k in iter: m.keys()
        invariant
            iter.seq().unref() == all,
            ascending(as_ints(out@)),
            forall|x: u64| out@.contains(x) <==> all.take(iter.index()).contains(x),
    {
        let key: u64 = *k;
        let ghost before = out@;
        let ghost seen = all.take(iter.index());
        assert(all[iter.index()] == key);
        let mut pos: usize = 0;
        while pos < out.len() && out[pos] < key
            invariant
                pos <= out@.len(),
                out@ == before,
                ascending(as_ints(before)),
                forall|x: u64| before.contains(x) <==> seen.contains(x),
                forall|j: int| 0 <= j < pos ==> out@[j] < key,
            decreases out@.len() - pos,
        {
            pos = pos + 1;
        }
        assert(!seen.contains(key)) by {
            if seen.contains(key) {
                let j = choose|j: int| 0 <= j < seen.len() && seen[j] == key;
                assert(all[j] == all[iter.index()]);
            }
        }
        assert(!before.contains(key));
        out.insert(pos, key);
        proof {
            let after = out@;
            assert forall|i: int, j: int| 0 <= i < j < after.len() implies as_ints(after)[i]
                < as_ints(after)[j] by {
                let bi = if i < pos {
                    i
                } else {
                    i - 1
                };
                let bj = if j < pos {
                    j
                } else {
                    j - 1
                };
                if i != pos && j != pos {
                    assert(as_ints(before)[bi] < as_ints(before)[bj]);
                } else if i == pos {
                    assert(before.contains(before[bj]));
                    assert(as_ints(before)[pos as int] <= as_ints(before)[bj]);
                }
            }
            let next = all.take(iter.index() + 1);
            assert forall|x: u64| after.contains(x) <==> next.contains(x) by {
                if after.contains(x) {
                    let j = choose|j: int| 0 <= j < after.len() && after[j] == x;
                    if j == pos {
                        assert(next[iter.index()] == x);
                    } else {
                        let bj = if j < pos {
                            j
                        } else {
                            j - 1
                        };
                        assert(before.contains(before[bj]));
                        let n = choose|n: int| 0 <= n < seen.len() && seen[n] == x;
                        assert(next[n] == x);
                    }
                }
                if next.contains(x) {
                    let n = choose|n: int| 0 <= n < next.len() && next[n] == x;
                    if n == iter.index() {
                        assert(after[pos as int] == x);
                    } else {
                        assert(seen[n] == x);
                        assert(seen.contains(x));
                        let j = choose|j: int| 0 <= j < before.len() && before[j] == x;
                        let aj = if j < pos {
                            j
                        } else {
                            j + 1
                        };
                        assert(after[aj] == x);
                    }
                }
            }
        }
    }
    proof {
        assert(all.take(all.len() as int) =~= all);
        assert forall|x: u64| out@.contains(x) <==> m@.dom().contains(x) by {
            assert(all.to_set().contains(x) <==> all.contains(x));
        }
        lemma_in_order_is(out@, m@.dom());
    }
    out
}

} // verus!
