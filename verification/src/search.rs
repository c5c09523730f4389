use vstd::prelude::*;

verus! {

/// The first place in a sequence whose item meets a condition, if any.
pub open spec fn first_where<T>(s: Seq<T>, p: spec_fn(T) -> bool) -> Option<int>
    decreases s.len(),
{
    if s.len() == 0 {
        None
    } else {
        match first_where(s.drop_last(), p) {
            Some(i) => Some(i),
            None => if p(s.last()) {
                Some(s.len() - 1)
            } else {
                None
            },
        }
    }
}

/// What `first_where` finds: the least place whose item meets the
/// condition, or nothing where no item does.
pub proof fn lemma_first_where<T>(s: Seq<T>, p: spec_fn(T) -> bool)
    ensures
        match first_where(s, p) {
            Some(i) => 0 <= i < s.len() && p(s[i]) && forall|j: int|
                0 <= j < i ==> !p(#[trigger] s[j]),
            None => forall|j: int| 0 <= j < s.len() ==> !p(#[trigger] s[j]),
        },
    decreases s.len(),
{
    if s.len() > 0 {
        let rest = s.drop_last();
        lemma_first_where(rest, p);
        match first_where(rest, p) {
            Some(i) => {
                assert(rest[i] == s[i]);
                assert forall|j: int| 0 <= j < i implies !p(#[trigger] s[j]) by {
                    assert(rest[j] == s[j]);
                }
            },
            None => {
                assert forall|j: int| 0 <= j < s.len() - 1 implies !p(#[trigger] s[j]) by {
                    assert(rest[j] == s[j]);
                }
            },
        }
    }
}

/// A place whose item meets the condition, with none before it that does, is
/// the one that `first_where` finds.
pub proof fn lemma_first_where_is<T>(s: Seq<T>, p: spec_fn(T) -> bool, at: int)
    requires
        0 <= at < s.len(),
        p(s[at]),
        forall|j: int| 0 <= j < at ==> !p(#[trigger] s[j]),
    ensures
        first_where(s, p) == Some(at),
{
    lemma_first_where(s, p);
}

/// Where no item meets the condition, `first_where` finds nothing.
pub proof fn lemma_first_where_none<T>(s: Seq<T>, p: spec_fn(T) -> bool)
    requires
        forall|j: int| 0 <= j < s.len() ==> !p(#[trigger] s[j]),
    ensures
        first_where(s, p) is None,
{
    lemma_first_where(s, p);
}

/// The items of a sequence that meet a condition, in order.
pub open spec fn only<T>(s: Seq<T>, p: spec_fn(T) -> bool) -> Seq<T>
    decreases s.len(),
{
    if s.len() == 0 {
        Seq::empty()
    } else if p(s.last()) {
        only(s.drop_last(), p).push(s.last())
    } else {
        only(s.drop_last(), p)
    }
}

/// What `only` keeps: exactly the items that meet the condition.
pub proof fn lemma_only_contains<T>(s: Seq<T>, p: spec_fn(T) -> bool)
    ensures
        forall|x: T| #[trigger] only(s, p).contains(x) <==> s.contains(x) && p(x),
        s.no_duplicates() ==> only(s, p).no_duplicates(),
    decreases s.len(),
{
    if s.len() == 0 {
    } else {
        let rest = s.drop_last();
        let last = s.last();
        lemma_only_contains(rest, p);
        let kept = only(rest, p);
        let all = only(s, p);
        assert(all == if p(last) {
            kept.push(last)
        } else {
            kept
        });
        assert forall|x: T| #[trigger] all.contains(x) <==> s.contains(x) && p(x) by {
            assert(kept.contains(x) <==> rest.contains(x) && p(x));
            if all.contains(x) {
                let k = choose|k: int| 0 <= k < all.len() && all[k] == x;
                if k < kept.len() {
                    assert(kept[k] == x);
                    assert(kept.contains(x));
                    let n = choose|n: int| 0 <= n < rest.len() && rest[n] == x;
                    assert(s[n] == x);
                } else {
                    assert(s[s.len() - 1] == x);
                }
            }
            if s.contains(x) && p(x) {
                let n = choose|n: int| 0 <= n < s.len() && s[n] == x;
                if n < rest.len() {
                    assert(rest[n] == x);
                    assert(rest.contains(x));
                    let k = choose|k: int| 0 <= k < kept.len() && kept[k] == x;
                    assert(all[k] == x);
                } else {
                    assert(all[kept.len() as int] == x);
                }
            }
        }
        if s.no_duplicates() {
            assert(rest.no_duplicates());
            if p(last) {
                assert(!kept.contains(last)) by {
                    assert(kept.contains(last) <==> rest.contains(last) && p(last));
                    if rest.contains(last) {
                        let n = choose|n: int| 0 <= n < rest.len() && rest[n] == last;
                        assert(s[n] == s[s.len() - 1]);
                    }
                }
                assert forall|a: int, b: int|
                    0 <= a < all.len() && 0 <= b < all.len() && a != b implies all[a]
                    != all[b] by {
                    if a < kept.len() {
                        assert(kept.contains(kept[a]));
                    }
                    if b < kept.len() {
                        assert(kept.contains(kept[b]));
                    }
                }
            }
        }
    }
}

/// One more item of a sequence taken adds that item to what was taken.
pub proof fn lemma_take_one_more<T>(s: Seq<T>, i: int)
    requires
        0 <= i < s.len(),
    ensures
        s.take(i + 1) == s.take(i).push(s[i]),
        s.take(i + 1).drop_last() == s.take(i),
        s.take(i + 1).last() == s[i],
        forall|x: T| #[trigger] s.take(i + 1).contains(x) <==> s.take(i).contains(x) || x == s[i],
{
    let more = s.take(i + 1);
    let less = s.take(i);
    assert(more =~= less.push(s[i]));
    assert(more.drop_last() =~= less);
    assert forall|x: T| #[trigger] more.contains(x) <==> less.contains(x) || x == s[i] by {
        if more.contains(x) {
            let j = choose|j: int| 0 <= j < more.len() && more[j] == x;
            if j < i {
                assert(less[j] == x);
            }
        }
        if less.contains(x) {
            let j = choose|j: int| 0 <= j < less.len() && less[j] == x;
            assert(more[j] == x);
        }
        if x == s[i] {
            assert(more[i] == x);
        }
    }
}

} // verus!
