use crate::id::RoomId;
use vstd::prelude::*;

verus! {

/// One stored room variable.
#[derive(Debug)]
pub struct RoomVar {
    pub room_id: RoomId,
    pub name: String,
    pub value: i32,
}

/// The integer variables of the rooms, keyed by room and variable name. A
/// variable that is not stored reads as zero, and zero is never stored.
#[derive(Debug)]
pub struct RoomVars {
    entries: Vec<RoomVar>,
}

/// The value of a room variable: what is stored for it, or zero.
pub open spec fn var_value(vars: Map<(u64, Seq<char>), i32>, room: u64, name: Seq<char>) -> i32 {
    if vars.contains_key((room, name)) {
        vars[(room, name)]
    } else {
        0
    }
}

/// The variables after one of them was set: a zero takes the entry away.
pub open spec fn with_var(
    vars: Map<(u64, Seq<char>), i32>,
    room: u64,
    name: Seq<char>,
    value: i32,
) -> Map<(u64, Seq<char>), i32> {
    if value == 0 {
        vars.remove((room, name))
    } else {
        vars.insert((room, name), value)
    }
}

spec fn key_of(e: RoomVar) -> (u64, Seq<char>) {
    (e.room_id.value, e.name@)
}

spec fn has_key(s: Seq<RoomVar>, k: (u64, Seq<char>)) -> bool {
    exists|i: int| 0 <= i < s.len() && key_of(#[trigger] s[i]) == k
}

spec fn index_for(s: Seq<RoomVar>, k: (u64, Seq<char>)) -> int {
    choose|i: int| 0 <= i < s.len() && key_of(#[trigger] s[i]) == k
}

spec fn as_map(s: Seq<RoomVar>) -> Map<(u64, Seq<char>), i32> {
    Map::new(|k: (u64, Seq<char>)| has_key(s, k), |k: (u64, Seq<char>)| s[index_for(s, k)].value)
}

spec fn distinct_keys(s: Seq<RoomVar>) -> bool {
    forall|i: int, j: int|
        0 <= i < j < s.len() ==> key_of(#[trigger] s[i]) != key_of(#[trigger] s[j])
}

spec fn no_zero(s: Seq<RoomVar>) -> bool {
    forall|i: int| 0 <= i < s.len() ==> (#[trigger] s[i]).value != 0
}

proof fn lemma_lookup(s: Seq<RoomVar>, i: int)
    requires
        distinct_keys(s),
        0 <= i < s.len(),
    ensures
        as_map(s).contains_key(key_of(s[i])),
        as_map(s)[key_of(s[i])] == s[i].value,
{
    let k = key_of(s[i]);
    assert(has_key(s, k));
    let j = index_for(s, k);
    if j < i {
        assert(key_of(s[j]) != key_of(s[i]));
    } else if i < j {
        assert(key_of(s[i]) != key_of(s[j]));
    }
}

proof fn lemma_remove(s: Seq<RoomVar>, i: int)
    requires
        distinct_keys(s),
        0 <= i < s.len(),
    ensures
        distinct_keys(s.remove(i)),
        as_map(s.remove(i)) == as_map(s).remove(key_of(s[i])),
        no_zero(s) ==> no_zero(s.remove(i)),
{
    let t = s.remove(i);
    let gone = key_of(s[i]);
    assert forall|a: int, b: int| 0 <= a < b < t.len() implies key_of(#[trigger] t[a]) != key_of(
        #[trigger] t[b],
    ) by {
        let sa = if a < i {
            a
        } else {
            a + 1
        };
        let sb = if b < i {
            b
        } else {
            b + 1
        };
        assert(key_of(s[sa]) != key_of(s[sb]));
    }
    assert forall|k: (u64, Seq<char>)| has_key(t, k) <==> has_key(s, k) && k != gone by {
        if has_key(t, k) {
            let a = index_for(t, k);
            let sa = if a < i {
                a
            } else {
                a + 1
            };
            assert(key_of(s[sa]) == k);
            if sa < i {
                assert(key_of(s[sa]) != key_of(s[i]));
            } else {
                assert(key_of(s[i]) != key_of(s[sa]));
            }
        }
        if has_key(s, k) && k != gone {
            let a = index_for(s, k);
            let ta = if a < i {
                a
            } else {
                a - 1
            };
            assert(key_of(t[ta]) == k);
        }
    }
    assert forall|k: (u64, Seq<char>)| has_key(t, k) implies as_map(t)[k] == as_map(s)[k] by {
        let a = index_for(t, k);
        let sa = if a < i {
            a
        } else {
            a + 1
        };
        assert(key_of(s[sa]) == k);
        lemma_lookup(s, sa);
    }
    assert(as_map(t) =~= as_map(s).remove(gone));
    if no_zero(s) {
        assert forall|a: int| 0 <= a < t.len() implies (#[trigger] t[a]).value != 0 by {
            let sa = if a < i {
                a
            } else {
                a + 1
            };
            assert(s[sa].value != 0);
        }
    }
}

proof fn lemma_push(s: Seq<RoomVar>, e: RoomVar)
    requires
        distinct_keys(s),
        !has_key(s, key_of(e)),
    ensures
        distinct_keys(s.push(e)),
        as_map(s.push(e)) == as_map(s).insert(key_of(e), e.value),
        no_zero(s) && e.value != 0 ==> no_zero(s.push(e)),
{
    let t = s.push(e);
    let added = key_of(e);
    assert forall|a: int, b: int| 0 <= a < b < t.len() implies key_of(#[trigger] t[a]) != key_of(
        #[trigger] t[b],
    ) by {
        if b < s.len() {
            assert(key_of(s[a]) != key_of(s[b]));
        } else {
            assert(t[a] == s[a]);
            if key_of(s[a]) == added {
                assert(has_key(s, added));
            }
        }
    }
    assert forall|k: (u64, Seq<char>)| has_key(t, k) <==> has_key(s, k) || k == added by {
        if has_key(t, k) {
            let a = index_for(t, k);
            if a < s.len() {
                assert(key_of(s[a]) == k);
            }
        }
        if has_key(s, k) {
            let a = index_for(s, k);
            assert(key_of(t[a]) == k);
        }
        if k == added {
            assert(key_of(t[s.len() as int]) == k);
        }
    }
    assert forall|k: (u64, Seq<char>)| has_key(t, k) implies as_map(t)[k] == as_map(s).insert(
        added,
        e.value,
    )[k] by {
        let a = index_for(t, k);
        lemma_lookup(t, a);
        if a < s.len() {
            assert(t[a] == s[a]);
            lemma_lookup(s, a);
        }
    }
    assert(as_map(t) =~= as_map(s).insert(added, e.value));
    if no_zero(s) && e.value != 0 {
        assert forall|a: int| 0 <= a < t.len() implies (#[trigger] t[a]).value != 0 by {
            if a < s.len() {
                assert(s[a].value != 0);
            }
        }
    }
}

impl View for RoomVars {
    type V = Map<(u64, Seq<char>), i32>;

    closed spec fn view(&self) -> Map<(u64, Seq<char>), i32> {
        as_map(self.entries@)
    }
}

impl RoomVars {
    /// No variable is stored twice, and none with the value zero.
    pub closed spec fn wf(&self) -> bool {
        &&& distinct_keys(self.entries@)
        &&& no_zero(self.entries@)
    }

    pub fn new() -> (vars: RoomVars)
        ensures
            vars.wf(),
            vars@ == Map::<(u64, Seq<char>), i32>::empty(),
    {
        let vars = RoomVars { entries: Vec::new() };
        assert(vars@ =~= Map::<(u64, Seq<char>), i32>::empty());
        vars
    }

    fn position(&self, room_id: RoomId, var: &String) -> (at: Option<usize>)
        ensures
            match at {
                Some(i) => i < self.entries@.len() && key_of(self.entries@[i as int]) == (
                    room_id.value,
                    var@,
                ),
                None => !has_key(self.entries@, (room_id.value, var@)),
            },
    {
        let mut i: usize = 0;
        while i < self.entries.len()
            invariant
                i <= self.entries@.len(),
                forall|j: int|
                    0 <= j < i ==> key_of(#[trigger] self.entries@[j]) != (room_id.value, var@),
            decreases self.entries@.len() - i,
        {
            if self.entries[i].room_id.value == room_id.value && self.entries[i].name.eq(var) {
                return Some(i);
            }
            i = i + 1;
        }
        None
    }

    /// Reads a variable of a room.
    pub fn get(&self, room_id: RoomId, var: &String) -> (value: i32)
        requires
            self.wf(),
        ensures
            value == var_value(self@, room_id.value, var@),
    {
        match self.position(room_id, var) {
            Some(i) => {
                proof {
                    lemma_lookup(self.entries@, i as int);
                }
                self.entries[i].value
            },
            None => 0,
        }
    }

    /// Sets a variable of a room.
    pub fn set(&mut self, room_id: RoomId, var: String, value: i32)
        requires
            old(self).wf(),
        ensures
            final(self).wf(),
            final(self)@ == with_var(old(self)@, room_id.value, var@, value),
    {
        let ghost key = (room_id.value, var@);
        match self.position(room_id, &var) {
            Some(i) => {
                proof {
                    lemma_remove(self.entries@, i as int);
                }
                self.entries.remove(i);
            },
            None => {
                assert(self@ =~= old(self)@.remove(key));
            },
        }
        assert(self@ == old(self)@.remove(key));
        assert(!has_key(self.entries@, key));
        if value != 0 {
            let entry = RoomVar { room_id, name: var, value };
            proof {
                lemma_push(self.entries@, entry);
            }
            self.entries.push(entry);
            assert(self@ =~= old(self)@.insert(key, value));
        }
    }
}

/// The store never keeps a zero: every variable that is stored has a value
/// other than zero.
pub proof fn lemma_no_zero_stored(vars: RoomVars)
    requires
        vars.wf(),
    ensures
        forall|k: (u64, Seq<char>)| vars@.contains_key(k) ==> #[trigger] vars@[k] != 0,
{
    assert forall|k: (u64, Seq<char>)| vars@.contains_key(k) implies #[trigger] vars@[k]
        != 0 by {
        let i = index_for(vars.entries@, k);
        assert(vars.entries@[i].value != 0);
    }
}

} // verus!
