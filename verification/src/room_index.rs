use crate::id::{Id, RoomId};
use std::collections::HashMap;
use vstd::prelude::*;

verus! {

/// The bucket of a room, empty where the room has none.
pub open spec fn bucket_of<T>(buckets: Map<u64, Seq<Id<T>>>, room: u64) -> Seq<Id<T>> {
    if buckets.contains_key(room) {
        buckets[room]
    } else {
        Seq::empty()
    }
}

/// A bucket without the given member.
pub open spec fn without<T>(bucket: Seq<Id<T>>, id: Id<T>) -> Seq<Id<T>> {
    if bucket.contains(id) {
        bucket.remove(bucket.index_of(id))
    } else {
        bucket
    }
}

/// The index after `id` has entered `room`: it stands last in that bucket.
pub open spec fn with_member<T>(buckets: Map<u64, Seq<Id<T>>>, id: Id<T>, room: u64) -> Map<
    u64,
    Seq<Id<T>>,
> {
    buckets.insert(room, bucket_of(buckets, room).push(id))
}

/// The index after `id` has left `room`. A bucket that becomes empty is
/// dropped from the index.
pub open spec fn without_member<T>(buckets: Map<u64, Seq<Id<T>>>, id: Id<T>, room: u64) -> Map<
    u64,
    Seq<Id<T>>,
> {
    let rest = without(bucket_of(buckets, room), id);
    if rest.len() == 0 {
        buckets.remove(room)
    } else {
        buckets.insert(room, rest)
    }
}

/// The index after `id` has moved from one room to another.
pub open spec fn with_moved<T>(buckets: Map<u64, Seq<Id<T>>>, id: Id<T>, from: u64, to: u64) -> Map<
    u64,
    Seq<Id<T>>,
> {
    with_member(without_member(buckets, id, from), id, to)
}

/// Whether a room index agrees with the room that each entity is in:
/// `rooms` maps the identifier of every entity to its room. Each entity is
/// then in the bucket of its room and in no other, once, and no bucket is
/// empty.
pub open spec fn consistent<T>(rooms: Map<u64, u64>, buckets: Map<u64, Seq<Id<T>>>) -> bool {
    &&& forall|id: u64| #[trigger]
        rooms.contains_key(id) ==> buckets.contains_key(rooms[id]) && buckets[rooms[id]].contains(
            Id::<T> { value: id, phantom: std::marker::PhantomData },
        )
    &&& forall|room: u64| #[trigger]
        buckets.contains_key(room) ==> buckets[room].len() > 0 && buckets[room].no_duplicates()
    &&& forall|room: u64, i: int|
        buckets.contains_key(room) && 0 <= i < buckets[room].len() ==> rooms.contains_key(
            (#[trigger] buckets[room][i]).value,
        ) && rooms[buckets[room][i].value] == room
}

/// The identifier values of the entities that are in a room.
pub open spec fn occupants(rooms: Map<u64, u64>, room: u64) -> Set<u64> {
    Set::new(|id: u64| rooms.contains_key(id) && rooms[id] == room)
}

/// The identifier values in a bucket.
pub open spec fn members<T>(bucket: Seq<Id<T>>) -> Set<u64> {
    Set::new(|v: u64| bucket.contains(Id::<T> { value: v, phantom: std::marker::PhantomData }))
}

/// In a consistent index the bucket of a room holds exactly the entities
/// that are in the room.
pub proof fn lemma_bucket_holds_occupants<T>(
    rooms: Map<u64, u64>,
    buckets: Map<u64, Seq<Id<T>>>,
    room: u64,
)
    requires
        consistent(rooms, buckets),
    ensures
        members(bucket_of(buckets, room)) == occupants(rooms, room),
{
    let b = bucket_of(buckets, room);
    assert forall|v: u64| members(b).contains(v) <==> occupants(rooms, room).contains(v) by {
        let id = Id::<T> { value: v, phantom: std::marker::PhantomData };
        if b.contains(id) {
            let i = choose|i: int| 0 <= i < b.len() && b[i] == id;
            assert(buckets[room][i].value == v);
        }
    }
    assert(members(b) =~= occupants(rooms, room));
}

/// Every entity of a consistent index is in exactly one bucket, at exactly
/// one place, and every place in a bucket holds an entity.
pub proof fn lemma_one_bucket_each<T>(rooms: Map<u64, u64>, buckets: Map<u64, Seq<Id<T>>>)
    requires
        consistent(rooms, buckets),
    ensures
        forall|v: u64| #[trigger]
            rooms.contains_key(v) ==> placed_once(buckets, v, rooms[v]),
        forall|room: u64, i: int|
            buckets.contains_key(room) && 0 <= i < buckets[room].len() ==> rooms.contains_key(
                (#[trigger] buckets[room][i]).value,
            ),
{
    assert forall|v: u64| #[trigger] rooms.contains_key(v) implies placed_once(
        buckets,
        v,
        rooms[v],
    ) by {
        let id = Id::<T> { value: v, phantom: std::marker::PhantomData };
        let home = rooms[v];
        let at = choose|i: int| 0 <= i < buckets[home].len() && buckets[home][i] == id;
        assert forall|room: u64, i: int|
            buckets.contains_key(room) && 0 <= i < buckets[room].len() && (
            #[trigger] buckets[room][i]).value == v implies room == home && i == at by {
            assert(rooms[buckets[room][i].value] == room);
            assert(buckets[home][i] == buckets[home][at]);
        }
        assert(buckets[home][at].value == v);
    }
}

/// Whether the identifier value `v` stands at one place of the bucket of
/// `home` and nowhere else in the index.
pub open spec fn placed_once<T>(buckets: Map<u64, Seq<Id<T>>>, v: u64, home: u64) -> bool {
    exists|at: int|
        {
            &&& buckets.contains_key(home)
            &&& 0 <= at < buckets[home].len()
            &&& (#[trigger] buckets[home][at]).value == v
            &&& forall|room: u64, i: int|
                buckets.contains_key(room) && 0 <= i < buckets[room].len() && (
                #[trigger] buckets[room][i]).value == v ==> room == home && i == at
        }
}

/// Entering a room keeps the index consistent.
pub proof fn lemma_enter<T>(rooms: Map<u64, u64>, buckets: Map<u64, Seq<Id<T>>>, id: Id<T>, room: u64)
    requires
        consistent(rooms, buckets),
        !rooms.contains_key(id.value),
    ensures
        consistent(rooms.insert(id.value, room), with_member(buckets, id, room)),
{
    let r2 = rooms.insert(id.value, room);
    let b2 = with_member(buckets, id, room);
    let old_bucket = bucket_of(buckets, room);
    let new_bucket = old_bucket.push(id);
    assert(!old_bucket.contains(id)) by {
        if old_bucket.contains(id) {
            let i = choose|i: int| 0 <= i < old_bucket.len() && old_bucket[i] == id;
            assert(rooms.contains_key(buckets[room][i].value));
        }
    }
    assert forall|v: u64| #[trigger] r2.contains_key(v) implies b2.contains_key(r2[v])
        && b2[r2[v]].contains(Id::<T> { value: v, phantom: std::marker::PhantomData }) by {
        let e = Id::<T> { value: v, phantom: std::marker::PhantomData };
        if v == id.value {
            assert(new_bucket[old_bucket.len() as int] == e);
        } else {
            let home = rooms[v];
            assert(buckets[home].contains(e));
            if home == room {
                let i = choose|i: int| 0 <= i < old_bucket.len() && old_bucket[i] == e;
                assert(new_bucket[i] == e);
            }
        }
    }
    assert forall|r: u64| #[trigger] b2.contains_key(r) implies b2[r].len() > 0
        && b2[r].no_duplicates() by {
        if r == room {
            assert forall|i: int, j: int|
                0 <= i < new_bucket.len() && 0 <= j < new_bucket.len() && i != j implies new_bucket[i]
                != new_bucket[j] by {
                if i < old_bucket.len() {
                    assert(old_bucket.contains(old_bucket[i]));
                }
                if j < old_bucket.len() {
                    assert(old_bucket.contains(old_bucket[j]));
                }
            }
        }
    }
    assert forall|r: u64, i: int| b2.contains_key(r) && 0 <= i < b2[r].len() implies r2.contains_key(
        (#[trigger] b2[r][i]).value,
    ) && r2[b2[r][i].value] == r by {
        if r == room {
            if i < old_bucket.len() {
                assert(buckets[room][i] == new_bucket[i]);
                assert(rooms.contains_key(buckets[room][i].value));
            }
        } else {
            assert(rooms.contains_key(buckets[r][i].value));
        }
    }
}

/// Leaving the room it is in keeps the index consistent.
pub proof fn lemma_leave<T>(rooms: Map<u64, u64>, buckets: Map<u64, Seq<Id<T>>>, id: Id<T>)
    requires
        consistent(rooms, buckets),
        rooms.contains_key(id.value),
    ensures
        consistent(rooms.remove(id.value), without_member(buckets, id, rooms[id.value])),
{
    let room = rooms[id.value];
    let r2 = rooms.remove(id.value);
    let b2 = without_member(buckets, id, room);
    let old_bucket = buckets[room];
    assert(old_bucket.contains(id));
    let at = old_bucket.index_of(id);
    let rest = old_bucket.remove(at);
    assert(rest == without(bucket_of(buckets, room), id));
    assert forall|i: int| 0 <= i < rest.len() implies #[trigger] rest[i] != id && old_bucket.contains(
        rest[i],
    ) by {
        let k = if i < at {
            i
        } else {
            i + 1
        };
        assert(rest[i] == old_bucket[k]);
    }
    assert forall|v: u64| #[trigger] r2.contains_key(v) implies b2.contains_key(r2[v])
        && b2[r2[v]].contains(Id::<T> { value: v, phantom: std::marker::PhantomData }) by {
        let e = Id::<T> { value: v, phantom: std::marker::PhantomData };
        let home = rooms[v];
        assert(buckets[home].contains(e));
        if home == room {
            let i = choose|i: int| 0 <= i < old_bucket.len() && old_bucket[i] == e;
            let k = if i < at {
                i
            } else {
                i - 1
            };
            assert(rest[k] == e);
        }
    }
    assert forall|r: u64| #[trigger] b2.contains_key(r) implies b2[r].len() > 0
        && b2[r].no_duplicates() by {
        if r == room {
            assert forall|i: int, j: int|
                0 <= i < rest.len() && 0 <= j < rest.len() && i != j implies rest[i] != rest[j] by {
                let ki = if i < at {
                    i
                } else {
                    i + 1
                };
                let kj = if j < at {
                    j
                } else {
                    j + 1
                };
                assert(rest[i] == old_bucket[ki]);
                assert(rest[j] == old_bucket[kj]);
            }
        }
    }
    assert forall|r: u64, i: int| b2.contains_key(r) && 0 <= i < b2[r].len() implies r2.contains_key(
        (#[trigger] b2[r][i]).value,
    ) && r2[b2[r][i].value] == r by {
        if r == room {
            let k = if i < at {
                i
            } else {
                i + 1
            };
            assert(rest[i] == old_bucket[k]);
            assert(rooms.contains_key(buckets[room][k].value));
            assert(rest[i] != id);
        } else {
            assert(rooms.contains_key(buckets[r][i].value));
        }
    }
}

/// An entity that enters a room of a consistent index and leaves it again
/// leaves the index as it was.
pub proof fn lemma_enter_then_leave<T>(
    rooms: Map<u64, u64>,
    buckets: Map<u64, Seq<Id<T>>>,
    id: Id<T>,
    room: u64,
)
    requires
        consistent(rooms, buckets),
        !rooms.contains_key(id.value),
    ensures
        without_member(with_member(buckets, id, room), id, room) == buckets,
{
    let old_bucket = bucket_of(buckets, room);
    let entered = with_member(buckets, id, room);
    let new_bucket = old_bucket.push(id);
    assert(!old_bucket.contains(id)) by {
        if old_bucket.contains(id) {
            let i = choose|i: int| 0 <= i < old_bucket.len() && old_bucket[i] == id;
            assert(rooms.contains_key(buckets[room][i].value));
        }
    }
    assert(new_bucket[old_bucket.len() as int] == id);
    assert(new_bucket.contains(id));
    let at = new_bucket.index_of(id);
    assert(at == old_bucket.len()) by {
        if at < old_bucket.len() {
            assert(old_bucket[at] == id);
        }
    }
    assert(new_bucket.remove(at) =~= old_bucket);
    assert(without_member(entered, id, room) =~= buckets);
}

/// What the buckets of an index hold, room by room.
pub open spec fn buckets_view<T>(index: Map<u64, Vec<Id<T>>>) -> Map<u64, Seq<Id<T>>> {
    index.map_values(|v: Vec<Id<T>>| v@)
}

/// Puts an entity last in the bucket of a room.
pub fn add_to_index<T>(index: &mut HashMap<u64, Vec<Id<T>>>, id: Id<T>, room_id: RoomId)
    ensures
        buckets_view(final(index)@) == with_member(buckets_view(old(index)@), id, room_id.value),
{
    broadcast use vstd::std_specs::hash::group_hash_axioms;

    let mut bucket: Vec<Id<T>> = match index.remove(&room_id.value) {
        Some(b) => b,
        None => Vec::new(),
    };
    bucket.push(id);
    index.insert(room_id.value, bucket);
    assert(buckets_view(index@) =~= with_member(buckets_view(old(index)@), id, room_id.value));
}

/// Takes an entity out of the bucket of a room, and drops the bucket when
/// nothing is left in it.
pub fn remove_from_index<T>(index: &mut HashMap<u64, Vec<Id<T>>>, id: Id<T>, room_id: RoomId)
    requires
        old(index)@.contains_key(room_id.value),
        old(index)@[room_id.value]@.no_duplicates(),
    ensures
        buckets_view(final(index)@) == without_member(
            buckets_view(old(index)@),
            id,
            room_id.value,
        ),
{
    broadcast use vstd::std_specs::hash::group_hash_axioms;

    let ghost before = buckets_view(index@);
    let ghost old_bucket = before[room_id.value];
    let mut bucket: Vec<Id<T>> = match index.remove(&room_id.value) {
        Some(b) => b,
        None => Vec::new(),
    };
    assert(bucket@ == old_bucket);
    let mut i: usize = 0;
    while i < bucket.len() && bucket[i].value != id.value
        invariant
            i <= bucket@.len(),
            bucket@ == old_bucket,
            forall|j: int| 0 <= j < i ==> bucket@[j] != id,
        decreases bucket@.len() - i,
    {
        i = i + 1;
    }
    let found = i < bucket.len();
    if found {
        proof {
            assert(old_bucket.contains(id));
            let at = old_bucket.index_of(id);
            assert(old_bucket[at] == old_bucket[i as int]);
        }
        bucket.remove(i);
    }
    assert(bucket@ == without(old_bucket, id));
    if bucket.len() > 0 {
        index.insert(room_id.value, bucket);
    }
    assert(buckets_view(index@) =~= without_member(before, id, room_id.value));
}

} // verus!
