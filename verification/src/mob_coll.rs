use crate::id::{MobId, RoomId};
use crate::mob::{MobInstance, MobView};
use crate::room_index::{
    add_to_index, bucket_of, buckets_view, consistent, lemma_bucket_holds_occupants, lemma_enter,
    lemma_enter_then_leave, lemma_leave, lemma_one_bucket_each, members, occupants, placed_once,
    remove_from_index, with_member, with_moved, without_member,
};
use std::collections::HashMap;
use vstd::prelude::*;

verus! {

/// The live mobs, by identifier, with an index of which mob is in which room.
#[derive(Debug)]
pub struct MobColl {
    by_id: HashMap<u64, MobInstance>,
    by_room_id: HashMap<u64, Vec<MobId>>,
}

/// The room index after a mob changed its room from `from` to `to`.
pub open spec fn mob_index_after_change(
    buckets: Map<u64, Seq<MobId>>,
    id: MobId,
    from: u64,
    to: u64,
) -> Map<u64, Seq<MobId>> {
    if from != to {
        with_moved(buckets, id, from, to)
    } else {
        buckets
    }
}

impl MobColl {
    /// The mobs by identifier value.
    pub closed spec fn entities(&self) -> Map<u64, MobInstance> {
        self.by_id@
    }

    /// The identifiers in each room that holds a mob, in order of arrival.
    pub closed spec fn buckets(&self) -> Map<u64, Seq<MobId>> {
        buckets_view(self.by_room_id@)
    }

    /// What each mob holds.
    pub open spec fn views(&self) -> Map<u64, MobView> {
        self.entities().map_values(|m: MobInstance| m@)
    }

    /// The room of each mob.
    pub open spec fn rooms(&self) -> Map<u64, u64> {
        self.entities().map_values(|m: MobInstance| m.room_id.value)
    }

    /// The mobs that are in a room.
    pub open spec fn occupants(&self, room: u64) -> Set<u64> {
        occupants(self.rooms(), room)
    }

    /// Every mob is filed under its own identifier, and the room index
    /// agrees with the mobs' rooms.
    pub open spec fn wf(&self) -> bool {
        &&& self.entities().dom().finite()
        &&& forall|v: u64| #[trigger]
            self.entities().contains_key(v) ==> self.entities()[v].id.value == v
        &&& consistent(self.rooms(), self.buckets())
    }

    pub fn new() -> (coll: Self)
        ensures
            coll.wf(),
            coll.entities() == Map::<u64, MobInstance>::empty(),
            coll.buckets() == Map::<u64, Seq<MobId>>::empty(),
    {
        let coll = MobColl { by_id: HashMap::new(), by_room_id: HashMap::new() };
        assert(coll.buckets() =~= Map::<u64, Seq<MobId>>::empty());
        assert(coll.rooms() =~= Map::<u64, u64>::empty());
        coll
    }

    pub fn by_id(&self) -> (r: &HashMap<u64, MobInstance>)
        ensures
            r@ == self.entities(),
    {
        &self.by_id
    }

    pub fn by_room_id(&self) -> (r: &HashMap<u64, Vec<MobId>>)
        ensures
            buckets_view(r@) == self.buckets(),
    {
        &self.by_room_id
    }

    /// The mobs in a room, in order of arrival.
    pub fn ids_in_room(&self, room_id: RoomId) -> (ids: Vec<MobId>)
        ensures
            ids@ == bucket_of(self.buckets(), room_id.value),
            self.wf() ==> members(ids@) == self.occupants(room_id.value) && ids@.no_duplicates(),
    {
        broadcast use vstd::std_specs::hash::group_hash_axioms;

        let mut out: Vec<MobId> = Vec::new();
        match self.by_room_id.get(&room_id.value) {
            Some(bucket) => {
                let mut i: usize = 0;
                while i < bucket.len()
                    invariant
                        i <= bucket@.len(),
                        out@ == bucket@.take(i as int),
                    decreases bucket@.len() - i,
                {
                    out.push(bucket[i]);
                    assert(out@ =~= bucket@.take(i + 1));
                    i = i + 1;
                }
                assert(bucket@.take(i as int) =~= bucket@);
            },
            None => {},
        }
        proof {
            if self.wf() {
                lemma_bucket_holds_occupants(self.rooms(), self.buckets(), room_id.value);
            }
        }
        out
    }

    /// Registers a mob whose identifier is not in use.
    pub fn insert(&mut self, mob: MobInstance)
        requires
            old(self).wf(),
            !old(self).entities().contains_key(mob.id.value),
        ensures
            final(self).wf(),
            final(self).entities() == old(self).entities().insert(mob.id.value, mob),
            final(self).buckets() == with_member(old(self).buckets(), mob.id, mob.room_id.value),
    {
        broadcast use vstd::std_specs::hash::group_hash_axioms;

        let id = mob.id;
        let room_id = mob.room_id;
        proof {
            lemma_enter(self.rooms(), self.buckets(), id, room_id.value);
        }
        self.by_id.insert(id.value, mob);
        self.add_to_room_index(id, room_id);
        assert(self.rooms() =~= old(self).rooms().insert(id.value, room_id.value));
    }

    /// Lets `f` change one mob, then files the mob under its new room if the
    /// room changed.
    pub fn modify<T, F: FnOnce(MobInstance) -> (MobInstance, T)>(
        &mut self,
        id: &MobId,
        f: F,
    ) -> (result: T)
        requires
            old(self).wf(),
            old(self).entities().contains_key(id.value),
            f.requires((old(self).entities()[id.value],)),
            forall|q: MobInstance, t: T|
                f.ensures((old(self).entities()[id.value],), (q, t)) ==> q.id == id,
        ensures
            final(self).wf(),
            final(self).entities().contains_key(id.value),
            f.ensures(
                (old(self).entities()[id.value],),
                (final(self).entities()[id.value], result),
            ),
            final(self).entities() == old(self).entities().insert(
                id.value,
                final(self).entities()[id.value],
            ),
            final(self).buckets() == mob_index_after_change(
                old(self).buckets(),
                *id,
                old(self).entities()[id.value].room_id.value,
                final(self).entities()[id.value].room_id.value,
            ),
    {
        broadcast use vstd::std_specs::hash::group_hash_axioms;

        let ghost rooms0 = self.rooms();
        let ghost buckets0 = self.buckets();
        let before = match self.by_id.remove(&id.value) {
            Some(m) => m,
            None => {
                proof {
                    assert(false);
                }
                return vstd::pervasive::unreached();
            },
        };
        let from = before.room_id;
        let (after, result) = f(before);
        let to = after.room_id;
        self.by_id.insert(id.value, after);
        assert(self.entities() =~= old(self).entities().insert(id.value, after));
        if from.value != to.value {
            proof {
                lemma_leave(rooms0, buckets0, *id);
                lemma_enter(
                    rooms0.remove(id.value),
                    without_member(buckets0, *id, from.value),
                    *id,
                    to.value,
                );
                assert(self.rooms() =~= rooms0.remove(id.value).insert(id.value, to.value));
                assert(buckets0.contains_key(from.value));
                assert(buckets0[from.value].no_duplicates());
            }
            self.remove_from_room_index(*id, from);
            self.add_to_room_index(*id, to);
        } else {
            assert(self.rooms() =~= rooms0);
        }
        result
    }

    /// Takes a mob out. Nothing changes where the identifier is not in use.
    pub fn remove(&mut self, id: &MobId) -> (removed: Option<MobInstance>)
        requires
            old(self).wf(),
        ensures
            final(self).wf(),
            removed == (if old(self).entities().contains_key(id.value) {
                Some(old(self).entities()[id.value])
            } else {
                None
            }),
            final(self).entities() == old(self).entities().remove(id.value),
            final(self).buckets() == (match removed {
                Some(m) => without_member(old(self).buckets(), *id, m.room_id.value),
                None => old(self).buckets(),
            }),
    {
        broadcast use vstd::std_specs::hash::group_hash_axioms;

        let ghost rooms0 = self.rooms();
        let ghost buckets0 = self.buckets();
        match self.by_id.remove(&id.value) {
            Some(removed) => {
                let room_id = removed.room_id;
                proof {
                    lemma_leave(rooms0, buckets0, *id);
                    assert(self.rooms() =~= rooms0.remove(id.value));
                    assert(buckets0.contains_key(room_id.value));
                    assert(buckets0[room_id.value].no_duplicates());
                }
                self.remove_from_room_index(*id, room_id);
                assert(self.entities() =~= old(self).entities().remove(id.value));
                assert(self.rooms() =~= rooms0.remove(id.value));
                Some(removed)
            },
            None => {
                assert(self.entities() =~= old(self).entities().remove(id.value));
                assert(self.entities() == old(self).entities());
                assert(self.buckets() == buckets0);
                None
            },
        }
    }

    fn add_to_room_index(&mut self, mob_id: MobId, room_id: RoomId)
        ensures
            final(self).buckets() == with_member(old(self).buckets(), mob_id, room_id.value),
            final(self).entities() == old(self).entities(),
    {
        add_to_index(&mut self.by_room_id, mob_id, room_id);
    }

    fn remove_from_room_index(&mut self, mob_id: MobId, room_id: RoomId)
        requires
            old(self).buckets().contains_key(room_id.value),
            old(self).buckets()[room_id.value].no_duplicates(),
        ensures
            final(self).buckets() == without_member(old(self).buckets(), mob_id, room_id.value),
            final(self).entities() == old(self).entities(),
    {
        remove_from_index(&mut self.by_room_id, mob_id, room_id);
    }
}

/// In a well-formed collection every mob stands in the bucket of its own
/// room, at one place, and nowhere else in the index; and every place in a
/// bucket holds a mob of the collection.
pub proof fn lemma_mobs_filed_once(coll: MobColl)
    requires
        coll.wf(),
    ensures
        forall|v: u64| #[trigger]
            coll.entities().contains_key(v) ==> placed_once(
                coll.buckets(),
                v,
                coll.entities()[v].room_id.value,
            ),
        forall|room: u64, i: int|
            coll.buckets().contains_key(room) && 0 <= i < coll.buckets()[room].len()
                ==> coll.entities().contains_key((#[trigger] coll.buckets()[room][i]).value),
{
    lemma_one_bucket_each(coll.rooms(), coll.buckets());
    assert forall|v: u64| #[trigger] coll.entities().contains_key(v) implies placed_once(
        coll.buckets(),
        v,
        coll.entities()[v].room_id.value,
    ) by {
        assert(coll.rooms().contains_key(v));
    }
    assert forall|room: u64, i: int|
        coll.buckets().contains_key(room) && 0 <= i < coll.buckets()[room].len()
            implies coll.entities().contains_key((#[trigger] coll.buckets()[room][i]).value) by {
        assert(coll.rooms().contains_key(coll.buckets()[room][i].value));
    }
}

/// Putting a mob into a well-formed collection and taking it out again
/// leaves the mobs and the room index as they were. In particular a mob
/// spawned into an empty collection and removed at once leaves no mob and no
/// bucket behind.
pub proof fn lemma_insert_then_remove_restores(
    before: MobColl,
    between: MobColl,
    after: MobColl,
    mob: MobInstance,
)
    requires
        before.wf(),
        !before.entities().contains_key(mob.id.value),
        between.entities() == before.entities().insert(mob.id.value, mob),
        between.buckets() == with_member(before.buckets(), mob.id, mob.room_id.value),
        after.entities() == between.entities().remove(mob.id.value),
        after.buckets() == without_member(between.buckets(), mob.id, mob.room_id.value),
    ensures
        after.entities() == before.entities(),
        after.buckets() == before.buckets(),
        before.entities() == Map::<u64, MobInstance>::empty() && before.buckets() == Map::<
            u64,
            Seq<MobId>,
        >::empty() ==> after.entities() == Map::<u64, MobInstance>::empty() && after.buckets()
            == Map::<u64, Seq<MobId>>::empty(),
{
    lemma_enter_then_leave(before.rooms(), before.buckets(), mob.id, mob.room_id.value);
    assert(after.entities() =~= before.entities());
}

} // verus!
