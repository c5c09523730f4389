use crate::id::{PlayerId, RoomId};
use crate::player::Player;
use crate::room_index::{
    add_to_index, bucket_of, buckets_view, consistent, lemma_bucket_holds_occupants, lemma_enter,
    lemma_leave, lemma_one_bucket_each, members, occupants, placed_once, remove_from_index,
    with_member, with_moved, without_member,
};
use std::collections::{HashMap, HashSet};
use vstd::prelude::*;

verus! {

/// The connected players, by identifier, with an index of who is in which
/// room and the set of rooms whose occupants or their vitals have changed
/// since the marks were last cleared.
#[derive(Debug)]
pub struct PlayerColl {
    by_id: HashMap<u64, Player>,
    by_room_id: HashMap<u64, Vec<PlayerId>>,
    room_info_changed: HashSet<u64>,
}

/// The marks after an entity changed from `before` to `after`: both rooms
/// where it moved, and the room it was in where its vitals changed.
pub open spec fn marks_after_change(changed: Set<u64>, before: Player, after: Player) -> Set<u64> {
    let moved = if before.room_id.value != after.room_id.value {
        changed.insert(before.room_id.value).insert(after.room_id.value)
    } else {
        changed
    };
    if before.hp != after.hp || before.max_hp != after.max_hp {
        moved.insert(before.room_id.value)
    } else {
        moved
    }
}

/// The room index after an entity changed its room from `from` to `to`.
pub open spec fn index_after_change(
    buckets: Map<u64, Seq<PlayerId>>,
    id: PlayerId,
    from: u64,
    to: u64,
) -> Map<u64, Seq<PlayerId>> {
    if from != to {
        with_moved(buckets, id, from, to)
    } else {
        buckets
    }
}

impl PlayerColl {
    /// The players by identifier value.
    pub closed spec fn entities(&self) -> Map<u64, Player> {
        self.by_id@
    }

    /// The identifiers in each room that holds a player, in order of arrival.
    pub closed spec fn buckets(&self) -> Map<u64, Seq<PlayerId>> {
        buckets_view(self.by_room_id@)
    }

    /// The rooms marked as changed.
    pub closed spec fn changed(&self) -> Set<u64> {
        self.room_info_changed@
    }

    /// The room of each player.
    pub open spec fn rooms(&self) -> Map<u64, u64> {
        self.entities().map_values(|p: Player| p.room_id.value)
    }

    /// The players that are in a room.
    pub open spec fn occupants(&self, room: u64) -> Set<u64> {
        occupants(self.rooms(), room)
    }

    /// Every player is filed under its own identifier, and the room index
    /// agrees with the players' rooms.
    pub open spec fn wf(&self) -> bool {
        &&& self.entities().dom().finite()
        &&& forall|v: u64| #[trigger]
            self.entities().contains_key(v) ==> self.entities()[v].id.value == v
        &&& consistent(self.rooms(), self.buckets())
    }

    pub fn new() -> (coll: Self)
        ensures
            coll.wf(),
            coll.entities() == Map::<u64, Player>::empty(),
            coll.buckets() == Map::<u64, Seq<PlayerId>>::empty(),
            coll.changed() == Set::<u64>::empty(),
    {
        let coll = PlayerColl {
            by_id: HashMap::new(),
            by_room_id: HashMap::new(),
            room_info_changed: HashSet::new(),
        };
        assert(coll.buckets() =~= Map::<u64, Seq<PlayerId>>::empty());
        assert(coll.rooms() =~= Map::<u64, u64>::empty());
        coll
    }

    pub fn by_id(&self) -> (r: &HashMap<u64, Player>)
        ensures
            r@ == self.entities(),
    {
        &self.by_id
    }

    pub fn by_room_id(&self) -> (r: &HashMap<u64, Vec<PlayerId>>)
        ensures
            buckets_view(r@) == self.buckets(),
    {
        &self.by_room_id
    }

    pub fn room_info_changed(&self) -> (r: &HashSet<u64>)
        ensures
            r@ == self.changed(),
    {
        &self.room_info_changed
    }

    /// Takes all marks away.
    pub fn clear_room_info_changed(&mut self)
        ensures
            final(self).changed() == Set::<u64>::empty(),
            final(self).entities() == old(self).entities(),
            final(self).buckets() == old(self).buckets(),
    {
        self.room_info_changed.clear()
    }

    /// The players in a room, in order of arrival.
    pub fn ids_in_room(&self, room_id: RoomId) -> (ids: Vec<PlayerId>)
        ensures
            ids@ == bucket_of(self.buckets(), room_id.value),
            self.wf() ==> members(ids@) == self.occupants(room_id.value) && ids@.no_duplicates(),
    {
        broadcast use vstd::std_specs::hash::group_hash_axioms;

        let mut out: Vec<PlayerId> = Vec::new();
        match self.by_room_id.get(&room_id.value) {
            Some(bucket) => {
                let mut i: usize = 0;
                while i < bucket.len()
                    invariant
                        i <= bucket@.len(),
                        out@ == bucket@.take(i as int),
                    decreases bucket@.len() - i,
                {
                    out.push(bucket[i]);
                    assert(out@ =~= bucket@.take(i + 1));
                    i = i + 1;
                }
                assert(bucket@.take(i as int) =~= bucket@);
            },
            None => {},
        }
        proof {
            if self.wf() {
                lemma_bucket_holds_occupants(self.rooms(), self.buckets(), room_id.value);
            }
        }
        out
    }

    /// The players in a room but one, in order of arrival.
    pub fn ids_in_room_except(&self, room_id: RoomId, except: PlayerId) -> (ids: Vec<PlayerId>)
        ensures
            ids@ == bucket_of(self.buckets(), room_id.value).filter(|id: PlayerId| id != except),
            self.wf() ==> members(ids@) == self.occupants(room_id.value).remove(except.value)
                && ids@.no_duplicates(),
    {
        broadcast use vstd::std_specs::hash::group_hash_axioms;

        let ghost keep = |id: PlayerId| id != except;
        let ghost whole = bucket_of(self.buckets(), room_id.value);
        let mut out: Vec<PlayerId> = Vec::new();
        match self.by_room_id.get(&room_id.value) {
            Some(bucket) => {
                let mut i: usize = 0;
                assert(bucket@.take(0).filter(keep) =~= Seq::<PlayerId>::empty()) by {
                    reveal(Seq::filter);
                }
                while i < bucket.len()
                    invariant
                        i <= bucket@.len(),
                        keep == (|id: PlayerId| id != except),
                        out@ == bucket@.take(i as int).filter(keep),
                        forall|x: PlayerId|
                            out@.contains(x) <==> bucket@.take(i as int).contains(x) && x
                                != except,
                        bucket@.no_duplicates() ==> out@.no_duplicates(),
                    decreases bucket@.len() - i,
                {
                    let ghost before = out@;
                    let ghost seen = bucket@.take(i as int);
                    let ghost upto = bucket@.take(i + 1);
                    proof {
                        assert(upto.drop_last() =~= seen);
                        assert(upto.last() == bucket@[i as int]);
                        reveal(Seq::filter);
                    }
                    if bucket[i].value != except.value {
                        out.push(bucket[i]);
                    }
                    proof {
                        let cur = bucket@[i as int];
                        assert forall|x: PlayerId|
                            out@.contains(x) <==> upto.contains(x) && x != except by {
                            if out@.contains(x) {
                                let k = choose|k: int| 0 <= k < out@.len() && out@[k] == x;
                                if k < before.len() {
                                    assert(before.contains(before[k]));
                                    let n = choose|n: int| 0 <= n < seen.len() && seen[n] == x;
                                    assert(upto[n] == x);
                                } else {
                                    assert(upto[i as int] == x);
                                }
                            }
                            if upto.contains(x) && x != except {
                                let n = choose|n: int| 0 <= n < upto.len() && upto[n] == x;
                                if n < i {
                                    assert(seen[n] == x);
                                    assert(seen.contains(x));
                                    assert(before.contains(x));
                                    let k = choose|k: int|
                                        0 <= k < before.len() && before[k] == x;
                                    assert(out@[k] == x);
                                } else {
                                    assert(out@[before.len() as int] == x);
                                }
                            }
                        }
                        if bucket@.no_duplicates() && cur != except {
                            assert(!before.contains(cur)) by {
                                if before.contains(cur) {
                                    let n = choose|n: int| 0 <= n < seen.len() && seen[n] == cur;
                                    assert(bucket@[n] == bucket@[i as int]);
                                }
                            }
                            assert forall|a: int, b: int|
                                0 <= a < out@.len() && 0 <= b < out@.len() && a
                                    != b implies out@[a] != out@[b] by {
                                if a < before.len() {
                                    assert(before.contains(before[a]));
                                }
                                if b < before.len() {
                                    assert(before.contains(before[b]));
                                }
                            }
                        }
                    }
                    i = i + 1;
                }
                assert(bucket@.take(i as int) =~= bucket@);
            },
            None => {
                assert(whole.filter(keep) =~= Seq::<PlayerId>::empty()) by {
                    reveal(Seq::filter);
                }
            },
        }
        proof {
            if self.wf() {
                lemma_bucket_holds_occupants(self.rooms(), self.buckets(), room_id.value);
                assert forall|v: u64| members(out@).contains(v) <==> self.occupants(
                    room_id.value,
                ).remove(except.value).contains(v) by {
                    let id = PlayerId { value: v, phantom: std::marker::PhantomData };
                    assert(members(whole).contains(v) <==> whole.contains(id));
                }
                assert(members(out@) =~= self.occupants(room_id.value).remove(except.value));
            }
        }
        out
    }

    /// Registers a player whose identifier is not in use.
    pub fn insert(&mut self, player: Player)
        requires
            old(self).wf(),
            !old(self).entities().contains_key(player.id.value),
        ensures
            final(self).wf(),
            final(self).entities() == old(self).entities().insert(player.id.value, player),
            final(self).buckets() == with_member(
                old(self).buckets(),
                player.id,
                player.room_id.value,
            ),
            final(self).changed() == old(self).changed().insert(player.room_id.value),
    {
        broadcast use vstd::std_specs::hash::group_hash_axioms;

        let id = player.id;
        let room_id = player.room_id;
        proof {
            lemma_enter(self.rooms(), self.buckets(), id, room_id.value);
        }
        self.by_id.insert(id.value, player);
        self.add_to_room_index(id, room_id);
        self.room_info_changed.insert(room_id.value);
        assert(self.rooms() =~= old(self).rooms().insert(id.value, room_id.value));
    }

    /// Lets `f` change one player, then files the player under its new room
    /// if the room changed and marks the rooms whose snapshot is now stale.
    pub fn modify<T, F: FnOnce(Player) -> (Player, T)>(&mut self, id: &PlayerId, f: F) -> (result:
        T)
        requires
            old(self).wf(),
            old(self).entities().contains_key(id.value),
            f.requires((old(self).entities()[id.value],)),
            forall|q: Player, t: T|
                f.ensures((old(self).entities()[id.value],), (q, t)) ==> q.id == id,
        ensures
            final(self).wf(),
            final(self).entities().contains_key(id.value),
            f.ensures(
                (old(self).entities()[id.value],),
                (final(self).entities()[id.value], result),
            ),
            final(self).entities() == old(self).entities().insert(
                id.value,
                final(self).entities()[id.value],
            ),
            final(self).buckets() == index_after_change(
                old(self).buckets(),
                *id,
                old(self).entities()[id.value].room_id.value,
                final(self).entities()[id.value].room_id.value,
            ),
            final(self).changed() == marks_after_change(
                old(self).changed(),
                old(self).entities()[id.value],
                final(self).entities()[id.value],
            ),
    {
        broadcast use vstd::std_specs::hash::group_hash_axioms;

        let ghost rooms0 = self.rooms();
        let ghost buckets0 = self.buckets();
        let before = match self.by_id.remove(&id.value) {
            Some(p) => p,
            None => {
                proof {
                    assert(false);
                }
                return vstd::pervasive::unreached();
            },
        };
        let from = before.room_id;
        let before_hp = before.hp;
        let before_max_hp = before.max_hp;
        let (after, result) = f(before);
        let to = after.room_id;
        let vitals_changed = before_hp != after.hp || before_max_hp != after.max_hp;
        self.by_id.insert(id.value, after);
        assert(self.entities() =~= old(self).entities().insert(id.value, after));
        if from.value != to.value {
            proof {
                lemma_leave(rooms0, buckets0, *id);
                lemma_enter(
                    rooms0.remove(id.value),
                    without_member(buckets0, *id, from.value),
                    *id,
                    to.value,
                );
                assert(self.rooms() =~= rooms0.remove(id.value).insert(id.value, to.value));
                assert(buckets0.contains_key(from.value));
                assert(buckets0[from.value].no_duplicates());
            }
            self.remove_from_room_index(*id, from);
            self.add_to_room_index(*id, to);
            self.room_info_changed.insert(from.value);
            self.room_info_changed.insert(to.value);
        } else {
            assert(self.rooms() =~= rooms0);
        }
        if vitals_changed {
            self.room_info_changed.insert(from.value);
        }
        result
    }

    /// Takes a player out. Nothing changes where the identifier is not in use.
    pub fn remove(&mut self, id: &PlayerId) -> (removed: Option<Player>)
        requires
            old(self).wf(),
        ensures
            final(self).wf(),
            removed == (if old(self).entities().contains_key(id.value) {
                Some(old(self).entities()[id.value])
            } else {
                None
            }),
            final(self).entities() == old(self).entities().remove(id.value),
            final(self).buckets() == (match removed {
                Some(p) => without_member(old(self).buckets(), *id, p.room_id.value),
                None => old(self).buckets(),
            }),
            final(self).changed() == (match removed {
                Some(p) => old(self).changed().insert(p.room_id.value),
                None => old(self).changed(),
            }),
    {
        broadcast use vstd::std_specs::hash::group_hash_axioms;

        let ghost rooms0 = self.rooms();
        let ghost buckets0 = self.buckets();
        match self.by_id.remove(&id.value) {
            Some(removed) => {
                let room_id = removed.room_id;
                proof {
                    lemma_leave(rooms0, buckets0, *id);
                    assert(self.rooms() =~= rooms0.remove(id.value));
                    assert(buckets0.contains_key(room_id.value));
                    assert(buckets0[room_id.value].no_duplicates());
                }
                self.remove_from_room_index(*id, room_id);
                self.room_info_changed.insert(room_id.value);
                assert(self.entities() =~= old(self).entities().remove(id.value));
                assert(self.rooms() =~= rooms0.remove(id.value));
                Some(removed)
            },
            None => {
                assert(self.entities() =~= old(self).entities().remove(id.value));
                assert(self.entities() == old(self).entities());
                assert(self.buckets() == buckets0);
                None
            },
        }
    }

    fn add_to_room_index(&mut self, player_id: PlayerId, room_id: RoomId)
        ensures
            final(self).buckets() == with_member(old(self).buckets(), player_id, room_id.value),
            final(self).entities() == old(self).entities(),
            final(self).changed() == old(self).changed(),
    {
        add_to_index(&mut self.by_room_id, player_id, room_id);
    }

    fn remove_from_room_index(&mut self, player_id: PlayerId, room_id: RoomId)
        requires
            old(self).buckets().contains_key(room_id.value),
            old(self).buckets()[room_id.value].no_duplicates(),
        ensures
            final(self).buckets() == without_member(old(self).buckets(), player_id, room_id.value),
            final(self).entities() == old(self).entities(),
            final(self).changed() == old(self).changed(),
    {
        remove_from_index(&mut self.by_room_id, player_id, room_id);
    }
}

/// In a well-formed collection every player stands in the bucket of its own
/// room, at one place, and nowhere else in the index; and every place in a
/// bucket holds a player of the collection.
pub proof fn lemma_players_filed_once(coll: PlayerColl)
    requires
        coll.wf(),
    ensures
        forall|v: u64| #[trigger]
            coll.entities().contains_key(v) ==> placed_once(
                coll.buckets(),
                v,
                coll.entities()[v].room_id.value,
            ),
        forall|room: u64, i: int|
            coll.buckets().contains_key(room) && 0 <= i < coll.buckets()[room].len()
                ==> coll.entities().contains_key((#[trigger] coll.buckets()[room][i]).value),
{
    lemma_one_bucket_each(coll.rooms(), coll.buckets());
    assert forall|v: u64| #[trigger] coll.entities().contains_key(v) implies placed_once(
        coll.buckets(),
        v,
        coll.entities()[v].room_id.value,
    ) by {
        assert(coll.rooms().contains_key(v));
    }
    assert forall|room: u64, i: int|
        coll.buckets().contains_key(room) && 0 <= i < coll.buckets()[room].len()
            implies coll.entities().contains_key((#[trigger] coll.buckets()[room][i]).value) by {
        assert(coll.rooms().contains_key(coll.buckets()[room][i].value));
    }
}

} // verus!
