use std::marker::PhantomData;
use vstd::prelude::*;

verus! {

/// Marks identifiers of connected players.
#[derive(Debug)]
pub struct PlayerKind;

/// Marks identifiers of rooms.
#[derive(Debug)]
pub struct RoomKind;

/// Marks identifiers of live mobs.
#[derive(Debug)]
pub struct MobKind;

/// Marks identifiers of mob templates.
#[derive(Debug)]
pub struct MobTemplateKind;

/// An integer tagged with the kind of entity it names, so that an identifier
/// of one kind cannot stand where another kind is expected.
#[derive(Debug)]
pub struct Id<T> {
    pub value: u64,
    pub phantom: PhantomData<T>,
}

pub type PlayerId = Id<PlayerKind>;

pub type RoomId = Id<RoomKind>;

pub type MobId = Id<MobKind>;

pub type MobTemplateId = Id<MobTemplateKind>;

impl<T> Id<T> {
    pub fn new(value: u64) -> (id: Id<T>)
        ensures
            id.value == value,
    {
        Id { value, phantom: PhantomData }
    }
}

impl<T> Clone for Id<T> {
    fn clone(&self) -> (r: Self)
        ensures
            r == *self,
    {
        Id { value: self.value, phantom: PhantomData }
    }
}

impl<T> Copy for Id<T> {

}

impl<T> PartialEq for Id<T> {
    fn eq(&self, other: &Self) -> (r: bool) {
        self.value == other.value
    }
}

impl<T> vstd::std_specs::cmp::PartialEqSpecImpl for Id<T> {
    open spec fn obeys_eq_spec() -> bool {
        true
    }

    open spec fn eq_spec(&self, other: &Self) -> bool {
        self.value == other.value
    }
}

impl<T> Eq for Id<T> {

}

/// The values of a sequence of identifiers.
pub open spec fn id_values<T>(ids: Seq<Id<T>>) -> Seq<u64> {
    ids.map_values(|id: Id<T>| id.value)
}

/// Issues strictly increasing identifiers of one kind, starting from a seed.
#[derive(Debug)]
pub struct IdSource<T> {
    pub next_id: u64,
    pub phantom: PhantomData<T>,
}

impl<T> IdSource<T> {
    pub fn new(first_id: u64) -> (source: IdSource<T>)
        ensures
            source.next_id == first_id,
    {
        IdSource { next_id: first_id, phantom: PhantomData }
    }

    /// Hands out the next identifier. Every identifier handed out later is
    /// larger than this one.
    pub fn next(&mut self) -> (id: Id<T>)
        requires
            old(self).next_id < u64::MAX,
        ensures
            id.value == old(self).next_id,
            final(self).next_id == old(self).next_id + 1,
    {
        let id = Id::new(self.next_id);
        self.next_id = self.next_id + 1;
        id
    }
}

impl<T> Clone for IdSource<T> {
    fn clone(&self) -> (r: Self)
        ensures
            r == *self,
    {
        IdSource { next_id: self.next_id, phantom: PhantomData }
    }
}

} // verus!
