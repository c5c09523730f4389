use crate::id::{MobId, PlayerId, RoomId};
use crate::tick::TickDuration;
use vstd::prelude::*;

verus! {

/// A connected player.
#[derive(Debug)]
pub struct Player {
    pub id: PlayerId,
    pub name: String,
    pub room_id: RoomId,
    pub hp: i32,
    pub max_hp: i32,
    pub attack_offset: TickDuration,
    pub attack_target: Option<MobId>,
}

impl Clone for Player {
    fn clone(&self) -> (r: Self)
        ensures
            r == *self,
    {
        Player {
            id: self.id,
            name: self.name.clone(),
            room_id: self.room_id,
            hp: self.hp,
            max_hp: self.max_hp,
            attack_offset: self.attack_offset,
            attack_target: self.attack_target,
        }
    }
}

} // verus!
