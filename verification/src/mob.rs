use crate::id::{MobId, MobTemplateId, PlayerId, RoomId};
use crate::named::Named;
use crate::text::strs;
use crate::tick::TickDuration;
use std::collections::HashSet;
use vstd::prelude::*;

verus! {

/// A place in a room's spawn list: one mob of the named template.
#[derive(Debug)]
pub struct MobSpawn {
    pub mob_template_id: MobTemplateId,
}

/// The unchanging definition of a kind of creature.
#[derive(Debug)]
pub struct MobTemplate {
    pub id: MobTemplateId,
    pub name: String,
    pub aliases: Vec<String>,
    pub description: String,
    pub max_hp: i32,
    pub damage: i32,
    pub attack_period: TickDuration,
}

/// What a mob template holds.
pub struct TemplateView {
    pub id: MobTemplateId,
    pub name: Seq<char>,
    pub aliases: Seq<Seq<char>>,
    pub description: Seq<char>,
    pub max_hp: i32,
    pub damage: i32,
    pub attack_period: TickDuration,
}

impl TemplateView {
    /// A mob of this template can attack: its attacks recur with a positive
    /// period and take no negative amount of health.
    pub open spec fn wf(&self) -> bool {
        &&& self.attack_period.0 > 0
        &&& self.damage >= 0
    }
}

impl View for MobTemplate {
    type V = TemplateView;

    open spec fn view(&self) -> TemplateView {
        TemplateView {
            id: self.id,
            name: self.name@,
            aliases: strs(self.aliases@),
            description: self.description@,
            max_hp: self.max_hp,
            damage: self.damage,
            attack_period: self.attack_period,
        }
    }
}

/// Copies a list of strings.
pub fn clone_strings(v: &Vec<String>) -> (r: Vec<String>)
    ensures
        strs(r@) == strs(v@),
{
    let mut out: Vec<String> = Vec::new();
    let mut i: usize = 0;
    while i < v.len()
        invariant
            i <= v@.len(),
            strs(out@) == strs(v@.take(i as int)),
        decreases v@.len() - i,
    {
        let ghost before = strs(out@);
        out.push(v[i].clone());
        assert(strs(out@) =~= before.push(v@[i as int]@));
        assert(strs(v@.take(i + 1)) =~= strs(v@.take(i as int)).push(v@[i as int]@));
        i = i + 1;
    }
    assert(v@.take(i as int) =~= v@);
    out
}

impl Clone for MobTemplate {
    fn clone(&self) -> (r: Self)
        ensures
            r@ == self@,
    {
        MobTemplate {
            id: self.id,
            name: self.name.clone(),
            aliases: clone_strings(&self.aliases),
            description: self.description.clone(),
            max_hp: self.max_hp,
            damage: self.damage,
            attack_period: self.attack_period,
        }
    }
}

impl Named for MobTemplate {
    open spec fn name_text(&self) -> Seq<char> {
        self.name@
    }

    open spec fn alias_texts(&self) -> Seq<Seq<char>> {
        strs(self.aliases@)
    }

    fn get_name(&self) -> (name: &String) {
        &self.name
    }

    fn get_aliases(&self) -> (aliases: &[String]) {
        self.aliases.as_slice()
    }
}

/// A live creature in a room.
#[derive(Debug)]
pub struct MobInstance {
    pub id: MobId,
    pub room_id: RoomId,
    pub template: MobTemplate,
    pub hp: i32,
    pub attack_offset: TickDuration,
    pub hostile_to: HashSet<u64>,
    pub attack_target: Option<PlayerId>,
}

/// What a live mob holds. `hostile_to` is the set of identifier values of
/// the players that the mob will attack of its own accord.
pub struct MobView {
    pub id: MobId,
    pub room_id: RoomId,
    pub template: TemplateView,
    pub hp: i32,
    pub attack_offset: TickDuration,
    pub hostile_to: Set<u64>,
    pub attack_target: Option<PlayerId>,
}

impl View for MobInstance {
    type V = MobView;

    open spec fn view(&self) -> MobView {
        MobView {
            id: self.id,
            room_id: self.room_id,
            template: self.template@,
            hp: self.hp,
            attack_offset: self.attack_offset,
            hostile_to: self.hostile_to@,
            attack_target: self.attack_target,
        }
    }
}

} // verus!
