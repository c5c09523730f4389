use mud_core::id::{Id, IdSource, MobKind};
use mud_core::mob::{MobInstance, MobTemplate};
use mud_core::mob_coll::MobColl;
use mud_core::order::sorted_keys;
use mud_core::player::Player;
use mud_core::player_coll::PlayerColl;
use mud_core::schedule::{due_keys, take_due};
use mud_core::tick::TickDuration;
use std::collections::{BTreeMap, HashMap, HashSet};

fn player(id: u64, room: u64) -> Player {
    Player {
        id: Id::new(id),
        name: format!("player-{}", id),
        room_id: Id::new(room),
        hp: 100,
        max_hp: 100,
        attack_offset: TickDuration(0),
        attack_target: None,
    }
}

fn mob(id: u64, room: u64) -> MobInstance {
    MobInstance {
        id: Id::new(id),
        room_id: Id::new(room),
        template: MobTemplate {
            id: Id::new(7),
            name: "bat".to_string(),
            aliases: Vec::new(),
            description: "A bat.".to_string(),
            max_hp: 10,
            damage: 1,
            attack_period: TickDuration(4),
        },
        hp: 10,
        attack_offset: TickDuration(1),
        hostile_to: HashSet::new(),
        attack_target: None,
    }
}

/// Every player is in the bucket of its room, once, and in no other bucket;
/// every bucket member is a player; no bucket is empty.
fn assert_consistent(coll: &PlayerColl) {
    let mut seen = 0;
    for (room, bucket) in coll.by_room_id() {
        assert!(!bucket.is_empty());
        for id in bucket {
            seen += 1;
            let p = coll.by_id().get(&id.value).expect("bucket member is a player");
            assert_eq!(p.room_id.value, *room);
            assert_eq!(bucket.iter().filter(|other| other.value == id.value).count(), 1);
        }
    }
    assert_eq!(seen, coll.by_id().len());
    for (key, p) in coll.by_id() {
        assert_eq!(p.id.value, *key);
        assert!(coll.by_room_id().get(&p.room_id.value).unwrap().iter().any(|i| i.value == *key));
    }
}

#[test]
fn index_stays_consistent_over_insert_modify_remove() {
    let mut coll = PlayerColl::new();
    assert_consistent(&coll);
    for id in 0..6 {
        coll.insert(player(id, id % 2));
        assert_consistent(&coll);
    }
    for id in 0..6 {
        coll.modify(&Id::new(id), |mut p| {
            p.room_id = Id::new((p.id.value * 3) % 4);
            (p, ())
        });
        assert_consistent(&coll);
    }
    for id in [4, 0, 5, 1, 1, 9] {
        coll.remove(&Id::new(id));
        assert_consistent(&coll);
    }
    assert_eq!(coll.by_id().len(), 2);
}

#[test]
fn modify_moves_between_buckets_and_returns_result() {
    let mut coll = PlayerColl::new();
    coll.insert(player(1, 0));
    coll.insert(player(2, 0));
    coll.clear_room_info_changed();
    let old_room = coll.modify(&Id::new(1), |mut p| {
        let before = p.room_id.value;
        p.room_id = Id::new(5);
        (p, before)
    });
    assert_eq!(old_room, 0);
    let in_zero: Vec<u64> = coll.ids_in_room(Id::new(0)).iter().map(|i| i.value).collect();
    let in_five: Vec<u64> = coll.ids_in_room(Id::new(5)).iter().map(|i| i.value).collect();
    assert_eq!(in_zero, vec![2]);
    assert_eq!(in_five, vec![1]);
    assert!(coll.room_info_changed().contains(&0));
    assert!(coll.room_info_changed().contains(&5));
    assert_eq!(coll.room_info_changed().len(), 2);
}

#[test]
fn modify_marks_room_when_vitals_change_only() {
    let mut coll = PlayerColl::new();
    coll.insert(player(1, 3));
    coll.clear_room_info_changed();
    coll.modify(&Id::new(1), |mut p| {
        p.attack_offset = TickDuration(2);
        (p, ())
    });
    assert!(coll.room_info_changed().is_empty());
    coll.modify(&Id::new(1), |mut p| {
        p.hp = 90;
        (p, ())
    });
    assert!(coll.room_info_changed().contains(&3));
    assert_eq!(coll.by_id().get(&1).unwrap().hp, 90);
}

#[test]
fn ids_in_room_keeps_order_of_arrival() {
    let mut coll = PlayerColl::new();
    for id in [5, 2, 9, 1] {
        coll.insert(player(id, 7));
    }
    let all: Vec<u64> = coll.ids_in_room(Id::new(7)).iter().map(|i| i.value).collect();
    assert_eq!(all, vec![5, 2, 9, 1]);
    let but: Vec<u64> =
        coll.ids_in_room_except(Id::new(7), Id::new(9)).iter().map(|i| i.value).collect();
    assert_eq!(but, vec![5, 2, 1]);
    assert!(coll.ids_in_room(Id::new(8)).is_empty());
    assert!(coll.ids_in_room_except(Id::new(8), Id::new(9)).is_empty());
}

#[test]
fn remove_is_idempotent() {
    let mut coll = PlayerColl::new();
    coll.insert(player(1, 0));
    let first = coll.remove(&Id::new(1));
    assert_eq!(first.map(|p| p.name), Some("player-1".to_string()));
    assert!(coll.remove(&Id::new(1)).is_none());
    assert!(coll.by_id().is_empty());
    assert!(coll.by_room_id().is_empty());
}

#[test]
fn spawn_then_remove_leaves_no_bucket() {
    let mut mobs = MobColl::new();
    mobs.insert(mob(0, 4));
    assert_eq!(mobs.by_room_id().get(&4).map(|b| b.len()), Some(1));
    let removed = mobs.remove(&Id::new(0));
    assert!(removed.is_some());
    assert!(mobs.by_id().is_empty());
    assert!(mobs.by_room_id().is_empty());
    assert!(mobs.ids_in_room(Id::new(4)).is_empty());
}

#[test]
fn mob_modify_moves_between_buckets() {
    let mut mobs = MobColl::new();
    mobs.insert(mob(0, 4));
    mobs.insert(mob(1, 4));
    let hp = mobs.modify(&Id::new(0), |mut m| {
        m.room_id = Id::new(6);
        m.hp -= 3;
        let hp = m.hp;
        (m, hp)
    });
    assert_eq!(hp, 7);
    assert_eq!(mobs.ids_in_room(Id::new(4)).iter().map(|i| i.value).collect::<Vec<_>>(), vec![1]);
    assert_eq!(mobs.ids_in_room(Id::new(6)).iter().map(|i| i.value).collect::<Vec<_>>(), vec![0]);
    assert!(mobs.remove(&Id::new(3)).is_none());
}

#[test]
fn id_source_counts_up_from_seed() {
    let mut source: IdSource<MobKind> = IdSource::new(41);
    let a = source.next();
    let b = source.next();
    let c = source.clone().next();
    assert_eq!((a.value, b.value, c.value), (41, 42, 43));
    assert!(a == Id::new(41));
    assert!(a != b);
}

#[test]
fn sorted_keys_ascend() {
    let mut m: HashMap<u64, &str> = HashMap::new();
    for k in [9, 3, 27, 0, 14, u64::MAX] {
        m.insert(k, "x");
    }
    assert_eq!(sorted_keys(&m), vec![0, 3, 9, 14, 27, u64::MAX]);
    let empty: HashMap<u64, u8> = HashMap::new();
    assert!(sorted_keys(&empty).is_empty());
}

#[test]
fn take_due_takes_what_is_not_after_now() {
    let mut schedule: BTreeMap<i64, &str> = BTreeMap::new();
    for (k, v) in [(30, "c"), (-5, "a"), (10, "b"), (31, "d"), (100, "e")] {
        schedule.insert(k, v);
    }
    assert_eq!(due_keys(&schedule, 30), vec![-5, 10, 30]);
    let due = take_due(&mut schedule, 30);
    assert_eq!(due, vec!["a", "b", "c"]);
    assert_eq!(schedule.keys().copied().collect::<Vec<_>>(), vec![31, 100]);
    assert!(take_due(&mut schedule, 30).is_empty());
    assert_eq!(schedule.len(), 2);
}
