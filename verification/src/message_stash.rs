use crate::event_writer::{told, told_all, EventWriter};
use crate::id::{PlayerId, RoomId};
use crate::line::{Line, SpanView};
use crate::player_coll::PlayerColl;
use crate::search::lemma_take_one_more;
use vstd::prelude::*;

verus! {

/// Lines that are held back until the players of each room are known.
#[derive(Debug)]
pub struct MessageStash {
    messages: Vec<Message>,
}

#[derive(Debug)]
enum Message {
    ToPlayer { player_id: PlayerId, line: Line },
    ToRoom { room_id: RoomId, except: Option<PlayerId>, line: Line },
}

/// What a stashed message holds: a line for a player, or a line for the
/// players of a room, but for one if one is named.
pub enum MessageView {
    ToPlayer { player: u64, line: Seq<SpanView> },
    ToRoom { room: u64, except: Option<u64>, line: Seq<SpanView> },
}

impl View for Message {
    type V = MessageView;

    closed spec fn view(&self) -> MessageView {
        match self {
            Message::ToPlayer { player_id, line } => MessageView::ToPlayer {
                player: player_id.value,
                line: line@,
            },
            Message::ToRoom { room_id, except, line } => MessageView::ToRoom {
                room: room_id.value,
                except: match except {
                    Some(e) => Some(e.value),
                    None => None,
                },
                line: line@,
            },
        }
    }
}

/// The players that a stashed message goes to.
pub open spec fn recipients(occupants: Set<u64>, except: Option<u64>) -> Set<u64> {
    match except {
        Some(e) => occupants.remove(e),
        None => occupants,
    }
}

/// The queues after the stashed messages have been delivered, in the order
/// in which they were stashed, given who is in which room.
pub open spec fn delivered(
    out: Map<u64, Seq<Seq<SpanView>>>,
    messages: Seq<MessageView>,
    rooms: Map<u64, u64>,
) -> Map<u64, Seq<Seq<SpanView>>>
    decreases messages.len(),
{
    if messages.len() == 0 {
        out
    } else {
        let before = delivered(out, messages.drop_last(), rooms);
        match messages.last() {
            MessageView::ToPlayer { player, line } => told(before, player, line),
            MessageView::ToRoom { room, except, line } => told_all(
                before,
                recipients(crate::room_index::occupants(rooms, room), except),
                line,
            ),
        }
    }
}

impl View for MessageStash {
    type V = Seq<MessageView>;

    closed spec fn view(&self) -> Seq<MessageView> {
        self.messages@.map_values(|m: Message| m@)
    }
}

impl MessageStash {
    pub fn new() -> (stash: MessageStash)
        ensures
            stash@ == Seq::<MessageView>::empty(),
    {
        let stash = MessageStash { messages: Vec::new() };
        assert(stash@ =~= Seq::<MessageView>::empty());
        stash
    }

    /// Stashes a line for a player.
    pub fn tell(&mut self, player_id: PlayerId, line: Line)
        ensures
            final(self)@ == old(self)@.push(
                MessageView::ToPlayer { player: player_id.value, line: line@ },
            ),
    {
        self.messages.push(Message::ToPlayer { player_id, line });
        assert(self@ =~= old(self)@.push(
            MessageView::ToPlayer { player: player_id.value, line: line@ },
        ));
    }

    /// Stashes a line for the players of a room.
    pub fn tell_room(&mut self, room_id: RoomId, line: Line)
        ensures
            final(self)@ == old(self)@.push(
                MessageView::ToRoom { room: room_id.value, except: None, line: line@ },
            ),
    {
        self.messages.push(Message::ToRoom { room_id, line, except: None });
        assert(self@ =~= old(self)@.push(
            MessageView::ToRoom { room: room_id.value, except: None, line: line@ },
        ));
    }

    /// Stashes a line for the players of a room but one.
    pub fn tell_room_except(&mut self, room_id: RoomId, except: PlayerId, line: Line)
        ensures
            final(self)@ == old(self)@.push(
                MessageView::ToRoom { room: room_id.value, except: Some(except.value), line: line@ },
            ),
    {
        self.messages.push(Message::ToRoom { room_id, line, except: Some(except) });
        assert(self@ =~= old(self)@.push(
            MessageView::ToRoom { room: room_id.value, except: Some(except.value), line: line@ },
        ));
    }

    /// Delivers the stashed messages, in the order in which they were
    /// stashed.
    pub fn write_into(self, event_writer: &mut EventWriter, players: &PlayerColl)
        requires
            players.wf(),
        ensures
            final(event_writer)@ == delivered(old(event_writer)@, self@, players.rooms()),
    {
        let mut i: usize = 0;
        while i < self.messages.len()
            invariant
                i <= self.messages@.len(),
                players.wf(),
                event_writer@ == delivered(
                    old(event_writer)@,
                    self@.take(i as int),
                    players.rooms(),
                ),
            decreases self.messages@.len() - i,
        {
            proof {
                lemma_take_one_more(self@, i as int);
                assert(self@[i as int] == self.messages@[i as int]@);
            }
            match &self.messages[i] {
                Message::ToPlayer { player_id, line } => {
                    event_writer.tell(*player_id, line.clone());
                },
                Message::ToRoom { room_id, except, line } => {
                    let ids = match except {
                        Some(e) => players.ids_in_room_except(*room_id, *e),
                        None => players.ids_in_room(*room_id),
                    };
                    event_writer.tell_many(&ids, line.clone());
                },
            }
            i = i + 1;
        }
        assert(self@.take(i as int) =~= self@);
    }
}

} // verus!
