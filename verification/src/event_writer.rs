use crate::id::PlayerId;
use crate::line::{clone_lines, lines_view, Line, SpanView};
use crate::room_index::members;
use std::collections::HashMap;
use vstd::prelude::*;

verus! {

/// The lines that wait for a player, none where the player has no queue.
pub open spec fn queued(out: Map<u64, Seq<Seq<SpanView>>>, player: u64) -> Seq<Seq<SpanView>> {
    if out.contains_key(player) {
        out[player]
    } else {
        Seq::empty()
    }
}

/// The queues after one more line for a player.
pub open spec fn told(out: Map<u64, Seq<Seq<SpanView>>>, player: u64, line: Seq<SpanView>) -> Map<
    u64,
    Seq<Seq<SpanView>>,
> {
    out.insert(player, queued(out, player).push(line))
}

/// The queues after some more lines for a player. The player has a queue
/// afterwards even where no line was added.
pub open spec fn told_lines(
    out: Map<u64, Seq<Seq<SpanView>>>,
    player: u64,
    lines: Seq<Seq<SpanView>>,
) -> Map<u64, Seq<Seq<SpanView>>> {
    out.insert(player, queued(out, player) + lines)
}

/// The queues after the same line for each of a list of players, one after
/// the other.
pub open spec fn told_each(
    out: Map<u64, Seq<Seq<SpanView>>>,
    players: Seq<PlayerId>,
    line: Seq<SpanView>,
) -> Map<u64, Seq<Seq<SpanView>>>
    decreases players.len(),
{
    if players.len() == 0 {
        out
    } else {
        told(told_each(out, players.drop_last(), line), players.last().value, line)
    }
}

/// The queues after the same line for each of a set of players.
pub open spec fn told_all(
    out: Map<u64, Seq<Seq<SpanView>>>,
    players: Set<u64>,
    line: Seq<SpanView>,
) -> Map<u64, Seq<Seq<SpanView>>> {
    Map::new(
        |p: u64| out.contains_key(p) || players.contains(p),
        |p: u64|
            if players.contains(p) {
                queued(out, p).push(line)
            } else {
                out[p]
            },
    )
}

/// Telling a list of distinct players one after the other is telling the
/// set of them: the order among the recipients does not show in the queues.
pub proof fn lemma_told_each_is_told_all(
    out: Map<u64, Seq<Seq<SpanView>>>,
    players: Seq<PlayerId>,
    line: Seq<SpanView>,
)
    requires
        players.no_duplicates(),
    ensures
        told_each(out, players, line) == told_all(out, members(players), line),
    decreases players.len(),
{
    if players.len() == 0 {
        assert(told_all(out, members(players), line) =~= out);
    } else {
        let rest = players.drop_last();
        let last = players.last();
        lemma_told_each_is_told_all(out, rest, line);
        assert(!rest.contains(last)) by {
            if rest.contains(last) {
                let i = choose|i: int| 0 <= i < rest.len() && rest[i] == last;
                assert(players[i] == players[players.len() - 1]);
            }
        }
        assert forall|v: u64| members(players).contains(v) <==> (members(rest).contains(v) || v
            == last.value) by {
            let id = PlayerId { value: v, phantom: std::marker::PhantomData };
            if players.contains(id) {
                let i = choose|i: int| 0 <= i < players.len() && players[i] == id;
                if i < rest.len() {
                    assert(rest[i] == id);
                }
            }
            if rest.contains(id) {
                let i = choose|i: int| 0 <= i < rest.len() && rest[i] == id;
                assert(players[i] == id);
            }
            if v == last.value {
                assert(players[players.len() - 1] == id);
            }
        }
        assert(!members(rest).contains(last.value));
        assert(told_each(out, players, line) =~= told_all(out, members(players), line));
    }
}

/// The lines gathered for each player while one event is worked off.
#[derive(Debug)]
pub struct EventWriter {
    pub lines: HashMap<u64, Vec<Line>>,
}

impl View for EventWriter {
    type V = Map<u64, Seq<Seq<SpanView>>>;

    open spec fn view(&self) -> Map<u64, Seq<Seq<SpanView>>> {
        self.lines@.map_values(|v: Vec<Line>| lines_view(v@))
    }
}

impl EventWriter {
    /// A writer without any queue.
    pub fn new() -> (writer: EventWriter)
        ensures
            writer@ == Map::<u64, Seq<Seq<SpanView>>>::empty(),
    {
        let writer = EventWriter { lines: HashMap::new() };
        assert(writer@ =~= Map::<u64, Seq<Seq<SpanView>>>::empty());
        writer
    }

    /// Queues a line for a player, behind those already waiting.
    pub fn tell(&mut self, player_id: PlayerId, line: Line)
        ensures
            final(self)@ == told(old(self)@, player_id.value, line@),
    {
        broadcast use vstd::std_specs::hash::group_hash_axioms;

        let mut queue: Vec<Line> = match self.lines.remove(&player_id.value) {
            Some(q) => q,
            None => Vec::new(),
        };
        let ghost before = lines_view(queue@);
        assert(before == queued(old(self)@, player_id.value)) by {
            if !old(self)@.contains_key(player_id.value) {
                assert(before =~= Seq::<Seq<SpanView>>::empty());
            }
        }
        queue.push(line);
        assert(lines_view(queue@) =~= before.push(line@));
        self.lines.insert(player_id.value, queue);
        assert(self@ =~= told(old(self)@, player_id.value, line@));
    }

    /// Queues copies of some lines for a player, in their order.
    pub fn tell_lines(&mut self, player_id: PlayerId, lines: &Vec<Line>)
        ensures
            final(self)@ == told_lines(old(self)@, player_id.value, lines_view(lines@)),
    {
        broadcast use vstd::std_specs::hash::group_hash_axioms;

        let mut queue: Vec<Line> = match self.lines.remove(&player_id.value) {
            Some(q) => q,
            None => Vec::new(),
        };
        let ghost before = lines_view(queue@);
        assert(before == queued(old(self)@, player_id.value)) by {
            if !old(self)@.contains_key(player_id.value) {
                assert(before =~= Seq::<Seq<SpanView>>::empty());
            }
        }
        let mut more = clone_lines(lines);
        let ghost added = lines_view(more@);
        queue.append(&mut more);
        assert(lines_view(queue@) =~= before + added);
        self.lines.insert(player_id.value, queue);
        assert(self@ =~= told_lines(old(self)@, player_id.value, lines_view(lines@)));
    }

    /// Queues a copy of one line for each of the players, one after the
    /// other.
    pub fn tell_many(&mut self, player_ids: &Vec<PlayerId>, line: Line)
        ensures
            final(self)@ == told_each(old(self)@, player_ids@, line@),
            player_ids@.no_duplicates() ==> final(self)@ == told_all(
                old(self)@,
                members(player_ids@),
                line@,
            ),
    {
        let mut i: usize = 0;
        while i < player_ids.len()
            invariant
                i <= player_ids@.len(),
                self@ == told_each(old(self)@, player_ids@.take(i as int), line@),
            decreases player_ids@.len() - i,
        {
            proof {
                let upto = player_ids@.take(i + 1);
                assert(upto.drop_last() =~= player_ids@.take(i as int));
                assert(upto.last() == player_ids@[i as int]);
            }
            self.tell(player_ids[i], line.clone());
            i = i + 1;
        }
        proof {
            assert(player_ids@.take(i as int) =~= player_ids@);
            if player_ids@.no_duplicates() {
                lemma_told_each_is_told_all(old(self)@, player_ids@, line@);
            }
        }
    }
}

} // verus!
