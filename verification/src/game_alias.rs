use crate::event_writer::{told_lines, EventWriter};
use crate::id::PlayerId;
use crate::line::{lines_view, plain_line, Line, SpanView};
use crate::search::{first_where, lemma_first_where_is, lemma_first_where_none};
use crate::text::{concat3, is_text, strs};
use vstd::prelude::*;
use vstd::string::*;

verus! {

/// The short forms of commands, each with the command it stands for.
pub open spec fn alias_table() -> Seq<(Seq<char>, Seq<char>)> {
    seq![
        ("l"@, "look"@),
        ("\""@, "say"@),
        (":"@, "emote"@),
        ("n"@, "north"@),
        ("ne"@, "northeast"@),
        ("e"@, "east"@),
        ("se"@, "southeast"@),
        ("s"@, "south"@),
        ("sw"@, "southwest"@),
        ("w"@, "west"@),
        ("nw"@, "northwest"@),
        ("u"@, "up"@),
        ("d"@, "down"@),
    ]
}

/// The condition that an entry of the table is for a word.
pub open spec fn alias_entry(word: Seq<char>) -> spec_fn((Seq<char>, Seq<char>)) -> bool {
    |e: (Seq<char>, Seq<char>)| e.0 == word
}

/// The command that a word stands for: what the table gives for a short
/// form, and the word itself for anything else.
pub open spec fn resolved(word: Seq<char>) -> Seq<char> {
    match first_where(alias_table(), alias_entry(word)) {
        Some(i) => alias_table()[i].1,
        None => word,
    }
}

/// What a list of pairs of texts holds.
pub open spec fn pairs_view(pairs: Seq<(&'static str, &'static str)>) -> Seq<(Seq<char>, Seq<char>)> {
    pairs.map_values(|p: (&'static str, &'static str)| (p.0@, p.1@))
}

fn aliases() -> (pairs: Vec<(&'static str, &'static str)>)
    ensures
        pairs_view(pairs@) == alias_table(),
{
    let mut pairs: Vec<(&'static str, &'static str)> = Vec::new();
    pairs.push(("l", "look"));
    pairs.push(("\"", "say"));
    pairs.push((":", "emote"));
    pairs.push(("n", "north"));
    pairs.push(("ne", "northeast"));
    pairs.push(("e", "east"));
    pairs.push(("se", "southeast"));
    pairs.push(("s", "south"));
    pairs.push(("sw", "southwest"));
    pairs.push(("w", "west"));
    pairs.push(("nw", "northwest"));
    pairs.push(("u", "up"));
    pairs.push(("d", "down"));
    assert(pairs_view(pairs@) =~= alias_table());
    pairs
}

/// Replaces the first word by the command it stands for, if it is a short
/// form.
pub fn resolve_aliases(words: Vec<String>) -> (r: Vec<String>)
    requires
        words@.len() > 0,
    ensures
        strs(r@) == strs(words@).update(0, resolved(words@[0]@)),
        r@.len() == words@.len(),
{
    let ghost before = strs(words@);
    let ghost entry = alias_entry(words@[0]@);
    assert(before[0] == words@[0]@);
    let mut out = words;
    let pairs = aliases();
    let mut i: usize = 0;
    while i < pairs.len()
        invariant
            i <= pairs@.len(),
            pairs_view(pairs@) == alias_table(),
            out@.len() > 0,
            words@.len() > 0,
            before == strs(words@),
            strs(out@) == before,
            entry == alias_entry(before[0]),
            forall|j: int| 0 <= j < i ==> !entry(#[trigger] alias_table()[j]),
        decreases pairs@.len() - i,
    {
        assert(pairs_view(pairs@)[i as int] == (pairs@[i as int].0@, pairs@[i as int].1@));
        if is_text(&out[0], pairs[i].0) {
            proof {
                lemma_first_where_is(alias_table(), entry, i as int);
            }
            out.set(0, String::from_str(pairs[i].1));
            assert(strs(out@) =~= before.update(0, resolved(before[0])));
            return out;
        }
        i = i + 1;
    }
    proof {
        lemma_first_where_none(alias_table(), entry);
        assert(strs(out@) =~= before.update(0, resolved(before[0])));
    }
    out
}

/// The lines that list the short forms: each with an arrow to the command
/// it stands for.
pub open spec fn alias_lines() -> Seq<Seq<SpanView>> {
    alias_table().map_values(|e: (Seq<char>, Seq<char>)| plain_line(e.0 + " → "@ + e.1))
}

/// Tells a player the short forms of commands.
pub fn alias(player_id: PlayerId, writer: &mut EventWriter)
    ensures
        final(writer)@ == told_lines(old(writer)@, player_id.value, alias_lines()),
{
    let pairs = aliases();
    let mut lines: Vec<Line> = Vec::new();
    let mut i: usize = 0;
    while i < pairs.len()
        invariant
            i <= pairs@.len(),
            pairs_view(pairs@) == alias_table(),
            lines_view(lines@) == alias_lines().take(i as int),
        decreases pairs@.len() - i,
    {
        let ghost before = lines_view(lines@);
        assert(pairs_view(pairs@)[i as int] == (pairs@[i as int].0@, pairs@[i as int].1@));
        let text = concat3(pairs[i].0, " → ", pairs[i].1);
        lines.push(Line::str(text.as_str()));
        assert(lines_view(lines@) =~= before.push(plain_line(text@)));
        assert(alias_lines().take(i + 1) =~= alias_lines().take(i as int).push(
            alias_lines()[i as int],
        ));
        i = i + 1;
    }
    assert(alias_lines().take(i as int) =~= alias_lines());
    writer.tell_lines(player_id, &lines);
}

} // verus!
