use crate::event_writer::{told_lines, EventWriter};
use crate::id::PlayerId;
use crate::line::{color_name, lines_view, plain, plain_line, span, Color, Line, SpanView};
use vstd::prelude::*;

verus! {

/// A line of the help text: a command in white, then what it does.
pub open spec fn help_entry(command: Seq<char>, what: Seq<char>) -> Seq<SpanView> {
    seq![
        SpanView { text: command, bold: None, color: Some(color_name(Color::White)) },
        plain(what),
    ]
}

/// The help text.
pub open spec fn help_lines() -> Seq<Seq<SpanView>> {
    seq![
        seq![SpanView { text: "Commands:"@, bold: Some(true), color: None }],
        help_entry("look"@, " – Look around or at something"@),
        help_entry("north"@, ", etc. – Move to another room"@),
        help_entry("kill"@, " – Attack something or someone"@),
        help_entry("say"@, " – Say something to the others in the room"@),
        help_entry("emote"@, " – Act out something"@),
        help_entry("roll"@, " – Roll a die"@),
        help_entry("who"@, " – See who is online"@),
        help_entry("alias"@, " – List short aliases for commands"@),
        help_entry("help"@, " – You're looking at it"@),
        plain_line(
            "There are also special commands for interacting with specific rooms, or objects in there."@,
        ),
    ]
}

fn entry(command: &str, what: &str) -> (line: Line)
    ensures
        line@ == help_entry(command@, what@),
{
    let line = span(command).color(Color::White).line().push(span(what));
    assert(line@ =~= help_entry(command@, what@));
    line
}

/// Tells a player the commands that work everywhere.
pub fn help(player_id: PlayerId, writer: &mut EventWriter)
    ensures
        final(writer)@ == told_lines(old(writer)@, player_id.value, help_lines()),
{
    let mut lines: Vec<Line> = Vec::new();
    lines.push(span("Commands:").bold().line());
    lines.push(entry("look", " – Look around or at something"));
    lines.push(entry("north", ", etc. – Move to another room"));
    lines.push(entry("kill", " – Attack something or someone"));
    lines.push(entry("say", " – Say something to the others in the room"));
    lines.push(entry("emote", " – Act out something"));
    lines.push(entry("roll", " – Roll a die"));
    lines.push(entry("who", " – See who is online"));
    lines.push(entry("alias", " – List short aliases for commands"));
    lines.push(entry("help", " – You're looking at it"));
    lines.push(
        Line::str(
            "There are also special commands for interacting with specific rooms, or objects in there.",
        ),
    );
    assert(lines_view(lines@) =~= help_lines());
    writer.tell_lines(player_id, &lines);
}

} // verus!
