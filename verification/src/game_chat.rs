use crate::event_writer::{told, told_all, EventWriter};
use crate::game_combat::colored_text;
use crate::game_state::{lemma_occupants, others_in, GameState, World};
use crate::line::{colored_line, plain_line, Color, Line, SpanView};
use crate::player::Player;
use crate::text::{
    ascii_punctuation, char_to_uppercase, concat3, is_ascii_punctuation, join_words,
    joined_by_space, strs, uppercase_of, utf8_len,
};
use regex::Regex;
use vstd::prelude::*;
use vstd::string::*;

verus! {

/// The most bytes that a chat message may take.
pub const CHAT_LIMIT: usize = 128;

/// The two ways to address the room.
#[derive(Clone, Copy, Debug, PartialEq, Eq, Structural)]
pub enum ChatCommand {
    Say,
    Emote,
}

/// Whether a text matches a pattern, as the `regex` crate decides it;
/// nothing where that crate does not accept the pattern.
pub uninterp spec fn regex_match(pattern: Seq<char>, text: Seq<char>) -> Option<bool>;

/// Compiles a pattern with `Regex::new` of the `regex` crate and asks
/// `Regex::is_match` whether it matches anywhere in the text. The answer is
/// a function of the pattern and the text alone; there is none where the
/// pattern does not compile.
#[verifier::external_body]
pub(crate) fn regex_is_match(pattern: &str, text: &str) -> (r: Option<bool>)
    ensures
        r == regex_match(pattern@, text@),
{
    match Regex::new(pattern) {
        Ok(re) => Some(re.is_match(text)),
        Err(_) => None,
    }
}

/// The pattern of what a chat message may not hold: pictographic characters.
pub open spec fn illegal_chat_pattern() -> Seq<char> {
    "\\p{Extended_Pictographic}"@
}

/// A text with its first character in upper case.
pub open spec fn capitalized(text: Seq<char>) -> Seq<char> {
    if text.len() == 0 {
        text
    } else {
        uppercase_of(text[0]) + text.subrange(1, text.len() as int)
    }
}

/// A text that ends in punctuation: with a full stop added where it does
/// not already.
pub open spec fn punctuated(text: Seq<char>) -> Seq<char> {
    if text.len() > 0 && ascii_punctuation(text.last()) {
        text
    } else {
        text + "."@
    }
}

/// What is said or acted out, as it goes to the room: a saying starts in
/// upper case, and either ends in punctuation.
pub open spec fn spoken(kind: ChatCommand, text: Seq<char>) -> Seq<char> {
    punctuated(
        match kind {
            ChatCommand::Say => capitalized(text),
            ChatCommand::Emote => text,
        },
    )
}

/// What the speaker reads.
pub open spec fn chat_self_text(kind: ChatCommand, name: Seq<char>, said: Seq<char>) -> Seq<char> {
    match kind {
        ChatCommand::Say => "You say, \""@ + said + "\""@,
        ChatCommand::Emote => name + " "@ + said,
    }
}

/// What the others in the room read.
pub open spec fn chat_others_text(kind: ChatCommand, name: Seq<char>, said: Seq<char>) -> Seq<
    char,
> {
    match kind {
        ChatCommand::Say => name + " says, \""@ + said + "\""@,
        ChatCommand::Emote => name + " "@ + said,
    }
}

/// The queues after a player has tried to say or act out a text, given
/// what the filter says of the text. A text of more than the limit in bytes
/// is refused as too long. A text that the filter matches, or cannot judge,
/// is refused for its characters. Any other goes to the speaker and to the
/// others in the room, in yellow.
pub open spec fn chat_outcome(
    out: Map<u64, Seq<Seq<SpanView>>>,
    w: World,
    player: Player,
    text: Seq<char>,
    kind: ChatCommand,
    filtered: Option<bool>,
) -> Map<u64, Seq<Seq<SpanView>>> {
    if utf8_len(text) > CHAT_LIMIT {
        told(out, player.id.value, plain_line("That message is too long."@))
    } else if filtered != Some(false) {
        told(out, player.id.value, plain_line("That message contains illegal characters."@))
    } else {
        let said = spoken(kind, text);
        told_all(
            told(
                out,
                player.id.value,
                colored_line(chat_self_text(kind, player.name@, said), Color::Yellow),
            ),
            others_in(w, player.room_id.value, player.id.value),
            colored_line(chat_others_text(kind, player.name@, said), Color::Yellow),
        )
    }
}

fn capitalize(text: &String) -> (r: String)
    ensures
        r@ == capitalized(text@),
{
    let n = text.as_str().unicode_len();
    if n == 0 {
        text.clone()
    } else {
        let first = text.as_str().get_char(0);
        let mut out = char_to_uppercase(first);
        out.append(text.as_str().substring_char(1, n));
        out
    }
}

fn punctuate(text: String) -> (r: String)
    ensures
        r@ == punctuated(text@),
{
    let n = text.as_str().unicode_len();
    let ends = if n == 0 {
        false
    } else {
        is_ascii_punctuation(text.as_str().get_char(n - 1))
    };
    if ends {
        text
    } else {
        text.concat(".")
    }
}

/// Lets a player say or act out a text that the filter has judged.
pub fn chat_filtered(
    player: &Player,
    words_joined: String,
    kind: ChatCommand,
    filtered: Option<bool>,
    writer: &mut EventWriter,
    state: &GameState,
)
    requires
        state.wf(),
    ensures
        final(writer)@ == chat_outcome(
            old(writer)@,
            state@,
            *player,
            words_joined@,
            kind,
            filtered,
        ),
{
    broadcast use vstd::slice::group_slice_axioms;

    if words_joined.as_str().as_bytes().len() > CHAT_LIMIT {
        writer.tell(player.id, Line::str("That message is too long."));
        return ;
    }
    let clean = match filtered {
        Some(matched) => !matched,
        None => false,
    };
    if !clean {
        writer.tell(player.id, Line::str("That message contains illegal characters."));
        return ;
    }
    let said = punctuate(
        match kind {
            ChatCommand::Say => capitalize(&words_joined),
            ChatCommand::Emote => words_joined,
        },
    );
    let to_self = match kind {
        ChatCommand::Say => concat3("You say, \"", said.as_str(), "\""),
        ChatCommand::Emote => concat3(player.name.as_str(), " ", said.as_str()),
    };
    writer.tell(player.id, colored_text(to_self.as_str(), Color::Yellow));
    let to_others = match kind {
        ChatCommand::Say => concat3(player.name.as_str(), " says, \"", said.as_str()).concat(
            "\"",
        ),
        ChatCommand::Emote => concat3(player.name.as_str(), " ", said.as_str()),
    };
    proof {
        lemma_occupants(*state, player.room_id.value);
    }
    let others = state.players.ids_in_room_except(player.room_id, player.id);
    writer.tell_many(&others, colored_text(to_others.as_str(), Color::Yellow));
}

/// Lets a player say or act out the words, joined by single spaces, after
/// the filter has judged them.
pub fn chat(
    player: &Player,
    words: &Vec<String>,
    kind: ChatCommand,
    writer: &mut EventWriter,
    state: &GameState,
)
    requires
        state.wf(),
    ensures
        final(writer)@ == chat_outcome(
            old(writer)@,
            state@,
            *player,
            joined_by_space(strs(words@)),
            kind,
            regex_match(illegal_chat_pattern(), joined_by_space(strs(words@))),
        ),
{
    let words_joined = join_words(words);
    let filtered = regex_is_match("\\p{Extended_Pictographic}", words_joined.as_str());
    chat_filtered(player, words_joined, kind, filtered, writer, state);
}

} // verus!
