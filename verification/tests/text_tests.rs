use mud_core::event_writer::EventWriter;
use mud_core::game_alias::{alias, resolve_aliases};
use mud_core::game_help::help;
use mud_core::game_logic::{command_head, format_player_count};
use mud_core::game_state::RoomObject;
use mud_core::game_state::RoomDescription;
use mud_core::id::Id;
use mud_core::line::{span, Color, Line, LineSpan};
use mud_core::named::Named;
use mud_core::text::{concat3, eq_ignore_ascii_case, is_ascii_punctuation, is_text, join_words};
use mud_core::text_util::{and_span_vecs, and_spans, are, plural};

fn texts(spans: &[LineSpan]) -> Vec<&str> {
    spans.iter().map(|s| s.text.as_str()).collect()
}

fn words(list: &[&str]) -> Vec<String> {
    list.iter().map(|w| w.to_string()).collect()
}

#[test]
fn and_spans_by_length() {
    assert!(and_spans(vec![]).is_empty());
    assert_eq!(texts(&and_spans(vec![span("a")])), vec!["a"]);
    assert_eq!(texts(&and_spans(vec![span("a"), span("b")])), vec!["a", " and ", "b"]);
    assert_eq!(
        texts(&and_spans(vec![span("a"), span("b"), span("c")])),
        vec!["a", ", ", "b", " and ", "c"]
    );
    assert_eq!(
        texts(&and_spans(vec![span("a"), span("b"), span("c"), span("d")])),
        vec!["a", ", ", "b", ", ", "c", " and ", "d"]
    );
}

#[test]
fn and_spans_keeps_styling() {
    let joined = and_spans(vec![span("a").bold(), span("b").color(Color::Red)]);
    assert_eq!(joined[0].bold, Some(true));
    assert_eq!(joined[1].bold, None);
    assert_eq!(joined[1].color, None);
    assert_eq!(joined[2].color, Some("red"));
}

#[test]
fn and_span_vecs_by_length() {
    assert!(and_span_vecs(vec![]).is_empty());
    assert_eq!(texts(&and_span_vecs(vec![vec![span("a "), span("rat")]])), vec!["a ", "rat"]);
    assert_eq!(
        texts(&and_span_vecs(vec![vec![span("Ann")], vec![span("a "), span("rat")]])),
        vec!["Ann", " and ", "a ", "rat"]
    );
    assert_eq!(
        texts(&and_span_vecs(vec![
            vec![span("Ann")],
            vec![],
            vec![span("a "), span("rat")],
            vec![span("Bob")]
        ])),
        vec!["Ann", ", ", ", ", "a ", "rat", " and ", "Bob"]
    );
}

#[test]
fn are_and_plural() {
    assert_eq!(are(0), "is");
    assert_eq!(are(1), "is");
    assert_eq!(are(2), "are");
    assert_eq!(plural(0, "player"), "player");
    assert_eq!(plural(1, "player"), "player");
    assert_eq!(plural(2, "player"), "players");
}

#[test]
fn player_count_sentence() {
    assert_eq!(format_player_count(0), "There is 0 player online.");
    assert_eq!(format_player_count(1), "There is 1 player online.");
    assert_eq!(format_player_count(3), "There are 3 players online.");
    assert_eq!(format_player_count(1024), "There are 1024 players online.");
}

#[test]
fn line_builders() {
    let line = Line::str("a").push(span("b").bold()).extend(vec![span("c"), span("d")]);
    assert_eq!(texts(&line.spans), vec!["a", "b", "c", "d"]);
    assert_eq!(line.spans[1].bold, Some(true));
    let one = span("x").color(Color::Blue).bold().line();
    assert_eq!(one.spans.len(), 1);
    assert_eq!(one.spans[0].color, Some("blue"));
    assert_eq!(one.spans[0].bold, Some(true));
    let copy = one.clone();
    assert_eq!(copy.spans[0].text, "x");
    assert_eq!(copy.spans[0].color, Some("blue"));
    assert_eq!(Line::spans(vec![span("p"), span("q")]).spans.len(), 2);
}

#[test]
fn color_names() {
    let all = [
        (Color::White, "white"),
        (Color::DarkGrey, "dark-grey"),
        (Color::Blue, "blue"),
        (Color::Yellow, "yellow"),
        (Color::Orange, "orange"),
        (Color::LightRed, "light-red"),
        (Color::Red, "red"),
        (Color::LightCyan, "light-cyan"),
        (Color::Cyan, "cyan"),
    ];
    for (color, name) in all {
        assert_eq!(color.as_str(), name);
    }
}

#[test]
fn comparing_without_case() {
    assert!(eq_ignore_ascii_case("Rat", "rAT"));
    assert!(eq_ignore_ascii_case("", ""));
    assert!(!eq_ignore_ascii_case("rat", "rats"));
    assert!(!eq_ignore_ascii_case("rat", "bat"));
    assert!(!eq_ignore_ascii_case("[", "{"));
    assert!(!eq_ignore_ascii_case("@", "`"));
    assert!(eq_ignore_ascii_case("Zürich", "zürich"));
    assert!(!eq_ignore_ascii_case("ZÜRICH", "zürich"));
}

#[test]
fn named_matches_name_or_alias() {
    let lever = RoomObject {
        name: "Lever".to_string(),
        aliases: vec!["handle".to_string(), "Rod".to_string()],
        description: RoomDescription::Static("A lever.".to_string()),
        commands: Vec::new(),
    };
    assert!(lever.matches("lever"));
    assert!(lever.matches("HANDLE"));
    assert!(lever.matches("rod"));
    assert!(!lever.matches("leve"));
    assert!(!lever.matches(""));
    assert_eq!(lever.get_name(), "Lever");
    assert_eq!(lever.get_aliases().len(), 2);
}

#[test]
fn joining_words() {
    assert_eq!(join_words(&words(&[])), "");
    assert_eq!(join_words(&words(&["one"])), "one");
    assert_eq!(join_words(&words(&["one", "two", "three"])), "one two three");
    assert_eq!(concat3("a", "", "c"), "ac");
    assert!(is_text(&"look".to_string(), "look"));
    assert!(!is_text(&"look".to_string(), "Look"));
}

#[test]
fn ascii_punctuation_ranges() {
    for c in "!\"#$%&'()*+,-./:;<=>?@[\\]^_`{|}~".chars() {
        assert!(is_ascii_punctuation(c), "{}", c);
    }
    for c in "aZ09 \n\u{7f}é。".chars() {
        assert!(!is_ascii_punctuation(c), "{}", c);
    }
}

#[test]
fn aliases_resolve_the_first_word_only() {
    assert_eq!(resolve_aliases(words(&["l", "n"])), words(&["look", "n"]));
    assert_eq!(resolve_aliases(words(&["\"", "hi"])), words(&["say", "hi"]));
    assert_eq!(resolve_aliases(words(&[":"])), words(&["emote"]));
    assert_eq!(resolve_aliases(words(&["nw"])), words(&["northwest"]));
    assert_eq!(resolve_aliases(words(&["d"])), words(&["down"]));
    assert_eq!(resolve_aliases(words(&["look"])), words(&["look"]));
    assert_eq!(resolve_aliases(words(&["L"])), words(&["L"]));
}

#[test]
fn command_head_lowers_then_resolves() {
    assert_eq!(command_head(&words(&["L", "X"])), "look");
    assert_eq!(command_head(&words(&["NE"])), "northeast");
    assert_eq!(command_head(&words(&["Dance"])), "dance");
}

#[test]
fn alias_and_help_texts() {
    let mut writer = EventWriter::new();
    alias(Id::new(4), &mut writer);
    let lines = writer.lines.get(&4).unwrap();
    assert_eq!(lines.len(), 13);
    assert_eq!(lines[0].spans[0].text, "l → look");
    assert_eq!(lines[1].spans[0].text, "\" → say");
    assert_eq!(lines[12].spans[0].text, "d → down");

    let mut writer = EventWriter::new();
    help(Id::new(4), &mut writer);
    let lines = writer.lines.get(&4).unwrap();
    assert_eq!(lines.len(), 11);
    assert_eq!(lines[0].spans[0].text, "Commands:");
    assert_eq!(lines[0].spans[0].bold, Some(true));
    assert_eq!(lines[1].spans[0].text, "look");
    assert_eq!(lines[1].spans[0].color, Some("white"));
    assert_eq!(lines[1].spans[1].text, " – Look around or at something");
    assert_eq!(lines[9].spans[1].text, " – You're looking at it");
    assert_eq!(lines[10].spans.len(), 1);
}

#[test]
fn writer_keeps_order_per_player() {
    let mut writer = EventWriter::new();
    writer.tell(Id::new(1), Line::str("a"));
    writer.tell_many(&vec![Id::new(2), Id::new(1)], Line::str("b"));
    writer.tell_lines(Id::new(1), &vec![Line::str("c"), Line::str("d")]);
    writer.tell_lines(Id::new(3), &vec![]);
    let of = |p: u64| -> Vec<String> {
        writer.lines.get(&p).unwrap().iter().map(|l| l.spans[0].text.clone()).collect()
    };
    assert_eq!(of(1), vec!["a", "b", "c", "d"]);
    assert_eq!(of(2), vec!["b"]);
    assert!(writer.lines.get(&3).unwrap().is_empty());
}
