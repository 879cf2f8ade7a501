//! The journal text format: encoding, parsing, and the round trip.

use alone::conv::{Past, Speaker};
use alone::journal::{journal_from_text, journal_to_text};
use alone::Error;

fn turn(speaker: Speaker, id: u64, message: &str) -> Past {
    Past { speaker, id, message: String::from(message) }
}

#[test]
fn encodes_one_line_per_turn() {
    let journal = vec![turn(Speaker::Me, 0, "hi"), turn(Speaker::Bot, 1, "hello")];
    let text = journal_to_text(&journal);
    assert_eq!(text, "Me 0 \"hi\"\nBot 1 \"hello\"\n");
}

#[test]
fn encodes_escapes() {
    let journal = vec![turn(Speaker::Me, 7, "a\"b\\c\nd\te\rf")];
    let text = journal_to_text(&journal);
    assert_eq!(text, "Me 7 \"a\\\"b\\\\c\\nd\\te\\rf\"\n");
}

#[test]
fn parses_what_it_encodes() {
    let journal = vec![
        turn(Speaker::Me, 0, "hi"),
        turn(Speaker::Bot, 1, "hello"),
        turn(Speaker::Me, 2, "strange \"quotes\" and \\slashes\\"),
        turn(Speaker::Bot, 3, ""),
        turn(Speaker::Me, 4, "héllo wörld ß 你好"),
    ];
    let text = journal_to_text(&journal);
    let loaded = journal_from_text(&text).expect("the encoder's output must parse");
    assert_eq!(loaded.len(), journal.len());
    for (a, b) in journal.iter().zip(loaded.iter()) {
        assert_eq!(a.speaker, b.speaker);
        assert_eq!(a.id, b.id);
        assert_eq!(a.message, b.message);
    }
}

#[test]
fn round_trips_the_largest_id() {
    let journal = vec![turn(Speaker::Bot, u64::MAX, "last")];
    let text = journal_to_text(&journal);
    assert_eq!(text, "Bot 18446744073709551615 \"last\"\n");
    let loaded = journal_from_text(&text).unwrap();
    assert_eq!(loaded[0].id, u64::MAX);
}

#[test]
fn empty_text_is_an_empty_journal() {
    assert_eq!(journal_from_text("").unwrap().len(), 0);
}

#[test]
fn parses_a_hand_written_file() {
    let loaded = journal_from_text("Bot 12 \"ok then\"\nMe 4 \"out of order\"\n").unwrap();
    assert_eq!(loaded.len(), 2);
    assert_eq!(loaded[0].speaker, Speaker::Bot);
    assert_eq!(loaded[0].id, 12);
    assert_eq!(loaded[0].message, "ok then");
    assert_eq!(loaded[1].speaker, Speaker::Me);
    assert_eq!(loaded[1].id, 4);
}

#[test]
fn rejects_missing_final_newline() {
    assert!(matches!(journal_from_text("Me 0 \"hi\""), Err(Error::MalformedJournal)));
}

#[test]
fn rejects_unknown_speaker() {
    assert!(matches!(journal_from_text("Us 0 \"hi\"\n"), Err(Error::MalformedJournal)));
}

#[test]
fn rejects_a_bad_id() {
    assert!(matches!(journal_from_text("Me x \"hi\"\n"), Err(Error::MalformedJournal)));
    assert!(matches!(journal_from_text("Me  \"hi\"\n"), Err(Error::MalformedJournal)));
    // one past u64::MAX
    assert!(matches!(journal_from_text("Me 18446744073709551616 \"hi\"\n"), Err(Error::MalformedJournal)));
}

#[test]
fn rejects_broken_quoting() {
    assert!(matches!(journal_from_text("Me 0 hi\n"), Err(Error::MalformedJournal)));
    assert!(matches!(journal_from_text("Me 0 \"hi\n"), Err(Error::MalformedJournal)));
    assert!(matches!(journal_from_text("Me 0 \"\n"), Err(Error::MalformedJournal)));
}

#[test]
fn rejects_bad_escapes() {
    // unknown escape code
    assert!(matches!(journal_from_text("Me 0 \"a\\qb\"\n"), Err(Error::MalformedJournal)));
    // a dangling backslash swallows the closing quote
    assert!(matches!(journal_from_text("Me 0 \"a\\\"\n"), Err(Error::MalformedJournal)));
}

#[test]
fn rejects_missing_fields() {
    assert!(matches!(journal_from_text("Me\n"), Err(Error::MalformedJournal)));
    assert!(matches!(journal_from_text("Me 0\n"), Err(Error::MalformedJournal)));
    assert!(matches!(journal_from_text("\n"), Err(Error::MalformedJournal)));
}

#[test]
fn one_bad_line_spoils_the_file() {
    let text = "Me 0 \"hi\"\nBot broken\n";
    assert!(matches!(journal_from_text(text), Err(Error::MalformedJournal)));
}
