//! The conversation context manager: window trimming, journal ids,
//! loading and saving, and person swapping.

use alone::conv::{Conv, Speaker};
use alone::journal::journal_from_text;
use alone::Error;

fn window(v: &Vec<String>) -> Vec<&str> {
    v.iter().map(|s| s.as_str()).collect()
}

#[test]
fn a_round_journals_user_then_reply() {
    let mut conv = Conv::new(4);
    // the prompt is the snake-cased, person-swapped form of each word, so
    // the punctuation that rode on the last word is folded away
    let prompt = conv.hear("hello there.");
    assert_eq!(prompt, "hello there");
    let reply = conv.reply(Some(String::from("General greeting."))).unwrap();
    assert_eq!(reply, "General greeting.");
    let journal = conv.history();
    assert_eq!(journal.len(), 2);
    assert_eq!(journal[0].speaker, Speaker::Me);
    assert_eq!(journal[0].id, 0);
    assert_eq!(journal[0].message, "hello there.");
    assert_eq!(journal[1].speaker, Speaker::Bot);
    assert_eq!(journal[1].id, 1);
    assert_eq!(journal[1].message, "General greeting.");
}

#[test]
fn a_failed_reply_keeps_the_user_turn() {
    let mut conv = Conv::new(0);
    conv.hear("anyone home");
    assert_eq!(conv.reply(None), Err(Error::UnableToSpeak));
    // an empty reply is as bad as none
    assert_eq!(conv.reply(Some(String::new())), Err(Error::UnableToSpeak));
    let journal = conv.history();
    assert_eq!(journal.len(), 1);
    assert_eq!(journal[0].speaker, Speaker::Me);
    assert_eq!(journal[0].message, "anyone home");
}

#[test]
fn full_scenario_with_context_of_one() {
    // the journal already holds one exchange
    let mut conv = Conv::new(1);
    conv.remember_past("Me 0 \"hi\"\nBot 1 \"hello\"\n").unwrap();
    assert_eq!(window(conv.window_user()), ["hi"]);
    assert_eq!(window(conv.window_agent()), ["hello"]);

    // a new user turn arrives and a reply comes back
    conv.hear("how are things");
    conv.reply(Some(String::from("fine"))).unwrap();

    // the journal keeps everything, ids 0..=3 in order
    let saved = conv.save_journal();
    let loaded = journal_from_text(&saved).unwrap();
    let expect = [
        (Speaker::Me, 0, "hi"),
        (Speaker::Bot, 1, "hello"),
        (Speaker::Me, 2, "how are things"),
        (Speaker::Bot, 3, "fine"),
    ];
    assert_eq!(loaded.len(), expect.len());
    for (got, want) in loaded.iter().zip(expect.iter()) {
        assert_eq!(got.speaker, want.0);
        assert_eq!(got.id, want.1);
        assert_eq!(got.message, want.2);
    }

    // one more round: the window now trims down to the newest turn of each
    // speaker before appending
    conv.hear("and now");
    assert_eq!(window(conv.window_user()), ["how are things", "and now"]);
    assert_eq!(window(conv.window_agent()), ["fine"]);
}

#[test]
fn zero_max_context_never_trims() {
    let mut conv = Conv::new(0);
    for i in 0..8 {
        conv.hear(&format!("turn {}", i));
        conv.reply(Some(String::from("mm"))).unwrap();
    }
    assert_eq!(conv.window_user().len(), 8);
    assert_eq!(conv.window_agent().len(), 8);
    conv.trim_window();
    assert_eq!(conv.window_user().len(), 8);
}

#[test]
fn trimming_an_already_trimmed_window_changes_nothing() {
    let mut conv = Conv::new(2);
    for i in 0..5 {
        conv.hear(&format!("turn {}", i));
        conv.reply(Some(String::from("mm"))).unwrap();
    }
    conv.trim_window();
    let once_user = conv.window_user().clone();
    let once_agent = conv.window_agent().clone();
    conv.trim_window();
    assert_eq!(*conv.window_user(), once_user);
    assert_eq!(*conv.window_agent(), once_agent);
    assert_eq!(once_user.len(), 2);
}

#[test]
fn journal_round_trip_reproduces_the_session() {
    let mut conv = Conv::new(3);
    conv.hear("first");
    conv.reply(Some(String::from("second"))).unwrap();
    conv.hear("third\nwith a newline");
    conv.reply(Some(String::from("fourth \"quoted\""))).unwrap();
    let saved = conv.save_journal();

    let mut again = Conv::new(3);
    again.remember_past(&saved).unwrap();
    let a = conv.history();
    let b = again.history();
    assert_eq!(a.len(), b.len());
    for (x, y) in a.iter().zip(b.iter()) {
        assert_eq!(x.speaker, y.speaker);
        assert_eq!(x.id, y.id);
        assert_eq!(x.message, y.message);
    }
}

#[test]
fn loading_sorts_records_by_id() {
    let mut conv = Conv::new(0);
    conv.remember_past("Bot 9 \"late\"\nMe 5 \"early\"\n").unwrap();
    let journal = conv.history();
    assert_eq!(journal[0].id, 5);
    assert_eq!(journal[1].id, 9);
}

#[test]
fn new_ids_exceed_every_loaded_id() {
    let mut conv = Conv::new(0);
    conv.remember_past("Bot 9 \"late\"\nMe 5 \"early\"\n").unwrap();
    conv.hear("next");
    conv.reply(Some(String::from("indeed"))).unwrap();
    let journal = conv.history();
    assert_eq!(journal[2].id, 10);
    assert_eq!(journal[3].id, 11);
    assert!(journal.iter().take(2).all(|p| p.id < 10));
}

#[test]
fn a_malformed_journal_is_fatal_and_changes_nothing() {
    let mut conv = Conv::new(0);
    conv.hear("already here");
    assert_eq!(conv.remember_past("not a journal"), Err(Error::MalformedJournal));
    assert_eq!(conv.history().len(), 1);
    assert_eq!(conv.window_user().len(), 1);
}

#[test]
fn missing_file_text_is_a_first_run() {
    let mut conv = Conv::new(0);
    conv.remember_past("").unwrap();
    assert_eq!(conv.history().len(), 0);
    conv.hear("first ever");
    assert_eq!(conv.history()[0].id, 0);
}

#[test]
fn loading_respects_the_window_bound() {
    let mut conv = Conv::new(1);
    conv.remember_past("Me 0 \"a\"\nBot 1 \"b\"\nMe 2 \"c\"\nBot 3 \"d\"\nMe 4 \"e\"\n")
        .unwrap();
    assert_eq!(conv.history().len(), 5);
    // after replay the live window holds one turn per speaker at most
    assert!(conv.window_user().len() <= 2);
    assert!(conv.window_agent().len() <= 1);
}

#[test]
fn swap_persons_swaps_both_directions() {
    assert_eq!(Conv::swap_persons("you love me"), "I love you");
    assert_eq!(Conv::swap_persons("are you my friend"), "are I your friend");
    assert_eq!(Conv::swap_persons(""), "");
}

#[test]
fn swap_persons_keeps_sentence_case() {
    assert_eq!(Conv::swap_persons("You love me"), "I love you");
    assert_eq!(Conv::swap_persons("Hello you"), "Hello I");
}

#[test]
fn swap_persons_collapses_repeated_spaces() {
    assert_eq!(Conv::swap_persons("you   me"), "I you");
}
