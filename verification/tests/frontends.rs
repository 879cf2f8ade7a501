//! The front ends' decision logic and the image-selection worker.

use alone::config::{
    classify_model_files, conv_model_files, default_bot_name, default_debug,
    default_max_context, default_summary, WordImageData, WordImagesConfig,
};
use alone::console::{normalize_input, ConsoleAction};
use alone::telegram::{parse_command, TelegramCmd};
use alone::wordimage::WordImage;
use alone::Error;

#[test]
fn console_normalizes_punctuation() {
    match normalize_input("hello there") {
        ConsoleAction::Say(t) => assert_eq!(t, "hello there."),
        ConsoleAction::Quit => panic!("a real line is an utterance"),
    }
    match normalize_input("hello there!") {
        ConsoleAction::Say(t) => assert_eq!(t, "hello there!"),
        ConsoleAction::Quit => panic!(),
    }
    match normalize_input("all good?") {
        ConsoleAction::Say(t) => assert_eq!(t, "all good?"),
        ConsoleAction::Quit => panic!(),
    }
    match normalize_input("  spaced out  ") {
        ConsoleAction::Say(t) => assert_eq!(t, "spaced out."),
        ConsoleAction::Quit => panic!(),
    }
}

#[test]
fn console_quits_on_short_lines() {
    assert!(matches!(normalize_input(""), ConsoleAction::Quit));
    assert!(matches!(normalize_input("x"), ConsoleAction::Quit));
    assert!(matches!(normalize_input("ok"), ConsoleAction::Say(_)));
}

#[test]
fn telegram_recognizes_commands() {
    assert!(matches!(parse_command("/stop"), TelegramCmd::Stop));
    assert!(matches!(parse_command("/start"), TelegramCmd::Start));
    assert!(matches!(parse_command("/noimages"), TelegramCmd::DisableImages));
    assert!(matches!(parse_command("/yesimages"), TelegramCmd::EnableImages));
    assert!(matches!(parse_command("  /stop  "), TelegramCmd::Stop));
}

#[test]
fn telegram_never_forwards_unknown_commands() {
    assert!(matches!(parse_command("/selfdestruct"), TelegramCmd::Unknown));
    assert!(matches!(parse_command(" /stopp"), TelegramCmd::Unknown));
}

#[test]
fn telegram_forwards_ordinary_text_trimmed() {
    match parse_command("  hello bot  ") {
        TelegramCmd::Say(m) => assert_eq!(m, "hello bot"),
        _ => panic!("ordinary text is conversational"),
    }
    match parse_command("") {
        TelegramCmd::Say(m) => assert_eq!(m, ""),
        _ => panic!(),
    }
}

fn catalogue() -> WordImagesConfig {
    WordImagesConfig {
        word_images: vec![
            WordImageData {
                path: String::from("cat.png"),
                words: vec![String::from("cat"), String::from("kitten")],
            },
            WordImageData {
                path: String::from("dog.png"),
                words: vec![String::from("dog"), String::from("cat")],
            },
        ],
    }
}

#[test]
fn catalogue_validation_requires_words() {
    assert_eq!(catalogue().validate(), Ok(()));
    let bad = WordImagesConfig {
        word_images: vec![WordImageData { path: String::from("mute.png"), words: vec![] }],
    };
    assert_eq!(bad.validate(), Err(Error::ConfigInvalid));
}

#[test]
fn all_words_lists_each_word_once() {
    let wordy = WordImage::new(&catalogue());
    let mut words = wordy.all_words();
    words.sort();
    assert_eq!(words, vec!["cat", "dog", "kitten"]);
}

#[test]
fn no_strong_words_no_image() {
    let wordy = WordImage::new(&catalogue());
    assert_eq!(wordy.pick_image(&vec![]), None);
    assert_eq!(wordy.pick_image(&vec![String::from("sunset")]), None);
}

#[test]
fn a_unique_match_is_offered() {
    let wordy = WordImage::new(&catalogue());
    assert_eq!(wordy.pick_image(&vec![String::from("kitten")]), Some(String::from("cat.png")));
    assert_eq!(wordy.pick_image(&vec![String::from("dog")]), Some(String::from("dog.png")));
}

#[test]
fn an_image_is_owed_when_every_strong_word_is_catalogued() {
    let wordy = WordImage::new(&catalogue());
    let strong = vec![String::from("cat"), String::from("dog"), String::from("kitten")];
    // whichever word the random draw picks, it has a matching entry, so an
    // image must be offered every time
    for _ in 0..16 {
        assert!(wordy.pick_image(&strong).is_some());
    }
}

#[test]
fn an_ambiguous_match_offers_some_matching_image() {
    let wordy = WordImage::new(&catalogue());
    // "cat" selects either image; whatever the random draw, the offer is one
    // of the two paths
    for _ in 0..16 {
        let got = wordy.pick_image(&vec![String::from("cat")]).unwrap();
        assert!(got == "cat.png" || got == "dog.png");
    }
}

#[test]
fn config_defaults_match_the_documentation() {
    assert_eq!(default_summary(), false);
    assert_eq!(default_debug(), false);
    assert_eq!(default_max_context(), 0);
    assert_eq!(default_bot_name(), "Holly");
}

#[test]
fn model_file_lists() {
    assert!(conv_model_files("default").is_empty());
    assert!(classify_model_files("default").is_empty());
    assert_eq!(
        conv_model_files("tiny"),
        vec![
            "./tiny.model/model.ot",
            "./tiny.model/config.json",
            "./tiny.model/vocab.json",
            "./tiny.model/merges.txt",
        ]
    );
    // the classifier's merges file is optional and not demanded
    assert_eq!(
        classify_model_files("tiny"),
        vec!["./tiny.model/model.ot", "./tiny.model/config.json", "./tiny.model/vocab.json"]
    );
}
