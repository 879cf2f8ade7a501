//! The console front end's input rule: what one typed line means.
//!
//! A line of more than one character is an utterance: it is trimmed and
//! given terminal punctuation unless the raw line already ended in one.  A
//! shorter line — a bare return, a single character — quits the session.

use vstd::prelude::*;
use crate::strutil::{trim, trim_spec};
use vstd::string::StrSliceExecFns;

verus! {

/// What the console does with one typed line.
#[derive(Clone, Debug)]
pub enum ConsoleAction {
    /// Hand this utterance to the conversation.
    Say(String),
    /// End the session.
    Quit,
}

/// Whether `c` closes a sentence.
pub open spec fn is_terminal_punct(c: char) -> bool {
    c == '!' || c == '.' || c == '?'
}

/// The utterance a typed line stands for: trimmed, and with a full stop
/// appended unless the raw line already ended in terminal punctuation.
pub open spec fn normalize_spec(s: Seq<char>) -> Seq<char> {
    if s.len() > 0 && is_terminal_punct(s.last()) {
        trim_spec(s)
    } else {
        trim_spec(s) + seq!['.']
    }
}

/// Decide one typed line: an utterance to say, or the wish to quit.
pub fn normalize_input(input: &str) -> (r: ConsoleAction)
    ensures
        match r {
            ConsoleAction::Say(t) => input@.len() > 1 && t@ == normalize_spec(input@),
            ConsoleAction::Quit => input@.len() <= 1,
        },
{
    let n = input.unicode_len();
    if n <= 1 {
        return ConsoleAction::Quit;
    }
    let last = input.get_char(n - 1);
    let trimmed = trim(input);
    if last == '!' || last == '.' || last == '?' {
        ConsoleAction::Say(trimmed)
    } else {
        let mut t = trimmed;
        crate::strutil::push_char(&mut t, '.');
        proof {
            assert(t@ =~= trim_spec(input@) + seq!['.']);
        }
        ConsoleAction::Say(t)
    }
}

} // verus!
