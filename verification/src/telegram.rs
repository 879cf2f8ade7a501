//! The remote transport's in-band command surface: a handful of slash
//! commands are recognized and must never reach the dialogue worker as
//! conversational input; everything else is an ordinary utterance.

use vstd::prelude::*;
use crate::strutil::{str_eq, trim, trim_spec};
use vstd::string::StrSliceExecFns;

verus! {

/// What one incoming chat message asks for.
#[derive(Clone, Debug)]
pub enum TelegramCmd {
    /// Stop offering image replies.
    DisableImages,
    /// Start offering image replies.
    EnableImages,
    /// Shut the process down.
    Stop,
    /// The transport's greeting; answered, never forwarded.
    Start,
    /// An unrecognized slash command; logged, never forwarded.
    Unknown,
    /// An ordinary utterance for the conversation, trimmed.
    Say(String),
}

/// Classify one incoming message.  Exactly the four known slash commands
/// are commands; any other message starting with a slash is unknown; and
/// only a message that does not start with a slash is conversational.
pub fn parse_command(text: &str) -> (r: TelegramCmd)
    ensures
        ({
            let t = trim_spec(text@);
            match r {
                TelegramCmd::DisableImages => t == "/noimages"@,
                TelegramCmd::EnableImages => t == "/yesimages"@,
                TelegramCmd::Stop => t == "/stop"@,
                TelegramCmd::Start => t == "/start"@,
                TelegramCmd::Unknown => {
                    &&& t.len() > 0
                    &&& t.first() == '/'
                    &&& t != "/noimages"@
                    &&& t != "/yesimages"@
                    &&& t != "/stop"@
                    &&& t != "/start"@
                },
                TelegramCmd::Say(m) => m@ == t && (t.len() == 0 || t.first() != '/'),
            }
        }),
{
    let t = trim(text);
    if str_eq(t.as_str(), "/noimages") {
        TelegramCmd::DisableImages
    } else if str_eq(t.as_str(), "/yesimages") {
        TelegramCmd::EnableImages
    } else if str_eq(t.as_str(), "/stop") {
        TelegramCmd::Stop
    } else if str_eq(t.as_str(), "/start") {
        TelegramCmd::Start
    } else if t.as_str().unicode_len() > 0 && t.as_str().get_char(0) == '/' {
        TelegramCmd::Unknown
    } else {
        TelegramCmd::Say(t)
    }
}

} // verus!
