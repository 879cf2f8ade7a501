//! The configuration the process starts from, and the word-image catalogue.
//!
//! Reading and deserializing the files is the caller's business; validation
//! of what was read — which model files must exist, which catalogue entries
//! are well-formed — is decided here.

use vstd::prelude::*;
use crate::Error;
use crate::strutil::str_eq;
use vstd::string::StrSliceExecFns;

verus! {

/// The recognized configuration options.
#[derive(Clone, Debug)]
pub struct Config {
    /// Conversation model name, or "default" for the built-in one.
    pub model_name: String,
    /// Classification model name, or "default".
    pub classify_model_name: String,
    /// Window bound for the conversation context; 0 means unbounded.
    pub max_context: usize,
    /// Verbose logging.
    pub debug: bool,
    /// Path of the word-image catalogue, if images are configured.
    pub word_images: Option<String>,
    /// Remote-transport token, if the remote front end is configured.
    pub telegram_token: Option<String>,
    /// Remote-transport peer id.
    pub telegram_id: Option<i64>,
    /// What the agent calls itself.
    pub bot_name: String,
    /// Whether the summary worker runs.
    pub do_summary: bool,
}

/// Default for `do_summary`: off.
pub fn default_summary() -> (r: bool)
    ensures
        r == false,
{
    false
}

/// Default for `debug`: off.
pub fn default_debug() -> (r: bool)
    ensures
        r == false,
{
    false
}

/// Default for `max_context`: 0, the unbounded window.
pub fn default_max_context() -> (r: usize)
    ensures
        r == 0,
{
    0
}

/// Default for `bot_name`.
pub fn default_bot_name() -> (r: String)
    ensures
        r@ == "Holly"@,
{
    String::from_str("Holly")
}

/// One catalogue entry: an image and the words that select it.
#[derive(Clone, Debug)]
pub struct WordImageData {
    /// Path of the image file.
    pub path: String,
    /// The words that select this image; a valid entry has at least one.
    pub words: Vec<String>,
}

/// The word-image catalogue.
#[derive(Clone, Debug)]
pub struct WordImagesConfig {
    pub word_images: Vec<WordImageData>,
}

impl WordImagesConfig {
    /// A valid catalogue gives every image at least one word.
    pub open spec fn spec_valid(&self) -> bool {
        forall|i: int|
            0 <= i < self.word_images@.len() ==> #[trigger] self.word_images@[i].words@.len() >= 1
    }

    /// Checks that every image has at least one selecting word; an entry
    /// without words can never be chosen and is rejected as a whole, so the
    /// process fails at startup rather than run with a dead entry.
    pub fn validate(&self) -> (r: Result<(), Error>)
        ensures
            r is Ok <==> self.spec_valid(),
            r is Err ==> r == Err::<(), Error>(Error::ConfigInvalid),
    {
        let n = self.word_images.len();
        let mut i: usize = 0;
        while i < n
            invariant
                i <= n,
                n == self.word_images@.len(),
                forall|j: int| 0 <= j < i ==> #[trigger] self.word_images@[j].words@.len() >= 1,
            decreases n - i,
        {
            if self.word_images[i].words.len() == 0 {
                return Err(Error::ConfigInvalid);
            }
            i += 1;
        }
        Ok(())
    }
}

/// The files a named model is loaded from: `./<name>.model/` followed by
/// each required file name.
pub open spec fn model_file(name: Seq<char>, file: Seq<char>) -> Seq<char> {
    "./"@ + name + ".model/"@ + file
}

/// The files that must exist for the conversation model `name`: its
/// weights, configuration, vocabulary and merges.  The built-in "default"
/// model needs no local files.
pub fn conv_model_files(name: &str) -> (r: Vec<String>)
    ensures
        str_is_default(name@) ==> r@.len() == 0,
        !str_is_default(name@) ==> {
            &&& r@.len() == 4
            &&& r@[0]@ == model_file(name@, "model.ot"@)
            &&& r@[1]@ == model_file(name@, "config.json"@)
            &&& r@[2]@ == model_file(name@, "vocab.json"@)
            &&& r@[3]@ == model_file(name@, "merges.txt"@)
        },
{
    let mut r: Vec<String> = Vec::new();
    if str_eq(name, "default") {
        return r;
    }
    r.push(model_path(name, "model.ot"));
    r.push(model_path(name, "config.json"));
    r.push(model_path(name, "vocab.json"));
    r.push(model_path(name, "merges.txt"));
    r
}

/// The files that must exist for the classification model `name`: as for
/// the conversation model, but the merges file is optional and not
/// required.
pub fn classify_model_files(name: &str) -> (r: Vec<String>)
    ensures
        str_is_default(name@) ==> r@.len() == 0,
        !str_is_default(name@) ==> {
            &&& r@.len() == 3
            &&& r@[0]@ == model_file(name@, "model.ot"@)
            &&& r@[1]@ == model_file(name@, "config.json"@)
            &&& r@[2]@ == model_file(name@, "vocab.json"@)
        },
{
    let mut r: Vec<String> = Vec::new();
    if str_eq(name, "default") {
        return r;
    }
    r.push(model_path(name, "model.ot"));
    r.push(model_path(name, "config.json"));
    r.push(model_path(name, "vocab.json"));
    r
}

/// Whether the configured name picks the built-in model.
pub open spec fn str_is_default(name: Seq<char>) -> bool {
    name == "default"@
}

fn model_path(name: &str, file: &str) -> (r: String)
    ensures
        r@ == model_file(name@, file@),
{
    let mut out = String::from_str("./");
    out.append(name);
    out.append(".model/");
    out.append(file);
    out
}

} // verus!
