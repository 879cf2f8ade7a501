//! Swapping grammatical persons in an utterance: "you" becomes "I", "my"
//! becomes "your", and so on, word by word, so that journaled turns can be
//! replayed to the backend from the other side of the conversation.
//!
//! Case folding is done by the inflector crate; each folded form is named
//! rather than restated, and the swap itself is verified around those names.

use vstd::prelude::*;
use crate::journal::{find_char, find_char_exec};
use crate::strutil::{push_char, str_eq};
use vstd::string::StrSliceExecFns;

verus! {

/// What inflector's `to_snake_case` returns: a function of the input
/// characters alone.
pub uninterp spec fn snake_of(s: Seq<char>) -> Seq<char>;

/// What inflector's `to_sentence_case` returns: a function of the input
/// characters alone.
pub uninterp spec fn sentence_of(s: Seq<char>) -> Seq<char>;

/// Relies on inflector's cases::snakecase::to_snake_case: the result depends
/// on the input characters alone.
#[verifier::external_body]
fn to_snake_case(w: &str) -> (r: String)
    ensures
        r@ == snake_of(w@),
{
    inflector::cases::snakecase::to_snake_case(w)
}

/// Relies on inflector's cases::sentencecase::to_sentence_case: the result
/// depends on the input characters alone.
#[verifier::external_body]
fn to_sentence_case(w: &str) -> (r: String)
    ensures
        r@ == sentence_of(w@),
{
    inflector::cases::sentencecase::to_sentence_case(w)
}

/// Relies on inflector's cases::sentencecase::is_sentence_case, whose source
/// defines it as: the string equals its own sentence-cased form.
#[verifier::external_body]
fn is_sentence_case(w: &str) -> (r: bool)
    ensures
        r == (w@ == sentence_of(w@)),
{
    inflector::cases::sentencecase::is_sentence_case(w)
}

/// The person-swap table, keyed by the snake-cased word.
pub open spec fn swap_table(k: Seq<char>) -> Option<Seq<char>> {
    if k == "you're"@ {
        Some("I'm"@)
    } else if k == "youre"@ {
        Some("I'm"@)
    } else if k == "you"@ {
        Some("I"@)
    } else if k == "your"@ {
        Some("my"@)
    } else if k == "yours"@ {
        Some("mine"@)
    } else if k == "yourself"@ {
        Some("myself"@)
    } else if k == "i'm"@ {
        Some("you're"@)
    } else if k == "i"@ {
        Some("you"@)
    } else if k == "my"@ {
        Some("your"@)
    } else if k == "me"@ {
        Some("you"@)
    } else if k == "mine"@ {
        Some("yours"@)
    } else if k == "myself"@ {
        Some("yourself"@)
    } else {
        None
    }
}

/// One word with its person swapped: look the snake-cased form up in the
/// table (a word not in the table stays in its snake-cased form), and
/// restore sentence case when the original word carried it.
pub open spec fn swap_word(w: Seq<char>) -> Seq<char> {
    let k = snake_of(w);
    let base = match swap_table(k) {
        Some(r) => r,
        None => k,
    };
    if w == sentence_of(w) {
        sentence_of(base)
    } else {
        base
    }
}

/// The words of `s`: split on single spaces, empty pieces dropped.
pub open spec fn split_words(s: Seq<char>) -> Seq<Seq<char>>
    decreases s.len(),
{
    if s.len() == 0 {
        Seq::empty()
    } else {
        let sp = find_char(s, ' ') as int;
        if sp >= s.len() {
            seq![s]
        } else {
            let w = s.take(sp);
            let rest = split_words(s.skip(sp + 1));
            if w.len() == 0 {
                rest
            } else {
                seq![w] + rest
            }
        }
    }
}

/// Words joined back with single spaces.
pub open spec fn join_spaces(ws: Seq<Seq<char>>) -> Seq<char>
    decreases ws.len(),
{
    if ws.len() == 0 {
        Seq::empty()
    } else if ws.len() == 1 {
        ws.first()
    } else {
        ws.first() + seq![' '] + join_spaces(ws.drop_first())
    }
}

/// The whole utterance with every word's person swapped.
pub open spec fn swapped(s: Seq<char>) -> Seq<char> {
    join_spaces(split_words(s).map_values(|w: Seq<char>| swap_word(w)))
}

proof fn lemma_join_snoc(ws: Seq<Seq<char>>, w: Seq<char>)
    requires
        ws.len() >= 1,
    ensures
        join_spaces(ws.push(w)) == join_spaces(ws) + seq![' '] + w,
    decreases ws.len(),
{
    if ws.len() == 1 {
        assert(ws.push(w).drop_first() =~= seq![w]);
        assert(join_spaces(seq![w]) == w);
        assert(ws.push(w).first() == ws.first());
    } else {
        lemma_join_snoc(ws.drop_first(), w);
        assert(ws.push(w).drop_first() =~= ws.drop_first().push(w));
        assert(ws.push(w).first() == ws.first());
        assert(ws.first() + seq![' '] + (join_spaces(ws.drop_first()) + seq![' '] + w) =~= (
        ws.first() + seq![' '] + join_spaces(ws.drop_first())) + seq![' '] + w);
    }
}

/// The words of `s[pos..]`, as owned strings.
fn split_words_exec(s: &str, cs: &Vec<char>, pos: usize) -> (r: Vec<String>)
    requires
        cs@ == s@,
        pos <= cs@.len(),
    ensures
        r.deep_view() == split_words(cs@.skip(pos as int)),
    decreases cs@.len() - pos,
{
    let n = cs.len();
    let ghost tail = cs@.skip(pos as int);
    if pos == n {
        let r: Vec<String> = Vec::new();
        proof {
            assert(tail =~= Seq::<char>::empty());
            assert(r.deep_view() =~= Seq::<Seq<char>>::empty());
        }
        return r;
    }
    let sp = find_char_exec(cs, pos, n, ' ');
    proof {
        assert(tail =~= cs@.subrange(pos as int, n as int));
        assert(find_char(tail, ' ') == (sp - pos) as nat);
    }
    if sp == n {
        let w = s.substring_char(pos, n);
        let mut r: Vec<String> = Vec::new();
        r.push(String::from_str(w));
        proof {
            assert(w@ =~= tail);
            assert(r.deep_view() =~= seq![tail]);
        }
        return r;
    }
    let rest = split_words_exec(s, cs, sp + 1);
    proof {
        assert(tail.skip((sp - pos) + 1 as int) =~= cs@.skip(sp + 1 as int));
    }
    if sp == pos {
        proof {
            assert(tail.take((sp - pos) as int).len() == 0);
        }
        rest
    } else {
        let w = s.substring_char(pos, sp);
        let ghost rest_view = rest.deep_view();
        let mut rest = rest;
        rest.insert(0, String::from_str(w));
        proof {
            assert(w@ =~= tail.take((sp - pos) as int));
            assert(rest.deep_view() =~= seq![tail.take((sp - pos) as int)] + rest_view);
        }
        rest
    }
}

/// One word with its person swapped, as `swap_word` describes.
fn swap_word_exec(word: &str) -> (r: String)
    ensures
        r@ == swap_word(word@),
{
    let snake = to_snake_case(word);
    let base: String = if str_eq(snake.as_str(), "you're") {
        String::from_str("I'm")
    } else if str_eq(snake.as_str(), "youre") {
        String::from_str("I'm")
    } else if str_eq(snake.as_str(), "you") {
        String::from_str("I")
    } else if str_eq(snake.as_str(), "your") {
        String::from_str("my")
    } else if str_eq(snake.as_str(), "yours") {
        String::from_str("mine")
    } else if str_eq(snake.as_str(), "yourself") {
        String::from_str("myself")
    } else if str_eq(snake.as_str(), "i'm") {
        String::from_str("you're")
    } else if str_eq(snake.as_str(), "i") {
        String::from_str("you")
    } else if str_eq(snake.as_str(), "my") {
        String::from_str("your")
    } else if str_eq(snake.as_str(), "me") {
        String::from_str("you")
    } else if str_eq(snake.as_str(), "mine") {
        String::from_str("yours")
    } else if str_eq(snake.as_str(), "myself") {
        String::from_str("yourself")
    } else {
        snake
    };
    if is_sentence_case(word) {
        to_sentence_case(base.as_str())
    } else {
        base
    }
}

/// The utterance with every word's person swapped: "are you my friend"
/// becomes "are I your friend", so that a journaled line reads correctly
/// when replayed from the other speaker's side.
pub fn swap_persons(input: &str) -> (r: String)
    ensures
        r@ == swapped(input@),
{
    let cs = crate::strutil::chars_of(input);
    proof {
        assert(cs@.skip(0) =~= input@);
    }
    let words = split_words_exec(input, &cs, 0);
    let ghost ws = split_words(input@);
    let ghost target = ws.map_values(|w: Seq<char>| swap_word(w));

    let n = words.len();
    let mut out = String::new();
    let mut i: usize = 0;
    proof {
        assert(words.deep_view() == ws);
        assert(target.len() == ws.len());
    }
    while i < n
        invariant
            n == words@.len(),
            words.deep_view() == ws,
            target == ws.map_values(|w: Seq<char>| swap_word(w)),
            target.len() == n,
            i <= n,
            out@ == join_spaces(target.take(i as int)),
        decreases n - i,
    {
        let piece = swap_word_exec(words[i].as_str());
        proof {
            assert(words@[i as int]@ == ws[i as int]);
            assert(piece@ == target[i as int]);
            assert(target.take(i + 1 as int) =~= target.take(i as int).push(target[i as int]));
        }
        if i == 0 {
            out.append(piece.as_str());
            proof {
                assert(target.take(1) =~= seq![target[0]]);
                assert(join_spaces(seq![target[0]]) == target[0]);
                assert(out@ =~= target[0]);
            }
        } else {
            push_char(&mut out, ' ');
            out.append(piece.as_str());
            proof {
                lemma_join_snoc(target.take(i as int), target[i as int]);
                assert(out@ =~= join_spaces(target.take(i as int)) + seq![' ']
                    + target[i as int]);
            }
        }
        i += 1;
    }
    proof {
        assert(target.take(n as int) =~= target);
    }
    out
}

} // verus!
