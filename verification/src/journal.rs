//! The journal file format: one line per turn,
//!
//! ```text
//! Me 0 "hi"
//! Bot 1 "hello"
//! ```
//!
//! that is, the speaker's name, the decimal sequence id, and the message in
//! double quotes with backslash, quote, newline, carriage return and tab
//! escaped.  The format is human-diffable, and decoding an encoded journal
//! gives the journal back exactly, which is proved below.

use vstd::prelude::*;
use crate::conv::{Speaker, Past, PastView};
use crate::strutil::push_char;
use vstd::string::StrSliceExecFns;

verus! {

/// The name under which a speaker appears in the journal file.
pub open spec fn speaker_name(s: Speaker) -> Seq<char> {
    match s {
        Speaker::Me => seq!['M', 'e'],
        Speaker::Bot => seq!['B', 'o', 't'],
    }
}

/// The speaker whose name reads `s`, if any.
pub open spec fn parse_speaker(s: Seq<char>) -> Option<Speaker> {
    if s == seq!['M', 'e'] {
        Some(Speaker::Me)
    } else if s == seq!['B', 'o', 't'] {
        Some(Speaker::Bot)
    } else {
        None
    }
}

/// How one message character appears in the file.
pub open spec fn escape_char(c: char) -> Seq<char> {
    if c == '\\' {
        seq!['\\', '\\']
    } else if c == '"' {
        seq!['\\', '"']
    } else if c == '\n' {
        seq!['\\', 'n']
    } else if c == '\r' {
        seq!['\\', 'r']
    } else if c == '\t' {
        seq!['\\', 't']
    } else {
        seq![c]
    }
}

/// A message as it appears between the quotes.
pub open spec fn escape(s: Seq<char>) -> Seq<char>
    decreases s.len(),
{
    if s.len() == 0 {
        Seq::empty()
    } else {
        escape_char(s.first()) + escape(s.drop_first())
    }
}

/// The character an escape sequence `\x` stands for, if `x` is a valid
/// escape.
pub open spec fn unescape_code(c: char) -> Option<char> {
    if c == '\\' {
        Some('\\')
    } else if c == '"' {
        Some('"')
    } else if c == 'n' {
        Some('\n')
    } else if c == 'r' {
        Some('\r')
    } else if c == 't' {
        Some('\t')
    } else {
        None
    }
}

/// The message encoded as `s`, or `None` for a dangling backslash or an
/// unknown escape.
pub open spec fn unescape(s: Seq<char>) -> Option<Seq<char>>
    decreases s.len(),
{
    if s.len() == 0 {
        Some(Seq::empty())
    } else if s.first() == '\\' {
        if s.len() < 2 {
            None
        } else {
            match (unescape_code(s[1]), unescape(s.skip(2))) {
                (Some(h), Some(t)) => Some(seq![h] + t),
                _ => None,
            }
        }
    } else {
        match unescape(s.drop_first()) {
            Some(t) => Some(seq![s.first()] + t),
            None => None,
        }
    }
}

/// Whether `c` is a decimal digit.
pub open spec fn is_digit(c: char) -> bool {
    48 <= c as u32 <= 57
}

/// The value of a decimal digit.
pub open spec fn digit_val(c: char) -> nat {
    (c as u32 - 48) as nat
}

/// The digit character for `n < 10`.
pub open spec fn digit_char(n: nat) -> char {
    if n == 0 {
        '0'
    } else if n == 1 {
        '1'
    } else if n == 2 {
        '2'
    } else if n == 3 {
        '3'
    } else if n == 4 {
        '4'
    } else if n == 5 {
        '5'
    } else if n == 6 {
        '6'
    } else if n == 7 {
        '7'
    } else if n == 8 {
        '8'
    } else {
        '9'
    }
}

/// The decimal representation of `n`, most significant digit first.
pub open spec fn dec_rep(n: nat) -> Seq<char>
    decreases n,
{
    if n < 10 {
        seq![digit_char(n)]
    } else {
        dec_rep(n / 10) + seq![digit_char(n % 10)]
    }
}

/// The number a digit string stands for.
pub open spec fn dec_val(s: Seq<char>) -> nat
    decreases s.len(),
{
    if s.len() == 0 {
        0
    } else {
        dec_val(s.drop_last()) * 10 + digit_val(s.last())
    }
}

/// A digit string the parser accepts as an id: nonempty, all digits, and
/// within u64 range.
pub open spec fn valid_digits(s: Seq<char>) -> bool {
    &&& s.len() > 0
    &&& forall|i: int| 0 <= i < s.len() ==> is_digit(#[trigger] s[i])
    &&& dec_val(s) <= u64::MAX
}

/// The index of the first occurrence of `c` in `s`, or `s.len()` if there
/// is none.
pub open spec fn find_char(s: Seq<char>, c: char) -> nat
    decreases s.len(),
{
    if s.len() == 0 {
        0
    } else if s.first() == c {
        0
    } else {
        1 + find_char(s.drop_first(), c)
    }
}

/// One turn's line, without the terminating newline.
pub open spec fn record_body(p: PastView) -> Seq<char> {
    speaker_name(p.speaker) + seq![' '] + dec_rep(p.id as nat) + seq![' ', '"'] + escape(p.message)
        + seq!['"']
}

/// One turn's line, newline included.
pub open spec fn encode_past(p: PastView) -> Seq<char> {
    record_body(p) + seq!['\n']
}

/// The whole journal file: one line per turn, in sequence order.
pub open spec fn encode_journal(ps: Seq<PastView>) -> Seq<char>
    decreases ps.len(),
{
    if ps.len() == 0 {
        Seq::empty()
    } else {
        encode_past(ps.first()) + encode_journal(ps.drop_first())
    }
}

/// The turn a single line stands for, if it is well-formed.
pub open spec fn parse_record(line: Seq<char>) -> Option<PastView> {
    let sp1 = find_char(line, ' ') as int;
    if sp1 >= line.len() {
        None
    } else {
        let name = line.take(sp1);
        let rest = line.skip(sp1 + 1);
        let sp2 = find_char(rest, ' ') as int;
        if sp2 >= rest.len() {
            None
        } else {
            let digits = rest.take(sp2);
            let q = rest.skip(sp2 + 1);
            if !valid_digits(digits) {
                None
            } else if q.len() < 2 || q.first() != '"' || q.last() != '"' {
                None
            } else {
                match (parse_speaker(name), unescape(q.subrange(1, q.len() - 1))) {
                    (Some(sp), Some(msg)) => Some(
                        PastView { speaker: sp, id: dec_val(digits) as u64, message: msg },
                    ),
                    _ => None,
                }
            }
        }
    }
}

/// The turns a journal file stands for: newline-terminated lines, each a
/// well-formed record; anything else is malformed.
pub open spec fn parse_journal(s: Seq<char>) -> Option<Seq<PastView>>
    decreases s.len(),
{
    if s.len() == 0 {
        Some(Seq::empty())
    } else {
        let nl = find_char(s, '\n') as int;
        if nl >= s.len() {
            None
        } else {
            match (parse_record(s.take(nl)), parse_journal(s.skip(nl + 1))) {
                (Some(p), Some(ps)) => Some(seq![p] + ps),
                _ => None,
            }
        }
    }
}

pub proof fn lemma_find_char_at(s: Seq<char>, c: char, k: int)
    requires
        0 <= k < s.len(),
        s[k] == c,
        forall|i: int| 0 <= i < k ==> s[i] != c,
    ensures
        find_char(s, c) == k,
    decreases k,
{
    if k == 0 {
    } else {
        assert(s.first() != c);
        lemma_find_char_at(s.drop_first(), c, k - 1);
    }
}

pub proof fn lemma_escape_no_newline(s: Seq<char>)
    ensures
        forall|i: int| 0 <= i < escape(s).len() ==> #[trigger] escape(s)[i] != '\n',
    decreases s.len(),
{
    if s.len() == 0 {
    } else {
        lemma_escape_no_newline(s.drop_first());
        let a = escape_char(s.first());
        let b = escape(s.drop_first());
        assert(escape(s) == a + b);
        assert forall|i: int| 0 <= i < escape(s).len() implies #[trigger] escape(s)[i]
            != '\n' by {
            if i < a.len() {
                assert(escape(s)[i] == a[i]);
            } else {
                assert(escape(s)[i] == b[i - a.len()]);
            }
        }
    }
}

pub proof fn lemma_dec_rep_digits(n: nat)
    ensures
        dec_rep(n).len() >= 1,
        forall|i: int| 0 <= i < dec_rep(n).len() ==> is_digit(#[trigger] dec_rep(n)[i]),
    decreases n,
{
    if n < 10 {
        assert(is_digit(digit_char(n)));
    } else {
        lemma_dec_rep_digits(n / 10);
        assert(is_digit(digit_char(n % 10)));
    }
}

pub proof fn lemma_dec_val_rep(n: nat)
    ensures
        dec_val(dec_rep(n)) == n,
    decreases n,
{
    if n < 10 {
        assert(dec_val(Seq::<char>::empty()) == 0);
        let d = dec_rep(n);
        assert(d == seq![digit_char(n)]);
        assert(d.drop_last() =~= Seq::<char>::empty());
        assert(dec_val(d) == dec_val(d.drop_last()) * 10 + digit_val(d.last()));
        assert(digit_val(digit_char(n)) == n);
    } else {
        lemma_dec_val_rep(n / 10);
        let d = dec_rep(n);
        assert(d.drop_last() =~= dec_rep(n / 10));
        assert(d.last() == digit_char((n % 10) as nat));
        assert(digit_val(digit_char((n % 10) as nat)) == n % 10);
        assert(n / 10 * 10 + n % 10 == n) by {
            vstd::arithmetic::div_mod::lemma_fundamental_div_mod(n as int, 10);
        }
    }
}

pub proof fn lemma_unescape_escape(s: Seq<char>)
    ensures
        unescape(escape(s)) == Some(s),
    decreases s.len(),
{
    if s.len() == 0 {
    } else {
        let c = s.first();
        let t = s.drop_first();
        lemma_unescape_escape(t);
        let total = escape(s);
        if c == '\\' || c == '"' || c == '\n' || c == '\r' || c == '\t' {
            assert(escape_char(c).len() == 2);
            assert(total.first() == '\\');
            assert(unescape_code(total[1]) == Some(c));
            assert(total.skip(2) =~= escape(t));
            assert(seq![c] + t =~= s);
        } else {
            assert(escape_char(c) =~= seq![c]);
            assert(total.first() == c);
            assert(total.drop_first() =~= escape(t));
            assert(seq![c] + t =~= s);
        }
    }
}

#[verifier::rlimit(100)]
pub proof fn lemma_parse_record_body(p: PastView)
    ensures
        parse_record(record_body(p)) == Some(p),
        forall|i: int| 0 <= i < record_body(p).len() ==> #[trigger] record_body(p)[i] != '\n',
{
    let name = speaker_name(p.speaker);
    let dec = dec_rep(p.id as nat);
    let esc = escape(p.message);
    let body = record_body(p);
    lemma_dec_rep_digits(p.id as nat);
    lemma_dec_val_rep(p.id as nat);
    lemma_escape_no_newline(p.message);
    lemma_unescape_escape(p.message);

    assert(name.len() == 2 || name.len() == 3);
    assert(forall|i: int| 0 <= i < name.len() ==> #[trigger] name[i] != ' ' && name[i] != '\n');
    assert(forall|i: int|
        0 <= i < dec.len() ==> #[trigger] dec[i] != ' ' && dec[i] != '\n') by {
        assert(forall|i: int| 0 <= i < dec.len() ==> is_digit(#[trigger] dec[i]));
    }

    // the first space stands right after the speaker's name
    assert(body[name.len() as int] == ' ');
    assert(forall|i: int| 0 <= i < name.len() ==> #[trigger] body[i] == name[i]);
    lemma_find_char_at(body, ' ', name.len() as int);
    let sp1 = find_char(body, ' ') as int;
    assert(sp1 == name.len());
    assert(sp1 < body.len());
    assert(body.take(sp1) =~= name);

    let rest = body.skip(sp1 + 1);
    assert(rest =~= dec + seq![' ', '"'] + esc + seq!['"']);

    // the next space stands right after the digits
    assert(rest[dec.len() as int] == ' ');
    assert(forall|i: int| 0 <= i < dec.len() ==> #[trigger] rest[i] == dec[i]);
    lemma_find_char_at(rest, ' ', dec.len() as int);
    let sp2 = find_char(rest, ' ') as int;
    assert(sp2 == dec.len());
    assert(sp2 < rest.len());
    assert(rest.take(sp2) =~= dec);
    assert(valid_digits(dec));

    let q = rest.skip(sp2 + 1);
    assert(q =~= seq!['"'] + esc + seq!['"']);
    assert(q.len() >= 2);
    assert(q.first() == '"');
    assert(q.last() == '"');
    assert(q.subrange(1, q.len() - 1) =~= esc);

    match p.speaker {
        Speaker::Me => {
            assert(parse_speaker(name) == Some(Speaker::Me));
        },
        Speaker::Bot => {
            assert(name != seq!['M', 'e']);
            assert(parse_speaker(name) == Some(Speaker::Bot));
        },
    }
    assert(dec_val(dec) as u64 == p.id);

    // and no character of the body is a newline
    assert(forall|i: int| 0 <= i < body.len() ==> #[trigger] body[i] != '\n') by {
        assert(forall|i: int|
            0 <= i < esc.len() ==> #[trigger] esc[i] != '\n');
    }
}

/// Law: decoding an encoded journal gives exactly the journal back, turn for
/// turn, with the same speakers, ids and messages in the same order.
pub proof fn lemma_journal_round_trip(ps: Seq<PastView>)
    ensures
        parse_journal(encode_journal(ps)) == Some(ps),
    decreases ps.len(),
{
    if ps.len() == 0 {
    } else {
        let p = ps.first();
        let body = record_body(p);
        let total = encode_journal(ps);
        lemma_parse_record_body(p);
        lemma_journal_round_trip(ps.drop_first());
        assert(total =~= body + seq!['\n'] + encode_journal(ps.drop_first()));
        assert(total[body.len() as int] == '\n');
        assert(forall|i: int| 0 <= i < body.len() ==> #[trigger] total[i] == body[i]);
        lemma_find_char_at(total, '\n', body.len() as int);
        let nl = find_char(total, '\n') as int;
        assert(nl == body.len());
        assert(nl < total.len());
        assert(total.take(nl) =~= body);
        assert(total.skip(nl + 1) =~= encode_journal(ps.drop_first()));
        assert(seq![p] + ps.drop_first() =~= ps);
    }
}

pub proof fn lemma_encode_journal_snoc(ps: Seq<PastView>, p: PastView)
    ensures
        encode_journal(ps.push(p)) == encode_journal(ps) + encode_past(p),
    decreases ps.len(),
{
    if ps.len() == 0 {
        assert(encode_journal(Seq::<PastView>::empty()) == Seq::<char>::empty());
        assert(ps.push(p).drop_first() =~= Seq::<PastView>::empty());
        assert(ps.push(p).first() == p);
        assert(encode_journal(ps.push(p)) == encode_past(p) + encode_journal(
            Seq::<PastView>::empty(),
        ));
        assert(encode_past(p) + Seq::<char>::empty() =~= encode_past(p));
        assert(ps =~= Seq::<PastView>::empty());
        assert(Seq::<char>::empty() + encode_past(p) =~= encode_past(p));
    } else {
        lemma_encode_journal_snoc(ps.drop_first(), p);
        assert(ps.push(p).drop_first() =~= ps.drop_first().push(p));
        assert(ps.push(p).first() == ps.first());
        assert(encode_past(ps.first()) + (encode_journal(ps.drop_first()) + encode_past(p))
            =~= (encode_past(ps.first()) + encode_journal(ps.drop_first())) + encode_past(p));
    }
}

pub proof fn lemma_escape_snoc(s: Seq<char>, c: char)
    ensures
        escape(s.push(c)) == escape(s) + escape_char(c),
    decreases s.len(),
{
    if s.len() == 0 {
        assert(escape(Seq::<char>::empty()) == Seq::<char>::empty());
        assert(s.push(c).drop_first() =~= Seq::<char>::empty());
        assert(s.push(c).first() == c);
        assert(escape(s.push(c)) == escape_char(c) + escape(Seq::<char>::empty()));
        assert(escape_char(c) + Seq::<char>::empty() =~= escape_char(c));
        assert(s =~= Seq::<char>::empty());
        assert(Seq::<char>::empty() + escape_char(c) =~= escape_char(c));
    } else {
        lemma_escape_snoc(s.drop_first(), c);
        assert(s.push(c).drop_first() =~= s.drop_first().push(c));
        assert(s.push(c).first() == s.first());
        assert(escape_char(s.first()) + (escape(s.drop_first()) + escape_char(c))
            =~= (escape_char(s.first()) + escape(s.drop_first())) + escape_char(c));
    }
}

/// Appends the decimal representation of `n`.
fn push_dec(out: &mut String, n: u64)
    ensures
        final(out)@ == old(out)@ + dec_rep(n as nat),
    decreases n,
{
    if n < 10 {
        let c: char = match n {
            0 => '0',
            1 => '1',
            2 => '2',
            3 => '3',
            4 => '4',
            5 => '5',
            6 => '6',
            7 => '7',
            8 => '8',
            _ => '9',
        };
        proof {
            assert(c == digit_char(n as nat));
        }
        push_char(out, c);
        proof {
            assert(final(out)@ =~= old(out)@ + dec_rep(n as nat));
        }
    } else {
        push_dec(out, n / 10);
        let d = n % 10;
        let c: char = match d {
            0 => '0',
            1 => '1',
            2 => '2',
            3 => '3',
            4 => '4',
            5 => '5',
            6 => '6',
            7 => '7',
            8 => '8',
            _ => '9',
        };
        proof {
            assert(c == digit_char((n % 10) as nat));
        }
        push_char(out, c);
        proof {
            assert(final(out)@ =~= old(out)@ + dec_rep(n as nat));
        }
    }
}

/// Appends `message` with backslash, quote, newline, carriage return and tab
/// escaped.
fn push_escaped(out: &mut String, message: &str)
    ensures
        final(out)@ == old(out)@ + escape(message@),
{
    let n = message.unicode_len();
    let mut i: usize = 0;
    proof {
        assert(message@.take(0) =~= Seq::<char>::empty());
        assert(escape(Seq::<char>::empty()) == Seq::<char>::empty());
        assert(old(out)@ + Seq::<char>::empty() =~= old(out)@);
    }
    while i < n
        invariant
            n == message@.len(),
            i <= n,
            out@ == old(out)@ + escape(message@.take(i as int)),
        decreases n - i,
    {
        let c = message.get_char(i);
        if c == '\\' {
            push_char(out, '\\');
            push_char(out, '\\');
        } else if c == '"' {
            push_char(out, '\\');
            push_char(out, '"');
        } else if c == '\n' {
            push_char(out, '\\');
            push_char(out, 'n');
        } else if c == '\r' {
            push_char(out, '\\');
            push_char(out, 'r');
        } else if c == '\t' {
            push_char(out, '\\');
            push_char(out, 't');
        } else {
            push_char(out, c);
        }
        proof {
            lemma_escape_snoc(message@.take(i as int), c);
            assert(message@.take(i + 1 as int) =~= message@.take(i as int).push(c));
            assert(out@ =~= old(out)@ + escape(message@.take(i + 1 as int)));
        }
        i += 1;
    }
    proof {
        assert(message@.take(n as int) =~= message@);
    }
}

/// Appends one turn's line, newline included.
fn push_record(out: &mut String, p: &Past)
    ensures
        final(out)@ == old(out)@ + encode_past(p@),
{
    match p.speaker {
        Speaker::Me => {
            push_char(out, 'M');
            push_char(out, 'e');
        },
        Speaker::Bot => {
            push_char(out, 'B');
            push_char(out, 'o');
            push_char(out, 't');
        },
    }
    push_char(out, ' ');
    push_dec(out, p.id);
    push_char(out, ' ');
    push_char(out, '"');
    push_escaped(out, p.message.as_str());
    push_char(out, '"');
    push_char(out, '\n');
    proof {
        assert(final(out)@ =~= old(out)@ + encode_past(p@));
    }
}

/// The journal serialized as text, one line per turn, in the order given.
pub fn journal_to_text(entries: &Vec<Past>) -> (r: String)
    ensures
        r@ == encode_journal(entries.deep_view()),
{
    let mut out = String::new();
    let n = entries.len();
    let mut i: usize = 0;
    proof {
        assert(entries.deep_view().take(0) =~= Seq::<PastView>::empty());
    }
    while i < n
        invariant
            n == entries@.len(),
            entries.deep_view().len() == entries@.len(),
            i <= n,
            out@ == encode_journal(entries.deep_view().take(i as int)),
        decreases n - i,
    {
        let ghost before = out@;
        push_record(&mut out, &entries[i]);
        proof {
            assert(entries.deep_view()[i as int] == entries@[i as int].deep_view());
            lemma_encode_journal_snoc(entries.deep_view().take(i as int), entries@[i as int]@);
            assert(entries.deep_view().take(i + 1 as int) =~= entries.deep_view().take(
                i as int,
            ).push(entries.deep_view()[i as int]));
        }
        i += 1;
    }
    proof {
        assert(entries.deep_view().take(n as int) =~= entries.deep_view());
    }
    out
}

pub proof fn lemma_find_char_none(s: Seq<char>, c: char)
    requires
        forall|i: int| 0 <= i < s.len() ==> s[i] != c,
    ensures
        find_char(s, c) == s.len(),
    decreases s.len(),
{
    if s.len() == 0 {
    } else {
        lemma_find_char_none(s.drop_first(), c);
    }
}

pub proof fn lemma_dec_val_prefix(s: Seq<char>, i: int)
    requires
        0 <= i <= s.len(),
    ensures
        dec_val(s.take(i)) <= dec_val(s),
    decreases s.len(),
{
    if i == s.len() {
        assert(s.take(i) =~= s);
    } else {
        assert(s.take(i) =~= s.drop_last().take(i));
        lemma_dec_val_prefix(s.drop_last(), i);
        assert(dec_val(s.drop_last()) * 10 >= dec_val(s.drop_last()));
    }
}

/// The first position of `c` in `cs[from..to]`, or `to` when there is none,
/// expressed also through the spec-level `find_char`.
pub(crate) fn find_char_exec(cs: &Vec<char>, from: usize, to: usize, c: char) -> (r: usize)
    requires
        from <= to <= cs@.len(),
    ensures
        from <= r <= to,
        find_char(cs@.subrange(from as int, to as int), c) == (r - from) as nat,
        r < to ==> cs@[r as int] == c,
{
    let ghost sub = cs@.subrange(from as int, to as int);
    let mut i: usize = from;
    while i < to
        invariant
            from <= i <= to,
            to <= cs@.len(),
            sub == cs@.subrange(from as int, to as int),
            forall|j: int| from <= j < i ==> cs@[j] != c,
        decreases to - i,
    {
        if cs[i] == c {
            proof {
                assert(sub[(i - from) as int] == cs@[i as int]);
                assert(forall|j: int| 0 <= j < i - from ==> sub[j] == cs@[j + from] && sub[j] != c);
                lemma_find_char_at(sub, c, (i - from) as int);
            }
            return i;
        }
        i += 1;
    }
    proof {
        assert(forall|j: int| 0 <= j < sub.len() ==> sub[j] == cs@[j + from] && sub[j] != c);
        lemma_find_char_none(sub, c);
    }
    to
}

/// What `unescape` yields for the rest of a partly-decoded string.
pub open spec fn unescape_extend(prefix: Seq<char>, rest: Seq<char>) -> Option<Seq<char>> {
    match unescape(rest) {
        Some(t) => Some(prefix + t),
        None => None,
    }
}

/// Decodes the escaped message text in `cs[from..to]`.
fn unescape_exec(cs: &Vec<char>, from: usize, to: usize) -> (r: Option<String>)
    requires
        from <= to <= cs@.len(),
    ensures
        match r {
            Some(s) => unescape(cs@.subrange(from as int, to as int)) == Some(s@),
            None => unescape(cs@.subrange(from as int, to as int)) is None,
        },
{
    let mut out = String::new();
    let mut i: usize = from;
    proof {
        assert(Seq::<char>::empty() + cs@.subrange(from as int, to as int) =~= cs@.subrange(
            from as int,
            to as int,
        ));
    }
    while i < to
        invariant
            from <= i <= to,
            to <= cs@.len(),
            unescape_extend(out@, cs@.subrange(i as int, to as int)) == unescape_extend(
                Seq::<char>::empty(),
                cs@.subrange(from as int, to as int),
            ),
        decreases to - i,
    {
        let ghost rest = cs@.subrange(i as int, to as int);
        let c = cs[i];
        proof {
            assert(rest.first() == c);
        }
        if c == '\\' {
            if i + 1 >= to {
                proof {
                    assert(rest.len() < 2);
                    assert(unescape(rest) is None);
                }
                return None;
            }
            let e = cs[i + 1];
            proof {
                assert(rest[1] == e);
                assert(rest.skip(2) =~= cs@.subrange(i + 2 as int, to as int));
            }
            let decoded: char = if e == '\\' {
                '\\'
            } else if e == '"' {
                '"'
            } else if e == 'n' {
                '\n'
            } else if e == 'r' {
                '\r'
            } else if e == 't' {
                '\t'
            } else {
                proof {
                    assert(unescape_code(e) is None);
                    assert(unescape(rest) is None);
                }
                return None;
            };
            proof {
                assert(unescape_code(e) == Some(decoded));
            }
            push_char(&mut out, decoded);
            proof {
                if unescape(rest.skip(2)) is Some {
                    let t = unescape(rest.skip(2)).unwrap();
                    assert(unescape(rest) == Some(seq![decoded] + t));
                    assert(out@ + t =~= (out@.drop_last()) + (seq![decoded] + t));
                }
            }
            i += 2;
        } else {
            push_char(&mut out, c);
            proof {
                assert(rest.drop_first() =~= cs@.subrange(i + 1 as int, to as int));
                if unescape(rest.drop_first()) is Some {
                    let t = unescape(rest.drop_first()).unwrap();
                    assert(unescape(rest) == Some(seq![c] + t));
                    assert(out@ + t =~= (out@.drop_last()) + (seq![c] + t));
                }
            }
            i += 1;
        }
    }
    proof {
        assert(cs@.subrange(i as int, to as int) =~= Seq::<char>::empty());
        assert(unescape(Seq::<char>::empty()) == Some(Seq::<char>::empty()));
        assert(out@ + Seq::<char>::empty() =~= out@);
    }
    Some(out)
}

/// Parses the decimal id in `cs[from..to]`: `None` when the range is empty,
/// holds a non-digit, or overflows u64.
fn parse_u64_digits(cs: &Vec<char>, from: usize, to: usize) -> (r: Option<u64>)
    requires
        from <= to <= cs@.len(),
    ensures
        match r {
            Some(v) => valid_digits(cs@.subrange(from as int, to as int)) && v as nat == dec_val(
                cs@.subrange(from as int, to as int),
            ),
            None => !valid_digits(cs@.subrange(from as int, to as int)),
        },
{
    let ghost sub = cs@.subrange(from as int, to as int);
    if from == to {
        proof {
            assert(sub.len() == 0);
        }
        return None;
    }
    let mut acc: u64 = 0;
    let mut i: usize = from;
    proof {
        assert(sub.take(0) =~= Seq::<char>::empty());
    }
    while i < to
        invariant
            from <= i <= to,
            to <= cs@.len(),
            sub == cs@.subrange(from as int, to as int),
            acc as nat == dec_val(sub.take((i - from) as int)),
            forall|j: int| 0 <= j < i - from ==> is_digit(#[trigger] sub[j]),
        decreases to - i,
    {
        let c = cs[i];
        proof {
            assert(sub[(i - from) as int] == c);
        }
        let code = c as u32;
        if code < 48 || code > 57 {
            proof {
                assert(!is_digit(sub[(i - from) as int]));
            }
            return None;
        }
        let d: u64 = (code - 48) as u64;
        proof {
            assert(d as nat == digit_val(c));
            assert(sub.take((i - from) + 1 as int).drop_last() =~= sub.take((i - from) as int));
            assert(sub.take((i - from) + 1 as int).last() == c);
        }
        if acc > (u64::MAX - d) / 10 {
            proof {
                assert(dec_val(sub.take((i - from) + 1 as int)) == acc as nat * 10 + d as nat);
                assert(acc as nat * 10 + d as nat > u64::MAX) by {
                    assert(acc as nat >= (u64::MAX - d) / 10 + 1);
                    assert(((u64::MAX - d) / 10 + 1) * 10 > (u64::MAX - d) as nat) by {
                        vstd::arithmetic::div_mod::lemma_fundamental_div_mod(
                            (u64::MAX - d) as int,
                            10,
                        );
                    }
                    assert(acc as nat * 10 >= ((u64::MAX - d) / 10 + 1) * 10) by (nonlinear_arith)
                        requires
                            acc as nat >= (u64::MAX - d) / 10 + 1,
                    ;
                }
                lemma_dec_val_prefix(sub, (i - from) + 1 as int);
                assert(dec_val(sub) > u64::MAX);
            }
            return None;
        }
        proof {
            assert(acc as nat * 10 + d as nat <= u64::MAX) by {
                assert(acc as nat <= (u64::MAX - d) / 10);
                assert(((u64::MAX - d) / 10) * 10 <= (u64::MAX - d) as nat) by {
                    vstd::arithmetic::div_mod::lemma_fundamental_div_mod((u64::MAX - d) as int, 10);
                }
                assert(acc as nat * 10 <= ((u64::MAX - d) / 10) * 10) by (nonlinear_arith)
                    requires
                        acc as nat <= (u64::MAX - d) / 10,
                ;
            }
        }
        acc = acc * 10 + d;
        i += 1;
    }
    proof {
        assert(sub.take((to - from) as int) =~= sub);
        assert(valid_digits(sub));
    }
    Some(acc)
}

/// Parses the single record line `cs[start..end]` (no newline inside).
fn parse_record_exec(cs: &Vec<char>, start: usize, end: usize) -> (r: Option<Past>)
    requires
        start <= end <= cs@.len(),
    ensures
        match r {
            Some(p) => parse_record(cs@.subrange(start as int, end as int)) == Some(p@),
            None => parse_record(cs@.subrange(start as int, end as int)) is None,
        },
{
    let ghost line = cs@.subrange(start as int, end as int);
    let sp1 = find_char_exec(cs, start, end, ' ');
    proof {
        assert(find_char(line, ' ') == (sp1 - start) as nat);
    }
    if sp1 == end {
        return None;
    }
    let ghost name = line.take((sp1 - start) as int);
    let ghost rest = line.skip((sp1 - start) + 1 as int);
    proof {
        assert(name =~= cs@.subrange(start as int, sp1 as int));
        assert(rest =~= cs@.subrange(sp1 + 1 as int, end as int));
    }

    let n1 = sp1 - start;
    let speaker: Speaker = if n1 == 2 && cs[start] == 'M' && cs[start + 1] == 'e' {
        proof {
            assert(name =~= seq!['M', 'e']);
        }
        Speaker::Me
    } else if n1 == 3 && cs[start] == 'B' && cs[start + 1] == 'o' && cs[start + 2] == 't' {
        proof {
            assert(name =~= seq!['B', 'o', 't']);
        }
        Speaker::Bot
    } else {
        proof {
            assert(name.len() == n1);
            if name == seq!['M', 'e'] {
                assert(name[0] == 'M' && name[1] == 'e' && name.len() == 2);
                assert(cs@[start as int] == 'M' && cs@[start + 1 as int] == 'e');
                assert(false);
            }
            if name == seq!['B', 'o', 't'] {
                assert(name[0] == 'B' && name[1] == 'o' && name[2] == 't' && name.len() == 3);
                assert(cs@[start as int] == 'B' && cs@[start + 1 as int] == 'o' && cs@[start
                    + 2 as int] == 't');
                assert(false);
            }
            assert(parse_speaker(name) is None);
            assert(parse_record(line) is None);
        }
        return None;
    };
    proof {
        assert(parse_speaker(name) == Some(speaker));
    }

    let sp2 = find_char_exec(cs, sp1 + 1, end, ' ');
    proof {
        assert(find_char(rest, ' ') == (sp2 - (sp1 + 1)) as nat);
    }
    if sp2 == end {
        return None;
    }
    let ghost digits = rest.take((sp2 - (sp1 + 1)) as int);
    let ghost q = rest.skip((sp2 - (sp1 + 1)) + 1 as int);
    proof {
        assert(digits =~= cs@.subrange(sp1 + 1 as int, sp2 as int));
        assert(q =~= cs@.subrange(sp2 + 1 as int, end as int));
    }

    let id: u64 = match parse_u64_digits(cs, sp1 + 1, sp2) {
        Some(v) => v,
        None => {
            return None;
        },
    };

    if end - (sp2 + 1) < 2 {
        proof {
            assert(q.len() < 2);
        }
        return None;
    }
    if cs[sp2 + 1] != '"' {
        proof {
            assert(q.first() != '"');
        }
        return None;
    }
    if cs[end - 1] != '"' {
        proof {
            assert(q.last() != '"');
        }
        return None;
    }
    proof {
        assert(q.first() == '"' && q.last() == '"' && q.len() >= 2);
        assert(q.subrange(1, q.len() - 1) =~= cs@.subrange(sp2 + 2 as int, end - 1 as int));
    }
    let message: String = match unescape_exec(cs, sp2 + 2, end - 1) {
        Some(m) => m,
        None => {
            return None;
        },
    };
    let p = Past { speaker, id, message };
    proof {
        assert(dec_val(digits) as u64 == id);
        assert(parse_record(line) == Some(p@));
    }
    Some(p)
}

/// Parses every record line from position `pos` to the end of the text.
fn parse_from(cs: &Vec<char>, pos: usize) -> (r: Option<Vec<Past>>)
    requires
        pos <= cs@.len(),
    ensures
        match r {
            Some(v) => parse_journal(cs@.skip(pos as int)) == Some(v.deep_view()),
            None => parse_journal(cs@.skip(pos as int)) is None,
        },
    decreases cs@.len() - pos,
{
    let n = cs.len();
    let ghost s = cs@.skip(pos as int);
    if pos == n {
        let v: Vec<Past> = Vec::new();
        proof {
            assert(s =~= Seq::<char>::empty());
            assert(v.deep_view() =~= Seq::<PastView>::empty());
        }
        return Some(v);
    }
    let nl = find_char_exec(cs, pos, n, '\n');
    proof {
        assert(s =~= cs@.subrange(pos as int, n as int));
        assert(find_char(s, '\n') == (nl - pos) as nat);
    }
    if nl == n {
        return None;
    }
    proof {
        assert(s.take((nl - pos) as int) =~= cs@.subrange(pos as int, nl as int));
        assert(s.skip((nl - pos) + 1 as int) =~= cs@.skip(nl + 1 as int));
    }
    match parse_record_exec(cs, pos, nl) {
        None => None,
        Some(p) => {
            match parse_from(cs, nl + 1) {
                None => None,
                Some(v) => {
                    let mut v = v;
                    let ghost tail_view = v.deep_view();
                    v.insert(0, p);
                    proof {
                        assert(v.deep_view() =~= seq![p@] + tail_view);
                    }
                    Some(v)
                },
            }
        },
    }
}

/// The journal a text file holds, or `MalformedJournal` when the text is
/// not a well-formed journal.  An empty text is an empty journal: a missing
/// file is not an error.
pub fn journal_from_text(text: &str) -> (r: Result<Vec<Past>, crate::Error>)
    ensures
        match r {
            Ok(v) => parse_journal(text@) == Some(v.deep_view()),
            Err(e) => parse_journal(text@) is None && e == crate::Error::MalformedJournal,
        },
{
    let cs = crate::strutil::chars_of(text);
    proof {
        assert(cs@.skip(0) =~= text@);
    }
    match parse_from(&cs, 0) {
        Some(v) => Ok(v),
        None => Err(crate::Error::MalformedJournal),
    }
}

} // verus!
