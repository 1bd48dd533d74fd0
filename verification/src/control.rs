//! Control messages on QUIC streams.
//!
//! ```text
//! HELLO <media_run_id> <session_id>\n
//! OK <media_run_id> <session_id>\n
//! DONE <media_run_id> <session_id> <final_frame_exclusive>\n
//! DONE_OK <media_run_id> <session_id>\n
//! ```
//!
//! Identities are written as hyphenated lower-case UUIDs. Parsing splits a
//! message on white space; an acknowledgement must equal the expected text
//! once surrounding white space is trimmed.

use crate::text::{
    chars_of, decimal, lemma_decimal, lemma_tokens_skip_space,
    lemma_tokens_word_sep, lemma_trim_end, lemma_trim_start, no_white_space, parse_decimal,
    parse_u64, token_spans, tokens, trim_whitespace, trimmed, u64_to_string, white_space,
};
use vstd::prelude::*;

verus! {

/// Why a control message was refused.
#[derive(Debug, Clone, Copy, PartialEq, Eq, Structural)]
pub enum ControlError {
    MissingMessageType,
    WrongMessageType,
    MissingMediaRunId,
    MissingSessionId,
    MissingFinalFrame,
    ExtraFields,
    InvalidMediaRunId,
    InvalidSessionId,
    InvalidFinalFrame,
    UnexpectedResponse,
}

/// The identities announced by a HELLO.
#[derive(Debug, Clone, Copy, PartialEq, Eq)]
pub struct Hello {
    pub media_run_id: [u8; 16],
    pub session_id: [u8; 16],
}

/// The identities and final frame announced by a DONE.
#[derive(Debug, Clone, Copy, PartialEq, Eq)]
pub struct Done {
    pub media_run_id: [u8; 16],
    pub session_id: [u8; 16],
    pub final_frame_exclusive: u64,
}

/// The lower-case hexadecimal digit for `n < 16`.
pub open spec fn hex_digit(n: nat) -> char {
    if n < 10 {
        (48 + n) as char
    } else {
        (87 + n) as char
    }
}

/// Two hexadecimal digits per byte, high nibble first.
pub open spec fn hex_of(bytes: Seq<u8>) -> Seq<char>
    decreases bytes.len(),
{
    if bytes.len() == 0 {
        Seq::empty()
    } else {
        hex_of(bytes.drop_last()) + seq![
            hex_digit((bytes.last() / 16) as nat),
            hex_digit((bytes.last() % 16) as nat),
        ]
    }
}

/// The hyphenated lower-case form of a UUID's 16 bytes:
/// `xxxxxxxx-xxxx-xxxx-xxxx-xxxxxxxxxxxx`.
pub open spec fn uuid_text(id: Seq<u8>) -> Seq<char> {
    hex_of(id.subrange(0, 4)) + seq!['-'] + hex_of(id.subrange(4, 6)) + seq!['-'] + hex_of(
        id.subrange(6, 8),
    ) + seq!['-'] + hex_of(id.subrange(8, 10)) + seq!['-'] + hex_of(id.subrange(10, 16))
}

/// `t` is the hyphenated text of some UUID.
pub open spec fn is_uuid_text(t: Seq<char>) -> bool {
    exists|id: Seq<u8>| id.len() == 16 && #[trigger] uuid_text(id) == t
}

/// What `uuid::Uuid::parse_str` makes of a text: the UUID's bytes, or `None`
/// when it refuses the text.
pub uninterp spec fn uuid_parsed(text: Seq<char>) -> Option<Seq<u8>>;

/// `uuid::Uuid::from_bytes(id).to_string()`: the `Display` form of a UUID,
/// which the `uuid` crate writes hyphenated in lower case.
#[verifier::external_body]
fn uuid_to_string(id: [u8; 16]) -> (r: String)
    ensures
        r@ == uuid_text(id@),
{
    uuid::Uuid::from_bytes(id).to_string()
}

/// `uuid::Uuid::parse_str`: its result is named `uuid_parsed`; it accepts
/// every text in the hyphenated form that `Display` writes and gives back the
/// bytes written there. The other forms it accepts (simple, braced, URN) are
/// left to the name.
#[verifier::external_body]
fn uuid_parse_str(text: &str) -> (r: Result<[u8; 16], uuid::Error>)
    ensures
        r matches Ok(id) ==> uuid_parsed(text@) == Some(id@),
        r is Err ==> uuid_parsed(text@) is None,
        is_uuid_text(text@) ==> r is Ok,
        r matches Ok(v) ==> (is_uuid_text(text@) ==> uuid_text(v@) == text@),
{
    uuid::Uuid::parse_str(text).map(|id| id.into_bytes())
}

pub open spec fn word_hello() -> Seq<char> {
    seq!['H', 'E', 'L', 'L', 'O']
}

pub open spec fn word_ok() -> Seq<char> {
    seq!['O', 'K']
}

pub open spec fn word_done() -> Seq<char> {
    seq!['D', 'O', 'N', 'E']
}

pub open spec fn word_done_ok() -> Seq<char> {
    seq!['D', 'O', 'N', 'E', '_', 'O', 'K']
}

/// `<word> <media_run_id> <session_id>`.
pub open spec fn identity_line(word: Seq<char>, media_run_id: Seq<u8>, session_id: Seq<u8>) -> Seq<char> {
    word + seq![' '] + uuid_text(media_run_id) + seq![' '] + uuid_text(session_id)
}

/// The text of `HELLO <media_run_id> <session_id>\n`.
pub open spec fn hello_text(media_run_id: Seq<u8>, session_id: Seq<u8>) -> Seq<char> {
    identity_line(word_hello(), media_run_id, session_id) + seq!['\n']
}

/// The text of `DONE <media_run_id> <session_id> <final_frame>\n`.
pub open spec fn done_text(media_run_id: Seq<u8>, session_id: Seq<u8>, final_frame: u64) -> Seq<char> {
    identity_line(word_done(), media_run_id, session_id) + seq![' '] + decimal(final_frame as nat)
        + seq!['\n']
}

proof fn lemma_hex_digit(n: nat)
    requires
        n < 16,
    ensures
        !white_space(hex_digit(n)),
        (hex_digit(n) as u32) == if n < 10 {
            48 + n
        } else {
            87 + n
        },
{
}

proof fn lemma_hex_of(bytes: Seq<u8>)
    ensures
        hex_of(bytes).len() == 2 * bytes.len(),
        no_white_space(hex_of(bytes)),
    decreases bytes.len(),
{
    if bytes.len() > 0 {
        lemma_hex_of(bytes.drop_last());
        lemma_hex_digit((bytes.last() / 16) as nat);
        lemma_hex_digit((bytes.last() % 16) as nat);
        let h = hex_of(bytes);
        let p = hex_of(bytes.drop_last());
        assert forall|i: int| 0 <= i < h.len() implies !white_space(#[trigger] h[i]) by {
            if i < p.len() {
                assert(h[i] == p[i]);
            }
        }
    }
}

proof fn lemma_hex_of_injective(x: Seq<u8>, y: Seq<u8>)
    requires
        x.len() == y.len(),
        hex_of(x) == hex_of(y),
    ensures
        x == y,
    decreases x.len(),
{
    if x.len() > 0 {
        lemma_hex_of(x.drop_last());
        lemma_hex_of(y.drop_last());
        let n = hex_of(x).len();
        let a = x.last();
        let b = y.last();
        assert(hex_of(x)[n - 2] == hex_digit((a / 16) as nat));
        assert(hex_of(y)[n - 2] == hex_digit((b / 16) as nat));
        assert(hex_of(x)[n - 1] == hex_digit((a % 16) as nat));
        assert(hex_of(y)[n - 1] == hex_digit((b % 16) as nat));
        lemma_hex_digit((a / 16) as nat);
        lemma_hex_digit((b / 16) as nat);
        lemma_hex_digit((a % 16) as nat);
        lemma_hex_digit((b % 16) as nat);
        assert(a / 16 == b / 16);
        assert(a % 16 == b % 16);
        assert(a == b);
        assert(hex_of(x.drop_last()) =~= hex_of(x).take(n - 2));
        assert(hex_of(y.drop_last()) =~= hex_of(y).take(n - 2));
        lemma_hex_of_injective(x.drop_last(), y.drop_last());
        assert(x =~= x.drop_last().push(a));
        assert(y =~= y.drop_last().push(b));
    }
}

/// The hyphenated text of a UUID has 36 characters, none of them white
/// space.
pub proof fn lemma_uuid_text(id: Seq<u8>)
    requires
        id.len() == 16,
    ensures
        uuid_text(id).len() == 36,
        no_white_space(uuid_text(id)),
{
    lemma_hex_of(id.subrange(0, 4));
    lemma_hex_of(id.subrange(4, 6));
    lemma_hex_of(id.subrange(6, 8));
    lemma_hex_of(id.subrange(8, 10));
    lemma_hex_of(id.subrange(10, 16));
    let t = uuid_text(id);
    assert(!white_space('-'));
    assert forall|i: int| 0 <= i < t.len() implies !white_space(#[trigger] t[i]) by {
        if i < 8 {
            assert(t[i] == hex_of(id.subrange(0, 4))[i]);
        } else if i == 8 {
        } else if i < 13 {
            assert(t[i] == hex_of(id.subrange(4, 6))[i - 9]);
        } else if i == 13 {
        } else if i < 18 {
            assert(t[i] == hex_of(id.subrange(6, 8))[i - 14]);
        } else if i == 18 {
        } else if i < 23 {
            assert(t[i] == hex_of(id.subrange(8, 10))[i - 19]);
        } else if i == 23 {
        } else {
            assert(t[i] == hex_of(id.subrange(10, 16))[i - 24]);
        }
    }
}

/// Different UUIDs have different texts.
pub proof fn lemma_uuid_text_injective(a: Seq<u8>, b: Seq<u8>)
    requires
        a.len() == 16,
        b.len() == 16,
        uuid_text(a) == uuid_text(b),
    ensures
        a == b,
{
    lemma_uuid_text(a);
    lemma_uuid_text(b);
    lemma_hex_of(a.subrange(0, 4));
    lemma_hex_of(a.subrange(4, 6));
    lemma_hex_of(a.subrange(6, 8));
    lemma_hex_of(a.subrange(8, 10));
    lemma_hex_of(a.subrange(10, 16));
    lemma_hex_of(b.subrange(0, 4));
    lemma_hex_of(b.subrange(4, 6));
    lemma_hex_of(b.subrange(6, 8));
    lemma_hex_of(b.subrange(8, 10));
    lemma_hex_of(b.subrange(10, 16));
    let ta = uuid_text(a);
    let tb = uuid_text(b);
    assert(ta.subrange(0, 8) =~= hex_of(a.subrange(0, 4)));
    assert(tb.subrange(0, 8) =~= hex_of(b.subrange(0, 4)));
    assert(ta.subrange(9, 13) =~= hex_of(a.subrange(4, 6)));
    assert(tb.subrange(9, 13) =~= hex_of(b.subrange(4, 6)));
    assert(ta.subrange(14, 18) =~= hex_of(a.subrange(6, 8)));
    assert(tb.subrange(14, 18) =~= hex_of(b.subrange(6, 8)));
    assert(ta.subrange(19, 23) =~= hex_of(a.subrange(8, 10)));
    assert(tb.subrange(19, 23) =~= hex_of(b.subrange(8, 10)));
    assert(ta.subrange(24, 36) =~= hex_of(a.subrange(10, 16)));
    assert(tb.subrange(24, 36) =~= hex_of(b.subrange(10, 16)));
    lemma_hex_of_injective(a.subrange(0, 4), b.subrange(0, 4));
    lemma_hex_of_injective(a.subrange(4, 6), b.subrange(4, 6));
    lemma_hex_of_injective(a.subrange(6, 8), b.subrange(6, 8));
    lemma_hex_of_injective(a.subrange(8, 10), b.subrange(8, 10));
    lemma_hex_of_injective(a.subrange(10, 16), b.subrange(10, 16));
    assert(a =~= a.subrange(0, 4) + a.subrange(4, 6) + a.subrange(6, 8) + a.subrange(8, 10)
        + a.subrange(10, 16));
    assert(b =~= b.subrange(0, 4) + b.subrange(4, 6) + b.subrange(6, 8) + b.subrange(8, 10)
        + b.subrange(10, 16));
}

/// Builds `<word> <media_run_id> <session_id>`.
fn identity_line_string(word: &str, media_run_id: [u8; 16], session_id: [u8; 16]) -> (r: String)
    ensures
        r@ == identity_line(word@, media_run_id@, session_id@),
{
    let mut m = String::from_str(word);
    let space = " ";
    proof {
        reveal_strlit(" ");
    }
    m.append(space);
    let a = uuid_to_string(media_run_id);
    m.append(a.as_str());
    m.append(space);
    let b = uuid_to_string(session_id);
    m.append(b.as_str());
    assert(m@ =~= identity_line(word@, media_run_id@, session_id@));
    m
}

/// `HELLO <media_run_id> <session_id>\n`.
pub fn hello(media_run_id: [u8; 16], session_id: [u8; 16]) -> (r: String)
    ensures
        r@ == hello_text(media_run_id@, session_id@),
{
    proof {
        reveal_strlit("HELLO");
        assert("HELLO"@ =~= word_hello());
        reveal_strlit("\n");
    }
    let mut m = identity_line_string("HELLO", media_run_id, session_id);
    m.append("\n");
    assert(m@ =~= hello_text(media_run_id@, session_id@));
    m
}

/// `OK <media_run_id> <session_id>\n`.
pub fn acknowledgement(media_run_id: [u8; 16], session_id: [u8; 16]) -> (r: String)
    ensures
        r@ == identity_line(word_ok(), media_run_id@, session_id@) + seq!['\n'],
{
    proof {
        reveal_strlit("OK");
        assert("OK"@ =~= word_ok());
        reveal_strlit("\n");
    }
    let mut m = identity_line_string("OK", media_run_id, session_id);
    m.append("\n");
    assert(m@ =~= identity_line(word_ok(), media_run_id@, session_id@) + seq!['\n']);
    m
}

/// `DONE <media_run_id> <session_id> <final_frame_exclusive>\n`.
pub fn done(media_run_id: [u8; 16], session_id: [u8; 16], final_frame_exclusive: u64) -> (r: String)
    ensures
        r@ == done_text(media_run_id@, session_id@, final_frame_exclusive),
{
    proof {
        reveal_strlit("DONE");
        assert("DONE"@ =~= word_done());
        reveal_strlit(" ");
        reveal_strlit("\n");
    }
    let mut m = identity_line_string("DONE", media_run_id, session_id);
    m.append(" ");
    let f = u64_to_string(final_frame_exclusive);
    m.append(f.as_str());
    m.append("\n");
    assert(m@ =~= done_text(media_run_id@, session_id@, final_frame_exclusive));
    m
}

/// `DONE_OK <media_run_id> <session_id>\n`.
pub fn done_acknowledgement(media_run_id: [u8; 16], session_id: [u8; 16]) -> (r: String)
    ensures
        r@ == identity_line(word_done_ok(), media_run_id@, session_id@) + seq!['\n'],
{
    proof {
        reveal_strlit("DONE_OK");
        assert("DONE_OK"@ =~= word_done_ok());
        reveal_strlit("\n");
    }
    let mut m = identity_line_string("DONE_OK", media_run_id, session_id);
    m.append("\n");
    assert(m@ =~= identity_line(word_done_ok(), media_run_id@, session_id@) + seq!['\n']);
    m
}


pub proof fn lemma_is_uuid_text(id: Seq<u8>)
    requires
        id.len() == 16,
    ensures
        is_uuid_text(uuid_text(id)),
{
}

proof fn lemma_word(w: Seq<char>)
    requires
        w.len() > 0,
        forall|i: int| 0 <= i < w.len() ==> 65 <= (#[trigger] w[i] as u32) <= 95,
    ensures
        no_white_space(w),
{
    assert forall|i: int| 0 <= i < w.len() implies !white_space(#[trigger] w[i]) by {
        assert(65 <= (w[i] as u32) <= 95);
    }
}

/// The tokens of `<word> <media_run_id> <session_id>` followed by a white
/// space character and `rest`.
proof fn lemma_identity_tokens(word: Seq<char>, a: Seq<u8>, b: Seq<u8>, c: char, rest: Seq<char>)
    requires
        word.len() > 0,
        no_white_space(word),
        a.len() == 16,
        b.len() == 16,
        white_space(c),
    ensures
        tokens(identity_line(word, a, b) + seq![c] + rest) == seq![word, uuid_text(a), uuid_text(b)]
            + tokens(rest),
{
    lemma_uuid_text(a);
    lemma_uuid_text(b);
    let ta = uuid_text(a);
    let tb = uuid_text(b);
    let s = identity_line(word, a, b) + seq![c] + rest;
    let r3 = rest;
    let r2 = tb + seq![c] + r3;
    let r1 = ta + seq![' '] + r2;
    assert(s =~= word + seq![' '] + r1);
    assert(white_space(' '));
    lemma_tokens_word_sep(word, ' ', r1);
    lemma_tokens_word_sep(ta, ' ', r2);
    lemma_tokens_word_sep(tb, c, r3);
    assert(seq![word] + (seq![ta] + (seq![tb] + tokens(r3))) =~= seq![word, ta, tb] + tokens(r3));
}

/// The tokens of a HELLO message are the word and the two identities.
pub proof fn lemma_hello_tokens(a: Seq<u8>, b: Seq<u8>)
    requires
        a.len() == 16,
        b.len() == 16,
    ensures
        tokens(hello_text(a, b)) == seq![word_hello(), uuid_text(a), uuid_text(b)],
{
    lemma_word(word_hello());
    lemma_identity_tokens(word_hello(), a, b, '\n', Seq::<char>::empty());
    assert(hello_text(a, b) =~= identity_line(word_hello(), a, b) + seq!['\n'] + Seq::<
        char,
    >::empty());
    assert(tokens(Seq::<char>::empty()) =~= Seq::<Seq<char>>::empty());
    assert(seq![word_hello(), uuid_text(a), uuid_text(b)] + Seq::<Seq<char>>::empty() =~= seq![
        word_hello(),
        uuid_text(a),
        uuid_text(b),
    ]);
    lemma_is_uuid_text(a);
    lemma_is_uuid_text(b);
}

/// The tokens of a DONE message are the word, the two identities and the
/// final frame.
pub proof fn lemma_done_tokens(a: Seq<u8>, b: Seq<u8>, n: u64)
    requires
        a.len() == 16,
        b.len() == 16,
    ensures
        tokens(done_text(a, b, n)) == seq![
            word_done(),
            uuid_text(a),
            uuid_text(b),
            decimal(n as nat),
        ],
{
    lemma_word(word_done());
    lemma_decimal(n as nat);
    let d = decimal(n as nat);
    lemma_identity_tokens(word_done(), a, b, ' ', d + seq!['\n']);
    assert(white_space(' '));
    assert(done_text(a, b, n) =~= identity_line(word_done(), a, b) + seq![' '] + (d + seq![
        '\n',
    ]));
    lemma_tokens_word_sep(d, '\n', Seq::<char>::empty());
    assert(d + seq!['\n'] =~= d + seq!['\n'] + Seq::<char>::empty());
    assert(tokens(Seq::<char>::empty()) =~= Seq::<Seq<char>>::empty());
    assert(seq![word_done(), uuid_text(a), uuid_text(b)] + (seq![d] + Seq::<Seq<char>>::empty())
        =~= seq![word_done(), uuid_text(a), uuid_text(b), d]);
}

/// The fields of a HELLO: the error for a malformed one, or the texts of the
/// two identities.
pub open spec fn hello_fields(t: Seq<Seq<char>>) -> Result<(Seq<char>, Seq<char>), ControlError> {
    if t.len() == 0 {
        Err(ControlError::MissingMessageType)
    } else if t[0] != word_hello() {
        Err(ControlError::WrongMessageType)
    } else if t.len() < 2 {
        Err(ControlError::MissingMediaRunId)
    } else if t.len() < 3 {
        Err(ControlError::MissingSessionId)
    } else if t.len() > 3 {
        Err(ControlError::ExtraFields)
    } else {
        Ok((t[1], t[2]))
    }
}

/// The fields of a DONE: the error for a malformed one, or the texts of the
/// two identities and of the final frame.
pub open spec fn done_fields(t: Seq<Seq<char>>) -> Result<
    (Seq<char>, Seq<char>, Seq<char>),
    ControlError,
> {
    if t.len() == 0 {
        Err(ControlError::MissingMessageType)
    } else if t[0] != word_done() {
        Err(ControlError::WrongMessageType)
    } else if t.len() < 2 {
        Err(ControlError::MissingMediaRunId)
    } else if t.len() < 3 {
        Err(ControlError::MissingSessionId)
    } else if t.len() < 4 {
        Err(ControlError::MissingFinalFrame)
    } else if t.len() > 4 {
        Err(ControlError::ExtraFields)
    } else {
        Ok((t[1], t[2], t[3]))
    }
}

/// The token at `span` of `message`.
fn token_at<'a>(message: &'a str, chars: &Vec<char>, span: (usize, usize)) -> (r: &'a str)
    requires
        chars@ == message@,
        span.0 <= span.1 <= message@.len(),
    ensures
        r@ == message@.subrange(span.0 as int, span.1 as int),
{
    message.substring_char(span.0, span.1)
}

/// Whether `s` is exactly the text of `word`.
fn is_word(s: &str, word: &str) -> (r: bool)
    ensures
        r == (s@ == word@),
{
    let a = String::from_str(s);
    let b = String::from_str(word);
    a == b
}

/// Parses `HELLO <media_run_id> <session_id>`, split on white space.
pub fn parse_hello(message: &str) -> (r: Result<Hello, ControlError>)
    ensures
        match hello_fields(tokens(message@)) {
            Err(e) => r == Err::<Hello, ControlError>(e),
            Ok((x, y)) => match uuid_parsed(x) {
                None => r == Err::<Hello, ControlError>(ControlError::InvalidMediaRunId),
                Some(a) => match uuid_parsed(y) {
                    None => r == Err::<Hello, ControlError>(ControlError::InvalidSessionId),
                    Some(b) => r matches Ok(h) && h.media_run_id@ == a && h.session_id@ == b,
                },
            },
        },
        forall|a: Seq<u8>, b: Seq<u8>|
            a.len() == 16 && b.len() == 16 && message@ == #[trigger] hello_text(a, b) ==> (r matches Ok(
                h,
            ) && h.media_run_id@ == a && h.session_id@ == b),
{
    proof {
        reveal_strlit("HELLO");
        assert("HELLO"@ =~= word_hello());
        assert forall|a: Seq<u8>, b: Seq<u8>|
            a.len() == 16 && b.len() == 16 && message@ == #[trigger] hello_text(a, b) implies tokens(
                message@,
            ) == seq![word_hello(), uuid_text(a), uuid_text(b)] && is_uuid_text(uuid_text(a))
                && is_uuid_text(uuid_text(b)) by {
            lemma_hello_tokens(a, b);
            lemma_is_uuid_text(a);
            lemma_is_uuid_text(b);
        }
        assert forall|a: Seq<u8>, b: Seq<u8>|
            a.len() == 16 && b.len() == 16 && uuid_text(a) == uuid_text(b) implies a == b by {
            lemma_uuid_text_injective(a, b);
        }
    }
    let chars = chars_of(message);
    let spans = token_spans(&chars);
    let ghost t = tokens(message@);
    if spans.len() == 0 {
        return Err(ControlError::MissingMessageType);
    }
    let kind = token_at(message, &chars, spans[0]);
    if !is_word(kind, "HELLO") {
        return Err(ControlError::WrongMessageType);
    }
    if spans.len() < 2 {
        return Err(ControlError::MissingMediaRunId);
    }
    if spans.len() < 3 {
        return Err(ControlError::MissingSessionId);
    }
    if spans.len() > 3 {
        return Err(ControlError::ExtraFields);
    }
    let media_run_text = token_at(message, &chars, spans[1]);
    let session_text = token_at(message, &chars, spans[2]);
    let media_run_id = match uuid_parse_str(media_run_text) {
        Ok(id) => id,
        Err(_) => {
            return Err(ControlError::InvalidMediaRunId);
        },
    };
    let session_id = match uuid_parse_str(session_text) {
        Ok(id) => id,
        Err(_) => {
            return Err(ControlError::InvalidSessionId);
        },
    };
    Ok(Hello { media_run_id, session_id })
}

/// Parses `DONE <media_run_id> <session_id> <final_frame_exclusive>`, split
/// on white space.
pub fn parse_done(message: &str) -> (r: Result<Done, ControlError>)
    ensures
        match done_fields(tokens(message@)) {
            Err(e) => r == Err::<Done, ControlError>(e),
            Ok((x, y, z)) => match uuid_parsed(x) {
                None => r == Err::<Done, ControlError>(ControlError::InvalidMediaRunId),
                Some(a) => match uuid_parsed(y) {
                    None => r == Err::<Done, ControlError>(ControlError::InvalidSessionId),
                    Some(b) => match parse_decimal(z) {
                        Some(n) if n <= u64::MAX => r matches Ok(d) && d.media_run_id@ == a
                            && d.session_id@ == b && d.final_frame_exclusive == n,
                        _ => r == Err::<Done, ControlError>(ControlError::InvalidFinalFrame),
                    },
                },
            },
        },
        forall|a: Seq<u8>, b: Seq<u8>, n: u64|
            a.len() == 16 && b.len() == 16 && message@ == #[trigger] done_text(a, b, n) ==> (r matches Ok(
                d,
            ) && d.media_run_id@ == a && d.session_id@ == b && d.final_frame_exclusive == n),
{
    proof {
        reveal_strlit("DONE");
        assert("DONE"@ =~= word_done());
        assert forall|a: Seq<u8>, b: Seq<u8>, n: u64|
            a.len() == 16 && b.len() == 16 && message@ == #[trigger] done_text(a, b, n) implies tokens(
                message@,
            ) == seq![word_done(), uuid_text(a), uuid_text(b), decimal(n as nat)] && is_uuid_text(
                uuid_text(a),
            ) && is_uuid_text(uuid_text(b)) && parse_decimal(decimal(n as nat)) == Some(
                n as nat,
            ) by {
            lemma_done_tokens(a, b, n);
            lemma_is_uuid_text(a);
            lemma_is_uuid_text(b);
            lemma_decimal(n as nat);
        }
        assert forall|a: Seq<u8>, b: Seq<u8>|
            a.len() == 16 && b.len() == 16 && uuid_text(a) == uuid_text(b) implies a == b by {
            lemma_uuid_text_injective(a, b);
        }
    }
    let chars = chars_of(message);
    let spans = token_spans(&chars);
    if spans.len() == 0 {
        return Err(ControlError::MissingMessageType);
    }
    let kind = token_at(message, &chars, spans[0]);
    if !is_word(kind, "DONE") {
        return Err(ControlError::WrongMessageType);
    }
    if spans.len() < 2 {
        return Err(ControlError::MissingMediaRunId);
    }
    if spans.len() < 3 {
        return Err(ControlError::MissingSessionId);
    }
    if spans.len() < 4 {
        return Err(ControlError::MissingFinalFrame);
    }
    if spans.len() > 4 {
        return Err(ControlError::ExtraFields);
    }
    let media_run_text = token_at(message, &chars, spans[1]);
    let session_text = token_at(message, &chars, spans[2]);
    let final_frame_text = token_at(message, &chars, spans[3]);
    let media_run_id = match uuid_parse_str(media_run_text) {
        Ok(id) => id,
        Err(_) => {
            return Err(ControlError::InvalidMediaRunId);
        },
    };
    let session_id = match uuid_parse_str(session_text) {
        Ok(id) => id,
        Err(_) => {
            return Err(ControlError::InvalidSessionId);
        },
    };
    let final_frame_exclusive = match parse_u64(final_frame_text) {
        Some(n) => n,
        None => {
            return Err(ControlError::InvalidFinalFrame);
        },
    };
    Ok(Done { media_run_id, session_id, final_frame_exclusive })
}

/// An acknowledgement line with a newline appended trims to the line.
pub proof fn lemma_trim_identity_line(word: Seq<char>, a: Seq<u8>, b: Seq<u8>)
    requires
        word.len() > 0,
        no_white_space(word),
        a.len() == 16,
        b.len() == 16,
    ensures
        trimmed(identity_line(word, a, b) + seq!['\n']) == identity_line(word, a, b),
{
    lemma_uuid_text(a);
    lemma_uuid_text(b);
    let line = identity_line(word, a, b);
    let s = line + seq!['\n'];
    assert(s[0] == word[0]);
    lemma_trim_start(s, 0);
    assert(s.skip(0) =~= s);
    let n = line.len() as int;
    assert(s[n] == '\n');
    assert(white_space('\n'));
    let tb = uuid_text(b);
    assert(line[n - 1] == tb[35]);
    assert(s[n - 1] == line[n - 1]);
    lemma_trim_end(s, n);
    assert(s.take(n) =~= line);
}

/// Two identity lines with the same word are equal only for the same
/// identities.
pub proof fn lemma_identity_line_injective(
    word: Seq<char>,
    a: Seq<u8>,
    b: Seq<u8>,
    x: Seq<u8>,
    y: Seq<u8>,
)
    requires
        a.len() == 16,
        b.len() == 16,
        x.len() == 16,
        y.len() == 16,
        identity_line(word, a, b) == identity_line(word, x, y),
    ensures
        a == x,
        b == y,
{
    lemma_uuid_text(a);
    lemma_uuid_text(b);
    lemma_uuid_text(x);
    lemma_uuid_text(y);
    let k = word.len() as int + 1;
    let l1 = identity_line(word, a, b);
    let l2 = identity_line(word, x, y);
    assert(l1.subrange(k, k + 36) =~= uuid_text(a));
    assert(l2.subrange(k, k + 36) =~= uuid_text(x));
    assert(l1.subrange(k + 37, k + 73) =~= uuid_text(b));
    assert(l2.subrange(k + 37, k + 73) =~= uuid_text(y));
    lemma_uuid_text_injective(a, x);
    lemma_uuid_text_injective(b, y);
}

/// Checks that `message`, trimmed of surrounding white space, is
/// `<word> <media_run_id> <session_id>`.
fn validate_identity_line(message: &str, word: &str, media_run_id: [u8; 16], session_id: [u8; 16]) -> (r:
    Result<(), ControlError>)
    ensures
        r is Ok <==> trimmed(message@) == identity_line(word@, media_run_id@, session_id@),
        r is Err ==> r == Err::<(), ControlError>(ControlError::UnexpectedResponse),
{
    let expected = identity_line_string(word, media_run_id, session_id);
    let got = String::from_str(trim_whitespace(message));
    if got == expected {
        Ok(())
    } else {
        Err(ControlError::UnexpectedResponse)
    }
}

/// Checks that a HELLO acknowledgement is `OK <media_run_id> <session_id>`
/// for the expected identities.
pub fn validate_acknowledgement(
    message: &str,
    expected_media_run_id: [u8; 16],
    expected_session_id: [u8; 16],
) -> (r: Result<(), ControlError>)
    ensures
        r is Ok <==> trimmed(message@) == identity_line(
            word_ok(),
            expected_media_run_id@,
            expected_session_id@,
        ),
        r is Err ==> r == Err::<(), ControlError>(ControlError::UnexpectedResponse),
        forall|a: Seq<u8>, b: Seq<u8>|
            a.len() == 16 && b.len() == 16 && message@ == #[trigger] identity_line(word_ok(), a, b)
                + seq!['\n'] ==> (r is Ok <==> a == expected_media_run_id@ && b
                == expected_session_id@),
{
    proof {
        reveal_strlit("OK");
        assert("OK"@ =~= word_ok());
        lemma_word(word_ok());
        assert forall|a: Seq<u8>, b: Seq<u8>|
            a.len() == 16 && b.len() == 16 && message@ == #[trigger] identity_line(word_ok(), a, b)
                + seq!['\n'] implies trimmed(message@) == identity_line(word_ok(), a, b) by {
            lemma_trim_identity_line(word_ok(), a, b);
        }
        assert forall|a: Seq<u8>, b: Seq<u8>|
            a.len() == 16 && b.len() == 16 && identity_line(word_ok(), a, b) == identity_line(
                word_ok(),
                expected_media_run_id@,
                expected_session_id@,
            ) implies a == expected_media_run_id@ && b == expected_session_id@ by {
            lemma_identity_line_injective(
                word_ok(),
                a,
                b,
                expected_media_run_id@,
                expected_session_id@,
            );
        }
    }
    validate_identity_line(message, "OK", expected_media_run_id, expected_session_id)
}

/// Checks that a DONE acknowledgement is `DONE_OK <media_run_id>
/// <session_id>` for the expected identities.
pub fn validate_done_acknowledgement(
    message: &str,
    expected_media_run_id: [u8; 16],
    expected_session_id: [u8; 16],
) -> (r: Result<(), ControlError>)
    ensures
        r is Ok <==> trimmed(message@) == identity_line(
            word_done_ok(),
            expected_media_run_id@,
            expected_session_id@,
        ),
        r is Err ==> r == Err::<(), ControlError>(ControlError::UnexpectedResponse),
        forall|a: Seq<u8>, b: Seq<u8>|
            a.len() == 16 && b.len() == 16 && message@ == #[trigger] identity_line(
                word_done_ok(),
                a,
                b,
            ) + seq!['\n'] ==> (r is Ok <==> a == expected_media_run_id@ && b
                == expected_session_id@),
{
    proof {
        reveal_strlit("DONE_OK");
        assert("DONE_OK"@ =~= word_done_ok());
        lemma_word(word_done_ok());
        assert forall|a: Seq<u8>, b: Seq<u8>|
            a.len() == 16 && b.len() == 16 && message@ == #[trigger] identity_line(
                word_done_ok(),
                a,
                b,
            ) + seq!['\n'] implies trimmed(message@) == identity_line(word_done_ok(), a, b) by {
            lemma_trim_identity_line(word_done_ok(), a, b);
        }
        assert forall|a: Seq<u8>, b: Seq<u8>|
            a.len() == 16 && b.len() == 16 && identity_line(word_done_ok(), a, b) == identity_line(
                word_done_ok(),
                expected_media_run_id@,
                expected_session_id@,
            ) implies a == expected_media_run_id@ && b == expected_session_id@ by {
            lemma_identity_line_injective(
                word_done_ok(),
                a,
                b,
                expected_media_run_id@,
                expected_session_id@,
            );
        }
    }
    validate_identity_line(message, "DONE_OK", expected_media_run_id, expected_session_id)
}

} // verus!
