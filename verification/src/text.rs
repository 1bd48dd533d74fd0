//! Text handling for control messages: Unicode white space, splitting on
//! white space, trimming, and decimal numbers.

use vstd::prelude::*;

verus! {

/// The Unicode `White_Space` property: U+0009 to U+000D, U+0020, U+0085,
/// U+00A0, U+1680, U+2000 to U+200A, U+2028, U+2029, U+202F, U+205F and
/// U+3000.
pub open spec fn white_space(c: char) -> bool {
    let u = c as u32;
    ||| 0x9 <= u <= 0xd
    ||| u == 0x20
    ||| u == 0x85
    ||| u == 0xa0
    ||| u == 0x1680
    ||| 0x2000 <= u <= 0x200a
    ||| u == 0x2028
    ||| u == 0x2029
    ||| u == 0x202f
    ||| u == 0x205f
    ||| u == 0x3000
}

/// Whether `c` has the Unicode `White_Space` property, as
/// `char::is_whitespace` decides.
pub fn char_is_whitespace(c: char) -> (r: bool)
    ensures
        r == white_space(c),
{
    let u = c as u32;
    (0x9 <= u && u <= 0xd) || u == 0x20 || u == 0x85 || u == 0xa0 || u == 0x1680 || (0x2000 <= u
        && u <= 0x200a) || u == 0x2028 || u == 0x2029 || u == 0x202f || u == 0x205f || u == 0x3000
}

/// Number of leading characters of `s` that are not white space.
pub open spec fn word_len(s: Seq<char>) -> nat
    decreases s.len(),
{
    if s.len() == 0 || white_space(s[0]) {
        0
    } else {
        1 + word_len(s.drop_first())
    }
}

/// The maximal runs of non-white-space characters of `s`, in order.
pub open spec fn tokens(s: Seq<char>) -> Seq<Seq<char>>
    decreases s.len(),
{
    if s.len() == 0 {
        Seq::empty()
    } else if white_space(s[0]) {
        tokens(s.drop_first())
    } else {
        let k = word_len(s);
        let rest = if k <= s.len() {
            s.skip(k as int)
        } else {
            Seq::empty()
        };
        seq![s.take(k as int)] + tokens(rest)
    }
}

/// `s` without its leading white space.
pub open spec fn trim_start(s: Seq<char>) -> Seq<char>
    decreases s.len(),
{
    if s.len() > 0 && white_space(s[0]) {
        trim_start(s.drop_first())
    } else {
        s
    }
}

/// `s` without its trailing white space.
pub open spec fn trim_end(s: Seq<char>) -> Seq<char>
    decreases s.len(),
{
    if s.len() > 0 && white_space(s.last()) {
        trim_end(s.drop_last())
    } else {
        s
    }
}

/// `s` without leading and trailing white space.
pub open spec fn trimmed(s: Seq<char>) -> Seq<char> {
    trim_end(trim_start(s))
}

/// No character of `s` is white space.
pub open spec fn no_white_space(s: Seq<char>) -> bool {
    forall|i: int| 0 <= i < s.len() ==> !white_space(#[trigger] s[i])
}

pub proof fn lemma_word_len(t: Seq<char>, j: int)
    requires
        0 <= j <= t.len(),
        forall|i: int| 0 <= i < j ==> !white_space(#[trigger] t[i]),
        j == t.len() || white_space(t[j]),
    ensures
        word_len(t) == j,
    decreases j,
{
    if j > 0 {
        let t2 = t.drop_first();
        assert forall|i: int| 0 <= i < j - 1 implies !white_space(#[trigger] t2[i]) by {
            assert(t2[i] == t[i + 1]);
        }
        if j - 1 < t2.len() {
            assert(t2[j - 1] == t[j]);
        }
        lemma_word_len(t2, j - 1);
    }
}

/// A word followed by a white-space character and more text splits into the
/// word and the tokens of the rest.
pub proof fn lemma_tokens_word_sep(w: Seq<char>, c: char, rest: Seq<char>)
    requires
        w.len() > 0,
        no_white_space(w),
        white_space(c),
    ensures
        tokens(w + seq![c] + rest) == seq![w] + tokens(rest),
{
    let s = w + seq![c] + rest;
    assert(s[0] == w[0]);
    assert forall|i: int| 0 <= i < w.len() implies !white_space(#[trigger] s[i]) by {
        assert(s[i] == w[i]);
    }
    assert(s[w.len() as int] == c);
    lemma_word_len(s, w.len() as int);
    assert(s.take(w.len() as int) =~= w);
    let after = s.skip(w.len() as int);
    assert(after =~= seq![c] + rest);
    lemma_tokens_skip_space(c, rest);
    assert(word_len(s) == w.len());
    assert(tokens(s) == seq![s.take(w.len() as int)] + tokens(after));
}

/// Leading white space is not part of any token.
pub proof fn lemma_tokens_skip_space(c: char, rest: Seq<char>)
    requires
        white_space(c),
    ensures
        tokens(seq![c] + rest) == tokens(rest),
{
    let s = seq![c] + rest;
    assert(s[0] == c);
    assert(s.drop_first() =~= rest);
}

/// The character positions of the tokens of `s`.
pub open spec fn spans_match(s: Seq<char>, spans: Seq<(usize, usize)>, toks: Seq<Seq<char>>) -> bool {
    &&& spans.len() == toks.len()
    &&& forall|k: int|
        0 <= k < spans.len() ==> (#[trigger] spans[k]).0 <= spans[k].1 <= s.len() && s.subrange(
            spans[k].0 as int,
            spans[k].1 as int,
        ) == toks[k]
}

/// The characters of `s`.
pub fn chars_of(s: &str) -> (r: Vec<char>)
    ensures
        r@ == s@,
{
    let n = s.unicode_len();
    let mut out: Vec<char> = Vec::new();
    let mut i: usize = 0;
    while i < n
        invariant
            n == s@.len(),
            i <= n,
            out@ == s@.take(i as int),
        decreases n - i,
    {
        out.push(s.get_char(i));
        i = i + 1;
        assert(out@ =~= s@.take(i as int));
    }
    assert(s@.take(n as int) =~= s@);
    out
}

/// Where the tokens of `s` start and end.
pub fn token_spans(s: &Vec<char>) -> (r: Vec<(usize, usize)>)
    ensures
        spans_match(s@, r@, tokens(s@)),
{
    let n = s.len();
    let mut spans: Vec<(usize, usize)> = Vec::new();
    let mut i: usize = 0;
    let ghost mut done: Seq<Seq<char>> = Seq::empty();
    assert(s@.skip(0) =~= s@);
    while i < n
        invariant
            n == s@.len(),
            i <= n,
            tokens(s@) == done + tokens(s@.skip(i as int)),
            spans_match(s@, spans@, done),
        decreases n - i,
    {
        let ghost t = s@.skip(i as int);
        if char_is_whitespace(s[i]) {
            assert(t[0] == s@[i as int]);
            assert(t.drop_first() =~= s@.skip(i + 1));
            i = i + 1;
        } else {
            let start = i;
            let mut j: usize = i + 1;
            while j < n && !char_is_whitespace(s[j])
                invariant
                    n == s@.len(),
                    start < j <= n,
                    forall|m: int| start <= m < j ==> !white_space(#[trigger] s@[m]),
                decreases n - j,
            {
                j = j + 1;
            }
            proof {
                assert forall|m: int| 0 <= m < j - start implies !white_space(#[trigger] t[m]) by {
                    assert(t[m] == s@[start + m]);
                }
                if j < n {
                    assert(t[j - start] == s@[j as int]);
                }
                lemma_word_len(t, j - start);
                assert(t[0] == s@[i as int]);
                assert(t.take(j - start) =~= s@.subrange(start as int, j as int));
                assert(t.skip(j - start) =~= s@.skip(j as int));
                let old_done = done;
                done = done.push(s@.subrange(start as int, j as int));
                assert(done + tokens(s@.skip(j as int)) =~= old_done + tokens(t));
            }
            spans.push((start, j));
            i = j;
        }
    }
    assert(s@.skip(n as int) =~= Seq::<char>::empty());
    assert(done + Seq::<Seq<char>>::empty() =~= done);
    spans
}

pub proof fn lemma_trim_start(s: Seq<char>, a: int)
    requires
        0 <= a <= s.len(),
        forall|i: int| 0 <= i < a ==> white_space(#[trigger] s[i]),
        a == s.len() || !white_space(s[a]),
    ensures
        trim_start(s) == s.skip(a),
    decreases a,
{
    if a == 0 {
        assert(s.skip(0) =~= s);
    } else {
        let s2 = s.drop_first();
        assert forall|i: int| 0 <= i < a - 1 implies white_space(#[trigger] s2[i]) by {
            assert(s2[i] == s[i + 1]);
        }
        if a - 1 < s2.len() {
            assert(s2[a - 1] == s[a]);
        }
        lemma_trim_start(s2, a - 1);
        assert(s2.skip(a - 1) =~= s.skip(a));
    }
}

pub proof fn lemma_trim_end(s: Seq<char>, b: int)
    requires
        0 <= b <= s.len(),
        forall|i: int| b <= i < s.len() ==> white_space(#[trigger] s[i]),
        b == 0 || !white_space(s[b - 1]),
    ensures
        trim_end(s) == s.take(b),
    decreases s.len() - b,
{
    if b == s.len() {
        assert(s.take(b) =~= s);
    } else {
        let s2 = s.drop_last();
        assert forall|i: int| b <= i < s2.len() implies white_space(#[trigger] s2[i]) by {
            assert(s2[i] == s[i]);
        }
        if b > 0 {
            assert(s2[b - 1] == s[b - 1]);
        }
        lemma_trim_end(s2, b);
        assert(s2.take(b) =~= s.take(b));
    }
}

/// `s` without leading and trailing white space, as `str::trim` gives it.
pub fn trim_whitespace(s: &str) -> (r: &str)
    ensures
        r@ == trimmed(s@),
{
    let chars = chars_of(s);
    let n = chars.len();
    let mut a: usize = 0;
    while a < n && char_is_whitespace(chars[a])
        invariant
            n == s@.len(),
            chars@ == s@,
            a <= n,
            forall|i: int| 0 <= i < a ==> white_space(#[trigger] s@[i]),
        decreases n - a,
    {
        a = a + 1;
    }
    let mut b: usize = n;
    while b > a && char_is_whitespace(chars[b - 1])
        invariant
            n == s@.len(),
            chars@ == s@,
            a <= b <= n,
            forall|i: int| b <= i < n ==> white_space(#[trigger] s@[i]),
        decreases b,
    {
        b = b - 1;
    }
    proof {
        lemma_trim_start(s@, a as int);
        let t = s@.skip(a as int);
        assert forall|i: int| b - a <= i < t.len() implies white_space(#[trigger] t[i]) by {
            assert(t[i] == s@[a + i]);
        }
        if b > a {
            assert(t[b - a - 1] == s@[b - 1]);
        }
        lemma_trim_end(t, b - a);
        assert(t.take(b - a) =~= s@.subrange(a as int, b as int));
    }
    s.substring_char(a, b)
}

/// The decimal digit character for `d < 10`.
pub open spec fn digit_char(d: nat) -> char {
    (48 + d) as char
}

/// The decimal representation of `n`, without leading zeros.
pub open spec fn decimal(n: nat) -> Seq<char>
    decreases n,
{
    if n < 10 {
        seq![digit_char(n)]
    } else {
        decimal(n / 10).push(digit_char(n % 10))
    }
}

/// A character from `'0'` to `'9'`.
pub open spec fn is_digit(c: char) -> bool {
    48 <= (c as u32) <= 57
}

/// The number that a string of decimal digits denotes.
pub open spec fn digits_value(s: Seq<char>) -> nat
    decreases s.len(),
{
    if s.len() == 0 {
        0
    } else {
        digits_value(s.drop_last()) * 10 + ((s.last() as u32) - 48) as nat
    }
}

/// The number that `s` denotes as an unsigned decimal integer: an optional
/// `+` followed by one or more decimal digits.
pub open spec fn parse_decimal(s: Seq<char>) -> Option<nat> {
    let body = decimal_body(s);
    if body.len() > 0 && all_digits(body) {
        Some(digits_value(body))
    } else {
        None
    }
}

/// `s` without one leading `+`, if it has one.
pub open spec fn decimal_body(s: Seq<char>) -> Seq<char> {
    if s.len() > 0 && s[0] == '+' {
        s.drop_first()
    } else {
        s
    }
}

/// Every character of `s` is a decimal digit.
pub open spec fn all_digits(s: Seq<char>) -> bool {
    forall|i: int| 0 <= i < s.len() ==> is_digit(#[trigger] s[i])
}

/// The one-character text of digit `d`.
fn digit_str(d: u64) -> (r: &'static str)
    requires
        d < 10,
    ensures
        r@ == seq![digit_char(d as nat)],
{
    proof {
        reveal_strlit("0");
        reveal_strlit("1");
        reveal_strlit("2");
        reveal_strlit("3");
        reveal_strlit("4");
        reveal_strlit("5");
        reveal_strlit("6");
        reveal_strlit("7");
        reveal_strlit("8");
        reveal_strlit("9");
    }
    if d == 0 {
        "0"
    } else if d == 1 {
        "1"
    } else if d == 2 {
        "2"
    } else if d == 3 {
        "3"
    } else if d == 4 {
        "4"
    } else if d == 5 {
        "5"
    } else if d == 6 {
        "6"
    } else if d == 7 {
        "7"
    } else if d == 8 {
        "8"
    } else {
        "9"
    }
}

/// Appends the decimal representation of `n` to `out`.
pub fn append_decimal(out: &mut String, n: u64)
    ensures
        final(out)@ == old(out)@ + decimal(n as nat),
    decreases n,
{
    if n >= 10 {
        append_decimal(out, n / 10);
    }
    let digit = digit_str(n % 10);
    out.append(digit);
    if n >= 10 {
        assert(decimal(n as nat) == decimal((n / 10) as nat).push(digit_char((n % 10) as nat)));
    }
    assert(final(out)@ =~= old(out)@ + decimal(n as nat));
}

/// The decimal representation of `n`, as `u64::to_string` writes it.
pub fn u64_to_string(n: u64) -> (r: String)
    ensures
        r@ == decimal(n as nat),
{
    let mut out = String::new();
    append_decimal(&mut out, n);
    assert(out@ =~= decimal(n as nat));
    out
}

proof fn lemma_digits_value_grows(s: Seq<char>, i: int, j: int)
    requires
        0 <= i <= j <= s.len(),
    ensures
        digits_value(s.take(i)) <= digits_value(s.take(j)),
    decreases j - i,
{
    if i < j {
        lemma_digits_value_grows(s, i, j - 1);
        assert(s.take(j).drop_last() =~= s.take(j - 1));
    }
}

/// The number `s` denotes as `u64::from_str` reads it: an optional `+` and
/// one or more decimal digits whose value fits in a `u64`; `None` otherwise.
pub fn parse_u64(s: &str) -> (r: Option<u64>)
    ensures
        r == match parse_decimal(s@) {
            Some(v) => if v <= u64::MAX {
                Some(v as u64)
            } else {
                None::<u64>
            },
            None => None::<u64>,
        },
{
    let chars = chars_of(s);
    let n = chars.len();
    let start: usize = if n > 0 && chars[0] == '+' {
        1
    } else {
        0
    };
    let ghost body = decimal_body(s@);
    assert(body =~= s@.skip(start as int));
    if start == n {
        return None;
    }
    let mut value: u64 = 0;
    let mut i: usize = start;
    while i < n
        invariant
            start <= i <= n,
            n == chars@.len(),
            chars@ == s@,
            body == s@.skip(start as int),
            body == decimal_body(s@),
            value == digits_value(body.take(i - start)),
            forall|k: int| 0 <= k < i - start ==> is_digit(#[trigger] body[k]),
        decreases n - i,
    {
        let c = chars[i];
        assert(c == body[i - start]);
        let u = c as u32;
        if !(48 <= u && u <= 57) {
            proof {
                assert(!is_digit(body[i - start]));
                assert(!all_digits(body));
            }
            return None;
        }
        let d = (u - 48) as u64;
        assert(body.take(i - start + 1).drop_last() =~= body.take(i - start));
        let grown = match value.checked_mul(10) {
            Some(v) => v.checked_add(d),
            None => None,
        };
        match grown {
            Some(v) => {
                value = v;
            },
            None => {
                proof {
                    assert(digits_value(body.take(i - start + 1)) > u64::MAX);
                    if all_digits(body) {
                        assert(body.take(body.len() as int) =~= body);
                        lemma_digits_value_grows(body, i - start + 1, body.len() as int);
                        assert(digits_value(body) > u64::MAX);
                        assert(parse_decimal(s@) == Some(digits_value(body)));
                    }
                }
                return None;
            },
        }
        i = i + 1;
    }
    assert(body.take(body.len() as int) =~= body);
    Some(value)
}

pub proof fn lemma_digit_char(d: nat)
    requires
        d < 10,
    ensures
        digit_char(d) as u32 == 48 + d,
        is_digit(digit_char(d)),
{
}

/// The decimal representation of a number is all digits, starts with a
/// digit, and denotes the number.
pub proof fn lemma_decimal(n: nat)
    ensures
        decimal(n).len() > 0,
        forall|i: int| 0 <= i < decimal(n).len() ==> is_digit(#[trigger] decimal(n)[i]),
        digits_value(decimal(n)) == n,
        parse_decimal(decimal(n)) == Some(n),
        no_white_space(decimal(n)),
    decreases n,
{
    lemma_digit_char(n % 10);
    let d = decimal(n);
    if n >= 10 {
        lemma_decimal(n / 10);
        assert(d.drop_last() =~= decimal(n / 10));
        assert(d.last() == digit_char(n % 10));
        assert(n == (n / 10) * 10 + n % 10) by (nonlinear_arith);
        assert(digits_value(d) == digits_value(decimal(n / 10)) * 10 + n % 10);
        assert forall|i: int| 0 <= i < d.len() implies is_digit(#[trigger] d[i]) by {
            if i < d.len() - 1 {
                assert(d[i] == decimal(n / 10)[i]);
            }
        }
    } else {
        lemma_digit_char(n);
        assert(d.drop_last() =~= Seq::<char>::empty());
        assert(digits_value(d.drop_last()) == 0);
        assert(d.last() == digit_char(n));
        assert(digits_value(d) == ((digit_char(n) as u32) - 48) as nat);
    }
    assert(d[0] != '+') by {
        assert(is_digit(d[0]));
    }
    assert(d[0] != '+');
    assert forall|i: int| 0 <= i < d.len() implies !white_space(#[trigger] d[i]) by {
        assert(is_digit(d[i]));
    }
}

} // verus!
