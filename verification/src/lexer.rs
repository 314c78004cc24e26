//! The tokenizer.
//!
//! Tokens are specified by pure functions over the input character
//! sequence: [`next_token`] gives the token starting at a position and the
//! position just after it.  The executable tokenizer is proved to produce
//! exactly those tokens.
//!
//! Number literals hold 64-bit signed integers: a literal is an optional
//! minus sign followed by decimal digits, and a digit-led literal whose
//! value does not fit is an invalid number.  A minus-led run of characters
//! that is not a number literal is an identifier (so `-` and `-foo` are
//! identifiers).

use vstd::prelude::*;

use crate::data::{ParseError, TokV, Token};
use crate::value::chars_of;

verus! {

/// Whitespace, skipped between tokens.
pub open spec fn is_ws(c: char) -> bool {
    c == ' ' || c == '\n' || c == '\t'
}

/// A separator ends an identifier or number literal.
pub open spec fn is_sep(c: char) -> bool {
    is_ws(c) || c == '(' || c == ')'
}

/// A decimal digit.
pub open spec fn is_digit(c: char) -> bool {
    48 <= c as u32 && c as u32 <= 57
}

/// The value of a decimal digit character.
pub open spec fn digit_val(c: char) -> int {
    c as u32 - 48
}

/// What an escaped character stands for: `\n` and `\t` are newline and
/// tab, any other character stands for itself.
pub open spec fn unesc(c: char) -> char {
    if c == 'n' {
        '\n'
    } else if c == 't' {
        '\t'
    } else {
        c
    }
}

/// The position after the run of whitespace starting at `i`.
pub open spec fn skip_ws(s: Seq<char>, i: int) -> int
    decreases s.len() - i,
    when 0 <= i <= s.len()
{
    if i < s.len() && is_ws(s[i]) {
        skip_ws(s, i + 1)
    } else {
        i
    }
}

/// The end of the identifier run starting at `i`: the first position at or
/// after `i` holding a separator, or the end of the input.
pub open spec fn ident_end(s: Seq<char>, i: int) -> int
    decreases s.len() - i,
    when 0 <= i <= s.len()
{
    if i < s.len() && !is_sep(s[i]) {
        ident_end(s, i + 1)
    } else {
        i
    }
}

/// The text of the identifier whose first character `first` stood just
/// before position `i`.
pub open spec fn ident_text(s: Seq<char>, i: int, first: char) -> Seq<char> {
    seq![first] + s.subrange(i, ident_end(s, i))
}

/// Scans a string literal body from `i`, just after the opening quote:
/// the contents up to the next unescaped quote (with `\n`, `\t` and
/// `\x` -> `x` escapes), or `UnclosedString` when the input ends first.
/// The second component is the position just after the scanned part.
pub open spec fn scan_string(s: Seq<char>, i: int) -> (Result<Seq<char>, ParseError>, int)
    decreases s.len() - i,
    when 0 <= i <= s.len()
{
    if i >= s.len() {
        (Err(ParseError::UnclosedString), i)
    } else if s[i] == '"' {
        (Ok(Seq::empty()), i + 1)
    } else if s[i] == '\\' {
        if i + 1 >= s.len() {
            (Err(ParseError::UnclosedString), i + 1)
        } else {
            let (r, j) = scan_string(s, i + 2);
            (
                match r {
                    Ok(t) => Ok(seq![unesc(s[i + 1])] + t),
                    Err(e) => Err(e),
                },
                j,
            )
        }
    } else {
        let (r, j) = scan_string(s, i + 1);
        (
            match r {
                Ok(t) => Ok(seq![s[i]] + t),
                Err(e) => Err(e),
            },
            j,
        )
    }
}

/// Every character of the sequence is a decimal digit.
pub open spec fn all_digits(t: Seq<char>) -> bool {
    forall|k: int| 0 <= k < t.len() ==> is_digit(#[trigger] t[k])
}

/// The value of a sequence of decimal digits, most significant first.
pub open spec fn digits_val(t: Seq<char>) -> int
    decreases t.len(),
{
    if t.len() == 0 {
        0
    } else {
        digits_val(t.drop_last()) * 10 + digit_val(t.last())
    }
}

/// The numeric value of a literal: an optional minus sign followed by at
/// least one decimal digit, whose value fits a 64-bit signed integer.
pub open spec fn num_of_chars(t: Seq<char>) -> Option<int> {
    let neg = t.len() > 0 && t[0] == '-';
    let digits = if neg {
        t.drop_first()
    } else {
        t
    };
    if digits.len() == 0 || !all_digits(digits) {
        None
    } else {
        let v = digits_val(digits);
        if neg {
            if v <= 9223372036854775808 {
                Some(-v)
            } else {
                None
            }
        } else {
            if v < 9223372036854775808 {
                Some(v)
            } else {
                None
            }
        }
    }
}

/// The token starting at position `i`, and the position just after it.
///
/// Whitespace before the token is skipped; the end of the input yields
/// `End`.  A quote character opens a string literal; `-` or a digit opens
/// a number literal, where a minus-led text that is no number falls back
/// to an identifier and a digit-led one that is no number is an invalid
/// number; any other character opens an identifier.
pub open spec fn next_token(s: Seq<char>, i: int) -> (TokV, int) {
    let j = skip_ws(s, i);
    if j >= s.len() {
        (TokV::End, j)
    } else {
        let c = s[j];
        if c == '(' {
            (TokV::Lparen, j + 1)
        } else if c == ')' {
            (TokV::Rparen, j + 1)
        } else if c == '\'' {
            (TokV::Quote, j + 1)
        } else if c == '"' {
            let (r, k) = scan_string(s, j + 1);
            (
                match r {
                    Ok(t) => TokV::Str(t),
                    Err(e) => TokV::Error(e),
                },
                k,
            )
        } else if c == '-' {
            let t = ident_text(s, j + 1, '-');
            let k = ident_end(s, j + 1);
            match num_of_chars(t) {
                Some(n) => (TokV::Number(n), k),
                None => (TokV::Ident(t), k),
            }
        } else if is_digit(c) {
            let t = ident_text(s, j + 1, c);
            let k = ident_end(s, j + 1);
            match num_of_chars(t) {
                Some(n) => (TokV::Number(n), k),
                None => (TokV::Error(ParseError::InvalidNumber), k),
            }
        } else {
            (TokV::Ident(ident_text(s, j + 1, c)), ident_end(s, j + 1))
        }
    }
}

/// `skip_ws` stays within the input.
pub proof fn lemma_skip_ws_bounds(s: Seq<char>, i: int)
    requires
        0 <= i <= s.len(),
    ensures
        i <= skip_ws(s, i) <= s.len(),
    decreases s.len() - i,
{
    if i < s.len() && is_ws(s[i]) {
        lemma_skip_ws_bounds(s, i + 1);
    }
}

/// `ident_end` stays within the input.
pub proof fn lemma_ident_end_bounds(s: Seq<char>, i: int)
    requires
        0 <= i <= s.len(),
    ensures
        i <= ident_end(s, i) <= s.len(),
    decreases s.len() - i,
{
    if i < s.len() && !is_sep(s[i]) {
        lemma_ident_end_bounds(s, i + 1);
    }
}

/// `scan_string` stays within the input and always makes progress.
pub proof fn lemma_scan_string_bounds(s: Seq<char>, i: int)
    requires
        0 <= i <= s.len(),
    ensures
        i <= scan_string(s, i).1 <= s.len(),
        i < s.len() ==> i < scan_string(s, i).1,
    decreases s.len() - i,
{
    if i < s.len() {
        if s[i] == '"' {
        } else if s[i] == '\\' {
            if i + 1 < s.len() {
                lemma_scan_string_bounds(s, i + 2);
            }
        } else {
            lemma_scan_string_bounds(s, i + 1);
        }
    }
}

/// `next_token` stays within the input, and every token but `End` takes at
/// least one character.
pub proof fn lemma_next_token_bounds(s: Seq<char>, i: int)
    requires
        0 <= i <= s.len(),
    ensures
        i <= next_token(s, i).1 <= s.len(),
        next_token(s, i).0 != TokV::End ==> i < next_token(s, i).1,
        next_token(s, i).0 == TokV::End ==> next_token(s, i).1 == skip_ws(s, i),
{
    let j = skip_ws(s, i);
    lemma_skip_ws_bounds(s, i);
    if j < s.len() {
        let c = s[j];
        if c == '(' || c == ')' || c == '\'' {
        } else if c == '"' {
            lemma_scan_string_bounds(s, j + 1);
        } else {
            lemma_ident_end_bounds(s, j + 1);
        }
    }
}

/// A digit prefix never shrinks in value when more digits follow.
proof fn lemma_digits_val_monotone(t: Seq<char>, i: int, j: int)
    requires
        0 <= i <= j <= t.len(),
        all_digits(t),
    ensures
        digits_val(t.take(i)) <= digits_val(t.take(j)),
        digits_val(t.take(i)) >= 0,
    decreases j - i,
{
    assert(all_digits(t.take(i))) by {
        assert(forall|k: int| 0 <= k < i ==> t.take(i)[k] == #[trigger] t[k]);
    }
    lemma_digits_val_nonneg(t.take(i));
    if i < j {
        lemma_digits_val_monotone(t, i, j - 1);
        let p = t.take(j);
        assert(p.drop_last() =~= t.take(j - 1));
        assert(p.last() == t[j - 1]);
        assert(is_digit(t[j - 1]));
        assert(all_digits(t.take(j - 1))) by {
            assert(forall|k: int| 0 <= k < j - 1 ==> t.take(j - 1)[k] == #[trigger] t[k]);
        }
        assert(digits_val(t.take(j - 1)) * 10 >= digits_val(t.take(j - 1))) by {
            lemma_digits_val_nonneg(t.take(j - 1));
        }
        assert(digit_val(t[j - 1]) >= 0);
    }
}

/// The value of a digit sequence is never negative.
proof fn lemma_digits_val_nonneg(t: Seq<char>)
    requires
        all_digits(t),
    ensures
        digits_val(t) >= 0,
    decreases t.len(),
{
    if t.len() > 0 {
        assert(all_digits(t.drop_last())) by {
            assert(forall|k: int| 0 <= k < t.len() - 1 ==> t.drop_last()[k] == #[trigger] t[k]);
        }
        lemma_digits_val_nonneg(t.drop_last());
        assert(is_digit(t.last()));
    }
}

/// The decimal rendering of a natural number consists of digits, at least
/// one, and parses back to the same number.
pub proof fn lemma_dec_digits(n: nat)
    ensures
        all_digits(crate::value::dec_digits(n)),
        crate::value::dec_digits(n).len() >= 1,
        digits_val(crate::value::dec_digits(n)) == n,
    decreases n,
{
    let t = crate::value::dec_digits(n);
    lemma_digit_char(n % 10);
    if n < 10 {
        lemma_digit_char(n);
        assert(t == seq![crate::value::digit_char(n)]);
        assert(t.drop_last() =~= Seq::<char>::empty());
        assert(t.last() == crate::value::digit_char(n));
        assert(digits_val(t.drop_last()) == 0);
        assert(digits_val(t) == digit_val(crate::value::digit_char(n)));
    } else {
        lemma_dec_digits(n / 10);
        let h = crate::value::dec_digits(n / 10);
        assert(t == h + seq![crate::value::digit_char(n % 10)]);
        assert(t.drop_last() =~= h);
        assert(t.last() == crate::value::digit_char(n % 10));
        assert(digits_val(t) == digits_val(h) * 10 + digit_val(
            crate::value::digit_char(n % 10),
        ));
        assert(n == (n / 10) * 10 + n % 10);
        assert forall|k: int| 0 <= k < t.len() implies is_digit(#[trigger] t[k]) by {
            if k < h.len() {
                assert(t[k] == h[k]);
            }
        }
    }
}

/// The ten digit characters are digits and carry their own values.
proof fn lemma_digit_char(d: nat)
    requires
        d < 10,
    ensures
        is_digit(crate::value::digit_char(d)),
        digit_val(crate::value::digit_char(d)) == d,
        crate::value::digit_char(d) != '-',
{
    assert('0' as u32 == 48);
    assert('1' as u32 == 49);
    assert('2' as u32 == 50);
    assert('3' as u32 == 51);
    assert('4' as u32 == 52);
    assert('5' as u32 == 53);
    assert('6' as u32 == 54);
    assert('7' as u32 == 55);
    assert('8' as u32 == 56);
    assert('9' as u32 == 57);
    assert('-' as u32 == 45);
}

/// A digit is neither whitespace, a parenthesis, a minus sign, nor any
/// other token-opening character.
proof fn lemma_digit_not_special(c: char)
    requires
        is_digit(c),
    ensures
        !is_sep(c),
        c != '-',
        c != '(',
        c != ')',
        c != '\'',
        c != '"',
    decreases 0nat,
{
    assert(' ' as u32 == 32);
    assert('\n' as u32 == 10);
    assert('\t' as u32 == 9);
    assert('(' as u32 == 40);
    assert(')' as u32 == 41);
    assert('\'' as u32 == 39);
    assert('"' as u32 == 34);
    assert('-' as u32 == 45);
}

/// An identifier run with no separator reaches the end of the input.
proof fn lemma_ident_end_all(s: Seq<char>, i: int)
    requires
        0 <= i <= s.len(),
        forall|k: int| i <= k < s.len() ==> !is_sep(#[trigger] s[k]),
    ensures
        ident_end(s, i) == s.len(),
    decreases s.len() - i,
{
    if i < s.len() {
        lemma_ident_end_all(s, i + 1);
    }
}

/// The token of the canonical decimal rendering of a 64-bit number is
/// that number, consuming the whole text.
pub proof fn lemma_next_token_number(n: i64)
    ensures
        next_token(crate::value::num_chars(n as int), 0) == (
            TokV::Number(n as int),
            crate::value::num_chars(n as int).len() as int,
        ),
{
    let s = crate::value::num_chars(n as int);
    assert('-' as u32 == 45);
    assert(' ' as u32 == 32);
    assert('\n' as u32 == 10);
    assert('\t' as u32 == 9);
    if n >= 0 {
        let d = crate::value::dec_digits(n as nat);
        lemma_dec_digits(n as nat);
        assert(s == d);
        assert(is_digit(s[0]));
        lemma_digit_not_special(s[0]);
        assert(!is_ws(s[0]));
        assert(skip_ws(s, 0) == 0);
        assert forall|k: int| 1 <= k < s.len() implies !is_sep(#[trigger] s[k]) by {
            lemma_digit_not_special(s[k]);
        }
        lemma_ident_end_all(s, 1);
        let t = ident_text(s, 1, s[0]);
        assert(t =~= s);
        lemma_num_of_dec(n);
        assert(num_of_chars(t) == Some(n as int));
    } else {
        let d = crate::value::dec_digits((-(n as int)) as nat);
        lemma_dec_digits((-(n as int)) as nat);
        assert(s == seq!['-'] + d);
        assert(s[0] == '-');
        assert(!is_ws('-'));
        assert(skip_ws(s, 0) == 0);
        assert(s[0] != '(' && s[0] != ')' && s[0] != '\'' && s[0] != '"');
        assert forall|k: int| 1 <= k < s.len() implies !is_sep(#[trigger] s[k]) by {
            assert(s[k] == d[k - 1]);
            lemma_digit_not_special(s[k]);
        }
        lemma_ident_end_all(s, 1);
        let t = ident_text(s, 1, '-');
        assert(t =~= s);
        lemma_num_of_dec(n);
        assert(num_of_chars(t) == Some(n as int));
    }
}

/// The canonical decimal rendering of a 64-bit number parses back to it.
proof fn lemma_num_of_dec(n: i64)
    ensures
        num_of_chars(crate::value::num_chars(n as int)) == Some(n as int),
{
    let s = crate::value::num_chars(n as int);
    assert('-' as u32 == 45);
    if n >= 0 {
        lemma_dec_digits(n as nat);
        assert(is_digit(s[0]));
        assert(s[0] != '-');
        assert(digits_val(s) == n);
    } else {
        let d = crate::value::dec_digits((-(n as int)) as nat);
        lemma_dec_digits((-(n as int)) as nat);
        assert(s == seq!['-'] + d);
        assert(s[0] == '-');
        assert(s.drop_first() =~= d);
        assert(digits_val(d) == -(n as int));
        assert(-(n as int) <= 9223372036854775808);
    }
}

/// The token of a text that opens no other token form and holds no
/// separator is the whole text as one identifier.
pub proof fn lemma_next_token_ident(s: Seq<char>)
    requires
        s.len() >= 1,
        !is_ws(s[0]),
        s[0] != '(',
        s[0] != ')',
        s[0] != '\'',
        s[0] != '"',
        s[0] != '-',
        !is_digit(s[0]),
        forall|k: int| 0 <= k < s.len() ==> !is_sep(#[trigger] s[k]),
    ensures
        next_token(s, 0) == (TokV::Ident(s), s.len() as int),
{
    assert(skip_ws(s, 0) == 0);
    lemma_ident_end_all(s, 1);
    assert(ident_text(s, 1, s[0]) =~= s);
}

/// Scanning a string body free of quotes and backslashes up to its
/// closing quote yields exactly that body.
pub proof fn lemma_scan_string_clean(u: Seq<char>, i: int, j: int)
    requires
        0 <= i <= j < u.len(),
        u[j] == '"',
        forall|k: int| i <= k < j ==> (#[trigger] u[k]) != '"' && u[k] != '\\',
    ensures
        scan_string(u, i) == (Ok::<Seq<char>, ParseError>(u.subrange(i, j)), j + 1),
    decreases j - i,
{
    if i == j {
        assert(u.subrange(i, j) =~= Seq::<char>::empty());
    } else {
        lemma_scan_string_clean(u, i + 1, j);
        assert(seq![u[i]] + u.subrange(i + 1, j) =~= u.subrange(i, j));
    }
}

/// The token of a quoted text whose body holds neither a quote nor a
/// backslash is that body as one string literal.
pub proof fn lemma_next_token_string(w: Seq<char>)
    requires
        forall|k: int| 0 <= k < w.len() ==> (#[trigger] w[k]) != '"' && w[k] != '\\',
    ensures
        next_token(seq!['"'] + w + seq!['"'], 0) == (
            TokV::Str(w),
            (w.len() + 2) as int,
        ),
{
    let u = seq!['"'] + w + seq!['"'];
    assert(' ' as u32 == 32);
    assert('\n' as u32 == 10);
    assert('\t' as u32 == 9);
    assert('"' as u32 == 34);
    assert(u[0] == '"');
    assert(!is_ws(u[0]));
    assert(skip_ws(u, 0) == 0);
    assert(u[u.len() - 1] == '"');
    assert forall|k: int| 1 <= k < u.len() - 1 implies (#[trigger] u[k]) != '"' && u[k]
        != '\\' by {
        assert(u[k] == w[k - 1]);
    }
    lemma_scan_string_clean(u, 1, u.len() - 1);
    assert(u.subrange(1, u.len() - 1) =~= w);
}

/// Whitespace test.
fn is_ws_c(c: char) -> (r: bool)
    ensures
        r == is_ws(c),
{
    c == ' ' || c == '\n' || c == '\t'
}

/// Separator test.
fn is_sep_c(c: char) -> (r: bool)
    ensures
        r == is_sep(c),
{
    c == ' ' || c == '\n' || c == '\t' || c == '(' || c == ')'
}

/// Digit test.
fn is_digit_c(c: char) -> (r: bool)
    ensures
        r == is_digit(c),
{
    let u = c as u32;
    48 <= u && u <= 57
}

/// What an escaped character stands for.
fn unesc_c(c: char) -> (r: char)
    ensures
        r == unesc(c),
{
    if c == 'n' {
        '\n'
    } else if c == 't' {
        '\t'
    } else {
        c
    }
}

/// Reads a string literal body from just after the opening quote to just
/// after the closing quote, per [`scan_string`].
#[verifier::loop_isolation(false)]
pub fn extract_string(s: &Vec<char>, pos: &mut usize) -> (r: Result<Vec<char>, ParseError>)
    requires
        *old(pos) <= s@.len(),
    ensures
        *final(pos) == scan_string(s@, *old(pos) as int).1,
        *final(pos) <= s@.len(),
        match (r, scan_string(s@, *old(pos) as int).0) {
            (Ok(v), Ok(t)) => v@ == t,
            (Err(e1), Err(e2)) => e1 == e2,
            _ => false,
        },
{
    let ghost i0 = *pos as int;
    let mut buf: Vec<char> = Vec::new();
    loop
        invariant
            i0 <= *pos <= s@.len(),
            ({
                let r1 = scan_string(s@, i0);
                let r2 = scan_string(s@, *pos as int);
                r1.1 == r2.1 && match (r1.0, r2.0) {
                    (Ok(t1), Ok(t2)) => t1 == buf@ + t2,
                    (Err(e1), Err(e2)) => e1 == e2,
                    _ => false,
                }
            }),
        decreases s@.len() - *pos,
    {
        if *pos == s.len() {
            return Err(ParseError::UnclosedString);
        }
        let c = s[*pos];
        if c == '"' {
            *pos = *pos + 1;
            proof {
                assert(buf@ + Seq::<char>::empty() =~= buf@);
            }
            return Ok(buf);
        }
        if c == '\\' {
            if *pos + 1 == s.len() {
                *pos = *pos + 1;
                return Err(ParseError::UnclosedString);
            }
            let u = unesc_c(s[*pos + 1]);
            let ghost pre = buf@;
            buf.push(u);
            proof {
                let r3 = scan_string(s@, *pos as int + 2);
                if r3.0 is Ok {
                    assert(pre + (seq![u] + r3.0->Ok_0) =~= buf@ + r3.0->Ok_0);
                }
            }
            *pos = *pos + 2;
        } else {
            let ghost pre = buf@;
            buf.push(c);
            proof {
                let r3 = scan_string(s@, *pos as int + 1);
                if r3.0 is Ok {
                    assert(pre + (seq![c] + r3.0->Ok_0) =~= buf@ + r3.0->Ok_0);
                }
            }
            *pos = *pos + 1;
        }
    }
}

/// Reads an identifier whose first character was already consumed, per
/// [`ident_text`].
#[verifier::loop_isolation(false)]
pub fn extract_ident(s: &Vec<char>, pos: &mut usize, first: char) -> (r: Vec<char>)
    requires
        *old(pos) <= s@.len(),
    ensures
        r@ == ident_text(s@, *old(pos) as int, first),
        *final(pos) == ident_end(s@, *old(pos) as int),
        *final(pos) <= s@.len(),
{
    let ghost i0 = *pos as int;
    let mut buf: Vec<char> = Vec::new();
    buf.push(first);
    while *pos < s.len() && !is_sep_c(s[*pos])
        invariant
            i0 <= *pos <= s@.len(),
            ident_end(s@, i0) == ident_end(s@, *pos as int),
            buf@ == seq![first] + s@.subrange(i0, *pos as int),
        decreases s@.len() - *pos,
    {
        buf.push(s[*pos]);
        proof {
            assert(seq![first] + s@.subrange(i0, *pos as int) + seq![s@[*pos as int]] =~= seq![
                first,
            ] + s@.subrange(i0, *pos as int + 1));
        }
        *pos = *pos + 1;
    }
    proof {
        assert(ident_end(s@, *pos as int) == *pos as int);
        assert(buf@ == ident_text(s@, i0, first));
    }
    buf
}

/// Parses a number literal, per [`num_of_chars`].
#[verifier::loop_isolation(false)]
fn parse_number(t: &Vec<char>) -> (r: Option<i64>)
    ensures
        match num_of_chars(t@) {
            Some(n) => r is Some && r->0 as int == n,
            None => r is None,
        },
{
    let neg = t.len() > 0 && t[0] == '-';
    let start: usize = if neg {
        1
    } else {
        0
    };
    let ghost digits = if neg {
        t@.drop_first()
    } else {
        t@
    };
    proof {
        assert(digits.len() == t@.len() - start);
        assert(forall|k: int| 0 <= k < digits.len() ==> digits[k] == #[trigger] t@[k + start]);
    }
    if t.len() == start {
        return None;
    }
    let limit: u64 = if neg {
        9223372036854775808
    } else {
        9223372036854775807
    };
    let mut acc: u64 = 0;
    let mut i: usize = start;
    while i < t.len()
        invariant
            start <= i <= t@.len(),
            acc == digits_val(digits.take(i - start)),
            acc <= limit,
            forall|k: int| 0 <= k < i - start ==> is_digit(#[trigger] digits[k]),
        decreases t@.len() - i,
    {
        let c = t[i];
        if !is_digit_c(c) {
            proof {
                assert(digits[i - start] == t@[i as int]);
                assert(!all_digits(digits));
            }
            return None;
        }
        let d: u64 = ((c as u32) - 48) as u64;
        proof {
            assert(digits.take(i + 1 - start).drop_last() =~= digits.take(i - start));
            assert(digits.take(i + 1 - start).last() == digits[i - start]);
            assert(digits[i - start] == t@[i as int]);
            assert(digits_val(digits.take(i + 1 - start)) == acc * 10 + d);
        }
        if acc > limit / 10 || (acc == limit / 10 && d > limit % 10) {
            proof {
                assert(10 * (limit / 10) + limit % 10 == limit as int);
                assert(acc * 10 + d > limit);
                if all_digits(digits) {
                    lemma_digits_val_monotone(digits, i + 1 - start, digits.len() as int);
                    assert(digits.take(digits.len() as int) =~= digits);
                    assert(digits_val(digits) > limit);
                }
            }
            return None;
        }
        proof {
            assert(10 * (limit / 10) + limit % 10 == limit as int);
            assert(acc * 10 + d <= limit);
        }
        acc = acc * 10 + d;
        i = i + 1;
    }
    proof {
        assert(digits.take(t@.len() - start) =~= digits);
        assert(all_digits(digits));
        assert(digits_val(digits) == acc);
    }
    if neg {
        if acc == 9223372036854775808 {
            Some(i64::MIN)
        } else {
            Some(-(acc as i64))
        }
    } else {
        Some(acc as i64)
    }
}

/// Takes one token from the input, per [`next_token`].
#[verifier::loop_isolation(false)]
fn extract_token(s: &Vec<char>, pos: &mut usize) -> (t: Token)
    requires
        *old(pos) <= s@.len(),
    ensures
        t@ == next_token(s@, *old(pos) as int).0,
        *final(pos) == next_token(s@, *old(pos) as int).1,
        *final(pos) <= s@.len(),
{
    let ghost i0 = *pos as int;
    while *pos < s.len() && is_ws_c(s[*pos])
        invariant
            i0 <= *pos <= s@.len(),
            skip_ws(s@, i0) == skip_ws(s@, *pos as int),
        decreases s@.len() - *pos,
    {
        *pos = *pos + 1;
    }
    proof {
        assert(skip_ws(s@, *pos as int) == *pos as int);
    }
    if *pos == s.len() {
        return Token::End;
    }
    let c = s[*pos];
    *pos = *pos + 1;
    if c == '(' {
        Token::Lparen
    } else if c == ')' {
        Token::Rparen
    } else if c == '\'' {
        Token::Quote
    } else if c == '"' {
        match extract_string(s, pos) {
            Ok(v) => Token::Str(v),
            Err(e) => Token::Error(e),
        }
    } else if c == '-' {
        let text = extract_ident(s, pos, '-');
        match parse_number(&text) {
            Some(n) => Token::Number(n),
            None => Token::Ident(text),
        }
    } else if is_digit_c(c) {
        let text = extract_ident(s, pos, c);
        match parse_number(&text) {
            Some(n) => Token::Number(n),
            None => Token::Error(ParseError::InvalidNumber),
        }
    } else {
        Token::Ident(extract_ident(s, pos, c))
    }
}

/// The tokenizer: the input characters and the current position.
pub struct Tokenizer {
    pub chars: Vec<char>,
    pub pos: usize,
}

impl Tokenizer {
    /// The position never leaves the input.
    pub open spec fn wf(&self) -> bool {
        self.pos <= self.chars@.len()
    }

    /// A tokenizer over the characters of `text`, starting at the front.
    pub fn new(text: &str) -> (r: Tokenizer)
        ensures
            r.chars@ == text@,
            r.pos == 0,
            r.wf(),
    {
        Tokenizer { chars: chars_of(text), pos: 0 }
    }

    /// Takes the next token, per [`next_token`]; at the end of the input
    /// it yields `End` forever.
    pub fn next(&mut self) -> (t: Token)
        requires
            old(self).wf(),
        ensures
            final(self).wf(),
            final(self).chars == old(self).chars,
            t@ == next_token(old(self).chars@, old(self).pos as int).0,
            final(self).pos == next_token(old(self).chars@, old(self).pos as int).1,
    {
        extract_token(&self.chars, &mut self.pos)
    }
}

} // verus!
