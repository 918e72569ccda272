//! The data-literal decoder: a recursive-descent reader that turns text
//! into a single value — objects in braces, arrays in brackets, 4-vectors
//! in parentheses, colors after a hash, links after `link`, JSON-escaped
//! texts in double quotes, numbers with optional underscores, and the two
//! booleans.
//!
//! The grammar is fixed by the specification functions below, over the
//! character sequence and a position; each reader is proved to decide
//! exactly what its specification says. The numeric value of a number
//! token comes from the external token reader; the channels of a color
//! come from the external hex-color reader, normalized exactly.

use vstd::prelude::*;

verus! {

use crate::val::Variable;
use crate::val::Val;
use crate::val::Entry;
use crate::val::val_of;
use crate::val::vals_of;
use crate::val::entry_vals_of;
use crate::num::channel_norm_bits;
use crate::num::channel_to_bits;
use crate::link::Link;
use crate::link::link_view;
use crate::link::new_link;
use crate::link::link_push;
use vstd::string::StrSliceExecFns;

/// The characters of a text, in order.
pub fn str_to_chars(s: &str) -> (r: Vec<char>)
    ensures
        r@ == s@,
{
    let n = s.unicode_len();
    let mut out: Vec<char> = Vec::new();
    let mut i: usize = 0;
    while i < n
        invariant
            i <= n == s@.len(),
            out@ =~= s@.take(i as int),
        decreases n - i,
    {
        out.push(s.get_char(i));
        proof {
            assert(out@ =~= s@.take(i + 1));
        }
        i = i + 1;
    }
    proof {
        assert(out@ =~= s@);
    }
    out
}

/// Relies on std's `String` character collection: the text holding
/// exactly the given characters.
#[verifier::external_body]
pub fn chars_to_string(v: &Vec<char>) -> (r: String)
    ensures
        r@ == v@,
{
    v.iter().collect()
}

/// Relies on std's `char::from_u32`: a scalar value converts exactly when
/// it is not a surrogate and does not exceed the highest code point.
#[verifier::external_body]
pub fn char_from_u32(c: u32) -> (r: Option<char>)
    ensures
        (r is Some <==> (c < 0xD800 || (0xE000 <= c && c <= 0x10FFFF))),
        (r matches Option::Some(ch) ==> ch as u32 == c),
{
    char::from_u32(c)
}

/// What read_token's number parser yields for a token: the value's bit
/// pattern, or its report. The value depends on the token text alone.
pub uninterp spec fn number_parse_of(s: Seq<char>) -> Result<u64, Seq<char>>;

/// The characters other than underscores from a position on.
pub open spec fn exp_tail_count(s: Seq<char>, i: int) -> nat
    decreases s.len() - i,
{
    if i < 0 || i >= s.len() {
        0
    } else {
        (if s[i] == '_' {
            0nat
        } else {
            1nat
        }) + exp_tail_count(s, i + 1)
    }
}

/// The position of the first exponent marker at or after a position.
pub open spec fn marker_pos(s: Seq<char>, i: int) -> Option<int>
    decreases s.len() - i,
{
    if i < 0 || i >= s.len() {
        Option::None
    } else if s[i] == 'e' || s[i] == 'E' || s[i] == 'p' || s[i] == 'P' {
        Option::Some(i)
    } else {
        marker_pos(s, i + 1)
    }
}

/// Whether a text's exponent part is short enough for the token reader's
/// 64-bit exponent accumulator: after the first `e` or `E` marker and its
/// optional sign, at most nineteen characters other than underscores
/// follow. The reader multiplies the accumulator by ten for each such
/// character, so a twentieth could overrun the word. A leading minus sign
/// is outside the marker search, as the reader strips it first.
pub open spec fn exp_in_range(s: Seq<char>) -> bool {
    let body: int = if s.len() > 0 && s[0] == '-' {
        1
    } else {
        0
    };
    match marker_pos(s, body) {
        Option::None => true,
        Option::Some(mi) => if s[mi] == 'e' || s[mi] == 'E' {
            let after: int = if mi + 1 < s.len() && (s[mi + 1] == '+' || s[mi + 1] == '-') {
                mi + 2
            } else {
                mi + 1
            };
            exp_tail_count(s, after) <= 19
        } else {
            true
        },
    }
}

/// The report for a number token whose exponent part is too long to read.
pub open spec fn exp_too_long_msg() -> Seq<char> {
    "Number exponent too long"@
}

/// Relies on read_token's ReadToken::parse_number with underscores
/// allowed: parses a whole number token to its value. The exponent part
/// must be short enough for the reader's 64-bit exponent accumulator,
/// which has no overflow guard of its own.
#[verifier::external_body]
fn parse_number_bits(s: &str) -> (r: Result<u64, String>)
    requires
        exp_in_range(s@),
    ensures
        match r {
            Result::Ok(b) => number_parse_of(s@) == Result::<u64, Seq<char>>::Ok(b),
            Result::Err(m) => number_parse_of(s@) matches Result::Err(t) && m@ == t,
        },
{
    let settings = read_token::NumberSettings { allow_underscore: true };
    let rt = read_token::ReadToken::new(s, 0);
    rt.parse_number(&settings, s.len()).map(|v| v.to_bits()).map_err(|e| format!("{}", e))
}

/// The value of a hexadecimal digit.
pub open spec fn hex_val(c: char) -> Option<u8> {
    if c == '0' {
        Option::Some(0u8)
    } else if c == '1' {
        Option::Some(1u8)
    } else if c == '2' {
        Option::Some(2u8)
    } else if c == '3' {
        Option::Some(3u8)
    } else if c == '4' {
        Option::Some(4u8)
    } else if c == '5' {
        Option::Some(5u8)
    } else if c == '6' {
        Option::Some(6u8)
    } else if c == '7' {
        Option::Some(7u8)
    } else if c == '8' {
        Option::Some(8u8)
    } else if c == '9' {
        Option::Some(9u8)
    } else if c == 'A' || c == 'a' {
        Option::Some(10u8)
    } else if c == 'B' || c == 'b' {
        Option::Some(11u8)
    } else if c == 'C' || c == 'c' {
        Option::Some(12u8)
    } else if c == 'D' || c == 'd' {
        Option::Some(13u8)
    } else if c == 'E' || c == 'e' {
        Option::Some(14u8)
    } else if c == 'F' || c == 'f' {
        Option::Some(15u8)
    } else {
        Option::None
    }
}

/// A pair of hexadecimal digits at a position, joined as one byte;
/// nothing when a digit is missing or the text ends.
pub open spec fn hex_pair_at(s: Seq<char>, i: int) -> Option<u8> {
    if i >= s.len() {
        Option::None
    } else {
        match hex_val(s[i]) {
            Option::None => Option::None,
            Option::Some(h1) => if i + 1 >= s.len() {
                Option::None
            } else {
                match hex_val(s[i + 1]) {
                    Option::None => Option::None,
                    Option::Some(h2) => Option::Some(((h1 as int) * 16 + h2) as u8),
                }
            },
        }
    }
}

/// What the hex-color reader yields for a text: three channel bytes and
/// an optional alpha byte, read as consecutive hex pairs.
pub open spec fn spec_rgb_maybe_a(s: Seq<char>) -> Option<([u8; 3], Option<u8>)> {
    match (hex_pair_at(s, 0), hex_pair_at(s, 2), hex_pair_at(s, 4)) {
        (Option::Some(r), Option::Some(g), Option::Some(b)) => Option::Some(
            ([r, g, b], hex_pair_at(s, 6)),
        ),
        _ => Option::None,
    }
}

/// Relies on read_color's rgb_maybe_a: reads red, green and blue as hex
/// pairs, then an optional alpha pair.
#[verifier::external_body]
fn read_rgba(s: &str) -> (r: Option<([u8; 3], Option<u8>)>)
    ensures
        r == spec_rgb_maybe_a(s@),
{
    read_color::rgb_maybe_a(&mut s.chars())
}

/// The whitespace of the literal grammar.
pub open spec fn is_ws(c: char) -> bool {
    c == ' ' || c == '\t' || c == '\r' || c == '\n'
}

/// The separators that end a bare token.
pub open spec fn is_sep(c: char) -> bool {
    ||| c == '('
    ||| c == ')'
    ||| c == '{'
    ||| c == '}'
    ||| c == '['
    ||| c == ']'
    ||| c == ','
    ||| c == '.'
    ||| c == ':'
    ||| c == ';'
    ||| c == '\n'
    ||| c == '"'
    ||| c == '\\'
}

/// The first position at or after `i` that is not whitespace.
pub open spec fn ws_end(s: Seq<char>, i: int) -> int
    decreases s.len() - i,
{
    if i < 0 || i >= s.len() || !is_ws(s[i]) {
        i
    } else {
        ws_end(s, i + 1)
    }
}

/// The first position at or after `i` that ends a bare token.
pub open spec fn token_end(s: Seq<char>, i: int) -> int
    decreases s.len() - i,
{
    if i < 0 || i >= s.len() || is_ws(s[i]) || is_sep(s[i]) {
        i
    } else {
        token_end(s, i + 1)
    }
}

/// Whether the text at a position starts with a tag.
pub open spec fn tag_at(s: Seq<char>, i: int, t: Seq<char>) -> bool {
    0 <= i && i + t.len() <= s.len() && s.subrange(i, i + t.len()) == t
}

/// Whether one character stands at a position.
pub open spec fn at_char(s: Seq<char>, i: int, c: char) -> bool {
    0 <= i < s.len() && s[i] == c
}

/// Skips whitespace.
fn opt_w(s: &Vec<char>, i: usize) -> (r: usize)
    requires
        i <= s@.len(),
    ensures
        r == ws_end(s@, i as int),
        i <= r <= s@.len(),
    decreases s@.len() - i,
{
    if i < s.len() {
        let c = s[i];
        if c == ' ' || c == '\t' || c == '\r' || c == '\n' {
            return opt_w(s, i + 1);
        }
    }
    i
}

/// Scans a bare token.
fn scan_token(s: &Vec<char>, i: usize) -> (r: usize)
    requires
        i <= s@.len(),
    ensures
        r == token_end(s@, i as int),
        i <= r <= s@.len(),
    decreases s@.len() - i,
{
    if i < s.len() {
        let c = s[i];
        let stops = c == ' ' || c == '\t' || c == '\r' || c == '\n' || c == '(' || c == ')' || c
            == '{' || c == '}' || c == '[' || c == ']' || c == ',' || c == '.' || c == ':' || c
            == ';' || c == '"' || c == '\\';
        if !stops {
            return scan_token(s, i + 1);
        }
    }
    i
}

/// Tests a tag.
fn check_tag(s: &Vec<char>, i: usize, t: &str) -> (r: bool)
    requires
        i <= s@.len(),
    ensures
        r == tag_at(s@, i as int, t@),
{
    let n = t.unicode_len();
    proof {
        assert(s.len() == s@.len());
    }
    if n > s.len() - i {
        proof {
            assert(!tag_at(s@, i as int, t@));
        }
        return false;
    }
    let mut j: usize = 0;
    while j < n
        invariant
            j <= n == t@.len(),
            i + n <= s@.len(),
            s@.len() == s.len(),
            forall|k: int| 0 <= k < j ==> s@[i + k] == t@[k],
        decreases n - j,
    {
        if s[i + j] != t.get_char(j) {
            proof {
                assert(s@.subrange(i as int, i + t@.len())[j as int] != t@[j as int]);
            }
            return false;
        }
        j = j + 1;
    }
    proof {
        assert(s@.subrange(i as int, i + t@.len()) =~= t@);
    }
    true
}

/// Where a number token starting at `from` ends, following the token
/// reader's rules: an optional sign, digits with underscores, one decimal
/// point, one exponent marker not in first position with an optional
/// sign; nothing when no character is consumed or the first character
/// cannot begin a number.
pub open spec fn num_scan(
    s: Seq<char>,
    from: int,
    i: int,
    sign_seen: bool,
    digit_seen: bool,
    dot_seen: bool,
    sci_seen: bool,
    expsign_seen: bool,
) -> Option<int>
    decreases s.len() - i,
{
    if i < from || i >= s.len() {
        if i > from {
            Option::Some(i)
        } else {
            Option::None
        }
    } else {
        let c = s[i];
        if !sign_seen && (c == '+' || c == '-') {
            num_scan(s, from, i + 1, true, digit_seen, dot_seen, sci_seen, expsign_seen)
        } else {
            let sign_seen = true;
            if '0' <= c && c <= '9' {
                num_scan(s, from, i + 1, sign_seen, true, dot_seen, sci_seen, expsign_seen)
            } else if digit_seen && c == '_' {
                num_scan(s, from, i + 1, sign_seen, digit_seen, dot_seen, sci_seen, expsign_seen)
            } else if !dot_seen && c == '.' {
                num_scan(s, from, i + 1, sign_seen, digit_seen, true, sci_seen, expsign_seen)
            } else if !sci_seen && (c == 'e' || c == 'E') && i > from {
                num_scan(s, from, i + 1, sign_seen, digit_seen, dot_seen, true, expsign_seen)
            } else if sci_seen && !expsign_seen && (c == '+' || c == '-') {
                num_scan(s, from, i + 1, sign_seen, digit_seen, dot_seen, sci_seen, true)
            } else if i > from {
                Option::Some(i)
            } else {
                Option::None
            }
        }
    }
}

/// The end of the number token at a position, if one starts there.
pub open spec fn number_end(s: Seq<char>, i: int) -> Option<int> {
    num_scan(s, i, i, false, false, false, false, false)
}

/// Scans a number token.
fn scan_number_from(
    s: &Vec<char>,
    from: usize,
    i: usize,
    sign_seen: bool,
    digit_seen: bool,
    dot_seen: bool,
    sci_seen: bool,
    expsign_seen: bool,
) -> (r: Option<usize>)
    requires
        from <= i <= s@.len(),
    ensures
        ({
            let sr = num_scan(
                s@,
                from as int,
                i as int,
                sign_seen,
                digit_seen,
                dot_seen,
                sci_seen,
                expsign_seen,
            );
            match r {
                Option::Some(e) => sr == Option::Some(e as int) && from < e <= s@.len(),
                Option::None => sr is None,
            }
        }),
    decreases s@.len() - i,
{
    if i >= s.len() {
        if i > from {
            return Option::Some(i);
        }
        return Option::None;
    }
    let c = s[i];
    if !sign_seen && (c == '+' || c == '-') {
        scan_number_from(s, from, i + 1, true, digit_seen, dot_seen, sci_seen, expsign_seen)
    } else if '0' <= c && c <= '9' {
        scan_number_from(s, from, i + 1, true, true, dot_seen, sci_seen, expsign_seen)
    } else if digit_seen && c == '_' {
        scan_number_from(s, from, i + 1, true, digit_seen, dot_seen, sci_seen, expsign_seen)
    } else if !dot_seen && c == '.' {
        scan_number_from(s, from, i + 1, true, digit_seen, true, sci_seen, expsign_seen)
    } else if !sci_seen && (c == 'e' || c == 'E') && i > from {
        scan_number_from(s, from, i + 1, true, digit_seen, dot_seen, true, expsign_seen)
    } else if sci_seen && !expsign_seen && (c == '+' || c == '-') {
        scan_number_from(s, from, i + 1, true, digit_seen, dot_seen, sci_seen, true)
    } else if i > from {
        Option::Some(i)
    } else {
        Option::None
    }
}

/// The end of the text token starting at a position: an opening quote,
/// then characters with backslash escapes, up to and including the
/// closing quote; nothing when the quote never closes.
pub open spec fn str_scan(s: Seq<char>, i: int, escape: bool) -> Option<int>
    decreases s.len() - i,
{
    if i < 0 || i >= s.len() {
        Option::None
    } else if !escape && s[i] == '\\' {
        str_scan(s, i + 1, true)
    } else if !escape && s[i] == '"' {
        Option::Some(i + 1)
    } else {
        str_scan(s, i + 1, false)
    }
}

/// The end of the text token at a position, if one starts there.
pub open spec fn string_end(s: Seq<char>, i: int) -> Option<int> {
    if 0 <= i < s.len() && s[i] == '"' {
        str_scan(s, i + 1, false)
    } else {
        Option::None
    }
}

/// Scans a text token body.
fn scan_str(s: &Vec<char>, i: usize, escape: bool) -> (r: Option<usize>)
    requires
        i <= s@.len(),
    ensures
        ({
            let sr = str_scan(s@, i as int, escape);
            match r {
                Option::Some(e) => sr == Option::Some(e as int) && i < e <= s@.len(),
                Option::None => sr is None,
            }
        }),
    decreases s@.len() - i,
{
    if i >= s.len() {
        return Option::None;
    }
    let c = s[i];
    if !escape && c == '\\' {
        scan_str(s, i + 1, true)
    } else if !escape && c == '"' {
        Option::Some(i + 1)
    } else {
        scan_str(s, i + 1, false)
    }
}

/// The reports of the escape decoder.
pub open spec fn bad_escape_msg() -> Seq<char> {
    "Expected valid escape character '\"\\/bfnrtu'"@
}

pub open spec fn four_hex_msg() -> Seq<char> {
    "Expected four hexadecimals xxxx 0-9A-F"@
}

pub open spec fn hex_msg() -> Seq<char> {
    "Expected hexadecimal 0-9A-F"@
}

pub open spec fn bad_unicode_msg() -> Seq<char> {
    "Expected valid unicode"@
}

/// The scalar value of the four hexadecimal digits at a position, or the
/// report when a digit is missing or the text ends first.
pub open spec fn four_hex_at(s: Seq<char>, i: int) -> Result<u32, Seq<char>> {
    if i + 4 > s.len() {
        Result::Err(four_hex_msg())
    } else {
        match (hex_val(s[i]), hex_val(s[i + 1]), hex_val(s[i + 2]), hex_val(s[i + 3])) {
            (
                Option::Some(a),
                Option::Some(b),
                Option::Some(c),
                Option::Some(d),
            ) => Result::Ok(
                ((a as u32) * 0x1000 + (b as u32) * 0x100 + (c as u32) * 0x10 + (d as u32)) as u32,
            ),
            _ => Result::Err(hex_msg()),
        }
    }
}

/// The decoded characters between positions `i` and `end` of a text
/// token's inside, following the JSON escapes; a backslash that ends the
/// inside is dropped.
pub open spec fn unesc(s: Seq<char>, i: int, end: int) -> Result<Seq<char>, Seq<char>>
    decreases end - i,
{
    if i < 0 || i >= end || end > s.len() {
        Result::Ok(Seq::empty())
    } else if s[i] != '\\' {
        match unesc(s, i + 1, end) {
            Result::Ok(rest) => Result::Ok(seq![s[i]] + rest),
            Result::Err(m) => Result::Err(m),
        }
    } else if i + 1 >= end {
        Result::Ok(Seq::empty())
    } else {
        let c = s[i + 1];
        if c == 'u' {
            match four_hex_at(s, i + 2) {
                Result::Err(m) => Result::Err(m),
                Result::Ok(code) => if code < 0xD800 || (0xE000 <= code && code <= 0x10FFFF) {
                    match unesc(
                        s,
                        if i + 6 <= end {
                            i + 6
                        } else {
                            end
                        },
                        end,
                    ) {
                        Result::Ok(rest) => Result::Ok(seq![(code as char)] + rest),
                        Result::Err(m) => Result::Err(m),
                    }
                } else {
                    Result::Err(bad_unicode_msg())
                },
            }
        } else {
            let out = if c == '"' {
                Option::Some('"')
            } else if c == '\\' {
                Option::Some('\\')
            } else if c == '/' {
                Option::Some('/')
            } else if c == 'b' {
                Option::Some('\u{0008}')
            } else if c == 'f' {
                Option::Some('\u{000c}')
            } else if c == 'n' {
                Option::Some('\n')
            } else if c == 'r' {
                Option::Some('\r')
            } else if c == 't' {
                Option::Some('\t')
            } else {
                Option::None
            };
            match out {
                Option::None => Result::Err(bad_escape_msg()),
                Option::Some(ch) => match unesc(s, i + 2, end) {
                    Result::Ok(rest) => Result::Ok(seq![ch] + rest),
                    Result::Err(m) => Result::Err(m),
                },
            }
        }
    }
}

/// Reads four hexadecimal digits.
fn read_four_hex(s: &Vec<char>, i: usize) -> (r: Result<u32, String>)
    requires
        i <= s@.len(),
    ensures
        match r {
            Result::Ok(c) => four_hex_at(s@, i as int) == Result::<u32, Seq<char>>::Ok(c) && c
                <= 0xFFFF,
            Result::Err(m) => four_hex_at(s@, i as int) matches Result::Err(t) && m@ == t,
        },
{
    proof {
        assert(s.len() == s@.len());
    }
    if 4 > s.len() - i {
        return Result::Err("Expected four hexadecimals xxxx 0-9A-F".to_owned());
    }
    let a = hex_digit(s[i]);
    let b = hex_digit(s[i + 1]);
    let c = hex_digit(s[i + 2]);
    let d = hex_digit(s[i + 3]);
    match (a, b, c, d) {
        (Option::Some(a), Option::Some(b), Option::Some(c), Option::Some(d)) => Result::Ok(
            (a as u32) * 0x1000 + (b as u32) * 0x100 + (c as u32) * 0x10 + (d as u32),
        ),
        _ => Result::Err("Expected hexadecimal 0-9A-F".to_owned()),
    }
}

/// Reads one hexadecimal digit.
fn hex_digit(c: char) -> (r: Option<u8>)
    ensures
        r == hex_val(c),
{
    if c >= '0' && c <= '9' {
        Option::Some(((c as u32) - 48) as u8)
    } else if c >= 'a' && c <= 'f' {
        Option::Some(((c as u32) - 97 + 10) as u8)
    } else if c >= 'A' && c <= 'F' {
        Option::Some(((c as u32) - 65 + 10) as u8)
    } else {
        Option::None
    }
}

/// Decodes the inside of a text token.
fn unescape(s: &Vec<char>, i: usize, end: usize) -> (r: Result<Vec<char>, String>)
    requires
        i <= s@.len(),
        end <= s@.len(),
    ensures
        match r {
            Result::Ok(out) => unesc(s@, i as int, end as int) == Result::<Seq<char>, Seq<char>>::Ok(
                out@,
            ),
            Result::Err(m) => unesc(s@, i as int, end as int) matches Result::Err(t) && m@ == t,
        },
    decreases end - i,
{
    proof {
        assert(s.len() == s@.len());
    }
    if i >= end {
        let out: Vec<char> = Vec::new();
        proof {
            assert(out@ =~= Seq::<char>::empty());
        }
        return Result::Ok(out);
    }
    let c = s[i];
    if c != '\\' {
        match unescape(s, i + 1, end) {
            Result::Ok(rest) => {
                let mut out: Vec<char> = Vec::new();
                out.push(c);
                let mut rest = rest;
                let ghost grest = rest@;
                out.append(&mut rest);
                proof {
                    assert(out@ =~= seq![s@[i as int]] + grest);
                }
                Result::Ok(out)
            },
            Result::Err(m) => Result::Err(m),
        }
    } else if i + 1 >= end {
        let out: Vec<char> = Vec::new();
        proof {
            assert(out@ =~= Seq::<char>::empty());
        }
        Result::Ok(out)
    } else {
        let e = s[i + 1];
        if e == 'u' {
            match read_four_hex(s, i + 2) {
                Result::Err(m) => Result::Err(m),
                Result::Ok(code) => {
                    match char_from_u32(code) {
                        Option::None => Result::Err("Expected valid unicode".to_owned()),
                        Option::Some(ch) => {
                            let next = if i + 6 <= end {
                                i + 6
                            } else {
                                end
                            };
                            match unescape(s, next, end) {
                                Result::Ok(rest) => {
                                    let mut out: Vec<char> = Vec::new();
                                    out.push(ch);
                                    let mut rest = rest;
                                    let ghost grest = rest@;
                                    out.append(&mut rest);
                                    proof {
                                        vstd::utf8::char_u32_cast(ch, code);
                                        assert(out@ =~= seq![(code as char)] + grest);
                                    }
                                    Result::Ok(out)
                                },
                                Result::Err(m) => Result::Err(m),
                            }
                        },
                    }
                },
            }
        } else {
            let out_c: Option<char> = if e == '"' {
                Option::Some('"')
            } else if e == '\\' {
                Option::Some('\\')
            } else if e == '/' {
                Option::Some('/')
            } else if e == 'b' {
                Option::Some('\u{0008}')
            } else if e == 'f' {
                Option::Some('\u{000c}')
            } else if e == 'n' {
                Option::Some('\n')
            } else if e == 'r' {
                Option::Some('\r')
            } else if e == 't' {
                Option::Some('\t')
            } else {
                Option::None
            };
            match out_c {
                Option::None => Result::Err(
                    "Expected valid escape character '\"\\/bfnrtu'".to_owned(),
                ),
                Option::Some(ch) => {
                    match unescape(s, i + 2, end) {
                        Result::Ok(rest) => {
                            let mut out: Vec<char> = Vec::new();
                            out.push(ch);
                            let mut rest = rest;
                            let ghost grest = rest@;
                            out.append(&mut rest);
                            proof {
                                assert(out@ =~= seq![ch] + grest);
                            }
                            Result::Ok(out)
                        },
                        Result::Err(m) => Result::Err(m),
                    }
                },
            }
        }
    }
}


/// The reports of the value readers.
pub open spec fn not_impl_msg() -> Seq<char> {
    "Not implemented"@
}

pub open spec fn expected_comma_msg() -> Seq<char> {
    "Expected `,`"@
}

pub open spec fn expected_key_msg() -> Seq<char> {
    "Expected key"@
}

pub open spec fn expected_colon_msg() -> Seq<char> {
    "Expected `:`"@
}

pub open spec fn expected_brace_msg() -> Seq<char> {
    "Expected `{`"@
}

pub open spec fn expected_color_msg() -> Seq<char> {
    "Expected hex color"@
}

pub open spec fn expected_x_msg() -> Seq<char> {
    "Expected x component"@
}

pub open spec fn expected_y_msg() -> Seq<char> {
    "Expected y component"@
}

/// The report of a reader that would stand still, which no input reaches.
pub open spec fn no_progress_msg() -> Seq<char> {
    "Malformed literal"@
}

/// An optional comma between items: whitespace, the comma if it is there,
/// then whitespace; whether it was there, and the position after.
pub open spec fn p_comma(s: Seq<char>, i: int) -> (bool, int) {
    let j = ws_end(s, i);
    if at_char(s, j, ',') {
        (true, ws_end(s, j + 1))
    } else {
        (false, ws_end(s, j))
    }
}

/// The object entries with one binding added: a later binding of the same
/// key replaces the earlier one in place.
pub open spec fn obj_insert(es: Seq<(Seq<char>, Val)>, key: Seq<char>, v: Val) -> Seq<
    (Seq<char>, Val),
>
    decreases es.len(),
{
    if es.len() == 0 {
        seq![(key, v)]
    } else if es.first().0 == key {
        seq![(key, v)] + es.drop_first()
    } else {
        seq![es.first()] + obj_insert(es.drop_first(), key, v)
    }
}

/// The color value of a channel quadruple, each channel normalized.
pub open spec fn color_val(rgb: [u8; 3], a: Option<u8>) -> Val {
    Val::Vec4(
        seq![
            channel_norm_bits(rgb[0]),
            channel_norm_bits(rgb[1]),
            channel_norm_bits(rgb[2]),
            channel_norm_bits(
                match a {
                    Option::Some(x) => x,
                    Option::None => 255u8,
                },
            ),
        ],
    )
}

/// Reads one value at a position: an object, an array, a 4-vector, a
/// color, a link, a text, a number, or a boolean — in that order of
/// trials. Yields the value and the position after it, or the report of
/// the first fault.
pub open spec fn p_expr(s: Seq<char>, i: int) -> Result<(Val, int), Seq<char>>
    decreases s.len() - i, 1int,
{
    if i < 0 || i > s.len() {
        Result::Err(not_impl_msg())
    } else if at_char(s, i, '{') {
        p_object(s, i + 1, Seq::empty(), false)
    } else if at_char(s, i, '[') {
        p_array(s, i + 1, Seq::empty(), false)
    } else if at_char(s, i, '(') {
        p_vec4(s, i + 1)
    } else if at_char(s, i, '#') {
        let te = token_end(s, i + 1);
        match spec_rgb_maybe_a(s.subrange(i + 1, te)) {
            Option::Some((rgb, a)) => Result::Ok((color_val(rgb, a), i + 1)),
            Option::None => Result::Err(expected_color_msg()),
        }
    } else if tag_at(s, i, seq!['l', 'i', 'n', 'k']) {
        p_link(s, i + 4, Seq::empty())
    } else {
        match string_end(s, i) {
            Option::Some(e) => match unesc(s, i + 1, e - 1) {
                Result::Ok(txt) => Result::Ok((Val::Text(txt), e)),
                Result::Err(m) => Result::Err(m),
            },
            Option::None => match number_end(s, i) {
                Option::Some(e) => if !exp_in_range(s.subrange(i, e)) {
                    Result::Err(exp_too_long_msg())
                } else {
                    match number_parse_of(s.subrange(i, e)) {
                        Result::Ok(bits) => Result::Ok(
                            (Val::Num { bits, why: Option::None }, e),
                        ),
                        Result::Err(m) => Result::Err(m),
                    }
                },
                Option::None => if tag_at(s, i, seq!['f', 'a', 'l', 's', 'e']) {
                    Result::Ok((Val::Bool { b: false, why: Option::None }, i + 5))
                } else if tag_at(s, i, seq!['t', 'r', 'u', 'e']) {
                    Result::Ok((Val::Bool { b: true, why: Option::None }, i + 4))
                } else {
                    Result::Err(not_impl_msg())
                },
            },
        }
    }
}

/// Reads the remaining bindings of an object whose brace was consumed.
pub open spec fn p_object(
    s: Seq<char>,
    i: int,
    es: Seq<(Seq<char>, Val)>,
    was_comma: bool,
) -> Result<(Val, int), Seq<char>>
    decreases s.len() - i, 2int,
{
    if i < 0 || i > s.len() {
        Result::Err(no_progress_msg())
    } else {
        let k = ws_end(s, i);
        if at_char(s, k, '}') {
            Result::Ok((Val::Object(es), k + 1))
        } else if es.len() > 0 && !was_comma {
            Result::Err(expected_comma_msg())
        } else {
            let te = token_end(s, k);
            if te <= k {
                Result::Err(expected_key_msg())
            } else {
                let key = s.subrange(k, te);
                let k2 = ws_end(s, te);
                if !at_char(s, k2, ':') {
                    Result::Err(expected_colon_msg())
                } else {
                    let k3 = ws_end(s, k2 + 1);
                    if !(i < k3 <= s.len()) {
                        Result::Err(no_progress_msg())
                    } else {
                        match p_expr(s, k3) {
                            Result::Err(m) => Result::Err(m),
                            Result::Ok((v, k4)) => {
                                let (wc, k5) = p_comma(s, k4);
                                if i < k5 <= s.len() {
                                    p_object(s, k5, obj_insert(es, key, v), wc)
                                } else {
                                    Result::Err(no_progress_msg())
                                }
                            },
                        }
                    }
                }
            }
        }
    }
}

/// Reads the remaining items of an array whose bracket was consumed.
pub open spec fn p_array(s: Seq<char>, i: int, items: Seq<Val>, was_comma: bool) -> Result<
    (Val, int),
    Seq<char>,
>
    decreases s.len() - i, 2int,
{
    if i < 0 || i > s.len() {
        Result::Err(no_progress_msg())
    } else {
        let k = ws_end(s, i);
        if at_char(s, k, ']') {
            Result::Ok((Val::Array(items), k + 1))
        } else if items.len() > 0 && !was_comma {
            Result::Err(expected_comma_msg())
        } else if !(i <= k <= s.len()) {
            Result::Err(no_progress_msg())
        } else {
            match p_expr(s, k) {
                Result::Err(m) => Result::Err(m),
                Result::Ok((v, k2)) => {
                    let (wc, k3) = p_comma(s, k2);
                    if i < k3 <= s.len() {
                        p_array(s, k3, items.push(v), wc)
                    } else {
                        Result::Err(no_progress_msg())
                    }
                },
            }
        }
    }
}

/// Reads a link literal after its `link` tag: whitespace, a brace, then
/// items, each pushed to the conceptual front.
pub open spec fn p_link(s: Seq<char>, i: int, items: Seq<Val>) -> Result<(Val, int), Seq<char>>
    decreases s.len() - i, 2int,
{
    if i < 0 || i > s.len() {
        Result::Err(no_progress_msg())
    } else {
        let j = ws_end(s, i);
        if !at_char(s, j, '{') {
            Result::Err(expected_brace_msg())
        } else if j + 1 <= s.len() && i < j + 1 {
            p_link_items(s, j + 1, items)
        } else {
            Result::Err(no_progress_msg())
        }
    }
}

/// Reads the remaining items of a link whose brace was consumed.
pub open spec fn p_link_items(s: Seq<char>, i: int, items: Seq<Val>) -> Result<
    (Val, int),
    Seq<char>,
>
    decreases s.len() - i, 2int,
{
    if i < 0 || i > s.len() {
        Result::Err(no_progress_msg())
    } else {
        let k = ws_end(s, i);
        if at_char(s, k, '}') {
            Result::Ok((Val::Link(items), k + 1))
        } else if !(i <= k <= s.len()) {
            Result::Err(no_progress_msg())
        } else {
            match p_expr(s, k) {
                Result::Err(m) => Result::Err(m),
                Result::Ok((v, k2)) => if i < k2 <= s.len() {
                    p_link_items(s, k2, seq![v] + items)
                } else {
                    Result::Err(no_progress_msg())
                },
            }
        }
    }
}

/// Reads a number token at a position and parses its value; a token whose
/// exponent part is too long for the token reader is reported unread.
pub open spec fn p_number(s: Seq<char>, i: int) -> Option<Result<(u64, int), Seq<char>>> {
    match number_end(s, i) {
        Option::None => Option::None,
        Option::Some(e) => Option::Some(
            if !exp_in_range(s.subrange(i, e)) {
                Result::Err(exp_too_long_msg())
            } else {
                match number_parse_of(s.subrange(i, e)) {
                    Result::Ok(bits) => Result::Ok((bits, e)),
                    Result::Err(m) => Result::Err(m),
                }
            },
        ),
    }
}

/// Reads a 4-vector literal after its parenthesis: two mandatory number
/// components, then up to two more after commas, missing components zero;
/// a closing parenthesis is consumed when it is there.
pub open spec fn p_vec4(s: Seq<char>, i: int) -> Result<(Val, int), Seq<char>>
    decreases s.len() - i, 2int,
{
    if i < 0 || i > s.len() {
        Result::Err(expected_x_msg())
    } else {
        match p_number(s, i) {
            Option::None => Result::Err(expected_x_msg()),
            Option::Some(Result::Err(m)) => Result::Err(m),
            Option::Some(Result::Ok((x, ex))) => {
                let j = p_comma(s, ex).1;
                match p_number(s, j) {
                    Option::None => Result::Err(expected_y_msg()),
                    Option::Some(Result::Err(m)) => Result::Err(m),
                    Option::Some(Result::Ok((y, ey))) => {
                        let (has_z, j2) = p_comma(s, ey);
                        match (if has_z {
                            p_number(s, j2)
                        } else {
                            Option::None
                        }) {
                            Option::Some(Result::Err(m)) => Result::Err(m),
                            Option::Some(Result::Ok((z, ez))) => {
                                let j3 = p_comma(s, ez).1;
                                match p_number(s, j3) {
                                    Option::Some(Result::Err(m)) => Result::Err(m),
                                    Option::Some(Result::Ok((w, _))) => {
                                        let q = ws_end(s, j3);
                                        let end = if at_char(s, q, ')') {
                                            q + 1
                                        } else {
                                            q
                                        };
                                        Result::Ok((Val::Vec4(seq![x, y, z, w]), end))
                                    },
                                    Option::None => {
                                        let q = ws_end(s, j3);
                                        let end = if at_char(s, q, ')') {
                                            q + 1
                                        } else {
                                            q
                                        };
                                        Result::Ok((Val::Vec4(seq![x, y, z, 0]), end))
                                    },
                                }
                            },
                            Option::None => {
                                let q = ws_end(s, j2);
                                let end = if at_char(s, q, ')') {
                                    q + 1
                                } else {
                                    q
                                };
                                Result::Ok((Val::Vec4(seq![x, y, 0, 0]), end))
                            },
                        }
                    },
                }
            },
        }
    }
}


/// Every key of the entries after an insert is the inserted key or one of
/// the keys already there.
pub proof fn lemma_obj_insert_key_set(es: Seq<(Seq<char>, Val)>, key: Seq<char>, v: Val, x: int)
    requires
        0 <= x < obj_insert(es, key, v).len(),
    ensures
        obj_insert(es, key, v)[x].0 == key || exists|j: int|
            0 <= j < es.len() && (#[trigger] es[j]).0 == obj_insert(es, key, v)[x].0,
    decreases es.len(),
{
    if es.len() == 0 {
    } else if es.first().0 == key {
        if x > 0 {
            assert(obj_insert(es, key, v)[x] == es.drop_first()[x - 1]);
            assert(es[x] == es.drop_first()[x - 1]);
        }
    } else {
        if x == 0 {
            assert(es[0].0 == obj_insert(es, key, v)[0].0);
        } else {
            assert(obj_insert(es, key, v)[x] == obj_insert(es.drop_first(), key, v)[x - 1]);
            lemma_obj_insert_key_set(es.drop_first(), key, v, x - 1);
            if obj_insert(es.drop_first(), key, v)[x - 1].0 != key {
                let j = choose|j: int|
                    0 <= j < es.drop_first().len() && (#[trigger] es.drop_first()[j]).0
                        == obj_insert(es.drop_first(), key, v)[x - 1].0;
                assert(es[j + 1] == es.drop_first()[j]);
            }
        }
    }
}

/// Adding a binding keeps an object's keys unique: the first binding of
/// the key is replaced in place, or a fresh key joins at the end.
pub proof fn lemma_obj_insert_keeps_unique(es: Seq<(Seq<char>, Val)>, key: Seq<char>, v: Val)
    requires
        crate::val::keys_unique(es),
    ensures
        crate::val::keys_unique(obj_insert(es, key, v)),
    decreases es.len(),
{
    let out = obj_insert(es, key, v);
    if es.len() == 0 {
        assert(out.len() == 1);
    } else if es.first().0 == key {
        assert forall|i: int, j: int| 0 <= i < j < out.len() implies (#[trigger] out[i]).0 != (
        #[trigger] out[j]).0 by {
            if i > 0 {
                assert(out[i] == es.drop_first()[i - 1] && es[i] == es.drop_first()[i - 1]);
            }
            assert(out[j] == es.drop_first()[j - 1] && es[j] == es.drop_first()[j - 1]);
            if i == 0 {
                assert(es[0].0 == key);
                assert(es[0].0 != es[j].0);
            } else {
                assert(es[i].0 != es[j].0);
            }
        }
    } else {
        assert forall|i: int, j: int|
            0 <= i < j < es.drop_first().len() implies (#[trigger] es.drop_first()[i]).0 != (
        #[trigger] es.drop_first()[j]).0 by {
            assert(es[i + 1] == es.drop_first()[i]);
            assert(es[j + 1] == es.drop_first()[j]);
        }
        lemma_obj_insert_keeps_unique(es.drop_first(), key, v);
        let rest = obj_insert(es.drop_first(), key, v);
        assert forall|i: int, j: int| 0 <= i < j < out.len() implies (#[trigger] out[i]).0 != (
        #[trigger] out[j]).0 by {
            if i == 0 {
                assert(out[0] == es.first());
                assert(out[j] == rest[j - 1]);
                lemma_obj_insert_key_set(es.drop_first(), key, v, j - 1);
                if rest[j - 1].0 == key {
                    assert(es.first().0 != key);
                } else {
                    let x = choose|x: int|
                        0 <= x < es.drop_first().len() && (#[trigger] es.drop_first()[x]).0
                            == rest[j - 1].0;
                    assert(es[x + 1] == es.drop_first()[x]);
                    assert(es[0].0 != es[x + 1].0);
                }
            } else {
                assert(out[i] == rest[i - 1]);
                assert(out[j] == rest[j - 1]);
            }
        }
    }
}

/// A later binding replaces the first earlier binding of the key.
proof fn lemma_obj_insert_found(es: Seq<(Seq<char>, Val)>, key: Seq<char>, v: Val, j: int)
    requires
        0 <= j < es.len(),
        es[j].0 == key,
        forall|x: int| 0 <= x < j ==> (#[trigger] es[x]).0 != key,
    ensures
        obj_insert(es, key, v) == es.update(j, (key, v)),
    decreases es.len(),
{
    if j == 0 {
        assert(obj_insert(es, key, v) =~= es.update(0, (key, v)));
    } else {
        assert(es.drop_first()[j - 1].0 == key);
        assert forall|x: int| 0 <= x < j - 1 implies (#[trigger] es.drop_first()[x]).0 != key by {
            assert(es[x + 1] == es.drop_first()[x]);
        }
        lemma_obj_insert_found(es.drop_first(), key, v, j - 1);
        assert(obj_insert(es, key, v) =~= es.update(j, (key, v)));
    }
}

/// A binding of a fresh key joins at the end.
proof fn lemma_obj_insert_missing(es: Seq<(Seq<char>, Val)>, key: Seq<char>, v: Val)
    requires
        forall|x: int| 0 <= x < es.len() ==> (#[trigger] es[x]).0 != key,
    ensures
        obj_insert(es, key, v) == es.push((key, v)),
    decreases es.len(),
{
    if es.len() == 0 {
        assert(obj_insert(es, key, v) =~= es.push((key, v)));
    } else {
        assert forall|x: int| 0 <= x < es.drop_first().len() implies (#[trigger] es.drop_first()[x]).0
            != key by {
            assert(es[x + 1] == es.drop_first()[x]);
        }
        lemma_obj_insert_missing(es.drop_first(), key, v);
        assert(obj_insert(es, key, v) =~= es.push((key, v)));
    }
}

/// The position of the first binding of a key, if any.
fn find_key(es: &Vec<Entry>, key: &str) -> (r: Option<usize>)
    ensures
        match r {
            Option::Some(j) => j < es@.len() && es@[j as int].key@ == key@ && (forall|x: int|
                0 <= x < j ==> (#[trigger] es@[x]).key@ != key@),
            Option::None => forall|x: int| 0 <= x < es@.len() ==> (#[trigger] es@[x]).key@ != key@,
        },
{
    let n = es.len();
    let mut j: usize = 0;
    while j < n
        invariant
            j <= n == es@.len(),
            forall|x: int| 0 <= x < j ==> (#[trigger] es@[x]).key@ != key@,
        decreases n - j,
    {
        if crate::strutil::str_eq(es[j].key.as_str(), key) {
            return Option::Some(j);
        }
        j = j + 1;
    }
    Option::None
}

/// Adds a binding to an object under construction, replacing the first
/// binding of the same key in place.
fn insert_entry(base: Vec<Entry>, key: String, v: Variable) -> (out: Vec<Entry>)
    ensures
        entry_vals_of(out@) == obj_insert(entry_vals_of(base@), key@, val_of(v)),
{
    let ghost ges = entry_vals_of(base@);
    proof {
        crate::val::lemma_entry_vals_of_len(base@);
    }
    let mut es = base;
    let found = find_key(&es, key.as_str());
    let ghost gkey = key@;
    let ghost gv = val_of(v);
    match found {
        Option::Some(j) => {
            proof {
                crate::val::lemma_entry_vals_of_index(es@, j as int);
                assert forall|x: int| 0 <= x < j implies (#[trigger] ges[x]).0 != gkey by {
                    crate::val::lemma_entry_vals_of_index(es@, x);
                }
                lemma_obj_insert_found(ges, gkey, gv, j as int);
            }
            let ghost before = es@;
            let slot = es.remove(j);
            es.insert(j, Entry { key, val: v });
            proof {
                crate::val::lemma_entry_vals_of_len(es@);
                crate::val::lemma_entry_vals_of_len(before);
                assert(es@ =~= before.update(j as int, es@[j as int]));
                assert(es@[j as int].key@ == gkey && val_of(es@[j as int].val) == gv);
                assert forall|x: int| 0 <= x < es@.len() implies entry_vals_of(es@)[x] == ges.update(
                    j as int,
                    (gkey, gv),
                )[x] by {
                    crate::val::lemma_entry_vals_of_index(es@, x);
                    crate::val::lemma_entry_vals_of_index(before, x);
                }
                assert(entry_vals_of(es@) =~= ges.update(j as int, (gkey, gv)));
            }
            es
        },
        Option::None => {
            proof {
                assert forall|x: int| 0 <= x < ges.len() implies (#[trigger] ges[x]).0 != gkey by {
                    crate::val::lemma_entry_vals_of_index(es@, x);
                }
                lemma_obj_insert_missing(ges, gkey, gv);
            }
            let ghost before = es@;
            es.push(Entry { key, val: v });
            proof {
                crate::val::lemma_entry_vals_of_len(es@);
                crate::val::lemma_entry_vals_of_len(before);
                assert forall|x: int| 0 <= x < es@.len() implies entry_vals_of(es@)[x] == ges.push(
                    (gkey, gv),
                )[x] by {
                    crate::val::lemma_entry_vals_of_index(es@, x);
                    if x < before.len() {
                        crate::val::lemma_entry_vals_of_index(before, x);
                    }
                }
                assert(entry_vals_of(es@) =~= ges.push((gkey, gv)));
            }
            es
        },
    }
}


/// The characters of a range.
fn sub_chars(s: &Vec<char>, i: usize, e: usize) -> (t: Vec<char>)
    requires
        i <= e <= s@.len(),
    ensures
        t@ == s@.subrange(i as int, e as int),
{
    let mut out: Vec<char> = Vec::new();
    let mut k: usize = i;
    while k < e
        invariant
            i <= k <= e <= s@.len(),
            out@ =~= s@.subrange(i as int, k as int),
        decreases e - k,
    {
        out.push(s[k]);
        proof {
            assert(out@ =~= s@.subrange(i as int, k + 1));
        }
        k = k + 1;
    }
    out
}

/// The text of a character range.
fn sub_string(s: &Vec<char>, i: usize, e: usize) -> (t: String)
    requires
        i <= e <= s@.len(),
    ensures
        t@ == s@.subrange(i as int, e as int),
{
    let out = sub_chars(s, i, e);
    chars_to_string(&out)
}

/// Counts the characters other than underscores from a position on,
/// saturating at twenty: enough to decide the exponent bound.
fn count_exp_tail(t: &Vec<char>, i: usize) -> (r: usize)
    requires
        i <= t@.len(),
    ensures
        r == exp_tail_count(t@, i as int) || (r == 20 && exp_tail_count(t@, i as int) >= 20),
    decreases t@.len() - i,
{
    if i >= t.len() {
        return 0;
    }
    let rest = count_exp_tail(t, i + 1);
    if t[i] == '_' {
        rest
    } else if rest >= 20 {
        20
    } else {
        rest + 1
    }
}

/// Finds the first exponent marker at or after a position.
fn find_marker(t: &Vec<char>, i: usize) -> (r: Option<usize>)
    requires
        i <= t@.len(),
    ensures
        match r {
            Option::Some(mi) => marker_pos(t@, i as int) == Option::Some(mi as int) && mi
                < t@.len(),
            Option::None => marker_pos(t@, i as int) is None,
        },
    decreases t@.len() - i,
{
    if i >= t.len() {
        return Option::None;
    }
    let c = t[i];
    if c == 'e' || c == 'E' || c == 'p' || c == 'P' {
        Option::Some(i)
    } else {
        find_marker(t, i + 1)
    }
}

/// Whether a token's exponent part fits the token reader's accumulator.
fn exp_within_range(t: &Vec<char>) -> (r: bool)
    ensures
        r == exp_in_range(t@),
{
    let body: usize = if t.len() > 0 && t[0] == '-' {
        1
    } else {
        0
    };
    match find_marker(t, body) {
        Option::None => true,
        Option::Some(mi) => {
            let c = t[mi];
            if c == 'e' || c == 'E' {
                let after = if mi + 1 < t.len() && (t[mi + 1] == '+' || t[mi + 1] == '-') {
                    mi + 2
                } else {
                    mi + 1
                };
                count_exp_tail(t, after) <= 19
            } else {
                true
            }
        },
    }
}

/// An optional comma between items.
fn comma(s: &Vec<char>, i: usize) -> (r: (bool, usize))
    requires
        i <= s@.len(),
    ensures
        r.0 == p_comma(s@, i as int).0,
        r.1 as int == p_comma(s@, i as int).1,
        i <= r.1 <= s@.len(),
{
    let j = opt_w(s, i);
    if j < s.len() && s[j] == ',' {
        (true, opt_w(s, j + 1))
    } else {
        (false, opt_w(s, j))
    }
}

/// Reads a number token and its value at a position.
fn number_at(s: &Vec<char>, i: usize) -> (r: Option<Result<(u64, usize), String>>)
    requires
        i <= s@.len(),
    ensures
        ({
            let sr = p_number(s@, i as int);
            match r {
                Option::None => sr is None,
                Option::Some(Result::Ok((b, e))) => sr == Option::Some(
                    Result::<(u64, int), Seq<char>>::Ok((b, e as int)),
                ) && i < e <= s@.len(),
                Option::Some(Result::Err(m)) => (sr matches Option::Some(Result::Err(t)) && m@
                    == t),
            }
        }),
{
    match scan_number_from(s, i, i, false, false, false, false, false) {
        Option::None => Option::None,
        Option::Some(e) => {
            let tok_chars = sub_chars(s, i, e);
            if !exp_within_range(&tok_chars) {
                return Option::Some(Result::Err("Number exponent too long".to_owned()));
            }
            let tok = chars_to_string(&tok_chars);
            match parse_number_bits(tok.as_str()) {
                Result::Ok(b) => Option::Some(Result::Ok((b, e))),
                Result::Err(m) => Option::Some(Result::Err(m)),
            }
        },
    }
}

/// Reads one value at a position.
fn expr(s: &Vec<char>, i: usize) -> (r: Result<(Variable, usize), String>)
    requires
        i <= s@.len(),
    ensures
        ({
            let sr = p_expr(s@, i as int);
            match r {
                Result::Ok((v, e)) => (sr matches Result::Ok(p) && val_of(v) == p.0 && e as int
                    == p.1 && e <= s@.len()),
                Result::Err(m) => (sr matches Result::Err(t) && m@ == t),
            }
        }),
    decreases s@.len() - i, 1int,
{
    proof {
        reveal_strlit("link");
        reveal_strlit("false");
        reveal_strlit("true");
        assert("link"@ =~= seq!['l', 'i', 'n', 'k']);
        assert("false"@ =~= seq!['f', 'a', 'l', 's', 'e']);
        assert("true"@ =~= seq!['t', 'r', 'u', 'e']);
    }
    if i < s.len() && s[i] == '{' {
        let es: Vec<Entry> = Vec::new();
        proof {
            assert(entry_vals_of(es@) =~= Seq::<(Seq<char>, Val)>::empty());
        }
        return object(s, i + 1, es, false);
    }
    if i < s.len() && s[i] == '[' {
        let items: Vec<Variable> = Vec::new();
        proof {
            assert(vals_of(items@) =~= Seq::<Val>::empty());
        }
        return array(s, i + 1, items, false);
    }
    if i < s.len() && s[i] == '(' {
        return vec4(s, i + 1);
    }
    if i < s.len() && s[i] == '#' {
        let te = scan_token(s, i + 1);
        let tok = sub_string(s, i + 1, te);
        match read_rgba(tok.as_str()) {
            Option::Some((rgb, a)) => {
                let alpha: u8 = match a {
                    Option::Some(x) => x,
                    Option::None => 255,
                };
                let c = [
                    channel_to_bits(rgb[0]),
                    channel_to_bits(rgb[1]),
                    channel_to_bits(rgb[2]),
                    channel_to_bits(alpha),
                ];
                let nv = Variable::Vec4(c);
                proof {
                    assert(c@ =~= color_val(rgb, a)->Vec4_0);
                }
                return Result::Ok((nv, i + 1));
            },
            Option::None => {
                return Result::Err("Expected hex color".to_owned());
            },
        }
    }
    if check_tag(s, i, "link") {
        let l = new_link();
        return link(s, i + 4, l);
    }
    if i < s.len() && s[i] == '"' {
        match scan_str(s, i + 1, false) {
            Option::Some(e) => {
                match unescape(s, i + 1, e - 1) {
                    Result::Ok(chars) => {
                        let t = chars_to_string(&chars);
                        return Result::Ok((Variable::Text(t), e));
                    },
                    Result::Err(m) => {
                        return Result::Err(m);
                    },
                }
            },
            Option::None => {},
        }
    }
    proof {
        assert(string_end(s@, i as int) is Some ==> at_char(s@, i as int, '"'));
    }
    match number_at(s, i) {
        Option::Some(Result::Ok((b, e))) => {
            let nv = Variable::F64(b, Option::None);
            proof {
                assert(val_of(nv) == Val::Num { bits: b, why: crate::val::chain_view(Option::None) });
            }
            return Result::Ok((nv, e));
        },
        Option::Some(Result::Err(m)) => {
            return Result::Err(m);
        },
        Option::None => {},
    }
    if check_tag(s, i, "false") {
        let nv = Variable::Bool(false, Option::None);
        proof {
            assert(val_of(nv) == Val::Bool { b: false, why: crate::val::chain_view(Option::None) });
        }
        return Result::Ok((nv, i + 5));
    }
    if check_tag(s, i, "true") {
        let nv = Variable::Bool(true, Option::None);
        proof {
            assert(val_of(nv) == Val::Bool { b: true, why: crate::val::chain_view(Option::None) });
        }
        return Result::Ok((nv, i + 4));
    }
    Result::Err("Not implemented".to_owned())
}

/// Reads the remaining bindings of an object whose brace was consumed.
fn object(s: &Vec<char>, i: usize, es: Vec<Entry>, was_comma: bool) -> (r: Result<
    (Variable, usize),
    String,
>)
    requires
        i <= s@.len(),
    ensures
        ({
            let sr = p_object(s@, i as int, entry_vals_of(es@), was_comma);
            match r {
                Result::Ok((v, e)) => (sr matches Result::Ok(p) && val_of(v) == p.0 && e as int
                    == p.1 && e <= s@.len()),
                Result::Err(m) => (sr matches Result::Err(t) && m@ == t),
            }
        }),
    decreases s@.len() - i, 2int,
{
    let ghost ges = entry_vals_of(es@);
    proof {
        crate::val::lemma_entry_vals_of_len(es@);
    }
    let k = opt_w(s, i);
    if k < s.len() && s[k] == '}' {
        let nv = Variable::Object(es);
        proof {
            assert(val_of(nv) == Val::Object(ges));
        }
        return Result::Ok((nv, k + 1));
    }
    if es.len() > 0 && !was_comma {
        return Result::Err("Expected `,`".to_owned());
    }
    let te = scan_token(s, k);
    if te <= k {
        return Result::Err("Expected key".to_owned());
    }
    let key = sub_string(s, k, te);
    let k2 = opt_w(s, te);
    if !(k2 < s.len() && s[k2] == ':') {
        return Result::Err("Expected `:`".to_owned());
    }
    let k3 = opt_w(s, k2 + 1);
    if k3 <= i {
        return Result::Err("Malformed literal".to_owned());
    }
    match expr(s, k3) {
        Result::Err(m) => Result::Err(m),
        Result::Ok((v, k4)) => {
            let ghost gkey = key@;
            let ghost gv = val_of(v);
            let es2 = insert_entry(es, key, v);
            let (wc, k5) = comma(s, k4);
            if k5 <= i {
                return Result::Err("Malformed literal".to_owned());
            }
            object(s, k5, es2, wc)
        },
    }
}

/// Reads the remaining items of an array whose bracket was consumed.
fn array(s: &Vec<char>, i: usize, items: Vec<Variable>, was_comma: bool) -> (r: Result<
    (Variable, usize),
    String,
>)
    requires
        i <= s@.len(),
    ensures
        ({
            let sr = p_array(s@, i as int, vals_of(items@), was_comma);
            match r {
                Result::Ok((v, e)) => (sr matches Result::Ok(p) && val_of(v) == p.0 && e as int
                    == p.1 && e <= s@.len()),
                Result::Err(m) => (sr matches Result::Err(t) && m@ == t),
            }
        }),
    decreases s@.len() - i, 2int,
{
    broadcast use crate::val::lemma_vals_of_push;

    let ghost gitems = vals_of(items@);
    proof {
        crate::val::lemma_vals_of_len(items@);
    }
    let k = opt_w(s, i);
    if k < s.len() && s[k] == ']' {
        let nv = Variable::Array(items);
        proof {
            assert(val_of(nv) == Val::Array(gitems));
        }
        return Result::Ok((nv, k + 1));
    }
    if items.len() > 0 && !was_comma {
        return Result::Err("Expected `,`".to_owned());
    }
    match expr(s, k) {
        Result::Err(m) => Result::Err(m),
        Result::Ok((v, k2)) => {
            let mut items = items;
            items.push(v);
            let (wc, k3) = comma(s, k2);
            if k3 <= i {
                return Result::Err("Malformed literal".to_owned());
            }
            array(s, k3, items, wc)
        },
    }
}

/// Reads a link literal after its `link` tag.
fn link(s: &Vec<char>, i: usize, acc: Link) -> (r: Result<(Variable, usize), String>)
    requires
        i <= s@.len(),
    ensures
        ({
            let sr = p_link(s@, i as int, link_view(acc));
            match r {
                Result::Ok((v, e)) => (sr matches Result::Ok(p) && val_of(v) == p.0 && e as int
                    == p.1 && e <= s@.len()),
                Result::Err(m) => (sr matches Result::Err(t) && m@ == t),
            }
        }),
    decreases s@.len() - i, 2int,
{
    let j = opt_w(s, i);
    if !(j < s.len() && s[j] == '{') {
        return Result::Err("Expected `{`".to_owned());
    }
    link_items(s, j + 1, acc)
}

/// Reads the remaining items of a link whose brace was consumed.
fn link_items(s: &Vec<char>, i: usize, acc: Link) -> (r: Result<(Variable, usize), String>)
    requires
        i <= s@.len(),
    ensures
        ({
            let sr = p_link_items(s@, i as int, link_view(acc));
            match r {
                Result::Ok((v, e)) => (sr matches Result::Ok(p) && val_of(v) == p.0 && e as int
                    == p.1 && e <= s@.len()),
                Result::Err(m) => (sr matches Result::Err(t) && m@ == t),
            }
        }),
    decreases s@.len() - i, 2int,
{
    let ghost gacc = link_view(acc);
    let k = opt_w(s, i);
    if k < s.len() && s[k] == '}' {
        let nv = Variable::Link(acc);
        proof {
            assert(val_of(nv) == Val::Link(gacc));
        }
        return Result::Ok((nv, k + 1));
    }
    match expr(s, k) {
        Result::Err(m) => Result::Err(m),
        Result::Ok((v, k2)) => {
            if k2 <= i {
                return Result::Err("Malformed literal".to_owned());
            }
            let mut acc = acc;
            let res = link_push(&mut acc, &v);
            match res {
                Result::Ok(()) => link_items(s, k2, acc),
                Result::Err(m) => Result::Err(m),
            }
        },
    }
}

/// Reads a 4-vector literal after its parenthesis.
fn vec4(s: &Vec<char>, i: usize) -> (r: Result<(Variable, usize), String>)
    requires
        i <= s@.len(),
    ensures
        ({
            let sr = p_vec4(s@, i as int);
            match r {
                Result::Ok((v, e)) => (sr matches Result::Ok(p) && val_of(v) == p.0 && e as int
                    == p.1 && e <= s@.len()),
                Result::Err(m) => (sr matches Result::Err(t) && m@ == t),
            }
        }),
    decreases s@.len() - i, 2int,
{
    let x: u64;
    let ex: usize;
    match number_at(s, i) {
        Option::None => {
            return Result::Err("Expected x component".to_owned());
        },
        Option::Some(Result::Err(m)) => {
            return Result::Err(m);
        },
        Option::Some(Result::Ok((b, e))) => {
            x = b;
            ex = e;
        },
    }
    let j = comma(s, ex).1;
    let y: u64;
    let ey: usize;
    match number_at(s, j) {
        Option::None => {
            return Result::Err("Expected y component".to_owned());
        },
        Option::Some(Result::Err(m)) => {
            return Result::Err(m);
        },
        Option::Some(Result::Ok((b, e))) => {
            y = b;
            ey = e;
        },
    }
    let (has_z, j2) = comma(s, ey);
    let z: u64;
    let w: u64;
    let p: usize;
    if has_z {
        match number_at(s, j2) {
            Option::None => {
                z = 0;
                w = 0;
                p = j2;
            },
            Option::Some(Result::Err(m)) => {
                return Result::Err(m);
            },
            Option::Some(Result::Ok((bz, ez))) => {
                z = bz;
                let j3 = comma(s, ez).1;
                match number_at(s, j3) {
                    Option::None => {
                        w = 0;
                        p = j3;
                    },
                    Option::Some(Result::Err(m)) => {
                        return Result::Err(m);
                    },
                    Option::Some(Result::Ok((bw, _))) => {
                        w = bw;
                        p = j3;
                    },
                }
            },
        }
    } else {
        z = 0;
        w = 0;
        p = j2;
    }
    let q = opt_w(s, p);
    let end = if q < s.len() && s[q] == ')' {
        q + 1
    } else {
        q
    };
    let c = [x, y, z, w];
    let nv = Variable::Vec4(c);
    proof {
        assert(c@ =~= seq![x, y, z, w]);
    }
    Result::Ok((nv, end))
}

/// Decodes a single value from text: the public entry of the literal
/// reader. Yields the decoded value, or the report of the first fault;
/// text after the first value is not read.
pub fn load_data(data: &str) -> (r: Result<Variable, String>)
    ensures
        ({
            let sr = p_expr(data@, 0);
            match r {
                Result::Ok(v) => (sr matches Result::Ok(p) && val_of(v) == p.0),
                Result::Err(m) => (sr matches Result::Err(t) && m@ == t),
            }
        }),
{
    let s = str_to_chars(data);
    match expr(&s, 0) {
        Result::Ok((v, _)) => Result::Ok(v),
        Result::Err(m) => Result::Err(m),
    }
}

} // verus!
