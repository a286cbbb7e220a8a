//! The textual form of a select option list.
//!
//! The wire shape of a select option list is an ordered array of records,
//! each `{"value": <string>, "label": <string>}`.  This module gives that
//! shape a serializer ([`options_to_json`]) and a parser
//! ([`parse_options`]), each specified against a mathematical model over
//! sequences of characters, together with the round-trip law: parsing
//! what the serializer produced yields exactly the original option list.
//!
//! The parser accepts JSON text of the expected shape: whitespace where
//! JSON allows it, and string escapes `\"`, `\\`, `\/`, `\b`, `\f`,
//! `\n`, `\r`, `\t` and `\uXXXX` (four hex digits naming a Unicode
//! scalar value; surrogate code points are rejected).  Malformed input
//! is reported as a [`JsonError`], never silently dropped or truncated.

use vstd::prelude::*;
use vstd::string::StrSliceExecFns;
use vstd::string::StringExecFns;

use crate::types::SelectOption;
use crate::types::opts_view;

verus! {

/// A decode failure: the input was not valid JSON of the expected
/// array-of-records shape.
#[derive(Debug, Clone, Copy, PartialEq, Eq, Structural)]
pub struct JsonError;

// ------------------------------------------------------------------
// Characters
// ------------------------------------------------------------------

/// The whitespace characters JSON allows between tokens.
pub open spec fn is_json_ws(c: char) -> bool {
    c == ' ' || c == '\t' || c == '\n' || c == '\r'
}

/// The value of a hexadecimal digit, if `c` is one.
pub open spec fn hex_lookup(c: char) -> Option<u32> {
    if c == '0' {
        Some(0u32)
    } else if c == '1' {
        Some(1u32)
    } else if c == '2' {
        Some(2u32)
    } else if c == '3' {
        Some(3u32)
    } else if c == '4' {
        Some(4u32)
    } else if c == '5' {
        Some(5u32)
    } else if c == '6' {
        Some(6u32)
    } else if c == '7' {
        Some(7u32)
    } else if c == '8' {
        Some(8u32)
    } else if c == '9' {
        Some(9u32)
    } else if c == 'a' || c == 'A' {
        Some(10u32)
    } else if c == 'b' || c == 'B' {
        Some(11u32)
    } else if c == 'c' || c == 'C' {
        Some(12u32)
    } else if c == 'd' || c == 'D' {
        Some(13u32)
    } else if c == 'e' || c == 'E' {
        Some(14u32)
    } else if c == 'f' || c == 'F' {
        Some(15u32)
    } else {
        None
    }
}

/// The lowercase hexadecimal digit for a value below sixteen.
pub open spec fn hex_digit_of(d: u32) -> char {
    if d == 0 {
        '0'
    } else if d == 1 {
        '1'
    } else if d == 2 {
        '2'
    } else if d == 3 {
        '3'
    } else if d == 4 {
        '4'
    } else if d == 5 {
        '5'
    } else if d == 6 {
        '6'
    } else if d == 7 {
        '7'
    } else if d == 8 {
        '8'
    } else if d == 9 {
        '9'
    } else if d == 10 {
        'a'
    } else if d == 11 {
        'b'
    } else if d == 12 {
        'c'
    } else if d == 13 {
        'd'
    } else if d == 14 {
        'e'
    } else {
        'f'
    }
}

/// Reading back the digit written for `d` gives `d`.
pub proof fn lemma_hex_digit_of_lookup(d: u32)
    requires
        d < 16,
    ensures
        hex_lookup(hex_digit_of(d)) == Some(d),
{
}

/// The character a two-character escape stands for, if the character
/// after the backslash is one of the eight short escapes.
pub open spec fn simple_unescape(e: char) -> Option<char> {
    if e == '"' {
        Some('"')
    } else if e == '\\' {
        Some('\\')
    } else if e == '/' {
        Some('/')
    } else if e == 'b' {
        Some('\u{0008}')
    } else if e == 'f' {
        Some('\u{000C}')
    } else if e == 'n' {
        Some('\n')
    } else if e == 'r' {
        Some('\r')
    } else if e == 't' {
        Some('\t')
    } else {
        None
    }
}

// ------------------------------------------------------------------
// Serialization model
// ------------------------------------------------------------------

/// How one character appears inside a serialized JSON string: quote and
/// backslash escaped, control characters written `\u00XX`, everything
/// else written as itself.
pub open spec fn escape_char(c: char) -> Seq<char> {
    if c == '"' {
        seq!['\\', '"']
    } else if c == '\\' {
        seq!['\\', '\\']
    } else if (c as u32) < 0x20 {
        seq!['\\', 'u', '0', '0', hex_digit_of((c as u32) / 16), hex_digit_of((c as u32) % 16)]
    } else {
        seq![c]
    }
}

/// The serialized body of a JSON string: each character escaped in turn.
pub open spec fn escape_string(s: Seq<char>) -> Seq<char>
    decreases s.len(),
{
    if s.len() == 0 {
        Seq::empty()
    } else {
        escape_char(s[0]) + escape_string(s.skip(1))
    }
}

/// The quoted key naming the submission value of a record.
pub open spec fn key_value() -> Seq<char> {
    seq!['"', 'v', 'a', 'l', 'u', 'e', '"']
}

/// The quoted key naming the display label of a record.
pub open spec fn key_label() -> Seq<char> {
    seq!['"', 'l', 'a', 'b', 'e', 'l', '"']
}

/// The opening of a serialized record, through the quote that starts its
/// value string.
pub open spec fn record_prefix() -> Seq<char> {
    seq!['{'] + key_value() + seq![':', '"']
}

/// The middle of a serialized record: the quote that closes the value
/// string, through the quote that opens the label string.
pub open spec fn record_mid() -> Seq<char> {
    seq!['"', ','] + key_label() + seq![':', '"']
}

/// The close of a serialized record: the quote that closes the label
/// string, and the closing brace.
pub open spec fn record_suffix() -> Seq<char> {
    seq!['"', '}']
}

/// One serialized record: `{"value":"...","label":"..."}`.
pub open spec fn record_json(o: (Seq<char>, Seq<char>)) -> Seq<char> {
    record_prefix() + escape_string(o.0) + record_mid() + escape_string(o.1) + record_suffix()
}

/// The serialized records, comma-separated.
pub open spec fn items_json(opts: Seq<(Seq<char>, Seq<char>)>) -> Seq<char>
    decreases opts.len(),
{
    if opts.len() == 0 {
        Seq::empty()
    } else if opts.len() == 1 {
        record_json(opts[0])
    } else {
        record_json(opts[0]) + seq![','] + items_json(opts.skip(1))
    }
}

/// The serialized option list: the records in order, inside brackets.
pub open spec fn options_json(opts: Seq<(Seq<char>, Seq<char>)>) -> Seq<char> {
    seq!['['] + items_json(opts) + seq![']']
}

// ------------------------------------------------------------------
// Parsing model
// ------------------------------------------------------------------

/// The first position at or after `i` holding no JSON whitespace.
pub open spec fn skip_ws(s: Seq<char>, i: int) -> int
    decreases s.len() - i,
{
    if 0 <= i && i < s.len() && is_json_ws(s[i]) {
        skip_ws(s, i + 1)
    } else {
        i
    }
}

/// `t` occurs in `s` starting at `i`.
pub open spec fn expect_at(s: Seq<char>, i: int, t: Seq<char>) -> bool {
    0 <= i && i + t.len() <= s.len() && s.subrange(i, i + t.len() as int) == t
}

/// The value of four hexadecimal digits starting at `i`.
pub open spec fn hex4(s: Seq<char>, i: int) -> Option<u32> {
    if 0 <= i && i + 4 <= s.len() {
        match (hex_lookup(s[i]), hex_lookup(s[i + 1]), hex_lookup(s[i + 2]), hex_lookup(s[i + 3])) {
            (Some(a), Some(b), Some(c), Some(d)) => Some(
                ((a as int) * 4096 + (b as int) * 256 + (c as int) * 16 + (d as int)) as u32,
            ),
            _ => None,
        }
    } else {
        None
    }
}

/// Prepend a decoded character to a string-body parse.
pub open spec fn cons_parsed(c: char, r: Option<(Seq<char>, int)>) -> Option<(Seq<char>, int)> {
    match r {
        Some((v, j)) => Some((seq![c] + v, j)),
        None => None,
    }
}

/// Parse the body of a JSON string, starting just after its opening
/// quote.  Yields the decoded content and the position just after the
/// closing quote.  Unescaped control characters, bad escapes, escapes
/// naming surrogate code points, and a missing closing quote all fail.
pub open spec fn parse_string_body(s: Seq<char>, i: int) -> Option<(Seq<char>, int)>
    decreases s.len() - i,
{
    if i < 0 || i >= s.len() {
        None
    } else if s[i] == '"' {
        Some((Seq::empty(), i + 1))
    } else if s[i] == '\\' {
        if i + 1 >= s.len() {
            None
        } else {
            let e = s[i + 1];
            if e == 'u' {
                if i + 6 > s.len() {
                    None
                } else {
                    match hex4(s, i + 2) {
                        Some(n) => if 0xD800 <= n && n <= 0xDFFF {
                            None
                        } else {
                            cons_parsed(n as char, parse_string_body(s, i + 6))
                        },
                        None => None,
                    }
                }
            } else {
                match simple_unescape(e) {
                    Some(c) => cons_parsed(c, parse_string_body(s, i + 2)),
                    None => None,
                }
            }
        }
    } else if (s[i] as u32) < 0x20 {
        None
    } else {
        cons_parsed(s[i], parse_string_body(s, i + 1))
    }
}

/// Parse one `<key> : <string>` member, starting at the quoted key.
pub open spec fn parse_member(s: Seq<char>, i: int, key: Seq<char>) -> Option<(Seq<char>, int)> {
    if expect_at(s, i, key) {
        let j = skip_ws(s, i + key.len() as int);
        if j < s.len() && s[j] == ':' {
            let k = skip_ws(s, j + 1);
            if k < s.len() && s[k] == '"' {
                parse_string_body(s, k + 1)
            } else {
                None
            }
        } else {
            None
        }
    } else {
        None
    }
}

/// Parse one record: a brace-enclosed pair of members, the submission
/// value first, then the display label.
pub open spec fn parse_record(s: Seq<char>, i: int) -> Option<((Seq<char>, Seq<char>), int)> {
    if 0 <= i && i < s.len() && s[i] == '{' {
        let j = skip_ws(s, i + 1);
        match parse_member(s, j, key_value()) {
            Some((v, jv)) => {
                let k = skip_ws(s, jv);
                if k < s.len() && s[k] == ',' {
                    let m = skip_ws(s, k + 1);
                    match parse_member(s, m, key_label()) {
                        Some((l, jl)) => {
                            let k2 = skip_ws(s, jl);
                            if k2 < s.len() && s[k2] == '}' {
                                Some(((v, l), k2 + 1))
                            } else {
                                None
                            }
                        },
                        None => None,
                    }
                } else {
                    None
                }
            },
            None => None,
        }
    } else {
        None
    }
}

/// Every successful skip lands between `i` and the end.
pub proof fn lemma_skip_ws_bounds(s: Seq<char>, i: int)
    requires
        i <= s.len(),
    ensures
        i <= skip_ws(s, i) <= s.len(),
    decreases s.len() - i,
{
    if 0 <= i && i < s.len() && is_json_ws(s[i]) {
        lemma_skip_ws_bounds(s, i + 1);
    }
}

/// A successful string-body parse consumes at least the closing quote
/// and stays inside the input.
pub proof fn lemma_parse_string_body_bounds(s: Seq<char>, i: int)
    ensures
        parse_string_body(s, i) matches Some((v, j)) ==> i < j <= s.len(),
    decreases s.len() - i,
{
    if 0 <= i && i < s.len() {
        if s[i] == '\\' && i + 1 < s.len() {
            if s[i + 1] == 'u' {
                if i + 6 <= s.len() {
                    lemma_parse_string_body_bounds(s, i + 6);
                }
            } else {
                lemma_parse_string_body_bounds(s, i + 2);
            }
        } else {
            lemma_parse_string_body_bounds(s, i + 1);
        }
    }
}

/// A successful member parse moves forward and stays inside the input.
pub proof fn lemma_parse_member_bounds(s: Seq<char>, i: int, key: Seq<char>)
    ensures
        parse_member(s, i, key) matches Some((v, j)) ==> i <= j <= s.len(),
{
    if expect_at(s, i, key) {
        lemma_skip_ws_bounds(s, i + key.len() as int);
        let j = skip_ws(s, i + key.len() as int);
        if j < s.len() && s[j] == ':' {
            lemma_skip_ws_bounds(s, j + 1);
            let k = skip_ws(s, j + 1);
            if k < s.len() && s[k] == '"' {
                lemma_parse_string_body_bounds(s, k + 1);
            }
        }
    }
}

/// A successful record parse moves strictly forward and stays inside
/// the input.
pub proof fn lemma_parse_record_bounds(s: Seq<char>, i: int)
    ensures
        parse_record(s, i) matches Some((r, j)) ==> i < j <= s.len(),
{
    if 0 <= i && i < s.len() && s[i] == '{' {
        lemma_skip_ws_bounds(s, i + 1);
        let j = skip_ws(s, i + 1);
        lemma_parse_member_bounds(s, j, key_value());
        if let Some((v, jv)) = parse_member(s, j, key_value()) {
            lemma_skip_ws_bounds(s, jv);
            let k = skip_ws(s, jv);
            if k < s.len() && s[k] == ',' {
                lemma_skip_ws_bounds(s, k + 1);
                let m = skip_ws(s, k + 1);
                lemma_parse_member_bounds(s, m, key_label());
                if let Some((l, jl)) = parse_member(s, m, key_label()) {
                    lemma_skip_ws_bounds(s, jl);
                }
            }
        }
    }
}

/// Parse a non-empty, comma-separated run of records, ending at and
/// consuming the closing bracket.
pub open spec fn parse_items(s: Seq<char>, i: int) -> Option<(Seq<(Seq<char>, Seq<char>)>, int)>
    decreases s.len() - i,
{
    match parse_record(s, i) {
        Some((r, j)) => {
            let k = skip_ws(s, j);
            if k < s.len() && s[k] == ',' {
                let m = skip_ws(s, k + 1);
                proof {
                    lemma_parse_record_bounds(s, i);
                    lemma_skip_ws_bounds(s, j);
                    lemma_skip_ws_bounds(s, k + 1);
                }
                match parse_items(s, m) {
                    Some((rs, e)) => Some((seq![r] + rs, e)),
                    None => None,
                }
            } else if k < s.len() && s[k] == ']' {
                Some((seq![r], k + 1))
            } else {
                None
            }
        },
        None => None,
    }
}

/// Parse a complete option list: a bracketed, comma-separated run of
/// records (possibly empty), with nothing but whitespace around it.
pub open spec fn parse_options_spec(s: Seq<char>) -> Option<Seq<(Seq<char>, Seq<char>)>> {
    let i = skip_ws(s, 0);
    if i < s.len() && s[i] == '[' {
        let j = skip_ws(s, i + 1);
        if j < s.len() && s[j] == ']' {
            if skip_ws(s, j + 1) == s.len() {
                Some(Seq::empty())
            } else {
                None
            }
        } else {
            match parse_items(s, j) {
                Some((rs, e)) => if skip_ws(s, e) == s.len() {
                    Some(rs)
                } else {
                    None
                },
                None => None,
            }
        }
    } else {
        None
    }
}

// ------------------------------------------------------------------
// Serializer
// ------------------------------------------------------------------

/// Relies on `String::push`, which appends the one given character.
#[verifier::external_body]
fn push_char(s: &mut String, c: char)
    ensures
        final(s)@ == old(s)@.push(c),
{
    s.push(c);
}

/// The lowercase hexadecimal digit for a value below sixteen.
fn hex_digit(d: u32) -> (c: char)
    requires
        d < 16,
    ensures
        c == hex_digit_of(d),
{
    if d == 0 {
        '0'
    } else if d == 1 {
        '1'
    } else if d == 2 {
        '2'
    } else if d == 3 {
        '3'
    } else if d == 4 {
        '4'
    } else if d == 5 {
        '5'
    } else if d == 6 {
        '6'
    } else if d == 7 {
        '7'
    } else if d == 8 {
        '8'
    } else if d == 9 {
        '9'
    } else if d == 10 {
        'a'
    } else if d == 11 {
        'b'
    } else if d == 12 {
        'c'
    } else if d == 13 {
        'd'
    } else if d == 14 {
        'e'
    } else {
        'f'
    }
}

/// Escaping a string one character longer appends that character's
/// escape.
pub proof fn lemma_escape_string_push(a: Seq<char>, c: char)
    ensures
        escape_string(a.push(c)) == escape_string(a) + escape_char(c),
    decreases a.len(),
{
    if a.len() == 0 {
        assert(a.push(c)[0] == c);
        assert(a.push(c).skip(1) =~= Seq::<char>::empty());
        assert(escape_string(a.push(c).skip(1)) == Seq::<char>::empty());
        assert(escape_string(a.push(c)) == escape_char(c) + escape_string(a.push(c).skip(1)));
        assert(escape_string(a) == Seq::<char>::empty());
        assert(escape_string(a.push(c)) =~= escape_string(a) + escape_char(c));
    } else {
        assert(a.push(c)[0] == a[0]);
        assert(a.push(c).skip(1) =~= a.skip(1).push(c));
        lemma_escape_string_push(a.skip(1), c);
        assert(escape_char(a[0]) + (escape_string(a.skip(1)) + escape_char(c)) =~= (escape_char(
            a[0],
        ) + escape_string(a.skip(1))) + escape_char(c));
    }
}

/// Serializing one more record appends it, after a comma if it is not
/// the first.
pub proof fn lemma_items_json_push(opts: Seq<(Seq<char>, Seq<char>)>, o: (Seq<char>, Seq<char>))
    ensures
        items_json(opts.push(o)) == if opts.len() == 0 {
            record_json(o)
        } else {
            items_json(opts) + seq![','] + record_json(o)
        },
    decreases opts.len(),
{
    if opts.len() == 0 {
        assert(opts.push(o)[0] == o);
        assert(items_json(opts.push(o)) =~= record_json(o));
    } else if opts.len() == 1 {
        assert(opts.push(o)[0] == opts[0]);
        assert(opts.push(o).skip(1) =~= seq![o]);
        assert(opts.push(o).skip(1)[0] == o);
        assert(items_json(opts.push(o).skip(1)) == record_json(o));
        assert(items_json(opts.push(o)) == record_json(opts[0]) + seq![','] + items_json(
            opts.push(o).skip(1),
        ));
        assert(items_json(opts) == record_json(opts[0]));
        assert(items_json(opts.push(o)) =~= items_json(opts) + seq![','] + record_json(o));
    } else {
        assert(opts.push(o)[0] == opts[0]);
        assert(opts.push(o).skip(1) =~= opts.skip(1).push(o));
        lemma_items_json_push(opts.skip(1), o);
        assert(record_json(opts[0]) + seq![','] + (items_json(opts.skip(1)) + seq![',']
            + record_json(o)) =~= (record_json(opts[0]) + seq![','] + items_json(opts.skip(1)))
            + seq![','] + record_json(o));
    }
}

/// Append the serialized body of a JSON string: each character of `s`
/// escaped in turn.
fn push_escaped(out: &mut String, s: &str)
    ensures
        final(out)@ == old(out)@ + escape_string(s@),
{
    let ghost base: Seq<char> = out@;
    let n = s.unicode_len();
    proof {
        assert(out@ =~= base + escape_string(s@.take(0)));
    }
    for i in 0..n
        invariant
            n == s@.len(),
            out@ == base + escape_string(s@.take(i as int)),
    {
        let c = s.get_char(i);
        if c == '"' {
            push_char(out, '\\');
            push_char(out, '"');
        } else if c == '\\' {
            push_char(out, '\\');
            push_char(out, '\\');
        } else if (c as u32) < 0x20 {
            let cu = c as u32;
            push_char(out, '\\');
            push_char(out, 'u');
            push_char(out, '0');
            push_char(out, '0');
            push_char(out, hex_digit(cu / 16));
            push_char(out, hex_digit(cu % 16));
        } else {
            push_char(out, c);
        }
        proof {
            lemma_escape_string_push(s@.take(i as int), c);
            assert(s@.take(i as int + 1) =~= s@.take(i as int).push(c));
            assert(out@ =~= base + escape_string(s@.take(i as int + 1)));
        }
    }
    proof {
        assert(s@.take(n as int) =~= s@);
    }
}

/// Append one serialized record.
fn push_record(out: &mut String, o: &SelectOption)
    ensures
        final(out)@ == old(out)@ + record_json(o@),
{
    let ghost base: Seq<char> = out@;
    out.append("{\"value\":\"");
    proof {
        reveal_strlit("{\"value\":\"");
        assert(("{\"value\":\""@) =~= record_prefix());
    }
    push_escaped(out, o.value.as_str());
    out.append("\",\"label\":\"");
    proof {
        reveal_strlit("\",\"label\":\"");
        assert(("\",\"label\":\""@) =~= record_mid());
    }
    push_escaped(out, o.label.as_str());
    out.append("\"}");
    proof {
        reveal_strlit("\"}");
        assert(("\"}"@) =~= record_suffix());
        assert(out@ =~= base + record_json(o@));
    }
}

/// Serialize an option list to its textual JSON form: the records in
/// order, `{"value":"...","label":"..."}` each, comma-separated, inside
/// brackets, with quote, backslash and control characters escaped.
pub fn options_to_json(options: &[SelectOption]) -> (r: String)
    ensures
        r@ == options_json(opts_view(options@)),
{
    let mut out = String::new();
    push_char(&mut out, '[');
    let n = options.len();
    proof {
        assert(out@ =~= seq!['['] + items_json(opts_view(options@).take(0)));
    }
    for i in 0..n
        invariant
            n == options@.len(),
            out@ == seq!['['] + items_json(opts_view(options@).take(i as int)),
    {
        if i > 0 {
            push_char(&mut out, ',');
        }
        push_record(&mut out, &options[i]);
        proof {
            let ghost ov = opts_view(options@);
            assert(ov.take(i as int + 1) =~= ov.take(i as int).push(ov[i as int]));
            lemma_items_json_push(ov.take(i as int), ov[i as int]);
            assert(out@ =~= seq!['['] + items_json(ov.take(i as int + 1)));
        }
    }
    push_char(&mut out, ']');
    proof {
        assert(opts_view(options@).take(n as int) =~= opts_view(options@));
        assert(out@ =~= options_json(opts_view(options@)));
    }
    out
}

// ------------------------------------------------------------------
// Parser
// ------------------------------------------------------------------

/// Relies on `char::from_u32`, which returns the character with the
/// given code point exactly when that code point is a Unicode scalar
/// value (at most 0x10FFFF and not a surrogate), and `None` otherwise.
#[verifier::external_body]
fn char_from_u32(n: u32) -> (r: Option<char>)
    ensures
        r == (if (0xD800 <= n && n <= 0xDFFF) || n > 0x10FFFF {
            None::<char>
        } else {
            Some(n as char)
        }),
{
    char::from_u32(n)
}

/// A hexadecimal digit's value is below sixteen.
pub proof fn lemma_hex_lookup_bound(c: char)
    ensures
        hex_lookup(c) matches Some(v) ==> v < 16,
{
}

/// The characters of a string, in order.
fn chars_of(s: &str) -> (r: Vec<char>)
    ensures
        r@ == s@,
{
    let n = s.unicode_len();
    let mut r: Vec<char> = Vec::new();
    for i in 0..n
        invariant
            n == s@.len(),
            r@ == s@.take(i as int),
    {
        let c = s.get_char(i);
        r.push(c);
        proof {
            assert(s@.take(i as int + 1) =~= s@.take(i as int).push(c));
        }
    }
    proof {
        assert(s@.take(n as int) =~= s@);
    }
    r
}

/// The string holding the given characters, in order.
fn chars_to_string(v: &Vec<char>) -> (r: String)
    ensures
        r@ == v@,
{
    let mut r = String::new();
    let n = v.len();
    for i in 0..n
        invariant
            n == v@.len(),
            r@ == v@.take(i as int),
    {
        push_char(&mut r, v[i]);
        proof {
            assert(v@.take(i as int + 1) =~= v@.take(i as int).push(v@[i as int]));
        }
    }
    proof {
        assert(v@.take(n as int) =~= v@);
    }
    r
}

fn ws_exec(c: char) -> (b: bool)
    ensures
        b == is_json_ws(c),
{
    c == ' ' || c == '\t' || c == '\n' || c == '\r'
}

fn skip_ws_exec(s: &Vec<char>, i: usize) -> (r: usize)
    requires
        i <= s@.len(),
    ensures
        r as int == skip_ws(s@, i as int),
        i <= r <= s@.len(),
    decreases s@.len() - i,
{
    if i < s.len() && ws_exec(s[i]) {
        skip_ws_exec(s, i + 1)
    } else {
        i
    }
}

fn hex_lookup_exec(c: char) -> (r: Option<u32>)
    ensures
        r == hex_lookup(c),
{
    if c == '0' {
        Some(0u32)
    } else if c == '1' {
        Some(1u32)
    } else if c == '2' {
        Some(2u32)
    } else if c == '3' {
        Some(3u32)
    } else if c == '4' {
        Some(4u32)
    } else if c == '5' {
        Some(5u32)
    } else if c == '6' {
        Some(6u32)
    } else if c == '7' {
        Some(7u32)
    } else if c == '8' {
        Some(8u32)
    } else if c == '9' {
        Some(9u32)
    } else if c == 'a' || c == 'A' {
        Some(10u32)
    } else if c == 'b' || c == 'B' {
        Some(11u32)
    } else if c == 'c' || c == 'C' {
        Some(12u32)
    } else if c == 'd' || c == 'D' {
        Some(13u32)
    } else if c == 'e' || c == 'E' {
        Some(14u32)
    } else if c == 'f' || c == 'F' {
        Some(15u32)
    } else {
        None
    }
}

fn hex4_exec(s: &Vec<char>, i: usize) -> (r: Option<u32>)
    requires
        i + 4 <= s@.len(),
    ensures
        r == hex4(s@, i as int),
{
    let _slen = s.len();
    let a = match hex_lookup_exec(s[i]) {
        Some(a) => a,
        None => {
            return None;
        },
    };
    let b = match hex_lookup_exec(s[i + 1]) {
        Some(b) => b,
        None => {
            return None;
        },
    };
    let c = match hex_lookup_exec(s[i + 2]) {
        Some(c) => c,
        None => {
            return None;
        },
    };
    let d = match hex_lookup_exec(s[i + 3]) {
        Some(d) => d,
        None => {
            return None;
        },
    };
    proof {
        lemma_hex_lookup_bound(s@[i as int]);
        lemma_hex_lookup_bound(s@[i as int + 1]);
        lemma_hex_lookup_bound(s@[i as int + 2]);
        lemma_hex_lookup_bound(s@[i as int + 3]);
    }
    Some(a * 4096 + b * 256 + c * 16 + d)
}

fn simple_unescape_exec(e: char) -> (r: Option<char>)
    ensures
        r == simple_unescape(e),
{
    if e == '"' {
        Some('"')
    } else if e == '\\' {
        Some('\\')
    } else if e == '/' {
        Some('/')
    } else if e == 'b' {
        Some('\u{0008}')
    } else if e == 'f' {
        Some('\u{000C}')
    } else if e == 'n' {
        Some('\n')
    } else if e == 'r' {
        Some('\r')
    } else if e == 't' {
        Some('\t')
    } else {
        None
    }
}

fn parse_string_body_exec(s: &Vec<char>, i: usize) -> (r: Option<(Vec<char>, usize)>)
    ensures
        match r {
            Some(p) => parse_string_body(s@, i as int) == Some((p.0@, p.1 as int)) && p.1
                <= s@.len(),
            None => parse_string_body(s@, i as int) is None,
        },
    decreases s@.len() - i,
{
    if i >= s.len() {
        return None;
    }
    let c = s[i];
    if c == '"' {
        let v: Vec<char> = Vec::new();
        proof {
            assert(v@ =~= Seq::<char>::empty());
        }
        return Some((v, i + 1));
    }
    if c == '\\' {
        if i + 1 >= s.len() {
            return None;
        }
        let e = s[i + 1];
        if e == 'u' {
            if s.len() - i < 6 {
                return None;
            }
            let n = match hex4_exec(s, i + 2) {
                Some(n) => n,
                None => {
                    return None;
                },
            };
            if 0xD800 <= n && n <= 0xDFFF {
                return None;
            }
            proof {
                lemma_hex_lookup_bound(s@[i as int + 2]);
                lemma_hex_lookup_bound(s@[i as int + 3]);
                lemma_hex_lookup_bound(s@[i as int + 4]);
                lemma_hex_lookup_bound(s@[i as int + 5]);
                assert(n <= 0xFFFF);
            }
            match char_from_u32(n) {
                Some(c2) => {
                    match parse_string_body_exec(s, i + 6) {
                        Some((mut v, j)) => {
                            let ghost rest = v@;
                            v.insert(0, c2);
                            proof {
                                assert(v@ =~= seq![c2] + rest);
                            }
                            Some((v, j))
                        },
                        None => None,
                    }
                },
                None => {
                    proof {
                        assert(false);
                    }
                    None
                },
            }
        } else {
            let c2 = match simple_unescape_exec(e) {
                Some(c2) => c2,
                None => {
                    return None;
                },
            };
            match parse_string_body_exec(s, i + 2) {
                Some((mut v, j)) => {
                    let ghost rest = v@;
                    v.insert(0, c2);
                    proof {
                        assert(v@ =~= seq![c2] + rest);
                    }
                    Some((v, j))
                },
                None => None,
            }
        }
    } else if (c as u32) < 0x20 {
        None
    } else {
        match parse_string_body_exec(s, i + 1) {
            Some((mut v, j)) => {
                let ghost rest = v@;
                v.insert(0, c);
                proof {
                    assert(v@ =~= seq![c] + rest);
                }
                Some((v, j))
            },
            None => None,
        }
    }
}

fn expect_at_exec(s: &Vec<char>, i: usize, t: &Vec<char>) -> (b: bool)
    ensures
        b == expect_at(s@, i as int, t@),
{
    let slen = s.len();
    if i > slen || slen - i < t.len() {
        return false;
    }
    let n = t.len();
    for j in 0..n
        invariant
            n == t@.len(),
            i + n <= slen,
            slen == s@.len(),
            forall|q: int| 0 <= q < j ==> s@[i + q] == t@[q],
    {
        if s[i + j] != t[j] {
            proof {
                if expect_at(s@, i as int, t@) {
                    assert(s@.subrange(i as int, i + t@.len() as int)[j as int] == t@[j as int]);
                }
            }
            return false;
        }
    }
    proof {
        assert(s@.subrange(i as int, i + t@.len() as int) =~= t@);
    }
    true
}

fn key_value_chars() -> (r: Vec<char>)
    ensures
        r@ == key_value(),
{
    let mut r: Vec<char> = Vec::new();
    r.push('"');
    r.push('v');
    r.push('a');
    r.push('l');
    r.push('u');
    r.push('e');
    r.push('"');
    proof {
        assert(r@ =~= key_value());
    }
    r
}

fn key_label_chars() -> (r: Vec<char>)
    ensures
        r@ == key_label(),
{
    let mut r: Vec<char> = Vec::new();
    r.push('"');
    r.push('l');
    r.push('a');
    r.push('b');
    r.push('e');
    r.push('l');
    r.push('"');
    proof {
        assert(r@ =~= key_label());
    }
    r
}

fn parse_member_exec(s: &Vec<char>, i: usize, key: &Vec<char>) -> (r: Option<(Vec<char>, usize)>)
    ensures
        match r {
            Some(p) => parse_member(s@, i as int, key@) == Some((p.0@, p.1 as int)) && p.1
                <= s@.len(),
            None => parse_member(s@, i as int, key@) is None,
        },
{
    if !expect_at_exec(s, i, key) {
        return None;
    }
    let _slen = s.len();
    let j = skip_ws_exec(s, i + key.len());
    if j < s.len() && s[j] == ':' {
        let k = skip_ws_exec(s, j + 1);
        if k < s.len() && s[k] == '"' {
            parse_string_body_exec(s, k + 1)
        } else {
            None
        }
    } else {
        None
    }
}

fn parse_record_exec(s: &Vec<char>, i: usize) -> (r: Option<(SelectOption, usize)>)
    ensures
        match r {
            Some(p) => parse_record(s@, i as int) == Some((p.0@, p.1 as int)) && p.1 <= s@.len(),
            None => parse_record(s@, i as int) is None,
        },
{
    if !(i < s.len() && s[i] == '{') {
        return None;
    }
    let j = skip_ws_exec(s, i + 1);
    let kv = key_value_chars();
    match parse_member_exec(s, j, &kv) {
        None => None,
        Some((v, jv)) => {
            let k = skip_ws_exec(s, jv);
            if k < s.len() && s[k] == ',' {
                let m = skip_ws_exec(s, k + 1);
                let kl = key_label_chars();
                match parse_member_exec(s, m, &kl) {
                    None => None,
                    Some((l, jl)) => {
                        let k2 = skip_ws_exec(s, jl);
                        if k2 < s.len() && s[k2] == '}' {
                            let o = SelectOption {
                                value: chars_to_string(&v),
                                label: chars_to_string(&l),
                            };
                            Some((o, k2 + 1))
                        } else {
                            None
                        }
                    },
                }
            } else {
                None
            }
        },
    }
}

fn parse_items_exec(s: &Vec<char>, i: usize) -> (r: Option<(Vec<SelectOption>, usize)>)
    ensures
        match r {
            Some(p) => parse_items(s@, i as int) == Some((opts_view(p.0@), p.1 as int)) && p.1
                <= s@.len(),
            None => parse_items(s@, i as int) is None,
        },
    decreases s@.len() - i,
{
    match parse_record_exec(s, i) {
        None => None,
        Some((o, j)) => {
            proof {
                lemma_parse_record_bounds(s@, i as int);
            }
            let k = skip_ws_exec(s, j);
            if k < s.len() && s[k] == ',' {
                let m = skip_ws_exec(s, k + 1);
                match parse_items_exec(s, m) {
                    Some((mut rs, e)) => {
                        let ghost tail = rs@;
                        rs.insert(0, o);
                        proof {
                            assert(opts_view(rs@) =~= seq![o@] + opts_view(tail));
                        }
                        Some((rs, e))
                    },
                    None => None,
                }
            } else if k < s.len() && s[k] == ']' {
                let mut rs: Vec<SelectOption> = Vec::new();
                rs.push(o);
                proof {
                    assert(opts_view(rs@) =~= seq![o@]);
                }
                Some((rs, k + 1))
            } else {
                None
            }
        },
    }
}

/// Parse the textual JSON form of an option list: an array of
/// `{"value": <string>, "label": <string>}` records.  Returns the
/// decoded options exactly when the input is valid JSON of that shape,
/// and reports a [`JsonError`] otherwise — malformed input never yields
/// a partial or empty list.
pub fn parse_options(json: &str) -> (r: Result<Vec<SelectOption>, JsonError>)
    ensures
        match r {
            Ok(v) => parse_options_spec(json@) == Some(opts_view(v@)),
            Err(e) => parse_options_spec(json@) is None,
        },
{
    let s = chars_of(json);
    let i = skip_ws_exec(&s, 0);
    if i < s.len() && s[i] == '[' {
        let j = skip_ws_exec(&s, i + 1);
        if j < s.len() && s[j] == ']' {
            let k = skip_ws_exec(&s, j + 1);
            if k == s.len() {
                let v: Vec<SelectOption> = Vec::new();
                proof {
                    assert(opts_view(v@) =~= Seq::<(Seq<char>, Seq<char>)>::empty());
                }
                Ok(v)
            } else {
                Err(JsonError)
            }
        } else {
            match parse_items_exec(&s, j) {
                Some((v, e)) => {
                    let k = skip_ws_exec(&s, e);
                    if k == s.len() {
                        Ok(v)
                    } else {
                        Err(JsonError)
                    }
                },
                None => Err(JsonError),
            }
        }
    } else {
        Err(JsonError)
    }
}

// ------------------------------------------------------------------
// Round trip
// ------------------------------------------------------------------

/// Parsing a serialized string body gives back exactly the original
/// characters, and stops just past the closing quote.
pub proof fn lemma_parse_escaped(s: Seq<char>, i: int, v: Seq<char>, rest: Seq<char>)
    requires
        0 <= i <= s.len(),
        s.subrange(i, s.len() as int) == escape_string(v) + seq!['"'] + rest,
    ensures
        parse_string_body(s, i) == Some((v, s.len() - rest.len())),
    decreases v.len(),
{
    let tail = s.subrange(i, s.len() as int);
    assert forall|q: int| 0 <= q < tail.len() implies #[trigger] tail[q] == s[i + q] by {}
    if v.len() == 0 {
        assert(escape_string(v) == Seq::<char>::empty());
        assert(tail == escape_string(v) + seq!['"'] + rest);
        assert(tail.len() == 1 + rest.len());
        assert(tail[0] == (escape_string(v) + seq!['"'] + rest)[0]);
        assert((escape_string(v) + seq!['"'])[0] == '"');
        assert(tail[0] == '"');
        assert(s[i] == '"');
        assert(s.len() - i == 1 + rest.len());
        assert(v =~= Seq::<char>::empty());
    } else {
        let c = v[0];
        let v1 = v.skip(1);
        let ec = escape_char(c);
        let w = ec.len() as int;
        let r2 = escape_string(v1) + seq!['"'] + rest;
        assert(escape_string(v) == ec + escape_string(v1));
        assert(tail =~= ec + r2);
        assert forall|q: int| 0 <= q < w implies s[i + q] == ec[q] by {
            assert(tail[q] == (ec + r2)[q]);
        }
        assert forall|q: int| 0 <= q < r2.len() implies s[i + w + q] == r2[q] by {
            assert(tail[w + q] == s[i + (w + q)]);
            assert(tail[w + q] == (ec + r2)[w + q]);
        }
        assert(s.len() - (i + w) == r2.len());
        assert(s.subrange(i + w, s.len() as int) =~= r2);
        assert(seq![c] + v1 =~= v);
        if c == '"' {
            assert(ec =~= seq!['\\', '"']);
            assert(s[i] == '\\');
            assert(s[i + 1] == '"');
            lemma_parse_escaped(s, i + 2, v1, rest);
            assert(parse_string_body(s, i) == cons_parsed('"', parse_string_body(s, i + 2)));
        } else if c == '\\' {
            assert(ec =~= seq!['\\', '\\']);
            assert(s[i] == '\\');
            assert(s[i + 1] == '\\');
            lemma_parse_escaped(s, i + 2, v1, rest);
            assert(parse_string_body(s, i) == cons_parsed('\\', parse_string_body(s, i + 2)));
        } else if (c as u32) < 0x20 {
            let cu = c as u32;
            assert(ec =~= seq!['\\', 'u', '0', '0', hex_digit_of(cu / 16), hex_digit_of(cu % 16)]);
            assert(s[i] == '\\');
            assert(s[i + 1] == 'u');
            assert(s[i + 2] == '0');
            assert(s[i + 3] == '0');
            assert(s[i + 4] == hex_digit_of(cu / 16));
            assert(s[i + 5] == hex_digit_of(cu % 16));
            lemma_hex_digit_of_lookup(cu / 16);
            lemma_hex_digit_of_lookup(cu % 16);
            assert(hex_lookup('0') == Some(0u32));
            assert((cu / 16) as int * 16 + (cu % 16) as int == cu as int);
            assert(hex4(s, i + 2) == Some(cu));
            assert(!(0xD800 <= cu && cu <= 0xDFFF));
            vstd::utf8::char_u32_cast(c, cu);
            assert((cu as char) == c);
            lemma_parse_escaped(s, i + 6, v1, rest);
            assert(parse_string_body(s, i) == cons_parsed(c, parse_string_body(s, i + 6)));
        } else {
            assert(ec =~= seq![c]);
            assert(s[i] == c);
            lemma_parse_escaped(s, i + 1, v1, rest);
            assert(parse_string_body(s, i) == cons_parsed(c, parse_string_body(s, i + 1)));
        }
    }
}

/// A suffix of `s` that starts with `c` puts `c` at that position, and
/// the rest one further on.
proof fn lemma_first_char(s: Seq<char>, p: int, c: char, b: Seq<char>)
    requires
        0 <= p <= s.len(),
        s.subrange(p, s.len() as int) == seq![c] + b,
    ensures
        p < s.len(),
        s[p] == c,
        s.subrange(p + 1, s.len() as int) == b,
{
    assert(s.subrange(p, s.len() as int).len() == 1 + b.len());
    assert(s.subrange(p, s.len() as int)[0] == s[p]);
    assert((seq![c] + b)[0] == c);
    assert(s.subrange(p + 1, s.len() as int) =~= b) by {
        assert forall|q: int| 0 <= q < b.len() implies s.subrange(p + 1, s.len() as int)[q] == b[q] by {
            assert(s.subrange(p + 1, s.len() as int)[q] == s[p + 1 + q]);
            assert(s.subrange(p, s.len() as int)[1 + q] == s[p + (1 + q)]);
            assert((seq![c] + b)[1 + q] == b[q]);
        }
    }
}

/// A suffix of `s` that starts with `a` holds `a` there, and the rest
/// just past it.
proof fn lemma_split_prefix(s: Seq<char>, p: int, a: Seq<char>, b: Seq<char>)
    requires
        0 <= p <= s.len(),
        s.subrange(p, s.len() as int) == a + b,
    ensures
        p + a.len() <= s.len(),
        s.subrange(p, p + a.len() as int) == a,
        s.subrange(p + a.len() as int, s.len() as int) == b,
{
    assert(s.subrange(p, s.len() as int).len() == a.len() + b.len());
    let w = a.len() as int;
    assert(s.subrange(p, p + w) =~= a) by {
        assert forall|q: int| 0 <= q < w implies s.subrange(p, p + w)[q] == a[q] by {
            assert(s.subrange(p, p + w)[q] == s[p + q]);
            assert(s.subrange(p, s.len() as int)[q] == s[p + q]);
            assert((a + b)[q] == a[q]);
        }
    }
    assert(s.subrange(p + w, s.len() as int) =~= b) by {
        assert forall|q: int| 0 <= q < b.len() implies s.subrange(p + w, s.len() as int)[q] == b[q] by {
            assert(s.subrange(p + w, s.len() as int)[q] == s[p + w + q]);
            assert(s.subrange(p, s.len() as int)[w + q] == s[p + (w + q)]);
            assert((a + b)[w + q] == b[q]);
        }
    }
}

/// Parsing a serialized record gives back exactly its value/label pair,
/// and stops just past the closing brace.
pub proof fn lemma_parse_record_of(s: Seq<char>, i: int, o: (Seq<char>, Seq<char>), rest: Seq<
    char,
>)
    requires
        0 <= i <= s.len(),
        s.subrange(i, s.len() as int) == record_json(o) + rest,
    ensures
        parse_record(s, i) == Some((o, s.len() - rest.len())),
{
    let ev = escape_string(o.0);
    let el = escape_string(o.1);
    let restv = record_mid().skip(1) + el + record_suffix() + rest;
    let restl = seq!['}'] + rest;
    // Walk the opening brace, the value key, its colon, and the quote
    // that opens the value string.
    assert(s.subrange(i, s.len() as int) =~= seq!['{'] + (key_value() + (seq![':'] + (seq!['"'] + (
    ev + (seq!['"'] + restv))))));
    lemma_first_char(s, i, '{', key_value() + (seq![':'] + (seq!['"'] + (ev + (seq!['"'] + restv)))));
    lemma_split_prefix(s, i + 1, key_value(), seq![':'] + (seq!['"'] + (ev + (seq!['"'] + restv))));
    assert(expect_at(s, i + 1, key_value()));
    lemma_first_char(s, i + 8, ':', seq!['"'] + (ev + (seq!['"'] + restv)));
    lemma_first_char(s, i + 9, '"', ev + (seq!['"'] + restv));
    assert(skip_ws(s, i + 1) == i + 1);
    assert(skip_ws(s, i + 9) == i + 9);
    // The value string.
    assert(s.subrange(i + 10, s.len() as int) =~= ev + seq!['"'] + restv);
    lemma_parse_escaped(s, i + 10, o.0, restv);
    let jv = s.len() - restv.len();
    assert(skip_ws(s, i + 8) == i + 8);
    assert(parse_member(s, i + 1, key_value()) == Some((o.0, jv)));
    // Walk the comma, the label key, its colon, and the quote that opens
    // the label string.
    lemma_split_prefix(s, i + 10, ev, seq!['"'] + restv);
    lemma_first_char(s, i + 10 + ev.len() as int, '"', restv);
    assert(jv == i + 10 + ev.len() + 1);
    assert(s.subrange(jv, s.len() as int) =~= seq![','] + (key_label() + (seq![':'] + (seq!['"'] + (
    el + (seq!['"'] + restl)))))) by {
        assert(s.subrange(jv, s.len() as int) == restv);
        assert(restv =~= seq![','] + (key_label() + (seq![':'] + (seq!['"'] + (el + (seq!['"']
            + restl))))));
    }
    lemma_first_char(s, jv, ',', key_label() + (seq![':'] + (seq!['"'] + (el + (seq!['"'] + restl)))));
    lemma_split_prefix(s, jv + 1, key_label(), seq![':'] + (seq!['"'] + (el + (seq!['"'] + restl))));
    assert(expect_at(s, jv + 1, key_label()));
    lemma_first_char(s, jv + 8, ':', seq!['"'] + (el + (seq!['"'] + restl)));
    lemma_first_char(s, jv + 9, '"', el + (seq!['"'] + restl));
    assert(skip_ws(s, jv) == jv);
    assert(skip_ws(s, jv + 1) == jv + 1);
    assert(skip_ws(s, jv + 9) == jv + 9);
    // The label string.
    assert(s.subrange(jv + 10, s.len() as int) =~= el + seq!['"'] + restl);
    lemma_parse_escaped(s, jv + 10, o.1, restl);
    let jl = s.len() - restl.len();
    assert(skip_ws(s, jv + 8) == jv + 8);
    assert(parse_member(s, jv + 1, key_label()) == Some((o.1, jl)));
    // The closing brace.
    lemma_split_prefix(s, jv + 10, el, seq!['"'] + restl);
    lemma_first_char(s, jv + 10 + el.len() as int, '"', restl);
    assert(jl == jv + 10 + el.len() + 1);
    lemma_first_char(s, jl, '}', rest);
    assert(skip_ws(s, jl) == jl);
    assert(parse_record(s, i) == Some(((o.0, o.1), jl + 1)));
    assert((o.0, o.1) == o);
}

/// A non-empty serialized record run opens with a brace.
proof fn lemma_items_json_first(opts: Seq<(Seq<char>, Seq<char>)>)
    requires
        opts.len() >= 1,
    ensures
        items_json(opts).len() >= 1,
        items_json(opts)[0] == '{',
{
    let rn = record_json(opts[0]);
    assert(record_prefix()[0] == '{');
    assert(rn[0] == '{');
    assert(rn.len() >= 1);
    if opts.len() == 1 {
        assert(items_json(opts) == rn);
    } else {
        assert(items_json(opts) == rn + seq![','] + items_json(opts.skip(1)));
        assert((rn + seq![','] + items_json(opts.skip(1)))[0] == rn[0]);
    }
}

/// Parsing a serialized run of records, closed by a bracket, gives back
/// exactly those records in order.
pub proof fn lemma_parse_items_of(
    s: Seq<char>,
    i: int,
    opts: Seq<(Seq<char>, Seq<char>)>,
    rest: Seq<char>,
)
    requires
        0 <= i <= s.len(),
        opts.len() >= 1,
        s.subrange(i, s.len() as int) == items_json(opts) + seq![']'] + rest,
    ensures
        parse_items(s, i) == Some((opts, s.len() - rest.len())),
    decreases opts.len(),
{
    let r0 = record_json(opts[0]);
    if opts.len() == 1 {
        assert(items_json(opts) == r0);
        let restr = seq![']'] + rest;
        assert(s.subrange(i, s.len() as int) =~= r0 + restr);
        lemma_parse_record_of(s, i, opts[0], restr);
        let j = s.len() - restr.len();
        lemma_split_prefix(s, i, r0, restr);
        assert(j == i + r0.len());
        lemma_first_char(s, j, ']', rest);
        assert(skip_ws(s, j) == j);
        assert(parse_items(s, i) == Some((seq![opts[0]], j + 1)));
        assert(seq![opts[0]] =~= opts);
    } else {
        assert(items_json(opts) == r0 + seq![','] + items_json(opts.skip(1)));
        let tail1 = items_json(opts.skip(1)) + seq![']'] + rest;
        let restr = seq![','] + tail1;
        assert(s.subrange(i, s.len() as int) =~= r0 + restr);
        lemma_parse_record_of(s, i, opts[0], restr);
        let j = s.len() - restr.len();
        lemma_split_prefix(s, i, r0, restr);
        assert(j == i + r0.len());
        lemma_first_char(s, j, ',', tail1);
        assert(skip_ws(s, j) == j);
        lemma_items_json_first(opts.skip(1));
        assert(s[j + 1] == '{') by {
            assert(s.subrange(j + 1, s.len() as int)[0] == s[j + 1]);
            assert(tail1[0] == items_json(opts.skip(1))[0]);
        }
        assert(skip_ws(s, j + 1) == j + 1);
        lemma_parse_items_of(s, j + 1, opts.skip(1), rest);
        assert(parse_items(s, i) == Some((seq![opts[0]] + opts.skip(1), s.len() - rest.len())));
        assert(seq![opts[0]] + opts.skip(1) =~= opts);
    }
}

/// The round trip: parsing the serialized form of any option list gives
/// back exactly that option list.  Together with the contracts of
/// [`options_to_json`] and [`parse_options`], this says the structured
/// path and the textual path meet in the same value.
pub proof fn lemma_options_json_round_trip(opts: Seq<(Seq<char>, Seq<char>)>)
    ensures
        parse_options_spec(options_json(opts)) == Some(opts),
{
    let s = options_json(opts);
    assert(s.subrange(0, s.len() as int) =~= seq!['['] + (items_json(opts) + seq![']']));
    lemma_first_char(s, 0, '[', items_json(opts) + seq![']']);
    assert(skip_ws(s, 0) == 0);
    if opts.len() == 0 {
        assert(items_json(opts) == Seq::<char>::empty());
        assert(s =~= seq!['[', ']']);
        assert(s[1] == ']');
        assert(skip_ws(s, 1) == 1);
        assert(skip_ws(s, 2) == 2);
        assert(parse_options_spec(s) == Some(Seq::<(Seq<char>, Seq<char>)>::empty()));
        assert(opts =~= Seq::<(Seq<char>, Seq<char>)>::empty());
    } else {
        lemma_items_json_first(opts);
        assert(s[1] == '{') by {
            assert(s.subrange(1, s.len() as int)[0] == s[1]);
            assert((items_json(opts) + seq![']'])[0] == items_json(opts)[0]);
        }
        assert(skip_ws(s, 1) == 1);
        assert(s.subrange(1, s.len() as int) =~= items_json(opts) + seq![']'] + Seq::<
            char,
        >::empty());
        lemma_parse_items_of(s, 1, opts, Seq::<char>::empty());
        assert(parse_items(s, 1) == Some((opts, s.len() as int)));
        assert(skip_ws(s, s.len() as int) == s.len());
        assert(parse_options_spec(s) == Some(opts));
    }
}

} // verus!
