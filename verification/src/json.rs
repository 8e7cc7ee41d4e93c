//! JSON string literals as `serde_json` writes them, and how they read back.

use vstd::prelude::*;

verus! {

/// The error type of `serde_json`, carried through unchanged.
#[verifier::external_type_specification]
#[verifier::external_body]
pub struct ExSerdeJsonError(serde_json::Error);

/// The lowercase hexadecimal digit for `d`, which lies below 16.
pub open spec fn hex_digit(d: int) -> char {
    if d < 10 {
        (('0' as int) + d) as char
    } else {
        (('a' as int) + d - 10) as char
    }
}

/// The value of the lowercase hexadecimal digit `c`.
pub open spec fn hex_value(c: char) -> int {
    if c <= '9' {
        (c as int) - ('0' as int)
    } else {
        (c as int) - ('a' as int) + 10
    }
}

/// How `serde_json` writes the character `c` inside a string literal: a
/// quote and a backslash are escaped, backspace, tab, line feed, form feed
/// and carriage return take their short escapes, the other characters below
/// U+0020 become `\u00` and two lowercase hex digits, and every other
/// character stands as it is.
pub open spec fn json_escape_char(c: char) -> Seq<char> {
    if c == '"' {
        seq!['\\', '"']
    } else if c == '\\' {
        seq!['\\', '\\']
    } else if c == '\u{8}' {
        seq!['\\', 'b']
    } else if c == '\t' {
        seq!['\\', 't']
    } else if c == '\n' {
        seq!['\\', 'n']
    } else if c == '\u{c}' {
        seq!['\\', 'f']
    } else if c == '\r' {
        seq!['\\', 'r']
    } else if (c as int) < 0x20 {
        seq!['\\', 'u', '0', '0', hex_digit((c as int) / 16), hex_digit((c as int) % 16)]
    } else {
        seq![c]
    }
}

/// The escaped contents of a JSON string literal for `s`.
pub open spec fn json_escape(s: Seq<char>) -> Seq<char>
    decreases s.len(),
{
    if s.len() == 0 {
        Seq::empty()
    } else {
        json_escape_char(s[0]) + json_escape(s.drop_first())
    }
}

/// The JSON string literal that `serde_json::to_string` writes for `s`.
pub open spec fn json_string_literal(s: Seq<char>) -> Seq<char> {
    seq!['"'] + json_escape(s) + seq!['"']
}

/// The character that a short escape `\k` stands for.
pub open spec fn short_escape_value(k: char) -> char {
    if k == 'b' {
        '\u{8}'
    } else if k == 't' {
        '\t'
    } else if k == 'n' {
        '\n'
    } else if k == 'f' {
        '\u{c}'
    } else if k == 'r' {
        '\r'
    } else {
        k
    }
}

/// The characters that the escaped contents `e` of a JSON string literal
/// stand for, as a JSON reader decodes them.
pub open spec fn json_unescape(e: Seq<char>) -> Seq<char>
    decreases e.len(),
{
    if e.len() == 0 {
        Seq::empty()
    } else if e[0] == '\\' && e.len() >= 6 && e[1] == 'u' {
        seq![
            ((((hex_value(e[2]) * 16 + hex_value(e[3])) * 16 + hex_value(e[4])) * 16 + hex_value(
                e[5],
            ))) as char,
        ] + json_unescape(e.subrange(6, e.len() as int))
    } else if e[0] == '\\' && e.len() >= 2 {
        seq![short_escape_value(e[1])] + json_unescape(e.subrange(2, e.len() as int))
    } else {
        seq![e[0]] + json_unescape(e.drop_first())
    }
}

/// Reading back the escape of one character gives that character.
proof fn lemma_unescape_one(c: char, rest: Seq<char>)
    ensures
        json_unescape(json_escape_char(c) + rest) == seq![c] + json_unescape(rest),
{
    let e = json_escape_char(c) + rest;
    if c == '"' || c == '\\' || c == '\u{8}' || c == '\t' || c == '\n' || c == '\u{c}' || c
        == '\r' {
        assert(e.subrange(2, e.len() as int) =~= rest);
    } else if (c as int) < 0x20 {
        let v: int = c as int;
        assert(hex_value(hex_digit(v / 16)) == v / 16);
        assert(hex_value(hex_digit(v % 16)) == v % 16);
        assert(hex_value('0') == 0);
        assert(e.subrange(6, e.len() as int) =~= rest);
        assert(((0 * 16 + 0) * 16 + v / 16) * 16 + v % 16 == v);
    } else {
        assert(e.drop_first() =~= rest);
    }
}

/// Reading back the escaped contents of `s` gives `s`: the literal carries
/// the string unchanged.
pub proof fn lemma_json_escape_round_trip(s: Seq<char>)
    ensures
        json_unescape(json_escape(s)) == s,
    decreases s.len(),
{
    if s.len() > 0 {
        lemma_json_escape_round_trip(s.drop_first());
        lemma_unescape_one(s[0], json_escape(s.drop_first()));
        assert(seq![s[0]] + s.drop_first() =~= s);
    }
}

/// The escaping of `s` determines `s`.
pub proof fn lemma_json_escape_injective(s1: Seq<char>, s2: Seq<char>)
    requires
        json_escape(s1) == json_escape(s2),
    ensures
        s1 == s2,
{
    lemma_json_escape_round_trip(s1);
    lemma_json_escape_round_trip(s2);
}

/// Where a reader finds the closing quote of a literal whose escaped
/// contents begin `e`: the position of the first quote that no backslash
/// escapes.
pub open spec fn closing_quote(e: Seq<char>) -> int
    decreases e.len(),
{
    if e.len() == 0 {
        0
    } else if e[0] == '\\' && e.len() >= 2 {
        2 + closing_quote(e.subrange(2, e.len() as int))
    } else if e[0] == '"' {
        0
    } else {
        1 + closing_quote(e.drop_first())
    }
}

proof fn lemma_closing_quote_skips_one(c: char, t: Seq<char>)
    ensures
        closing_quote(json_escape_char(c) + t) == json_escape_char(c).len() + closing_quote(t),
{
    let e = json_escape_char(c) + t;
    if c == '"' || c == '\\' || c == '\u{8}' || c == '\t' || c == '\n' || c == '\u{c}' || c
        == '\r' {
        assert(e.subrange(2, e.len() as int) =~= t);
    } else if (c as int) < 0x20 {
        let v: int = c as int;
        let e2 = e.subrange(2, e.len() as int);
        let e3 = e2.drop_first();
        let e4 = e3.drop_first();
        let e5 = e4.drop_first();
        let e6 = e5.drop_first();
        assert(e2[0] == '0');
        assert(e3[0] == '0');
        assert(e4[0] == hex_digit(v / 16));
        assert(e5[0] == hex_digit(v % 16));
        assert(e6 =~= t);
        assert(e4[0] != '\\' && e4[0] != '"');
        assert(e5[0] != '\\' && e5[0] != '"');
        assert(closing_quote(e5) == 1 + closing_quote(t));
        assert(closing_quote(e4) == 1 + closing_quote(e5));
        assert(closing_quote(e3) == 1 + closing_quote(e4));
        assert(closing_quote(e2) == 1 + closing_quote(e3));
        assert(closing_quote(e) == 2 + closing_quote(e2));
    } else {
        assert(e.drop_first() =~= t);
    }
}

/// In escaped contents followed by a quote, a reader's closing quote is that
/// quote: no character of the contents ends the literal early.
pub proof fn lemma_closing_quote_of_escape(s: Seq<char>, t: Seq<char>)
    ensures
        closing_quote(json_escape(s) + seq!['"'] + t) == json_escape(s).len(),
    decreases s.len(),
{
    if s.len() == 0 {
        assert(json_escape(s) + seq!['"'] + t =~= seq!['"'] + t);
    } else {
        let rest = json_escape(s.drop_first()) + seq!['"'] + t;
        lemma_closing_quote_of_escape(s.drop_first(), t);
        lemma_closing_quote_skips_one(s[0], rest);
        assert(json_escape(s) + seq!['"'] + t =~= json_escape_char(s[0]) + rest);
    }
}

/// Calls `serde_json::to_string` on the string slice `s`. Its source writes
/// into a `Vec<u8>`, which never fails, and serializing a `str` raises no
/// error of its own, so the call succeeds; the text is the quoted literal
/// with the escapes of `format_escaped_str`.
#[verifier::external_body]
pub(crate) fn json_string(s: &str) -> (res: Result<String, serde_json::Error>)
    ensures
        res is Ok,
        res matches Ok(text) ==> text@ == json_string_literal(s@),
{
    serde_json::to_string(s)
}

} // verus!
