//! The `metadata.json` file format: what the harness writes for every
//! task instance, and how it reads such files back.
//!
//! The writer produces the pretty two-space-indented rendering of the
//! seven-field record.  The reader accepts any flat JSON object with
//! string and unsigned-integer members, in any order and with any
//! inter-token white space; in string literals it accepts the named
//! escapes and `\u00XX` for the control characters the writer itself
//! emits, but no other `\u` escapes.

use vstd::prelude::*;

use crate::eval::types::RunMetaData;
use crate::text::{spec_dec, u32_dec};

verus! {

/// The lower-case hexadecimal digit for `d` in `0..16`.
pub open spec fn spec_hex_digit(d: int) -> char {
    if d == 0 { '0' }
    else if d == 1 { '1' }
    else if d == 2 { '2' }
    else if d == 3 { '3' }
    else if d == 4 { '4' }
    else if d == 5 { '5' }
    else if d == 6 { '6' }
    else if d == 7 { '7' }
    else if d == 8 { '8' }
    else if d == 9 { '9' }
    else if d == 10 { 'a' }
    else if d == 11 { 'b' }
    else if d == 12 { 'c' }
    else if d == 13 { 'd' }
    else if d == 14 { 'e' }
    else { 'f' }
}

fn hex_digit_str(d: u32) -> (r: &'static str)
    requires
        d < 16,
    ensures
        r@ =~= seq![spec_hex_digit(d as int)],
{
    proof {
        reveal_strlit("0");
        reveal_strlit("1");
        reveal_strlit("2");
        reveal_strlit("3");
        reveal_strlit("4");
        reveal_strlit("5");
        reveal_strlit("6");
        reveal_strlit("7");
        reveal_strlit("8");
        reveal_strlit("9");
        reveal_strlit("a");
        reveal_strlit("b");
        reveal_strlit("c");
        reveal_strlit("d");
        reveal_strlit("e");
        reveal_strlit("f");
    }
    match d {
        0 => "0",
        1 => "1",
        2 => "2",
        3 => "3",
        4 => "4",
        5 => "5",
        6 => "6",
        7 => "7",
        8 => "8",
        9 => "9",
        10 => "a",
        11 => "b",
        12 => "c",
        13 => "d",
        14 => "e",
        _ => "f",
    }
}

/// How one character is written inside a JSON string literal: quote and
/// backslash get a backslash, the named control characters their short
/// escapes, any other control character its `\u00XX` form, and everything
/// else stands as itself.
pub open spec fn spec_escape_char(c: char) -> Seq<char> {
    if c == '"' {
        seq!['\\', '"']
    } else if c == '\\' {
        seq!['\\', '\\']
    } else if c == '\u{8}' {
        seq!['\\', 'b']
    } else if c == '\u{c}' {
        seq!['\\', 'f']
    } else if c == '\n' {
        seq!['\\', 'n']
    } else if c == '\r' {
        seq!['\\', 'r']
    } else if c == '\t' {
        seq!['\\', 't']
    } else if (c as u32) < 0x20 {
        seq!['\\', 'u', '0', '0', spec_hex_digit(c as u32 as int / 16), spec_hex_digit(c as u32 as int % 16)]
    } else {
        seq![c]
    }
}

/// A whole string escaped for a JSON string literal, character by
/// character.
pub open spec fn spec_escape(s: Seq<char>) -> Seq<char>
    decreases s.len(),
{
    if s.len() == 0 {
        Seq::empty()
    } else {
        spec_escape_char(s[0]) + spec_escape(s.skip(1))
    }
}

proof fn lemma_escape_push(t: Seq<char>, c: char)
    ensures
        spec_escape(t.push(c)) =~= spec_escape(t) + spec_escape_char(c),
    decreases t.len(),
{
    if t.len() == 0 {
        assert(t.push(c)[0] == c);
        assert(t.push(c).skip(1) =~= Seq::<char>::empty());
        assert(spec_escape(t.push(c)) == spec_escape_char(c) + spec_escape(
            Seq::<char>::empty(),
        ));
        assert(spec_escape_char(c) + spec_escape(Seq::<char>::empty()) =~= spec_escape(t)
            + spec_escape_char(c));
    } else {
        assert(t.push(c)[0] == t[0]);
        assert(t.push(c).skip(1) =~= t.skip(1).push(c));
        lemma_escape_push(t.skip(1), c);
        assert(spec_escape(t) == spec_escape_char(t[0]) + spec_escape(t.skip(1)));
        assert(spec_escape(t.push(c)) == spec_escape_char(t[0]) + spec_escape(t.skip(1).push(c)));
        assert(spec_escape_char(t[0]) + spec_escape(t.skip(1).push(c)) =~= spec_escape_char(t[0])
            + (spec_escape(t.skip(1)) + spec_escape_char(c)));
        assert(spec_escape_char(t[0]) + (spec_escape(t.skip(1)) + spec_escape_char(c)) =~= (
        spec_escape_char(t[0]) + spec_escape(t.skip(1))) + spec_escape_char(c));
    }
}

/// Escapes `s` for embedding in a JSON string literal.
pub fn json_escape(s: &str) -> (r: String)
    ensures
        r@ == spec_escape(s@),
{
    let len = s.unicode_len();
    let mut r = String::new();
    proof {
        assert(s@.take(0) =~= Seq::<char>::empty());
    }
    let mut i: usize = 0;
    while i < len
        invariant
            i <= len,
            len == s@.len(),
            r@ == spec_escape(s@.take(i as int)),
        decreases len - i,
    {
        let c = s.get_char(i);
        if c == '"' {
            r.append("\\\"");
            proof {
                reveal_strlit("\\\"");
                assert("\\\""@ =~= spec_escape_char(c));
            }
        } else if c == '\\' {
            r.append("\\\\");
            proof {
                reveal_strlit("\\\\");
                assert("\\\\"@ =~= spec_escape_char(c));
            }
        } else if c == '\u{8}' {
            r.append("\\b");
            proof {
                reveal_strlit("\\b");
                assert("\\b"@ =~= spec_escape_char(c));
            }
        } else if c == '\u{c}' {
            r.append("\\f");
            proof {
                reveal_strlit("\\f");
                assert("\\f"@ =~= spec_escape_char(c));
            }
        } else if c == '\n' {
            r.append("\\n");
            proof {
                reveal_strlit("\\n");
                assert("\\n"@ =~= spec_escape_char(c));
            }
        } else if c == '\r' {
            r.append("\\r");
            proof {
                reveal_strlit("\\r");
                assert("\\r"@ =~= spec_escape_char(c));
            }
        } else if c == '\t' {
            r.append("\\t");
            proof {
                reveal_strlit("\\t");
                assert("\\t"@ =~= spec_escape_char(c));
            }
        } else if (c as u32) < 0x20 {
            let v = c as u32;
            r.append("\\u00");
            r.append(hex_digit_str(v / 16));
            r.append(hex_digit_str(v % 16));
            proof {
                reveal_strlit("\\u00");
                assert("\\u00"@ + seq![spec_hex_digit(v as int / 16)] + seq![
                    spec_hex_digit(v as int % 16),
                ] =~= spec_escape_char(c));
            }
        } else {
            let piece = s.substring_char(i, i + 1);
            r.append(piece);
            proof {
                assert(s@.subrange(i as int, i + 1) =~= seq![s@[i as int]]);
                assert(seq![s@[i as int]] =~= spec_escape_char(c));
            }
        }
        proof {
            assert(s@.take(i + 1) =~= s@.take(i as int).push(s@[i as int]));
            lemma_escape_push(s@.take(i as int), s@[i as int]);
        }
        i = i + 1;
    }
    proof {
        assert(s@.take(len as int) =~= s@);
    }
    r
}

/// The exact text the harness persists for a metadata record: the pretty
/// two-space-indented JSON object with the seven fields in declaration
/// order.
pub open spec fn spec_metadata_json(
    agent: Seq<char>,
    layer: Seq<char>,
    app: Seq<char>,
    status: Seq<char>,
    repeat: int,
    source_framework: Seq<char>,
    target_framework: Seq<char>,
) -> Seq<char> {
    "{\n  \"agent\": \""@ + spec_escape(agent) + "\",\n  \"layer\": \""@ + spec_escape(layer)
        + "\",\n  \"app\": \""@ + spec_escape(app) + "\",\n  \"status\": \""@ + spec_escape(status)
        + "\",\n  \"repeat\": "@ + spec_dec(repeat) + ",\n  \"source_framework\": \""@
        + spec_escape(source_framework) + "\",\n  \"target_framework\": \""@ + spec_escape(
        target_framework,
    ) + "\"\n}"@
}

/// Renders a metadata record as the harness persists it.
pub fn metadata_to_json(m: &RunMetaData) -> (r: String)
    ensures
        r@ == spec_metadata_json(
            m.agent@,
            m.layer@,
            m.app@,
            m.status@,
            m.repeat as int,
            m.source_framework@,
            m.target_framework@,
        ),
{
    let mut r = "{\n  \"agent\": \"".to_owned();
    r.append(json_escape(m.agent.as_str()).as_str());
    r.append("\",\n  \"layer\": \"");
    r.append(json_escape(m.layer.as_str()).as_str());
    r.append("\",\n  \"app\": \"");
    r.append(json_escape(m.app.as_str()).as_str());
    r.append("\",\n  \"status\": \"");
    r.append(json_escape(m.status.as_str()).as_str());
    r.append("\",\n  \"repeat\": ");
    r.append(u32_dec(m.repeat).as_str());
    r.append(",\n  \"source_framework\": \"");
    r.append(json_escape(m.source_framework.as_str()).as_str());
    r.append("\",\n  \"target_framework\": \"");
    r.append(json_escape(m.target_framework.as_str()).as_str());
    r.append("\"\n}");
    r
}

} // verus!
