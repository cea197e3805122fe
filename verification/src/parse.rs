//! The `metadata.json` reader.
//!
//! Accepts a flat JSON object of string and unsigned-integer members, in
//! any member order and with any inter-token white space.  String literals
//! may use the named escapes and `\u00XX` for control characters — the
//! forms the writer emits — but no other `\u` escapes.  Anything the
//! grammar here rejects is a metadata fault of the one instance involved.

use vstd::prelude::*;

use crate::eval::types::{RunMetaData, RunMetaDataV};
use crate::json::{spec_escape, spec_escape_char, spec_hex_digit, spec_metadata_json};
use crate::text::{spec_dec, spec_digit, str_eq};
use crate::validate::types::{
    spec_framework_of, spec_status_of, Metadata, MetadataV, parse_framework, parse_status,
};

verus! {

/// JSON inter-token white space.
pub open spec fn spec_is_ws(c: char) -> bool {
    c == ' ' || c == '\t' || c == '\n' || c == '\r'
}

/// The first position at or after `i` holding something other than white
/// space (or the end of the text).
pub open spec fn spec_skip_ws(s: Seq<char>, i: int) -> int
    decreases s.len() - i,
{
    if 0 <= i < s.len() && spec_is_ws(s[i]) {
        spec_skip_ws(s, i + 1)
    } else {
        i
    }
}

fn skip_ws(s: &str, i: usize) -> (r: usize)
    requires
        i <= s@.len(),
    ensures
        r == spec_skip_ws(s@, i as int),
        i <= r <= s@.len(),
{
    let len = s.unicode_len();
    let mut j = i;
    loop
        invariant
            i <= j <= len,
            len == s@.len(),
            spec_skip_ws(s@, i as int) == spec_skip_ws(s@, j as int),
        ensures
            i <= j <= len,
            j == spec_skip_ws(s@, i as int),
        decreases len - j,
    {
        if j >= len {
            break;
        }
        let c = s.get_char(j);
        if !(c == ' ' || c == '\t' || c == '\n' || c == '\r') {
            break;
        }
        j = j + 1;
    }
    j
}

/// The character a single-letter escape stands for; `None` for a letter
/// that is no escape.
pub open spec fn spec_unescape(c: char) -> Option<char> {
    if c == '"' {
        Some('"')
    } else if c == '\\' {
        Some('\\')
    } else if c == '/' {
        Some('/')
    } else if c == 'b' {
        Some('\u{8}')
    } else if c == 'f' {
        Some('\u{c}')
    } else if c == 'n' {
        Some('\n')
    } else if c == 'r' {
        Some('\r')
    } else if c == 't' {
        Some('\t')
    } else {
        None
    }
}

fn unescape_str(c: char) -> (r: Option<&'static str>)
    ensures
        match r {
            Some(p) => spec_unescape(c) == Some(p@[0]) && p@.len() == 1,
            None => spec_unescape(c) is None,
        },
{
    proof {
        reveal_strlit("\"");
        reveal_strlit("\\");
        reveal_strlit("/");
        reveal_strlit("\u{8}");
        reveal_strlit("\u{c}");
        reveal_strlit("\n");
        reveal_strlit("\r");
        reveal_strlit("\t");
    }
    if c == '"' {
        Some("\"")
    } else if c == '\\' {
        Some("\\")
    } else if c == '/' {
        Some("/")
    } else if c == 'b' {
        Some("\u{8}")
    } else if c == 'f' {
        Some("\u{c}")
    } else if c == 'n' {
        Some("\n")
    } else if c == 'r' {
        Some("\r")
    } else if c == 't' {
        Some("\t")
    } else {
        None
    }
}

/// The value of a hexadecimal digit, or -1 for any other character.
pub open spec fn spec_hex_val(c: char) -> int {
    if '0' as int <= c as int && c as int <= '9' as int {
        c as int - '0' as int
    } else if 'a' as int <= c as int && c as int <= 'f' as int {
        10 + c as int - 'a' as int
    } else if 'A' as int <= c as int && c as int <= 'F' as int {
        10 + c as int - 'A' as int
    } else {
        -1
    }
}

fn hex_val(c: char) -> (r: Option<u32>)
    ensures
        match r {
            Some(v) => spec_hex_val(c) == v && v < 16,
            None => spec_hex_val(c) < 0,
        },
{
    let u = c as u32;
    if '0' as u32 <= u && u <= '9' as u32 {
        Some(u - '0' as u32)
    } else if 'a' as u32 <= u && u <= 'f' as u32 {
        Some(10 + (u - 'a' as u32))
    } else if 'A' as u32 <= u && u <= 'F' as u32 {
        Some(10 + (u - 'A' as u32))
    } else {
        None
    }
}

fn control_str(v: u32) -> (r: &'static str)
    requires
        v < 0x20,
    ensures
        r@.len() == 1,
        r@[0] as u32 == v,
{
    proof {
        reveal_strlit("\u{0}");
        reveal_strlit("\u{1}");
        reveal_strlit("\u{2}");
        reveal_strlit("\u{3}");
        reveal_strlit("\u{4}");
        reveal_strlit("\u{5}");
        reveal_strlit("\u{6}");
        reveal_strlit("\u{7}");
        reveal_strlit("\u{8}");
        reveal_strlit("\u{9}");
        reveal_strlit("\u{a}");
        reveal_strlit("\u{b}");
        reveal_strlit("\u{c}");
        reveal_strlit("\u{d}");
        reveal_strlit("\u{e}");
        reveal_strlit("\u{f}");
        reveal_strlit("\u{10}");
        reveal_strlit("\u{11}");
        reveal_strlit("\u{12}");
        reveal_strlit("\u{13}");
        reveal_strlit("\u{14}");
        reveal_strlit("\u{15}");
        reveal_strlit("\u{16}");
        reveal_strlit("\u{17}");
        reveal_strlit("\u{18}");
        reveal_strlit("\u{19}");
        reveal_strlit("\u{1a}");
        reveal_strlit("\u{1b}");
        reveal_strlit("\u{1c}");
        reveal_strlit("\u{1d}");
        reveal_strlit("\u{1e}");
        reveal_strlit("\u{1f}");
    }
    match v {
        0 => "\u{0}",
        1 => "\u{1}",
        2 => "\u{2}",
        3 => "\u{3}",
        4 => "\u{4}",
        5 => "\u{5}",
        6 => "\u{6}",
        7 => "\u{7}",
        8 => "\u{8}",
        9 => "\u{9}",
        10 => "\u{a}",
        11 => "\u{b}",
        12 => "\u{c}",
        13 => "\u{d}",
        14 => "\u{e}",
        15 => "\u{f}",
        16 => "\u{10}",
        17 => "\u{11}",
        18 => "\u{12}",
        19 => "\u{13}",
        20 => "\u{14}",
        21 => "\u{15}",
        22 => "\u{16}",
        23 => "\u{17}",
        24 => "\u{18}",
        25 => "\u{19}",
        26 => "\u{1a}",
        27 => "\u{1b}",
        28 => "\u{1c}",
        29 => "\u{1d}",
        30 => "\u{1e}",
        _ => "\u{1f}",
    }
}

/// The body of a JSON string literal from position `i` (just past the
/// opening quote): the decoded content and the position just past the
/// closing quote.  Raw control characters and unsupported escapes fail.
pub open spec fn spec_str_body(s: Seq<char>, i: int) -> Option<(Seq<char>, int)>
    decreases s.len() - i,
{
    if i < 0 || i >= s.len() {
        None
    } else if s[i] == '"' {
        Some((Seq::empty(), i + 1))
    } else if s[i] == '\\' {
        if i + 1 < s.len() {
            if s[i + 1] == 'u' {
                if i + 5 < s.len() && s[i + 2] == '0' && s[i + 3] == '0' && spec_hex_val(s[i + 4])
                    >= 0 && spec_hex_val(s[i + 5]) >= 0 && spec_hex_val(s[i + 4]) * 16
                    + spec_hex_val(s[i + 5]) < 0x20 {
                    let c = (spec_hex_val(s[i + 4]) * 16 + spec_hex_val(s[i + 5])) as char;
                    match spec_str_body(s, i + 6) {
                        None => None,
                        Some((rest, e)) => Some((seq![c] + rest, e)),
                    }
                } else {
                    None
                }
            } else {
                match spec_unescape(s[i + 1]) {
                    None => None,
                    Some(c) => match spec_str_body(s, i + 2) {
                        None => None,
                        Some((rest, e)) => Some((seq![c] + rest, e)),
                    },
                }
            }
        } else {
            None
        }
    } else if (s[i] as u32) < 0x20 {
        None
    } else {
        match spec_str_body(s, i + 1) {
            None => None,
            Some((rest, e)) => Some((seq![s[i]] + rest, e)),
        }
    }
}

/// A JSON string literal at position `i`: opening quote, body, closing
/// quote; the decoded content and the position just past it.
pub open spec fn spec_parse_string(s: Seq<char>, i: int) -> Option<(Seq<char>, int)> {
    if 0 <= i < s.len() && s[i] == '"' {
        spec_str_body(s, i + 1)
    } else {
        None
    }
}

proof fn lemma_str_body_end(s: Seq<char>, i: int)
    requires
        spec_str_body(s, i) is Some,
    ensures
        i < spec_str_body(s, i).unwrap().1 <= s.len(),
    decreases s.len() - i,
{
    if 0 <= i < s.len() {
        if s[i] == '"' {
        } else if s[i] == '\\' {
            if s[i + 1] == 'u' {
                lemma_str_body_end(s, i + 6);
            } else {
                lemma_str_body_end(s, i + 2);
            }
        } else if (s[i] as u32) < 0x20 {
        } else {
            lemma_str_body_end(s, i + 1);
        }
    }
}

fn parse_string(s: &str, i: usize) -> (r: Option<(String, usize)>)
    requires
        i <= s@.len(),
    ensures
        match r {
            Some(p) => spec_parse_string(s@, i as int) == Some((p.0@, p.1 as int)) && i < p.1
                <= s@.len(),
            None => spec_parse_string(s@, i as int) is None,
        },
{
    let len = s.unicode_len();
    if i >= len || s.get_char(i) != '"' {
        return None;
    }
    let mut out = String::new();
    let mut j = i + 1;
    loop
        invariant
            i + 1 <= j <= len,
            len == s@.len(),
            s@[i as int] == '"',
            match spec_str_body(s@, j as int) {
                None => spec_str_body(s@, i + 1) is None,
                Some((t, e)) => spec_str_body(s@, i + 1) == Some((out@ + t, e)),
            },
        decreases len - j,
    {
        if j >= len {
            return None;
        }
        let c = s.get_char(j);
        if c == '"' {
            proof {
                assert(spec_str_body(s@, j as int) == Some((Seq::<char>::empty(), j + 1)));
                assert(out@ + Seq::<char>::empty() =~= out@);
                lemma_str_body_end(s@, i + 1);
            }
            return Some((out, j + 1));
        } else if c == '\\' {
            if j + 1 >= len {
                return None;
            }
            let e1 = s.get_char(j + 1);
            if e1 == 'u' {
                if len - j <= 5 {
                    return None;
                }
                if s.get_char(j + 2) != '0' || s.get_char(j + 3) != '0' {
                    return None;
                }
                let h1 = match hex_val(s.get_char(j + 4)) {
                    Some(h) => h,
                    None => {
                        return None;
                    },
                };
                let h2 = match hex_val(s.get_char(j + 5)) {
                    Some(h) => h,
                    None => {
                        return None;
                    },
                };
                let v = h1 * 16 + h2;
                if v >= 0x20 {
                    return None;
                }
                let ghost old_out = out@;
                let piece = control_str(v);
                out.append(piece);
                proof {
                    let c0 = (spec_hex_val(s@[j + 4]) * 16 + spec_hex_val(s@[j + 5])) as char;
                    assert(spec_hex_val(s@[j + 4]) * 16 + spec_hex_val(s@[j + 5]) == v as int);
                    assert(piece@[0] as u32 == v);
                    vstd::utf8::char_u32_cast(piece@[0], v);
                    assert(v as char == piece@[0]);
                    assert(piece@[0] == c0);
                    assert(out@ =~= old_out + seq![c0]);
                    if let Some((t, e)) = spec_str_body(s@, j + 6) {
                        assert(spec_str_body(s@, j as int) == Some((seq![c0] + t, e)));
                        assert(old_out + (seq![c0] + t) =~= out@ + t);
                    }
                }
                j = j + 6;
            } else {
                let piece = match unescape_str(e1) {
                    Some(p) => p,
                    None => {
                        return None;
                    },
                };
                let ghost old_out = out@;
                out.append(piece);
                proof {
                    let c0 = spec_unescape(s@[j + 1]).unwrap();
                    assert(piece@ =~= seq![c0]);
                    assert(out@ =~= old_out + seq![c0]);
                    if let Some((t, e)) = spec_str_body(s@, j + 2) {
                        assert(spec_str_body(s@, j as int) == Some((seq![c0] + t, e)));
                        assert(old_out + (seq![c0] + t) =~= out@ + t);
                    }
                }
                j = j + 2;
            }
        } else if (c as u32) < 0x20 {
            return None;
        } else {
            let ghost old_out = out@;
            let piece = s.substring_char(j, j + 1);
            out.append(piece);
            proof {
                assert(piece@ =~= seq![s@[j as int]]);
                assert(out@ =~= old_out + seq![s@[j as int]]);
                if let Some((t, e)) = spec_str_body(s@, j + 1) {
                    assert(spec_str_body(s@, j as int) == Some((seq![s@[j as int]] + t, e)));
                    assert(old_out + (seq![s@[j as int]] + t) =~= out@ + t);
                }
            }
            j = j + 1;
        }
    }
}

proof fn lemma_hex_digit_value(x: int)
    requires
        0 <= x < 16,
    ensures
        spec_hex_val(spec_hex_digit(x)) == x,
{
}

/// A string the writer escapes reads back unchanged: wherever a document
/// holds the escaped text followed by the closing quote, the string-body
/// reader decodes exactly the original characters and stops just past
/// that quote.
pub proof fn lemma_escaped_string_reads_back(v: Seq<char>, doc: Seq<char>, i: int)
    requires
        0 <= i,
        i + spec_escape(v).len() < doc.len(),
        doc.subrange(i, i + spec_escape(v).len()) == spec_escape(v),
        doc[i + spec_escape(v).len()] == '"',
    ensures
        spec_str_body(doc, i) == Some((v, i + spec_escape(v).len() + 1)),
    decreases v.len(),
{
    let ev = spec_escape(v);
    assert forall|k: int| 0 <= k < ev.len() implies doc[i + k] == ev[k] by {
        assert(doc.subrange(i, i + ev.len())[k] == doc[i + k]);
    }
    if v.len() == 0 {
        assert(ev =~= Seq::<char>::empty());
        assert(doc[i] == '"');
    } else {
        let c = v[0];
        let e0 = spec_escape_char(c);
        let v1 = v.skip(1);
        let ev1 = spec_escape(v1);
        assert(ev == e0 + ev1);
        let i1 = i + e0.len();
        assert forall|k: int| 0 <= k < ev1.len() implies doc[i1 + k] == ev1[k] by {
            assert(ev[e0.len() + k] == ev1[k]);
        }
        assert(doc.subrange(i1, i1 + ev1.len()) =~= ev1);
        assert(doc[i1 + ev1.len()] == '"');
        lemma_escaped_string_reads_back(v1, doc, i1);
        assert(seq![c] + v1 =~= v);
        assert(doc[i + 0] == ev[0]);
        assert(doc[i] == e0[0]);
        if e0.len() >= 2 {
            assert(doc[i + 1] == ev[1]);
            assert(ev[1] == e0[1]);
        }
        if c == '"' || c == '\\' || c == '\u{8}' || c == '\u{c}' || c == '\n' || c == '\r' || c
            == '\t' {
            assert(e0.len() == 2);
            assert(doc[i] == '\\');
            assert(doc[i + 1] == e0[1]);
            assert(doc[i + 1] != 'u');
            assert(spec_unescape(doc[i + 1]) == Some(c));
            assert(spec_str_body(doc, i) == Some((seq![c] + v1, i1 + ev1.len() + 1)));
        } else if (c as u32) < 0x20 {
            let u = c as u32;
            assert(e0 =~= seq![
                '\\', 'u', '0', '0', spec_hex_digit(u as int / 16), spec_hex_digit(u as int % 16),
            ]);
            assert(e0.len() == 6);
            assert(ev[2] == e0[2]);
            assert(ev[3] == e0[3]);
            assert(ev[4] == e0[4]);
            assert(ev[5] == e0[5]);
            assert(doc[i] == '\\');
            assert(doc[i + 1] == 'u');
            assert(doc[i + 2] == '0');
            assert(doc[i + 3] == '0');
            assert(doc[i + 4] == spec_hex_digit(u as int / 16));
            assert(doc[i + 5] == spec_hex_digit(u as int % 16));
            lemma_hex_digit_value(u as int / 16);
            lemma_hex_digit_value(u as int % 16);
            let w = spec_hex_val(doc[i + 4]) * 16 + spec_hex_val(doc[i + 5]);
            assert(w == u as int);
            assert(w < 0x20);
            vstd::utf8::char_u32_cast(c, u);
            assert(u as char == c);
            assert(w as char == c);
            assert(spec_str_body(doc, i) == Some((seq![c] + v1, i1 + ev1.len() + 1)));
        } else {
            assert(e0 =~= seq![c]);
            assert(doc[i] == c);
            assert(c != '"' && c != '\\' && (c as u32) >= 0x20);
            assert(spec_str_body(doc, i) == Some((seq![c] + v1, i1 + ev1.len() + 1)));
        }
    }
}

/// A character the writer passes through unescaped.
pub open spec fn spec_ordinary(c: char) -> bool {
    c != '"' && c != '\\' && (c as u32) >= 0x20
}

proof fn lemma_plain_escape(s: Seq<char>)
    requires
        forall|k: int| 0 <= k < s.len() ==> spec_ordinary(#[trigger] s[k]),
    ensures
        spec_escape(s) =~= s,
    decreases s.len(),
{
    if s.len() > 0 {
        assert(spec_ordinary(s[0]));
        assert(spec_escape_char(s[0]) =~= seq![s[0]]);
        assert forall|k: int| 0 <= k < s.skip(1).len() implies spec_ordinary(
            #[trigger] s.skip(1)[k],
        ) by {
            assert(s.skip(1)[k] == s[k + 1]);
        }
        lemma_plain_escape(s.skip(1));
        assert(spec_escape(s) == spec_escape_char(s[0]) + spec_escape(s.skip(1)));
        assert(seq![s[0]] + s.skip(1) =~= s);
    }
}

/// A quoted, writer-escaped string reads back unchanged, stopping just
/// past its closing quote.
proof fn lemma_parse_string_of_escaped(v: Seq<char>, doc: Seq<char>, i: int)
    requires
        0 <= i,
        doc[i] == '"',
        i + 1 + spec_escape(v).len() < doc.len(),
        doc.subrange(i + 1, i + 1 + spec_escape(v).len()) == spec_escape(v),
        doc[i + 1 + spec_escape(v).len()] == '"',
    ensures
        spec_parse_string(doc, i) == Some((v, i + spec_escape(v).len() + 2)),
{
    lemma_escaped_string_reads_back(v, doc, i + 1);
}

/// A decimal digit.
pub open spec fn spec_is_digit(c: char) -> bool {
    '0' as int <= c as int && c as int <= '9' as int
}

/// The end of the run of decimal digits starting at `i`.
pub open spec fn spec_digits_end(s: Seq<char>, i: int) -> int
    decreases s.len() - i,
{
    if 0 <= i < s.len() && spec_is_digit(s[i]) {
        spec_digits_end(s, i + 1)
    } else {
        i
    }
}

/// The value of a digit string read as a decimal number.
pub open spec fn spec_num_val(digits: Seq<char>) -> int
    decreases digits.len(),
{
    if digits.len() == 0 {
        0
    } else {
        spec_num_val(digits.drop_last()) * 10 + (digits.last() as int - '0' as int)
    }
}

proof fn lemma_num_val_nonneg(digits: Seq<char>)
    requires
        forall|k: int| 0 <= k < digits.len() ==> spec_is_digit(#[trigger] digits[k]),
    ensures
        spec_num_val(digits) >= 0,
    decreases digits.len(),
{
    if digits.len() > 0 {
        lemma_num_val_nonneg(digits.drop_last());
    }
}

proof fn lemma_digit_value(d: int)
    requires
        0 <= d < 10,
    ensures
        spec_digit(d) as int - '0' as int == d,
        spec_is_digit(spec_digit(d)),
{
}

/// The decimal rendering of the writer reads back as the same number:
/// the digit string `spec_dec(n)` is all digits and has the value `n`.
pub proof fn lemma_dec_reads_back(n: int)
    requires
        n >= 0,
    ensures
        spec_num_val(spec_dec(n)) == n,
        forall|k: int| 0 <= k < spec_dec(n).len() ==> spec_is_digit(#[trigger] spec_dec(n)[k]),
    decreases n,
{
    if n < 10 {
        lemma_digit_value(n);
        assert(spec_dec(n) =~= seq![spec_digit(n)]);
        assert(spec_dec(n).drop_last() =~= Seq::<char>::empty());
        assert(spec_num_val(Seq::<char>::empty()) == 0);
        assert(spec_num_val(spec_dec(n).drop_last()) == 0);
        assert(spec_dec(n).last() == spec_digit(n));
    } else {
        lemma_dec_reads_back(n / 10);
        lemma_digit_value(n % 10);
        assert(spec_dec(n).drop_last() =~= spec_dec(n / 10));
        assert(spec_dec(n).last() == spec_digit(n % 10));
        assert forall|k: int| 0 <= k < spec_dec(n).len() implies spec_is_digit(
            #[trigger] spec_dec(n)[k],
        ) by {
            if k < spec_dec(n).len() - 1 {
                assert(spec_dec(n)[k] == spec_dec(n / 10)[k]);
            }
        }
    }
}

/// An unsigned JSON integer at position `i`: a digit run without leading
/// zeros whose value fits in `u32`; the value and the position just past
/// the run.
pub open spec fn spec_parse_number(s: Seq<char>, i: int) -> Option<(int, int)> {
    if 0 <= i < s.len() && spec_is_digit(s[i]) {
        let e = spec_digits_end(s, i);
        let v = spec_num_val(s.subrange(i, e));
        if s[i] == '0' && e > i + 1 {
            None
        } else if v <= u32::MAX {
            Some((v, e))
        } else {
            None
        }
    } else {
        None
    }
}

proof fn lemma_digits_end_scan(s: Seq<char>, i: int, e: int)
    requires
        0 <= i <= e <= s.len(),
        forall|k: int| i <= k < e ==> spec_is_digit(#[trigger] s[k]),
        e < s.len() ==> !spec_is_digit(s[e]),
    ensures
        spec_digits_end(s, i) == e,
    decreases e - i,
{
    if i == e {
    } else {
        assert(spec_is_digit(s[i]));
        lemma_digits_end_scan(s, i + 1, e);
    }
}

proof fn lemma_dec_no_leading_zero(n: int)
    requires
        n >= 10,
    ensures
        spec_dec(n)[0] != '0',
    decreases n,
{
    assert(spec_dec(n)[0] == spec_dec(n / 10)[0]);
    if n / 10 >= 10 {
        lemma_dec_no_leading_zero(n / 10);
    } else {
        assert(1 <= n / 10 < 10);
        assert(spec_dec(n / 10) =~= seq![spec_digit(n / 10)]);
    }
}

/// A decimal number the writer renders reads back as the same value,
/// stopping at the first character past its digits.
proof fn lemma_parse_number_of_dec(n: int, doc: Seq<char>, i: int)
    requires
        0 <= n <= u32::MAX,
        0 <= i,
        i + spec_dec(n).len() < doc.len(),
        doc.subrange(i, i + spec_dec(n).len()) == spec_dec(n),
        !spec_is_digit(doc[i + spec_dec(n).len()]),
    ensures
        spec_parse_number(doc, i) == Some((n, i + spec_dec(n).len())),
{
    let d = spec_dec(n);
    lemma_dec_reads_back(n);
    assert forall|k: int| 0 <= k < d.len() implies doc[i + k] == d[k] by {
        assert(doc.subrange(i, i + d.len())[k] == doc[i + k]);
    }
    assert forall|k: int| i <= k < i + d.len() implies spec_is_digit(#[trigger] doc[k]) by {
        assert(doc[i + (k - i)] == d[k - i]);
    }
    assert(doc[i + 0] == d[0]);
    assert(spec_is_digit(doc[i]));
    lemma_digits_end_scan(doc, i, i + d.len());
    assert(spec_num_val(doc.subrange(i, i + d.len())) == n);
    if n < 10 {
        assert(d.len() == 1);
    } else {
        lemma_dec_no_leading_zero(n);
        assert(doc[i] != '0');
    }
}

fn parse_number(s: &str, i: usize) -> (r: Option<(u32, usize)>)
    requires
        i <= s@.len(),
    ensures
        match r {
            Some(p) => spec_parse_number(s@, i as int) == Some((p.0 as int, p.1 as int)) && i < p.1
                <= s@.len(),
            None => spec_parse_number(s@, i as int) is None,
        },
{
    let len = s.unicode_len();
    if i >= len {
        return None;
    }
    let c0 = s.get_char(i);
    if !((c0 as u32) >= '0' as u32 && (c0 as u32) <= '9' as u32) {
        return None;
    }
    // Find the end of the digit run.
    let mut e = i + 1;
    loop
        invariant
            i + 1 <= e <= len,
            len == s@.len(),
            spec_is_digit(s@[i as int]),
            forall|k: int| i <= k < e ==> spec_is_digit(#[trigger] s@[k]),
            spec_digits_end(s@, i as int) == spec_digits_end(s@, e as int),
        ensures
            i + 1 <= e <= len,
            forall|k: int| i <= k < e ==> spec_is_digit(#[trigger] s@[k]),
            spec_digits_end(s@, i as int) == e,
        decreases len - e,
    {
        if e >= len {
            break;
        }
        let c = s.get_char(e);
        if !((c as u32) >= '0' as u32 && (c as u32) <= '9' as u32) {
            break;
        }
        e = e + 1;
    }
    if c0 == '0' && e > i + 1 {
        return None;
    }
    // Accumulate the value, clamping once it can no longer fit.
    let mut acc: u64 = 0;
    let mut j = i;
    proof {
        assert(s@.subrange(i as int, i as int) =~= Seq::<char>::empty());
    }
    while j < e
        invariant
            i <= j <= e <= len,
            len == s@.len(),
            forall|k: int| i <= k < e ==> spec_is_digit(#[trigger] s@[k]),
            acc <= 0x1_0000_0000u64,
            acc <= u32::MAX ==> acc == spec_num_val(s@.subrange(i as int, j as int)),
            acc > u32::MAX ==> spec_num_val(s@.subrange(i as int, j as int)) > u32::MAX,
        decreases e - j,
    {
        let d = (s.get_char(j) as u32) - ('0' as u32);
        let ghost prefix = s@.subrange(i as int, j as int);
        proof {
            assert(s@.subrange(i as int, j + 1).drop_last() =~= prefix);
            assert(s@.subrange(i as int, j + 1).last() == s@[j as int]);
            lemma_num_val_nonneg(prefix);
        }
        if acc > u32::MAX as u64 {
            // Already too large; stays too large.
        } else {
            acc = acc * 10 + d as u64;
            if acc > u32::MAX as u64 {
                acc = 0x1_0000_0000u64;
            }
        }
        j = j + 1;
    }
    proof {
        assert(s@.subrange(i as int, e as int) == s@.subrange(i as int, j as int));
    }
    if acc > u32::MAX as u64 {
        return None;
    }
    Some((acc as u32, e))
}

/// A member value of the flat metadata object: a string or an unsigned
/// integer that fits in `u32`.
pub enum JsonVal {
    S(String),
    N(u32),
}

/// The specification-level image of a member value.
pub enum JsonValV {
    S(Seq<char>),
    N(int),
}

impl View for JsonVal {
    type V = JsonValV;

    open spec fn view(&self) -> JsonValV {
        match self {
            JsonVal::S(s) => JsonValV::S(s@),
            JsonVal::N(n) => JsonValV::N(*n as int),
        }
    }
}

/// A member value at position `i`: a string literal where a quote opens
/// one, else an unsigned integer.
pub open spec fn spec_parse_value(s: Seq<char>, i: int) -> Option<(JsonValV, int)> {
    if 0 <= i < s.len() && s[i] == '"' {
        match spec_parse_string(s, i) {
            None => None,
            Some((v, e)) => Some((JsonValV::S(v), e)),
        }
    } else {
        match spec_parse_number(s, i) {
            None => None,
            Some((v, e)) => Some((JsonValV::N(v), e)),
        }
    }
}

fn parse_value(s: &str, i: usize) -> (r: Option<(JsonVal, usize)>)
    requires
        i <= s@.len(),
    ensures
        match r {
            Some(p) => spec_parse_value(s@, i as int) == Some((p.0@, p.1 as int)) && i < p.1
                <= s@.len(),
            None => spec_parse_value(s@, i as int) is None,
        },
{
    let len = s.unicode_len();
    if i < len && s.get_char(i) == '"' {
        match parse_string(s, i) {
            Some(p) => Some((JsonVal::S(p.0), p.1)),
            None => None,
        }
    } else {
        match parse_number(s, i) {
            Some(p) => Some((JsonVal::N(p.0), p.1)),
            None => None,
        }
    }
}

/// One `"key": value` member at position `i`: the key, the value, and the
/// position just past the value.
pub open spec fn spec_parse_member(s: Seq<char>, i: int) -> Option<((Seq<char>, JsonValV), int)> {
    match spec_parse_string(s, i) {
        None => None,
        Some((k, j)) => {
            let j1 = spec_skip_ws(s, j);
            if j1 < s.len() && s[j1] == ':' {
                let j2 = spec_skip_ws(s, j1 + 1);
                match spec_parse_value(s, j2) {
                    None => None,
                    Some((v, e)) => Some(((k, v), e)),
                }
            } else {
                None
            }
        },
    }
}

fn parse_member(s: &str, i: usize) -> (r: Option<((String, JsonVal), usize)>)
    requires
        i <= s@.len(),
    ensures
        match r {
            Some(p) => spec_parse_member(s@, i as int) == Some(((p.0.0@, p.0.1@), p.1 as int)) && i
                < p.1 <= s@.len(),
            None => spec_parse_member(s@, i as int) is None,
        },
{
    let len = s.unicode_len();
    let (key, j) = match parse_string(s, i) {
        Some(p) => p,
        None => {
            return None;
        },
    };
    let j1 = skip_ws(s, j);
    if !(j1 < len && s.get_char(j1) == ':') {
        return None;
    }
    let j2 = skip_ws(s, j1 + 1);
    match parse_value(s, j2) {
        Some(p) => Some(((key, p.0), p.1)),
        None => None,
    }
}

/// A `"key": "value"` member in the writer's layout (a colon and one
/// space between key and value) reads back as that pair.
proof fn lemma_member_string(
    doc: Seq<char>,
    i: int,
    key: Seq<char>,
    j: int,
    val: Seq<char>,
    e: int,
)
    requires
        0 <= i,
        0 <= j,
        j + 2 < doc.len(),
        spec_parse_string(doc, i) == Some((key, j)),
        doc[j] == ':',
        doc[j + 1] == ' ',
        doc[j + 2] == '"',
        spec_parse_string(doc, j + 2) == Some((val, e)),
    ensures
        spec_parse_member(doc, i) == Some(((key, JsonValV::S(val)), e)),
{
    assert(spec_skip_ws(doc, j) == j);
    assert(spec_skip_ws(doc, j + 1) == spec_skip_ws(doc, j + 2));
    assert(spec_skip_ws(doc, j + 2) == j + 2);
    assert(spec_parse_value(doc, j + 2) == Some((JsonValV::S(val), e)));
}

/// A `"key": 123` member in the writer's layout reads back as that pair.
proof fn lemma_member_number(doc: Seq<char>, i: int, key: Seq<char>, j: int, n: int, e: int)
    requires
        0 <= i,
        0 <= j,
        j + 2 < doc.len(),
        spec_parse_string(doc, i) == Some((key, j)),
        doc[j] == ':',
        doc[j + 1] == ' ',
        spec_is_digit(doc[j + 2]),
        spec_parse_number(doc, j + 2) == Some((n, e)),
    ensures
        spec_parse_member(doc, i) == Some(((key, JsonValV::N(n)), e)),
{
    assert(spec_skip_ws(doc, j) == j);
    assert(spec_skip_ws(doc, j + 1) == spec_skip_ws(doc, j + 2));
    assert(spec_skip_ws(doc, j + 2) == j + 2);
    assert(doc[j + 2] != '"');
    assert(spec_parse_value(doc, j + 2) == Some((JsonValV::N(n), e)));
}

/// A member followed by the writer's `,` and fresh-line indent continues
/// the member list.
proof fn lemma_members_cons(
    doc: Seq<char>,
    i: int,
    kv: (Seq<char>, JsonValV),
    e: int,
    rest: Seq<(Seq<char>, JsonValV)>,
    end: int,
)
    requires
        0 <= i < e,
        e + 4 < doc.len(),
        spec_parse_member(doc, i) == Some((kv, e)),
        doc[e] == ',',
        doc[e + 1] == '\n',
        doc[e + 2] == ' ',
        doc[e + 3] == ' ',
        !spec_is_ws(doc[e + 4]),
        spec_parse_members(doc, e + 4) == Some((rest, end)),
    ensures
        spec_parse_members(doc, i) == Some((seq![kv] + rest, end)),
{
    assert(spec_skip_ws(doc, e) == e);
    assert(spec_skip_ws(doc, e + 1) == spec_skip_ws(doc, e + 2));
    assert(spec_skip_ws(doc, e + 2) == spec_skip_ws(doc, e + 3));
    assert(spec_skip_ws(doc, e + 3) == spec_skip_ws(doc, e + 4));
    assert(spec_skip_ws(doc, e + 4) == e + 4);
}

/// The last member, followed by the writer's closing `\n}`, ends the
/// member list just past the brace.
proof fn lemma_members_last(doc: Seq<char>, i: int, kv: (Seq<char>, JsonValV), e: int)
    requires
        0 <= i < e,
        e + 1 < doc.len(),
        spec_parse_member(doc, i) == Some((kv, e)),
        doc[e] == '\n',
        doc[e + 1] == '}',
    ensures
        spec_parse_members(doc, i) == Some((seq![kv], e + 2)),
{
    assert(spec_skip_ws(doc, e) == spec_skip_ws(doc, e + 1));
    assert(spec_skip_ws(doc, e + 1) == e + 1);
    assert(doc[e + 1] != ',');
}

/// A whole document in the writer's layout: `{`, a fresh-line indent, the
/// members, and nothing after the closing brace.
proof fn lemma_object_of_doc(doc: Seq<char>, pairs: Seq<(Seq<char>, JsonValV)>)
    requires
        doc.len() >= 5,
        doc[0] == '{',
        doc[1] == '\n',
        doc[2] == ' ',
        doc[3] == ' ',
        doc[4] == '"',
        spec_parse_members(doc, 4) == Some((pairs, doc.len() as int)),
    ensures
        spec_parse_object(doc) == Some(pairs),
{
    assert(spec_skip_ws(doc, 0) == 0);
    assert(spec_skip_ws(doc, 1) == spec_skip_ws(doc, 2));
    assert(spec_skip_ws(doc, 2) == spec_skip_ws(doc, 3));
    assert(spec_skip_ws(doc, 3) == spec_skip_ws(doc, 4));
    assert(spec_skip_ws(doc, 4) == 4);
    assert(doc[4] != '}');
    assert(spec_skip_ws(doc, doc.len() as int) == doc.len());
}

/// The view of collected members.
pub open spec fn spec_pairs_view(v: Seq<(String, JsonVal)>) -> Seq<(Seq<char>, JsonValV)> {
    v.map_values(|p: (String, JsonVal)| (p.0@, p.1@))
}

/// One or more comma-separated members from position `i` up to and past
/// the closing brace: the members in order and the position just past the
/// brace.
pub open spec fn spec_parse_members(s: Seq<char>, i: int) -> Option<(
    Seq<(Seq<char>, JsonValV)>,
    int,
)>
    decreases s.len() - i,
{
    match spec_parse_member(s, i) {
        None => None,
        Some((kv, j)) => {
            let j1 = spec_skip_ws(s, j);
            if j1 < s.len() && s[j1] == ',' {
                let j2 = spec_skip_ws(s, j1 + 1);
                if i < j2 <= s.len() {
                    match spec_parse_members(s, j2) {
                        None => None,
                        Some((rest, e)) => Some((seq![kv] + rest, e)),
                    }
                } else {
                    None
                }
            } else if j1 < s.len() && s[j1] == '}' {
                Some((seq![kv], j1 + 1))
            } else {
                None
            }
        },
    }
}

fn parse_members(s: &str, i: usize) -> (r: Option<(Vec<(String, JsonVal)>, usize)>)
    requires
        i <= s@.len(),
    ensures
        match r {
            Some(p) => spec_parse_members(s@, i as int) == Some((spec_pairs_view(p.0@), p.1 as int))
                && i < p.1 <= s@.len(),
            None => spec_parse_members(s@, i as int) is None,
        },
{
    let len = s.unicode_len();
    let mut acc: Vec<(String, JsonVal)> = Vec::new();
    let mut cur = i;
    proof {
        assert(spec_pairs_view(acc@) =~= Seq::<(Seq<char>, JsonValV)>::empty());
    }
    loop
        invariant
            i <= cur <= len,
            len == s@.len(),
            match spec_parse_members(s@, cur as int) {
                None => spec_parse_members(s@, i as int) is None,
                Some((rest, e)) => spec_parse_members(s@, i as int) == Some((
                    spec_pairs_view(acc@) + rest,
                    e,
                )),
            },
        decreases len - cur,
    {
        let (kv, j) = match parse_member(s, cur) {
            Some(p) => p,
            None => {
                return None;
            },
        };
        let j1 = skip_ws(s, j);
        let ghost old_acc = acc@;
        let ghost kvv = (kv.0@, kv.1@);
        if j1 < len && s.get_char(j1) == ',' {
            let j2 = skip_ws(s, j1 + 1);
            acc.push(kv);
            proof {
                assert(spec_pairs_view(acc@) =~= spec_pairs_view(old_acc).push(kvv));
                if let Some((rest, e)) = spec_parse_members(s@, j2 as int) {
                    assert(spec_parse_members(s@, cur as int) == Some((seq![kvv] + rest, e)));
                    assert(spec_pairs_view(old_acc) + (seq![kvv] + rest) =~= spec_pairs_view(acc@)
                        + rest);
                }
            }
            cur = j2;
        } else if j1 < len && s.get_char(j1) == '}' {
            acc.push(kv);
            proof {
                assert(spec_pairs_view(acc@) =~= spec_pairs_view(old_acc).push(kvv));
                assert(spec_parse_members(s@, cur as int) == Some((seq![kvv], j1 + 1)));
                assert(spec_pairs_view(old_acc) + seq![kvv] =~= spec_pairs_view(acc@));
            }
            return Some((acc, j1 + 1));
        } else {
            return None;
        }
    }
}

/// A whole metadata document: optional white space, a flat object of
/// members, optional white space, the end of the text.  The members in
/// order.
pub open spec fn spec_parse_object(s: Seq<char>) -> Option<Seq<(Seq<char>, JsonValV)>> {
    let i0 = spec_skip_ws(s, 0);
    if i0 < s.len() && s[i0] == '{' {
        let i1 = spec_skip_ws(s, i0 + 1);
        if i1 < s.len() && s[i1] == '}' {
            if spec_skip_ws(s, i1 + 1) == s.len() {
                Some(Seq::empty())
            } else {
                None
            }
        } else {
            match spec_parse_members(s, i1) {
                None => None,
                Some((pairs, e)) => {
                    if spec_skip_ws(s, e) == s.len() {
                        Some(pairs)
                    } else {
                        None
                    }
                },
            }
        }
    } else {
        None
    }
}

/// Reads the members of a whole metadata document.
pub fn parse_object(s: &str) -> (r: Option<Vec<(String, JsonVal)>>)
    ensures
        match r {
            Some(pairs) => spec_parse_object(s@) == Some(spec_pairs_view(pairs@)),
            None => spec_parse_object(s@) is None,
        },
{
    let len = s.unicode_len();
    let i0 = skip_ws(s, 0);
    if !(i0 < len && s.get_char(i0) == '{') {
        return None;
    }
    let i1 = skip_ws(s, i0 + 1);
    if i1 < len && s.get_char(i1) == '}' {
        if skip_ws(s, i1 + 1) == len {
            let empty: Vec<(String, JsonVal)> = Vec::new();
            proof {
                assert(spec_pairs_view(empty@) =~= Seq::<(Seq<char>, JsonValV)>::empty());
            }
            return Some(empty);
        }
        return None;
    }
    let (pairs, e) = match parse_members(s, i1) {
        Some(p) => p,
        None => {
            return None;
        },
    };
    if skip_ws(s, e) == len {
        Some(pairs)
    } else {
        None
    }
}

/// The value of the first member named `key`, if any.
pub open spec fn spec_lookup(pairs: Seq<(Seq<char>, JsonValV)>, key: Seq<char>) -> Option<JsonValV>
    decreases pairs.len(),
{
    if pairs.len() == 0 {
        None
    } else if pairs[0].0 == key {
        Some(pairs[0].1)
    } else {
        spec_lookup(pairs.skip(1), key)
    }
}

/// How many members are named `key`.
pub open spec fn spec_count(pairs: Seq<(Seq<char>, JsonValV)>, key: Seq<char>) -> int
    decreases pairs.len(),
{
    if pairs.len() == 0 {
        0
    } else {
        (if pairs[0].0 == key { 1int } else { 0 }) + spec_count(pairs.skip(1), key)
    }
}

proof fn lemma_lookup_push(p: Seq<(Seq<char>, JsonValV)>, x: (Seq<char>, JsonValV), k: Seq<char>)
    ensures
        spec_lookup(p.push(x), k) == if spec_lookup(p, k) is Some {
            spec_lookup(p, k)
        } else if x.0 == k {
            Some(x.1)
        } else {
            None
        },
    decreases p.len(),
{
    if p.len() == 0 {
        assert(p.push(x)[0] == x);
        assert(p.push(x).skip(1) =~= Seq::<(Seq<char>, JsonValV)>::empty());
        assert(spec_lookup(p.push(x).skip(1), k) is None);
    } else {
        assert(p.push(x)[0] == p[0]);
        assert(p.push(x).skip(1) =~= p.skip(1).push(x));
        lemma_lookup_push(p.skip(1), x, k);
        if p[0].0 == k {
            assert(spec_lookup(p.push(x), k) == Some(p[0].1));
            assert(spec_lookup(p, k) == Some(p[0].1));
        } else {
            assert(spec_lookup(p.push(x), k) == spec_lookup(p.skip(1).push(x), k));
            assert(spec_lookup(p, k) == spec_lookup(p.skip(1), k));
        }
    }
}

proof fn lemma_count_push(p: Seq<(Seq<char>, JsonValV)>, x: (Seq<char>, JsonValV), k: Seq<char>)
    ensures
        spec_count(p.push(x), k) == spec_count(p, k) + if x.0 == k { 1int } else { 0 },
    decreases p.len(),
{
    if p.len() == 0 {
        assert(p.push(x)[0] == x);
        assert(p.push(x).skip(1) =~= Seq::<(Seq<char>, JsonValV)>::empty());
        assert(spec_count(p.push(x).skip(1), k) == 0);
    } else {
        assert(p.push(x)[0] == p[0]);
        assert(p.push(x).skip(1) =~= p.skip(1).push(x));
        lemma_count_push(p.skip(1), x, k);
        assert(spec_count(p.push(x), k) == (if p[0].0 == k { 1int } else { 0 }) + spec_count(
            p.skip(1).push(x),
            k,
        ));
        assert(spec_count(p, k) == (if p[0].0 == k { 1int } else { 0 }) + spec_count(
            p.skip(1),
            k,
        ));
    }
}

proof fn lemma_count_nonneg(p: Seq<(Seq<char>, JsonValV)>, k: Seq<char>)
    ensures
        spec_count(p, k) >= 0,
    decreases p.len(),
{
    if p.len() > 0 {
        lemma_count_nonneg(p.skip(1), k);
    }
}

proof fn lemma_count_concat(a: Seq<(Seq<char>, JsonValV)>, b: Seq<(Seq<char>, JsonValV)>, k: Seq<char>)
    ensures
        spec_count(a + b, k) == spec_count(a, k) + spec_count(b, k),
    decreases a.len(),
{
    if a.len() == 0 {
        assert(a + b =~= b);
    } else {
        assert((a + b)[0] == a[0]);
        assert((a + b).skip(1) =~= a.skip(1) + b);
        lemma_count_concat(a.skip(1), b, k);
    }
}

proof fn lemma_lookup_concat_left(a: Seq<(Seq<char>, JsonValV)>, b: Seq<(Seq<char>, JsonValV)>, k: Seq<char>)
    requires
        spec_lookup(a, k) is Some,
    ensures
        spec_lookup(a + b, k) == spec_lookup(a, k),
    decreases a.len(),
{
    assert((a + b)[0] == a[0]);
    assert((a + b).skip(1) =~= a.skip(1) + b);
    if a[0].0 != k {
        lemma_lookup_concat_left(a.skip(1), b, k);
    }
}

proof fn lemma_lookup_none_count_zero(p: Seq<(Seq<char>, JsonValV)>, k: Seq<char>)
    ensures
        (spec_lookup(p, k) is None) <==> spec_count(p, k) == 0,
    decreases p.len(),
{
    if p.len() > 0 {
        lemma_lookup_none_count_zero(p.skip(1), k);
        lemma_count_nonneg(p.skip(1), k);
    }
}

/// The member is a string.
pub open spec fn is_str(v: Option<JsonValV>) -> bool {
    v matches Some(JsonValV::S(_))
}

/// The member's string content.
pub open spec fn str_of(v: Option<JsonValV>) -> Seq<char> {
    v->Some_0->S_0
}

/// The member is a number.
pub open spec fn is_num(v: Option<JsonValV>) -> bool {
    v matches Some(JsonValV::N(_))
}

/// The member's numeric value.
pub open spec fn num_of(v: Option<JsonValV>) -> int {
    v->Some_0->N_0
}

/// The record the seven required members of a metadata object form:
/// present exactly when each of the seven keys occurs exactly once with a
/// value of the right shape and the repeat is at least 1 and fits `u32`.
/// Members under other keys are ignored.
pub open spec fn spec_fields_of_pairs(pairs: Seq<(Seq<char>, JsonValV)>) -> Option<RunMetaDataV> {
    if spec_count(pairs, "agent"@) == 1 && is_str(spec_lookup(pairs, "agent"@)) && spec_count(
        pairs,
        "layer"@,
    ) == 1 && is_str(spec_lookup(pairs, "layer"@)) && spec_count(pairs, "app"@) == 1 && is_str(
        spec_lookup(pairs, "app"@),
    ) && spec_count(pairs, "status"@) == 1 && is_str(spec_lookup(pairs, "status"@)) && spec_count(
        pairs,
        "repeat"@,
    ) == 1 && is_num(spec_lookup(pairs, "repeat"@)) && 1 <= num_of(spec_lookup(pairs, "repeat"@))
        <= u32::MAX && spec_count(pairs, "source_framework"@) == 1 && is_str(
        spec_lookup(pairs, "source_framework"@),
    ) && spec_count(pairs, "target_framework"@) == 1 && is_str(
        spec_lookup(pairs, "target_framework"@),
    ) {
        Some(
            RunMetaDataV {
                agent: str_of(spec_lookup(pairs, "agent"@)),
                layer: str_of(spec_lookup(pairs, "layer"@)),
                app: str_of(spec_lookup(pairs, "app"@)),
                status: str_of(spec_lookup(pairs, "status"@)),
                repeat: num_of(spec_lookup(pairs, "repeat"@)),
                source_framework: str_of(spec_lookup(pairs, "source_framework"@)),
                target_framework: str_of(spec_lookup(pairs, "target_framework"@)),
            },
        )
    } else {
        None
    }
}

/// A string-valued slot agrees with the members seen so far under `key`.
spec fn str_slot_ok(slot: Option<String>, p: Seq<(Seq<char>, JsonValV)>, key: Seq<char>) -> bool {
    match slot {
        None => spec_lookup(p, key) is None,
        Some(x) => spec_count(p, key) == 1 && spec_lookup(p, key) == Some(JsonValV::S(x@)),
    }
}

/// The repeat slot agrees with the members seen so far under `key`.
spec fn num_slot_ok(slot: Option<u32>, p: Seq<(Seq<char>, JsonValV)>, key: Seq<char>) -> bool {
    match slot {
        None => spec_lookup(p, key) is None,
        Some(n) => spec_count(p, key) == 1 && spec_lookup(p, key) == Some(JsonValV::N(n as int))
            && n >= 1,
    }
}

proof fn lemma_keys_distinct()
    ensures
        "agent"@ != "layer"@,
        "agent"@ != "app"@,
        "agent"@ != "status"@,
        "agent"@ != "repeat"@,
        "agent"@ != "source_framework"@,
        "agent"@ != "target_framework"@,
        "layer"@ != "app"@,
        "layer"@ != "status"@,
        "layer"@ != "repeat"@,
        "layer"@ != "source_framework"@,
        "layer"@ != "target_framework"@,
        "app"@ != "status"@,
        "app"@ != "repeat"@,
        "app"@ != "source_framework"@,
        "app"@ != "target_framework"@,
        "status"@ != "repeat"@,
        "status"@ != "source_framework"@,
        "status"@ != "target_framework"@,
        "repeat"@ != "source_framework"@,
        "repeat"@ != "target_framework"@,
        "source_framework"@ != "target_framework"@,
{
    reveal_strlit("agent");
    reveal_strlit("layer");
    reveal_strlit("app");
    reveal_strlit("status");
    reveal_strlit("repeat");
    reveal_strlit("source_framework");
    reveal_strlit("target_framework");
    assert("agent"@.len() == 5);
    assert("layer"@.len() == 5);
    assert("app"@.len() == 3);
    assert("status"@.len() == 6);
    assert("repeat"@.len() == 6);
    assert("source_framework"@.len() == 16);
    assert("target_framework"@.len() == 16);
    assert("agent"@[0] == 'a');
    assert("layer"@[0] == 'l');
    assert("status"@[0] == 's');
    assert("repeat"@[0] == 'r');
    assert("source_framework"@[0] == 's');
    assert("target_framework"@[0] == 't');
}

/// The members up to `i`, the member at `i`, and the rest, seen as views.
proof fn lemma_split_views(pairs: Seq<(String, JsonVal)>, i: int)
    requires
        0 <= i < pairs.len(),
    ensures
        spec_pairs_view(pairs.take(i + 1)) =~= spec_pairs_view(pairs.take(i)).push(
            (pairs[i].0@, pairs[i].1@),
        ),
        spec_pairs_view(pairs) =~= spec_pairs_view(pairs.take(i + 1)) + spec_pairs_view(
            pairs.skip(i + 1),
        ),
{
}

#[verifier::rlimit(50)]
fn fields_of_pairs(pairs: &Vec<(String, JsonVal)>) -> (r: Option<RunMetaData>)
    ensures
        match r {
            Some(m) => spec_fields_of_pairs(spec_pairs_view(pairs@)) == Some(m@),
            None => spec_fields_of_pairs(spec_pairs_view(pairs@)) is None,
        },
{
    let ghost full = spec_pairs_view(pairs@);
    let mut agent: Option<String> = None;
    let mut layer: Option<String> = None;
    let mut app: Option<String> = None;
    let mut status: Option<String> = None;
    let mut repeat: Option<u32> = None;
    let mut source: Option<String> = None;
    let mut target: Option<String> = None;
    let mut i: usize = 0;
    proof {
        assert(spec_pairs_view(pairs@.take(0)) =~= Seq::<(Seq<char>, JsonValV)>::empty());
    }
    while i < pairs.len()
        invariant
            i <= pairs@.len(),
            full == spec_pairs_view(pairs@),
            str_slot_ok(agent, spec_pairs_view(pairs@.take(i as int)), "agent"@),
            str_slot_ok(layer, spec_pairs_view(pairs@.take(i as int)), "layer"@),
            str_slot_ok(app, spec_pairs_view(pairs@.take(i as int)), "app"@),
            str_slot_ok(status, spec_pairs_view(pairs@.take(i as int)), "status"@),
            num_slot_ok(repeat, spec_pairs_view(pairs@.take(i as int)), "repeat"@),
            str_slot_ok(source, spec_pairs_view(pairs@.take(i as int)), "source_framework"@),
            str_slot_ok(target, spec_pairs_view(pairs@.take(i as int)), "target_framework"@),
        decreases pairs@.len() - i,
    {
        let ghost prefix = spec_pairs_view(pairs@.take(i as int));
        let ghost pv = (pairs@[i as int].0@, pairs@[i as int].1@);
        let ghost prefix1 = spec_pairs_view(pairs@.take(i + 1));
        let ghost tail = spec_pairs_view(pairs@.skip(i + 1));
        proof {
            lemma_keys_distinct();
            lemma_split_views(pairs@, i as int);
            lemma_lookup_none_count_zero(prefix, "agent"@);
            lemma_lookup_none_count_zero(prefix, "layer"@);
            lemma_lookup_none_count_zero(prefix, "app"@);
            lemma_lookup_none_count_zero(prefix, "status"@);
            lemma_lookup_none_count_zero(prefix, "repeat"@);
            lemma_lookup_none_count_zero(prefix, "source_framework"@);
            lemma_lookup_none_count_zero(prefix, "target_framework"@);
            lemma_lookup_push(prefix, pv, "agent"@);
            lemma_count_push(prefix, pv, "agent"@);
            lemma_lookup_push(prefix, pv, "layer"@);
            lemma_count_push(prefix, pv, "layer"@);
            lemma_lookup_push(prefix, pv, "app"@);
            lemma_count_push(prefix, pv, "app"@);
            lemma_lookup_push(prefix, pv, "status"@);
            lemma_count_push(prefix, pv, "status"@);
            lemma_lookup_push(prefix, pv, "repeat"@);
            lemma_count_push(prefix, pv, "repeat"@);
            lemma_lookup_push(prefix, pv, "source_framework"@);
            lemma_count_push(prefix, pv, "source_framework"@);
            lemma_lookup_push(prefix, pv, "target_framework"@);
            lemma_count_push(prefix, pv, "target_framework"@);
            lemma_count_concat(prefix1, tail, "agent"@);
            lemma_count_nonneg(tail, "agent"@);
            lemma_count_concat(prefix1, tail, "layer"@);
            lemma_count_nonneg(tail, "layer"@);
            lemma_count_concat(prefix1, tail, "app"@);
            lemma_count_nonneg(tail, "app"@);
            lemma_count_concat(prefix1, tail, "status"@);
            lemma_count_nonneg(tail, "status"@);
            lemma_count_concat(prefix1, tail, "repeat"@);
            lemma_count_nonneg(tail, "repeat"@);
            lemma_count_concat(prefix1, tail, "source_framework"@);
            lemma_count_nonneg(tail, "source_framework"@);
            lemma_count_concat(prefix1, tail, "target_framework"@);
            lemma_count_nonneg(tail, "target_framework"@);
        }
        let key = pairs[i].0.as_str();
        if str_eq(key, "agent") {
            match &pairs[i].1 {
                JsonVal::S(v) => {
                    if agent.is_some() {
                        return None;
                    }
                    agent = Some(v.clone());
                },
                JsonVal::N(_) => {
                    proof {
                        if agent is None {
                            lemma_lookup_concat_left(prefix1, tail, "agent"@);
                        }
                    }
                    return None;
                },
            }
        } else if str_eq(key, "layer") {
            match &pairs[i].1 {
                JsonVal::S(v) => {
                    if layer.is_some() {
                        return None;
                    }
                    layer = Some(v.clone());
                },
                JsonVal::N(_) => {
                    proof {
                        if layer is None {
                            lemma_lookup_concat_left(prefix1, tail, "layer"@);
                        }
                    }
                    return None;
                },
            }
        } else if str_eq(key, "app") {
            match &pairs[i].1 {
                JsonVal::S(v) => {
                    if app.is_some() {
                        return None;
                    }
                    app = Some(v.clone());
                },
                JsonVal::N(_) => {
                    proof {
                        if app is None {
                            lemma_lookup_concat_left(prefix1, tail, "app"@);
                        }
                    }
                    return None;
                },
            }
        } else if str_eq(key, "status") {
            match &pairs[i].1 {
                JsonVal::S(v) => {
                    if status.is_some() {
                        return None;
                    }
                    status = Some(v.clone());
                },
                JsonVal::N(_) => {
                    proof {
                        if status is None {
                            lemma_lookup_concat_left(prefix1, tail, "status"@);
                        }
                    }
                    return None;
                },
            }
        } else if str_eq(key, "repeat") {
            match &pairs[i].1 {
                JsonVal::N(n) => {
                    if repeat.is_some() {
                        return None;
                    }
                    if *n < 1 {
                        proof {
                            lemma_lookup_concat_left(prefix1, tail, "repeat"@);
                        }
                        return None;
                    }
                    repeat = Some(*n);
                },
                JsonVal::S(_) => {
                    proof {
                        if repeat is None {
                            lemma_lookup_concat_left(prefix1, tail, "repeat"@);
                        }
                    }
                    return None;
                },
            }
        } else if str_eq(key, "source_framework") {
            match &pairs[i].1 {
                JsonVal::S(v) => {
                    if source.is_some() {
                        return None;
                    }
                    source = Some(v.clone());
                },
                JsonVal::N(_) => {
                    proof {
                        if source is None {
                            lemma_lookup_concat_left(prefix1, tail, "source_framework"@);
                        }
                    }
                    return None;
                },
            }
        } else if str_eq(key, "target_framework") {
            match &pairs[i].1 {
                JsonVal::S(v) => {
                    if target.is_some() {
                        return None;
                    }
                    target = Some(v.clone());
                },
                JsonVal::N(_) => {
                    proof {
                        if target is None {
                            lemma_lookup_concat_left(prefix1, tail, "target_framework"@);
                        }
                    }
                    return None;
                },
            }
        }
        i = i + 1;
    }
    proof {
        assert(pairs@.take(pairs@.len() as int) =~= pairs@);
        lemma_lookup_none_count_zero(full, "agent"@);
        lemma_lookup_none_count_zero(full, "layer"@);
        lemma_lookup_none_count_zero(full, "app"@);
        lemma_lookup_none_count_zero(full, "status"@);
        lemma_lookup_none_count_zero(full, "repeat"@);
        lemma_lookup_none_count_zero(full, "source_framework"@);
        lemma_lookup_none_count_zero(full, "target_framework"@);
    }
    match (agent, layer, app, status, repeat, source, target) {
        (Some(a), Some(l), Some(p), Some(st), Some(rep), Some(sf), Some(tf)) => {
            let m = RunMetaData::new(a, l, p, st, rep, sf, tf);
            Some(m)
        },
        _ => None,
    }
}

proof fn lemma_key_agent_plain()
    ensures
        spec_escape("agent"@) =~= "agent"@,
        "agent"@.len() == 5,
{
    reveal_strlit("agent");
    assert forall|k: int| 0 <= k < "agent"@.len() implies spec_ordinary(
        #[trigger] "agent"@[k],
    ) by {
        if k == 0 {
            assert("agent"@[0] == 'a');
        } else if k == 1 {
            assert("agent"@[1] == 'g');
        } else if k == 2 {
            assert("agent"@[2] == 'e');
        } else if k == 3 {
            assert("agent"@[3] == 'n');
        } else {
            assert("agent"@[4] == 't');
        }
    }
    lemma_plain_escape("agent"@);
}

proof fn lemma_key_layer_plain()
    ensures
        spec_escape("layer"@) =~= "layer"@,
        "layer"@.len() == 5,
{
    reveal_strlit("layer");
    assert forall|k: int| 0 <= k < "layer"@.len() implies spec_ordinary(
        #[trigger] "layer"@[k],
    ) by {
        if k == 0 {
            assert("layer"@[0] == 'l');
        } else if k == 1 {
            assert("layer"@[1] == 'a');
        } else if k == 2 {
            assert("layer"@[2] == 'y');
        } else if k == 3 {
            assert("layer"@[3] == 'e');
        } else {
            assert("layer"@[4] == 'r');
        }
    }
    lemma_plain_escape("layer"@);
}

proof fn lemma_key_app_plain()
    ensures
        spec_escape("app"@) =~= "app"@,
        "app"@.len() == 3,
{
    reveal_strlit("app");
    assert forall|k: int| 0 <= k < "app"@.len() implies spec_ordinary(#[trigger] "app"@[k]) by {
        if k == 0 {
            assert("app"@[0] == 'a');
        } else if k == 1 {
            assert("app"@[1] == 'p');
        } else {
            assert("app"@[2] == 'p');
        }
    }
    lemma_plain_escape("app"@);
}

proof fn lemma_key_status_plain()
    ensures
        spec_escape("status"@) =~= "status"@,
        "status"@.len() == 6,
{
    reveal_strlit("status");
    assert forall|k: int| 0 <= k < "status"@.len() implies spec_ordinary(
        #[trigger] "status"@[k],
    ) by {
        if k == 0 {
            assert("status"@[0] == 's');
        } else if k == 1 {
            assert("status"@[1] == 't');
        } else if k == 2 {
            assert("status"@[2] == 'a');
        } else if k == 3 {
            assert("status"@[3] == 't');
        } else if k == 4 {
            assert("status"@[4] == 'u');
        } else {
            assert("status"@[5] == 's');
        }
    }
    lemma_plain_escape("status"@);
}

proof fn lemma_key_repeat_plain()
    ensures
        spec_escape("repeat"@) =~= "repeat"@,
        "repeat"@.len() == 6,
{
    reveal_strlit("repeat");
    assert forall|k: int| 0 <= k < "repeat"@.len() implies spec_ordinary(
        #[trigger] "repeat"@[k],
    ) by {
        if k == 0 {
            assert("repeat"@[0] == 'r');
        } else if k == 1 {
            assert("repeat"@[1] == 'e');
        } else if k == 2 {
            assert("repeat"@[2] == 'p');
        } else if k == 3 {
            assert("repeat"@[3] == 'e');
        } else if k == 4 {
            assert("repeat"@[4] == 'a');
        } else {
            assert("repeat"@[5] == 't');
        }
    }
    lemma_plain_escape("repeat"@);
}

proof fn lemma_key_source_plain()
    ensures
        spec_escape("source_framework"@) =~= "source_framework"@,
        "source_framework"@.len() == 16,
{
    reveal_strlit("source_framework");
    assert forall|k: int| 0 <= k < "source_framework"@.len() implies spec_ordinary(
        #[trigger] "source_framework"@[k],
    ) by {
        if k == 0 {
            assert("source_framework"@[0] == 's');
        } else if k == 1 {
            assert("source_framework"@[1] == 'o');
        } else if k == 2 {
            assert("source_framework"@[2] == 'u');
        } else if k == 3 {
            assert("source_framework"@[3] == 'r');
        } else if k == 4 {
            assert("source_framework"@[4] == 'c');
        } else if k == 5 {
            assert("source_framework"@[5] == 'e');
        } else if k == 6 {
            assert("source_framework"@[6] == '_');
        } else if k == 7 {
            assert("source_framework"@[7] == 'f');
        } else if k == 8 {
            assert("source_framework"@[8] == 'r');
        } else if k == 9 {
            assert("source_framework"@[9] == 'a');
        } else if k == 10 {
            assert("source_framework"@[10] == 'm');
        } else if k == 11 {
            assert("source_framework"@[11] == 'e');
        } else if k == 12 {
            assert("source_framework"@[12] == 'w');
        } else if k == 13 {
            assert("source_framework"@[13] == 'o');
        } else if k == 14 {
            assert("source_framework"@[14] == 'r');
        } else {
            assert("source_framework"@[15] == 'k');
        }
    }
    lemma_plain_escape("source_framework"@);
}

proof fn lemma_key_target_plain()
    ensures
        spec_escape("target_framework"@) =~= "target_framework"@,
        "target_framework"@.len() == 16,
{
    reveal_strlit("target_framework");
    assert forall|k: int| 0 <= k < "target_framework"@.len() implies spec_ordinary(
        #[trigger] "target_framework"@[k],
    ) by {
        if k == 0 {
            assert("target_framework"@[0] == 't');
        } else if k == 1 {
            assert("target_framework"@[1] == 'a');
        } else if k == 2 {
            assert("target_framework"@[2] == 'r');
        } else if k == 3 {
            assert("target_framework"@[3] == 'g');
        } else if k == 4 {
            assert("target_framework"@[4] == 'e');
        } else if k == 5 {
            assert("target_framework"@[5] == 't');
        } else if k == 6 {
            assert("target_framework"@[6] == '_');
        } else if k == 7 {
            assert("target_framework"@[7] == 'f');
        } else if k == 8 {
            assert("target_framework"@[8] == 'r');
        } else if k == 9 {
            assert("target_framework"@[9] == 'a');
        } else if k == 10 {
            assert("target_framework"@[10] == 'm');
        } else if k == 11 {
            assert("target_framework"@[11] == 'e');
        } else if k == 12 {
            assert("target_framework"@[12] == 'w');
        } else if k == 13 {
            assert("target_framework"@[13] == 'o');
        } else if k == 14 {
            assert("target_framework"@[14] == 'r');
        } else {
            assert("target_framework"@[15] == 'k');
        }
    }
    lemma_plain_escape("target_framework"@);
}

/// What a whole metadata text decodes to for the dispatch driver: the
/// seven required members as plain values, other members ignored.
pub open spec fn spec_runmeta_of(s: Seq<char>) -> Option<RunMetaDataV> {
    match spec_parse_object(s) {
        None => None,
        Some(pairs) => spec_fields_of_pairs(pairs),
    }
}

// What follows proves the writer/reader round trip: the exact document
// `spec_metadata_json` renders is taken apart again by the reader above,
// member by member.  The layout lemma places every fixed piece and every
// escaped field of the document at its computed offset; one lemma per
// member reads its key and its value back; the chain lemmas fold the
// seven members into the parsed object.

/// Offsets of the pieces of an emitted metadata document.
spec fn o_va(ag: Seq<char>, la: Seq<char>, ap: Seq<char>, st: Seq<char>, rep: int, sf: Seq<char>, tf: Seq<char>) -> int {
    14
}

spec fn o_b1(ag: Seq<char>, la: Seq<char>, ap: Seq<char>, st: Seq<char>, rep: int, sf: Seq<char>, tf: Seq<char>) -> int {
    o_va(ag, la, ap, st, rep, sf, tf) + spec_escape(ag).len()
}

spec fn o_vl(ag: Seq<char>, la: Seq<char>, ap: Seq<char>, st: Seq<char>, rep: int, sf: Seq<char>, tf: Seq<char>) -> int {
    o_b1(ag, la, ap, st, rep, sf, tf) + 15
}

spec fn o_b2(ag: Seq<char>, la: Seq<char>, ap: Seq<char>, st: Seq<char>, rep: int, sf: Seq<char>, tf: Seq<char>) -> int {
    o_vl(ag, la, ap, st, rep, sf, tf) + spec_escape(la).len()
}

spec fn o_vp(ag: Seq<char>, la: Seq<char>, ap: Seq<char>, st: Seq<char>, rep: int, sf: Seq<char>, tf: Seq<char>) -> int {
    o_b2(ag, la, ap, st, rep, sf, tf) + 13
}

spec fn o_b3(ag: Seq<char>, la: Seq<char>, ap: Seq<char>, st: Seq<char>, rep: int, sf: Seq<char>, tf: Seq<char>) -> int {
    o_vp(ag, la, ap, st, rep, sf, tf) + spec_escape(ap).len()
}

spec fn o_vs(ag: Seq<char>, la: Seq<char>, ap: Seq<char>, st: Seq<char>, rep: int, sf: Seq<char>, tf: Seq<char>) -> int {
    o_b3(ag, la, ap, st, rep, sf, tf) + 16
}

spec fn o_b4(ag: Seq<char>, la: Seq<char>, ap: Seq<char>, st: Seq<char>, rep: int, sf: Seq<char>, tf: Seq<char>) -> int {
    o_vs(ag, la, ap, st, rep, sf, tf) + spec_escape(st).len()
}

spec fn o_vn(ag: Seq<char>, la: Seq<char>, ap: Seq<char>, st: Seq<char>, rep: int, sf: Seq<char>, tf: Seq<char>) -> int {
    o_b4(ag, la, ap, st, rep, sf, tf) + 15
}

spec fn o_b5(ag: Seq<char>, la: Seq<char>, ap: Seq<char>, st: Seq<char>, rep: int, sf: Seq<char>, tf: Seq<char>) -> int {
    o_vn(ag, la, ap, st, rep, sf, tf) + spec_dec(rep).len()
}

spec fn o_vf(ag: Seq<char>, la: Seq<char>, ap: Seq<char>, st: Seq<char>, rep: int, sf: Seq<char>, tf: Seq<char>) -> int {
    o_b5(ag, la, ap, st, rep, sf, tf) + 25
}

spec fn o_b6(ag: Seq<char>, la: Seq<char>, ap: Seq<char>, st: Seq<char>, rep: int, sf: Seq<char>, tf: Seq<char>) -> int {
    o_vf(ag, la, ap, st, rep, sf, tf) + spec_escape(sf).len()
}

spec fn o_vt(ag: Seq<char>, la: Seq<char>, ap: Seq<char>, st: Seq<char>, rep: int, sf: Seq<char>, tf: Seq<char>) -> int {
    o_b6(ag, la, ap, st, rep, sf, tf) + 26
}

spec fn o_b7(ag: Seq<char>, la: Seq<char>, ap: Seq<char>, st: Seq<char>, rep: int, sf: Seq<char>, tf: Seq<char>) -> int {
    o_vt(ag, la, ap, st, rep, sf, tf) + spec_escape(tf).len()
}

/// The shape of an emitted metadata document: every piece of the
/// writer's layout sits at its computed offset.
spec fn emitted_layout(doc: Seq<char>, ag: Seq<char>, la: Seq<char>, ap: Seq<char>, st: Seq<char>, rep: int, sf: Seq<char>, tf: Seq<char>) -> bool {
    &&& doc == spec_metadata_json(ag, la, ap, st, rep, sf, tf)
    &&& doc.len() == o_b7(ag, la, ap, st, rep, sf, tf) + 3
    &&& (forall|x: int| 0 <= x < 0 + 14 ==> #[trigger] doc[x] == ("{\n  \"agent\": \""@)[x - (0)])
    &&& (forall|x: int| o_va(ag, la, ap, st, rep, sf, tf) <= x < o_va(ag, la, ap, st, rep, sf, tf) + spec_escape(ag).len() ==> #[trigger] doc[x] == (spec_escape(ag))[x - (o_va(ag, la, ap, st, rep, sf, tf))])
    &&& (forall|x: int| o_b1(ag, la, ap, st, rep, sf, tf) <= x < o_b1(ag, la, ap, st, rep, sf, tf) + 15 ==> #[trigger] doc[x] == ("\",\n  \"layer\": \""@)[x - (o_b1(ag, la, ap, st, rep, sf, tf))])
    &&& (forall|x: int| o_vl(ag, la, ap, st, rep, sf, tf) <= x < o_vl(ag, la, ap, st, rep, sf, tf) + spec_escape(la).len() ==> #[trigger] doc[x] == (spec_escape(la))[x - (o_vl(ag, la, ap, st, rep, sf, tf))])
    &&& (forall|x: int| o_b2(ag, la, ap, st, rep, sf, tf) <= x < o_b2(ag, la, ap, st, rep, sf, tf) + 13 ==> #[trigger] doc[x] == ("\",\n  \"app\": \""@)[x - (o_b2(ag, la, ap, st, rep, sf, tf))])
    &&& (forall|x: int| o_vp(ag, la, ap, st, rep, sf, tf) <= x < o_vp(ag, la, ap, st, rep, sf, tf) + spec_escape(ap).len() ==> #[trigger] doc[x] == (spec_escape(ap))[x - (o_vp(ag, la, ap, st, rep, sf, tf))])
    &&& (forall|x: int| o_b3(ag, la, ap, st, rep, sf, tf) <= x < o_b3(ag, la, ap, st, rep, sf, tf) + 16 ==> #[trigger] doc[x] == ("\",\n  \"status\": \""@)[x - (o_b3(ag, la, ap, st, rep, sf, tf))])
    &&& (forall|x: int| o_vs(ag, la, ap, st, rep, sf, tf) <= x < o_vs(ag, la, ap, st, rep, sf, tf) + spec_escape(st).len() ==> #[trigger] doc[x] == (spec_escape(st))[x - (o_vs(ag, la, ap, st, rep, sf, tf))])
    &&& (forall|x: int| o_b4(ag, la, ap, st, rep, sf, tf) <= x < o_b4(ag, la, ap, st, rep, sf, tf) + 15 ==> #[trigger] doc[x] == ("\",\n  \"repeat\": "@)[x - (o_b4(ag, la, ap, st, rep, sf, tf))])
    &&& (forall|x: int| o_vn(ag, la, ap, st, rep, sf, tf) <= x < o_vn(ag, la, ap, st, rep, sf, tf) + spec_dec(rep).len() ==> #[trigger] doc[x] == (spec_dec(rep))[x - (o_vn(ag, la, ap, st, rep, sf, tf))])
    &&& (forall|x: int| o_b5(ag, la, ap, st, rep, sf, tf) <= x < o_b5(ag, la, ap, st, rep, sf, tf) + 25 ==> #[trigger] doc[x] == (",\n  \"source_framework\": \""@)[x - (o_b5(ag, la, ap, st, rep, sf, tf))])
    &&& (forall|x: int| o_vf(ag, la, ap, st, rep, sf, tf) <= x < o_vf(ag, la, ap, st, rep, sf, tf) + spec_escape(sf).len() ==> #[trigger] doc[x] == (spec_escape(sf))[x - (o_vf(ag, la, ap, st, rep, sf, tf))])
    &&& (forall|x: int| o_b6(ag, la, ap, st, rep, sf, tf) <= x < o_b6(ag, la, ap, st, rep, sf, tf) + 26 ==> #[trigger] doc[x] == ("\",\n  \"target_framework\": \""@)[x - (o_b6(ag, la, ap, st, rep, sf, tf))])
    &&& (forall|x: int| o_vt(ag, la, ap, st, rep, sf, tf) <= x < o_vt(ag, la, ap, st, rep, sf, tf) + spec_escape(tf).len() ==> #[trigger] doc[x] == (spec_escape(tf))[x - (o_vt(ag, la, ap, st, rep, sf, tf))])
    &&& (forall|x: int| o_b7(ag, la, ap, st, rep, sf, tf) <= x < o_b7(ag, la, ap, st, rep, sf, tf) + 3 ==> #[trigger] doc[x] == ("\"\n}"@)[x - (o_b7(ag, la, ap, st, rep, sf, tf))])
}

#[verifier::rlimit(100)]
proof fn lemma_emitted_layout(ag: Seq<char>, la: Seq<char>, ap: Seq<char>, st: Seq<char>, rep: int, sf: Seq<char>, tf: Seq<char>)
    ensures
        emitted_layout(spec_metadata_json(ag, la, ap, st, rep, sf, tf), ag, la, ap, st, rep, sf, tf),
{
    let ea = spec_escape(ag);
    let el = spec_escape(la);
    let ep = spec_escape(ap);
    let est = spec_escape(st);
    let dn = spec_dec(rep);
    let esf = spec_escape(sf);
    let etf = spec_escape(tf);
    let q0 = "{\n  \"agent\": \""@;
    let q1 = "\",\n  \"layer\": \""@;
    let q2 = "\",\n  \"app\": \""@;
    let q3 = "\",\n  \"status\": \""@;
    let q4 = "\",\n  \"repeat\": "@;
    let q5 = ",\n  \"source_framework\": \""@;
    let q6 = "\",\n  \"target_framework\": \""@;
    let q7 = "\"\n}"@;
    reveal_strlit("{\n  \"agent\": \"");
    reveal_strlit("\",\n  \"layer\": \"");
    reveal_strlit("\",\n  \"app\": \"");
    reveal_strlit("\",\n  \"status\": \"");
    reveal_strlit("\",\n  \"repeat\": ");
    reveal_strlit(",\n  \"source_framework\": \"");
    reveal_strlit("\",\n  \"target_framework\": \"");
    reveal_strlit("\"\n}");
    assert(q0.len() == 14);
    assert(q1.len() == 15);
    assert(q2.len() == 13);
    assert(q3.len() == 16);
    assert(q4.len() == 15);
    assert(q5.len() == 25);
    assert(q6.len() == 26);
    assert(q7.len() == 3);
    let d1 = q0 + ea;
    let d2 = d1 + q1;
    let d3 = d2 + el;
    let d4 = d3 + q2;
    let d5 = d4 + ep;
    let d6 = d5 + q3;
    let d7 = d6 + est;
    let d8 = d7 + q4;
    let d9 = d8 + dn;
    let d10 = d9 + q5;
    let d11 = d10 + esf;
    let d12 = d11 + q6;
    let d13 = d12 + etf;
    let doc = spec_metadata_json(ag, la, ap, st, rep, sf, tf);
    assert(doc == d13 + q7);
    assert(doc.len() == o_b7(ag, la, ap, st, rep, sf, tf) + 3);
    assert forall|x: int| 0 <= x < 0 + 14 implies #[trigger] doc[x] == ("{\n  \"agent\": \""@)[x - (0)] by {
        assert(doc[x] == d13[x]);
        assert(d13[x] == d12[x]);
        assert(d12[x] == d11[x]);
        assert(d11[x] == d10[x]);
        assert(d10[x] == d9[x]);
        assert(d9[x] == d8[x]);
        assert(d8[x] == d7[x]);
        assert(d7[x] == d6[x]);
        assert(d6[x] == d5[x]);
        assert(d5[x] == d4[x]);
        assert(d4[x] == d3[x]);
        assert(d3[x] == d2[x]);
        assert(d2[x] == d1[x]);
        assert(d1[x] == q0[x - (0)]);
        assert(q0[x - (0)] == ("{\n  \"agent\": \""@)[x - (0)]);
    }
    assert forall|x: int| o_va(ag, la, ap, st, rep, sf, tf) <= x < o_va(ag, la, ap, st, rep, sf, tf) + spec_escape(ag).len() implies #[trigger] doc[x] == (spec_escape(ag))[x - (o_va(ag, la, ap, st, rep, sf, tf))] by {
        assert(doc[x] == d13[x]);
        assert(d13[x] == d12[x]);
        assert(d12[x] == d11[x]);
        assert(d11[x] == d10[x]);
        assert(d10[x] == d9[x]);
        assert(d9[x] == d8[x]);
        assert(d8[x] == d7[x]);
        assert(d7[x] == d6[x]);
        assert(d6[x] == d5[x]);
        assert(d5[x] == d4[x]);
        assert(d4[x] == d3[x]);
        assert(d3[x] == d2[x]);
        assert(d2[x] == d1[x]);
        assert(d1[x] == ea[x - (o_va(ag, la, ap, st, rep, sf, tf))]);
    }
    assert forall|x: int| o_b1(ag, la, ap, st, rep, sf, tf) <= x < o_b1(ag, la, ap, st, rep, sf, tf) + 15 implies #[trigger] doc[x] == ("\",\n  \"layer\": \""@)[x - (o_b1(ag, la, ap, st, rep, sf, tf))] by {
        assert(doc[x] == d13[x]);
        assert(d13[x] == d12[x]);
        assert(d12[x] == d11[x]);
        assert(d11[x] == d10[x]);
        assert(d10[x] == d9[x]);
        assert(d9[x] == d8[x]);
        assert(d8[x] == d7[x]);
        assert(d7[x] == d6[x]);
        assert(d6[x] == d5[x]);
        assert(d5[x] == d4[x]);
        assert(d4[x] == d3[x]);
        assert(d3[x] == d2[x]);
        assert(d2[x] == q1[x - (o_b1(ag, la, ap, st, rep, sf, tf))]);
        assert(q1[x - (o_b1(ag, la, ap, st, rep, sf, tf))] == ("\",\n  \"layer\": \""@)[x - (o_b1(ag, la, ap, st, rep, sf, tf))]);
    }
    assert forall|x: int| o_vl(ag, la, ap, st, rep, sf, tf) <= x < o_vl(ag, la, ap, st, rep, sf, tf) + spec_escape(la).len() implies #[trigger] doc[x] == (spec_escape(la))[x - (o_vl(ag, la, ap, st, rep, sf, tf))] by {
        assert(doc[x] == d13[x]);
        assert(d13[x] == d12[x]);
        assert(d12[x] == d11[x]);
        assert(d11[x] == d10[x]);
        assert(d10[x] == d9[x]);
        assert(d9[x] == d8[x]);
        assert(d8[x] == d7[x]);
        assert(d7[x] == d6[x]);
        assert(d6[x] == d5[x]);
        assert(d5[x] == d4[x]);
        assert(d4[x] == d3[x]);
        assert(d3[x] == el[x - (o_vl(ag, la, ap, st, rep, sf, tf))]);
    }
    assert forall|x: int| o_b2(ag, la, ap, st, rep, sf, tf) <= x < o_b2(ag, la, ap, st, rep, sf, tf) + 13 implies #[trigger] doc[x] == ("\",\n  \"app\": \""@)[x - (o_b2(ag, la, ap, st, rep, sf, tf))] by {
        assert(doc[x] == d13[x]);
        assert(d13[x] == d12[x]);
        assert(d12[x] == d11[x]);
        assert(d11[x] == d10[x]);
        assert(d10[x] == d9[x]);
        assert(d9[x] == d8[x]);
        assert(d8[x] == d7[x]);
        assert(d7[x] == d6[x]);
        assert(d6[x] == d5[x]);
        assert(d5[x] == d4[x]);
        assert(d4[x] == q2[x - (o_b2(ag, la, ap, st, rep, sf, tf))]);
        assert(q2[x - (o_b2(ag, la, ap, st, rep, sf, tf))] == ("\",\n  \"app\": \""@)[x - (o_b2(ag, la, ap, st, rep, sf, tf))]);
    }
    assert forall|x: int| o_vp(ag, la, ap, st, rep, sf, tf) <= x < o_vp(ag, la, ap, st, rep, sf, tf) + spec_escape(ap).len() implies #[trigger] doc[x] == (spec_escape(ap))[x - (o_vp(ag, la, ap, st, rep, sf, tf))] by {
        assert(doc[x] == d13[x]);
        assert(d13[x] == d12[x]);
        assert(d12[x] == d11[x]);
        assert(d11[x] == d10[x]);
        assert(d10[x] == d9[x]);
        assert(d9[x] == d8[x]);
        assert(d8[x] == d7[x]);
        assert(d7[x] == d6[x]);
        assert(d6[x] == d5[x]);
        assert(d5[x] == ep[x - (o_vp(ag, la, ap, st, rep, sf, tf))]);
    }
    assert forall|x: int| o_b3(ag, la, ap, st, rep, sf, tf) <= x < o_b3(ag, la, ap, st, rep, sf, tf) + 16 implies #[trigger] doc[x] == ("\",\n  \"status\": \""@)[x - (o_b3(ag, la, ap, st, rep, sf, tf))] by {
        assert(doc[x] == d13[x]);
        assert(d13[x] == d12[x]);
        assert(d12[x] == d11[x]);
        assert(d11[x] == d10[x]);
        assert(d10[x] == d9[x]);
        assert(d9[x] == d8[x]);
        assert(d8[x] == d7[x]);
        assert(d7[x] == d6[x]);
        assert(d6[x] == q3[x - (o_b3(ag, la, ap, st, rep, sf, tf))]);
        assert(q3[x - (o_b3(ag, la, ap, st, rep, sf, tf))] == ("\",\n  \"status\": \""@)[x - (o_b3(ag, la, ap, st, rep, sf, tf))]);
    }
    assert forall|x: int| o_vs(ag, la, ap, st, rep, sf, tf) <= x < o_vs(ag, la, ap, st, rep, sf, tf) + spec_escape(st).len() implies #[trigger] doc[x] == (spec_escape(st))[x - (o_vs(ag, la, ap, st, rep, sf, tf))] by {
        assert(doc[x] == d13[x]);
        assert(d13[x] == d12[x]);
        assert(d12[x] == d11[x]);
        assert(d11[x] == d10[x]);
        assert(d10[x] == d9[x]);
        assert(d9[x] == d8[x]);
        assert(d8[x] == d7[x]);
        assert(d7[x] == est[x - (o_vs(ag, la, ap, st, rep, sf, tf))]);
    }
    assert forall|x: int| o_b4(ag, la, ap, st, rep, sf, tf) <= x < o_b4(ag, la, ap, st, rep, sf, tf) + 15 implies #[trigger] doc[x] == ("\",\n  \"repeat\": "@)[x - (o_b4(ag, la, ap, st, rep, sf, tf))] by {
        assert(doc[x] == d13[x]);
        assert(d13[x] == d12[x]);
        assert(d12[x] == d11[x]);
        assert(d11[x] == d10[x]);
        assert(d10[x] == d9[x]);
        assert(d9[x] == d8[x]);
        assert(d8[x] == q4[x - (o_b4(ag, la, ap, st, rep, sf, tf))]);
        assert(q4[x - (o_b4(ag, la, ap, st, rep, sf, tf))] == ("\",\n  \"repeat\": "@)[x - (o_b4(ag, la, ap, st, rep, sf, tf))]);
    }
    assert forall|x: int| o_vn(ag, la, ap, st, rep, sf, tf) <= x < o_vn(ag, la, ap, st, rep, sf, tf) + spec_dec(rep).len() implies #[trigger] doc[x] == (spec_dec(rep))[x - (o_vn(ag, la, ap, st, rep, sf, tf))] by {
        assert(doc[x] == d13[x]);
        assert(d13[x] == d12[x]);
        assert(d12[x] == d11[x]);
        assert(d11[x] == d10[x]);
        assert(d10[x] == d9[x]);
        assert(d9[x] == dn[x - (o_vn(ag, la, ap, st, rep, sf, tf))]);
    }
    assert forall|x: int| o_b5(ag, la, ap, st, rep, sf, tf) <= x < o_b5(ag, la, ap, st, rep, sf, tf) + 25 implies #[trigger] doc[x] == (",\n  \"source_framework\": \""@)[x - (o_b5(ag, la, ap, st, rep, sf, tf))] by {
        assert(doc[x] == d13[x]);
        assert(d13[x] == d12[x]);
        assert(d12[x] == d11[x]);
        assert(d11[x] == d10[x]);
        assert(d10[x] == q5[x - (o_b5(ag, la, ap, st, rep, sf, tf))]);
        assert(q5[x - (o_b5(ag, la, ap, st, rep, sf, tf))] == (",\n  \"source_framework\": \""@)[x - (o_b5(ag, la, ap, st, rep, sf, tf))]);
    }
    assert forall|x: int| o_vf(ag, la, ap, st, rep, sf, tf) <= x < o_vf(ag, la, ap, st, rep, sf, tf) + spec_escape(sf).len() implies #[trigger] doc[x] == (spec_escape(sf))[x - (o_vf(ag, la, ap, st, rep, sf, tf))] by {
        assert(doc[x] == d13[x]);
        assert(d13[x] == d12[x]);
        assert(d12[x] == d11[x]);
        assert(d11[x] == esf[x - (o_vf(ag, la, ap, st, rep, sf, tf))]);
    }
    assert forall|x: int| o_b6(ag, la, ap, st, rep, sf, tf) <= x < o_b6(ag, la, ap, st, rep, sf, tf) + 26 implies #[trigger] doc[x] == ("\",\n  \"target_framework\": \""@)[x - (o_b6(ag, la, ap, st, rep, sf, tf))] by {
        assert(doc[x] == d13[x]);
        assert(d13[x] == d12[x]);
        assert(d12[x] == q6[x - (o_b6(ag, la, ap, st, rep, sf, tf))]);
        assert(q6[x - (o_b6(ag, la, ap, st, rep, sf, tf))] == ("\",\n  \"target_framework\": \""@)[x - (o_b6(ag, la, ap, st, rep, sf, tf))]);
    }
    assert forall|x: int| o_vt(ag, la, ap, st, rep, sf, tf) <= x < o_vt(ag, la, ap, st, rep, sf, tf) + spec_escape(tf).len() implies #[trigger] doc[x] == (spec_escape(tf))[x - (o_vt(ag, la, ap, st, rep, sf, tf))] by {
        assert(doc[x] == d13[x]);
        assert(d13[x] == etf[x - (o_vt(ag, la, ap, st, rep, sf, tf))]);
    }
    assert forall|x: int| o_b7(ag, la, ap, st, rep, sf, tf) <= x < o_b7(ag, la, ap, st, rep, sf, tf) + 3 implies #[trigger] doc[x] == ("\"\n}"@)[x - (o_b7(ag, la, ap, st, rep, sf, tf))] by {
        assert(doc[x] == q7[x - (o_b7(ag, la, ap, st, rep, sf, tf))]);
    }
}

#[verifier::rlimit(100)]
proof fn lemma_emitted_key_agent(doc: Seq<char>, ag: Seq<char>, la: Seq<char>, ap: Seq<char>, st: Seq<char>, rep: int, sf: Seq<char>, tf: Seq<char>)
    requires
        doc.len() == o_b7(ag, la, ap, st, rep, sf, tf) + 3,
        forall|x: int| 0 <= x < 0 + 14 ==> #[trigger] doc[x] == ("{\n  \"agent\": \""@)[x - (0)],
    ensures
        spec_parse_string(doc, (0int) + 4) == Some(("agent"@, (0int) + 11)),
{
    reveal_strlit("{\n  \"agent\": \"");
    reveal_strlit("agent");
    lemma_key_agent_plain();
    let qp = "{\n  \"agent\": \""@;
    let base = 0int;
    let ks = base + 4;
    assert(doc[ks] == qp[4]);
    assert(qp[4] == '"');
    assert forall|k: int| 0 <= k < 5 implies doc[ks + 1 + k] == "agent"@[k] by {
        if k == 0 {
            assert(doc[ks + 1 + 0] == qp[5]);
            assert(qp[5] == 'a');
            assert("agent"@[0] == 'a');
        } else if k == 1 {
            assert(doc[ks + 1 + 1] == qp[6]);
            assert(qp[6] == 'g');
            assert("agent"@[1] == 'g');
        } else if k == 2 {
            assert(doc[ks + 1 + 2] == qp[7]);
            assert(qp[7] == 'e');
            assert("agent"@[2] == 'e');
        } else if k == 3 {
            assert(doc[ks + 1 + 3] == qp[8]);
            assert(qp[8] == 'n');
            assert("agent"@[3] == 'n');
        } else {
            assert(doc[ks + 1 + 4] == qp[9]);
            assert(qp[9] == 't');
            assert("agent"@[4] == 't');
        }
    }
    assert(doc.subrange(ks + 1, ks + 1 + 5) =~= "agent"@);
    assert(doc.subrange(ks + 1, ks + 1 + 5) =~= spec_escape("agent"@));
    assert(doc[ks + 1 + 5] == qp[10]);
    assert(qp[10] == '"');
    assert(ks + 1 + 5 < doc.len());
    lemma_parse_string_of_escaped("agent"@, doc, ks);
}

#[verifier::rlimit(100)]
proof fn lemma_emitted_member_agent(doc: Seq<char>, ag: Seq<char>, la: Seq<char>, ap: Seq<char>, st: Seq<char>, rep: int, sf: Seq<char>, tf: Seq<char>)
    requires
        0 <= rep <= u32::MAX,
        doc.len() == o_b7(ag, la, ap, st, rep, sf, tf) + 3,
        forall|x: int| 0 <= x < 0 + 14 ==> #[trigger] doc[x] == ("{\n  \"agent\": \""@)[x - (0)],
        forall|x: int| o_va(ag, la, ap, st, rep, sf, tf) <= x < o_va(ag, la, ap, st, rep, sf, tf) + spec_escape(ag).len() ==> #[trigger] doc[x] == (spec_escape(ag))[x - (o_va(ag, la, ap, st, rep, sf, tf))],
        forall|x: int| o_b1(ag, la, ap, st, rep, sf, tf) <= x < o_b1(ag, la, ap, st, rep, sf, tf) + 15 ==> #[trigger] doc[x] == ("\",\n  \"layer\": \""@)[x - (o_b1(ag, la, ap, st, rep, sf, tf))],
        spec_parse_string(doc, (0int) + 4) == Some(("agent"@, (0int) + 11)),
    ensures
        spec_parse_member(doc, (0int) + 4) == Some((("agent"@, JsonValV::S(ag)), o_b1(ag, la, ap, st, rep, sf, tf) + 1)),
{
    reveal_strlit("{\n  \"agent\": \"");
    reveal_strlit("\",\n  \"layer\": \"");
    let qp = "{\n  \"agent\": \""@;
    let qn = "\",\n  \"layer\": \""@;
    let base = 0int;
    let ks = base + 4;
    let vx = o_va(ag, la, ap, st, rep, sf, tf);
    let nb = o_b1(ag, la, ap, st, rep, sf, tf);
    let ex = spec_escape(ag);
    assert(doc[ks + 7] == qp[11]);
    assert(qp[11] == ':');
    assert(doc[ks + 8] == qp[12]);
    assert(qp[12] == ' ');
    assert(doc.subrange(vx, vx + ex.len()) =~= ex);
    assert(doc[vx - 1] == qp[13]);
    assert(qp[13] == '"');
    assert(doc[vx + ex.len()] == qn[0]);
    assert(qn[0] == '"');
    assert(vx + ex.len() < doc.len());
    lemma_parse_string_of_escaped(ag, doc, vx - 1);
    lemma_member_string(doc, ks, "agent"@, ks + 7, ag, nb + 1);
}

#[verifier::rlimit(100)]
proof fn lemma_emitted_key_layer(doc: Seq<char>, ag: Seq<char>, la: Seq<char>, ap: Seq<char>, st: Seq<char>, rep: int, sf: Seq<char>, tf: Seq<char>)
    requires
        doc.len() == o_b7(ag, la, ap, st, rep, sf, tf) + 3,
        forall|x: int| o_b1(ag, la, ap, st, rep, sf, tf) <= x < o_b1(ag, la, ap, st, rep, sf, tf) + 15 ==> #[trigger] doc[x] == ("\",\n  \"layer\": \""@)[x - (o_b1(ag, la, ap, st, rep, sf, tf))],
    ensures
        spec_parse_string(doc, (o_b1(ag, la, ap, st, rep, sf, tf)) + 5) == Some(("layer"@, (o_b1(ag, la, ap, st, rep, sf, tf)) + 12)),
{
    reveal_strlit("\",\n  \"layer\": \"");
    reveal_strlit("layer");
    lemma_key_layer_plain();
    let qp = "\",\n  \"layer\": \""@;
    let base = o_b1(ag, la, ap, st, rep, sf, tf);
    let ks = base + 5;
    assert(doc[ks] == qp[5]);
    assert(qp[5] == '"');
    assert forall|k: int| 0 <= k < 5 implies doc[ks + 1 + k] == "layer"@[k] by {
        if k == 0 {
            assert(doc[ks + 1 + 0] == qp[6]);
            assert(qp[6] == 'l');
            assert("layer"@[0] == 'l');
        } else if k == 1 {
            assert(doc[ks + 1 + 1] == qp[7]);
            assert(qp[7] == 'a');
            assert("layer"@[1] == 'a');
        } else if k == 2 {
            assert(doc[ks + 1 + 2] == qp[8]);
            assert(qp[8] == 'y');
            assert("layer"@[2] == 'y');
        } else if k == 3 {
            assert(doc[ks + 1 + 3] == qp[9]);
            assert(qp[9] == 'e');
            assert("layer"@[3] == 'e');
        } else {
            assert(doc[ks + 1 + 4] == qp[10]);
            assert(qp[10] == 'r');
            assert("layer"@[4] == 'r');
        }
    }
    assert(doc.subrange(ks + 1, ks + 1 + 5) =~= "layer"@);
    assert(doc.subrange(ks + 1, ks + 1 + 5) =~= spec_escape("layer"@));
    assert(doc[ks + 1 + 5] == qp[11]);
    assert(qp[11] == '"');
    assert(ks + 1 + 5 < doc.len());
    lemma_parse_string_of_escaped("layer"@, doc, ks);
}

#[verifier::rlimit(100)]
proof fn lemma_emitted_member_layer(doc: Seq<char>, ag: Seq<char>, la: Seq<char>, ap: Seq<char>, st: Seq<char>, rep: int, sf: Seq<char>, tf: Seq<char>)
    requires
        0 <= rep <= u32::MAX,
        doc.len() == o_b7(ag, la, ap, st, rep, sf, tf) + 3,
        forall|x: int| o_b1(ag, la, ap, st, rep, sf, tf) <= x < o_b1(ag, la, ap, st, rep, sf, tf) + 15 ==> #[trigger] doc[x] == ("\",\n  \"layer\": \""@)[x - (o_b1(ag, la, ap, st, rep, sf, tf))],
        forall|x: int| o_vl(ag, la, ap, st, rep, sf, tf) <= x < o_vl(ag, la, ap, st, rep, sf, tf) + spec_escape(la).len() ==> #[trigger] doc[x] == (spec_escape(la))[x - (o_vl(ag, la, ap, st, rep, sf, tf))],
        forall|x: int| o_b2(ag, la, ap, st, rep, sf, tf) <= x < o_b2(ag, la, ap, st, rep, sf, tf) + 13 ==> #[trigger] doc[x] == ("\",\n  \"app\": \""@)[x - (o_b2(ag, la, ap, st, rep, sf, tf))],
        spec_parse_string(doc, (o_b1(ag, la, ap, st, rep, sf, tf)) + 5) == Some(("layer"@, (o_b1(ag, la, ap, st, rep, sf, tf)) + 12)),
    ensures
        spec_parse_member(doc, (o_b1(ag, la, ap, st, rep, sf, tf)) + 5) == Some((("layer"@, JsonValV::S(la)), o_b2(ag, la, ap, st, rep, sf, tf) + 1)),
{
    reveal_strlit("\",\n  \"layer\": \"");
    reveal_strlit("\",\n  \"app\": \"");
    let qp = "\",\n  \"layer\": \""@;
    let qn = "\",\n  \"app\": \""@;
    let base = o_b1(ag, la, ap, st, rep, sf, tf);
    let ks = base + 5;
    let vx = o_vl(ag, la, ap, st, rep, sf, tf);
    let nb = o_b2(ag, la, ap, st, rep, sf, tf);
    let ex = spec_escape(la);
    assert(doc[ks + 7] == qp[12]);
    assert(qp[12] == ':');
    assert(doc[ks + 8] == qp[13]);
    assert(qp[13] == ' ');
    assert(doc.subrange(vx, vx + ex.len()) =~= ex);
    assert(doc[vx - 1] == qp[14]);
    assert(qp[14] == '"');
    assert(doc[vx + ex.len()] == qn[0]);
    assert(qn[0] == '"');
    assert(vx + ex.len() < doc.len());
    lemma_parse_string_of_escaped(la, doc, vx - 1);
    lemma_member_string(doc, ks, "layer"@, ks + 7, la, nb + 1);
}

#[verifier::rlimit(100)]
proof fn lemma_emitted_key_app(doc: Seq<char>, ag: Seq<char>, la: Seq<char>, ap: Seq<char>, st: Seq<char>, rep: int, sf: Seq<char>, tf: Seq<char>)
    requires
        doc.len() == o_b7(ag, la, ap, st, rep, sf, tf) + 3,
        forall|x: int| o_b2(ag, la, ap, st, rep, sf, tf) <= x < o_b2(ag, la, ap, st, rep, sf, tf) + 13 ==> #[trigger] doc[x] == ("\",\n  \"app\": \""@)[x - (o_b2(ag, la, ap, st, rep, sf, tf))],
    ensures
        spec_parse_string(doc, (o_b2(ag, la, ap, st, rep, sf, tf)) + 5) == Some(("app"@, (o_b2(ag, la, ap, st, rep, sf, tf)) + 10)),
{
    reveal_strlit("\",\n  \"app\": \"");
    reveal_strlit("app");
    lemma_key_app_plain();
    let qp = "\",\n  \"app\": \""@;
    let base = o_b2(ag, la, ap, st, rep, sf, tf);
    let ks = base + 5;
    assert(doc[ks] == qp[5]);
    assert(qp[5] == '"');
    assert forall|k: int| 0 <= k < 3 implies doc[ks + 1 + k] == "app"@[k] by {
        if k == 0 {
            assert(doc[ks + 1 + 0] == qp[6]);
            assert(qp[6] == 'a');
            assert("app"@[0] == 'a');
        } else if k == 1 {
            assert(doc[ks + 1 + 1] == qp[7]);
            assert(qp[7] == 'p');
            assert("app"@[1] == 'p');
        } else {
            assert(doc[ks + 1 + 2] == qp[8]);
            assert(qp[8] == 'p');
            assert("app"@[2] == 'p');
        }
    }
    assert(doc.subrange(ks + 1, ks + 1 + 3) =~= "app"@);
    assert(doc.subrange(ks + 1, ks + 1 + 3) =~= spec_escape("app"@));
    assert(doc[ks + 1 + 3] == qp[9]);
    assert(qp[9] == '"');
    assert(ks + 1 + 3 < doc.len());
    lemma_parse_string_of_escaped("app"@, doc, ks);
}

#[verifier::rlimit(100)]
proof fn lemma_emitted_member_app(doc: Seq<char>, ag: Seq<char>, la: Seq<char>, ap: Seq<char>, st: Seq<char>, rep: int, sf: Seq<char>, tf: Seq<char>)
    requires
        0 <= rep <= u32::MAX,
        doc.len() == o_b7(ag, la, ap, st, rep, sf, tf) + 3,
        forall|x: int| o_b2(ag, la, ap, st, rep, sf, tf) <= x < o_b2(ag, la, ap, st, rep, sf, tf) + 13 ==> #[trigger] doc[x] == ("\",\n  \"app\": \""@)[x - (o_b2(ag, la, ap, st, rep, sf, tf))],
        forall|x: int| o_vp(ag, la, ap, st, rep, sf, tf) <= x < o_vp(ag, la, ap, st, rep, sf, tf) + spec_escape(ap).len() ==> #[trigger] doc[x] == (spec_escape(ap))[x - (o_vp(ag, la, ap, st, rep, sf, tf))],
        forall|x: int| o_b3(ag, la, ap, st, rep, sf, tf) <= x < o_b3(ag, la, ap, st, rep, sf, tf) + 16 ==> #[trigger] doc[x] == ("\",\n  \"status\": \""@)[x - (o_b3(ag, la, ap, st, rep, sf, tf))],
        spec_parse_string(doc, (o_b2(ag, la, ap, st, rep, sf, tf)) + 5) == Some(("app"@, (o_b2(ag, la, ap, st, rep, sf, tf)) + 10)),
    ensures
        spec_parse_member(doc, (o_b2(ag, la, ap, st, rep, sf, tf)) + 5) == Some((("app"@, JsonValV::S(ap)), o_b3(ag, la, ap, st, rep, sf, tf) + 1)),
{
    reveal_strlit("\",\n  \"app\": \"");
    reveal_strlit("\",\n  \"status\": \"");
    let qp = "\",\n  \"app\": \""@;
    let qn = "\",\n  \"status\": \""@;
    let base = o_b2(ag, la, ap, st, rep, sf, tf);
    let ks = base + 5;
    let vx = o_vp(ag, la, ap, st, rep, sf, tf);
    let nb = o_b3(ag, la, ap, st, rep, sf, tf);
    let ex = spec_escape(ap);
    assert(doc[ks + 5] == qp[10]);
    assert(qp[10] == ':');
    assert(doc[ks + 6] == qp[11]);
    assert(qp[11] == ' ');
    assert(doc.subrange(vx, vx + ex.len()) =~= ex);
    assert(doc[vx - 1] == qp[12]);
    assert(qp[12] == '"');
    assert(doc[vx + ex.len()] == qn[0]);
    assert(qn[0] == '"');
    assert(vx + ex.len() < doc.len());
    lemma_parse_string_of_escaped(ap, doc, vx - 1);
    lemma_member_string(doc, ks, "app"@, ks + 5, ap, nb + 1);
}

#[verifier::rlimit(100)]
proof fn lemma_emitted_key_status(doc: Seq<char>, ag: Seq<char>, la: Seq<char>, ap: Seq<char>, st: Seq<char>, rep: int, sf: Seq<char>, tf: Seq<char>)
    requires
        doc.len() == o_b7(ag, la, ap, st, rep, sf, tf) + 3,
        forall|x: int| o_b3(ag, la, ap, st, rep, sf, tf) <= x < o_b3(ag, la, ap, st, rep, sf, tf) + 16 ==> #[trigger] doc[x] == ("\",\n  \"status\": \""@)[x - (o_b3(ag, la, ap, st, rep, sf, tf))],
    ensures
        spec_parse_string(doc, (o_b3(ag, la, ap, st, rep, sf, tf)) + 5) == Some(("status"@, (o_b3(ag, la, ap, st, rep, sf, tf)) + 13)),
{
    reveal_strlit("\",\n  \"status\": \"");
    reveal_strlit("status");
    lemma_key_status_plain();
    let qp = "\",\n  \"status\": \""@;
    let base = o_b3(ag, la, ap, st, rep, sf, tf);
    let ks = base + 5;
    assert(doc[ks] == qp[5]);
    assert(qp[5] == '"');
    assert forall|k: int| 0 <= k < 6 implies doc[ks + 1 + k] == "status"@[k] by {
        if k == 0 {
            assert(doc[ks + 1 + 0] == qp[6]);
            assert(qp[6] == 's');
            assert("status"@[0] == 's');
        } else if k == 1 {
            assert(doc[ks + 1 + 1] == qp[7]);
            assert(qp[7] == 't');
            assert("status"@[1] == 't');
        } else if k == 2 {
            assert(doc[ks + 1 + 2] == qp[8]);
            assert(qp[8] == 'a');
            assert("status"@[2] == 'a');
        } else if k == 3 {
            assert(doc[ks + 1 + 3] == qp[9]);
            assert(qp[9] == 't');
            assert("status"@[3] == 't');
        } else if k == 4 {
            assert(doc[ks + 1 + 4] == qp[10]);
            assert(qp[10] == 'u');
            assert("status"@[4] == 'u');
        } else {
            assert(doc[ks + 1 + 5] == qp[11]);
            assert(qp[11] == 's');
            assert("status"@[5] == 's');
        }
    }
    assert(doc.subrange(ks + 1, ks + 1 + 6) =~= "status"@);
    assert(doc.subrange(ks + 1, ks + 1 + 6) =~= spec_escape("status"@));
    assert(doc[ks + 1 + 6] == qp[12]);
    assert(qp[12] == '"');
    assert(ks + 1 + 6 < doc.len());
    lemma_parse_string_of_escaped("status"@, doc, ks);
}

#[verifier::rlimit(100)]
proof fn lemma_emitted_member_status(doc: Seq<char>, ag: Seq<char>, la: Seq<char>, ap: Seq<char>, st: Seq<char>, rep: int, sf: Seq<char>, tf: Seq<char>)
    requires
        0 <= rep <= u32::MAX,
        doc.len() == o_b7(ag, la, ap, st, rep, sf, tf) + 3,
        forall|x: int| o_b3(ag, la, ap, st, rep, sf, tf) <= x < o_b3(ag, la, ap, st, rep, sf, tf) + 16 ==> #[trigger] doc[x] == ("\",\n  \"status\": \""@)[x - (o_b3(ag, la, ap, st, rep, sf, tf))],
        forall|x: int| o_vs(ag, la, ap, st, rep, sf, tf) <= x < o_vs(ag, la, ap, st, rep, sf, tf) + spec_escape(st).len() ==> #[trigger] doc[x] == (spec_escape(st))[x - (o_vs(ag, la, ap, st, rep, sf, tf))],
        forall|x: int| o_b4(ag, la, ap, st, rep, sf, tf) <= x < o_b4(ag, la, ap, st, rep, sf, tf) + 15 ==> #[trigger] doc[x] == ("\",\n  \"repeat\": "@)[x - (o_b4(ag, la, ap, st, rep, sf, tf))],
        spec_parse_string(doc, (o_b3(ag, la, ap, st, rep, sf, tf)) + 5) == Some(("status"@, (o_b3(ag, la, ap, st, rep, sf, tf)) + 13)),
    ensures
        spec_parse_member(doc, (o_b3(ag, la, ap, st, rep, sf, tf)) + 5) == Some((("status"@, JsonValV::S(st)), o_b4(ag, la, ap, st, rep, sf, tf) + 1)),
{
    reveal_strlit("\",\n  \"status\": \"");
    reveal_strlit("\",\n  \"repeat\": ");
    let qp = "\",\n  \"status\": \""@;
    let qn = "\",\n  \"repeat\": "@;
    let base = o_b3(ag, la, ap, st, rep, sf, tf);
    let ks = base + 5;
    let vx = o_vs(ag, la, ap, st, rep, sf, tf);
    let nb = o_b4(ag, la, ap, st, rep, sf, tf);
    let ex = spec_escape(st);
    assert(doc[ks + 8] == qp[13]);
    assert(qp[13] == ':');
    assert(doc[ks + 9] == qp[14]);
    assert(qp[14] == ' ');
    assert(doc.subrange(vx, vx + ex.len()) =~= ex);
    assert(doc[vx - 1] == qp[15]);
    assert(qp[15] == '"');
    assert(doc[vx + ex.len()] == qn[0]);
    assert(qn[0] == '"');
    assert(vx + ex.len() < doc.len());
    lemma_parse_string_of_escaped(st, doc, vx - 1);
    lemma_member_string(doc, ks, "status"@, ks + 8, st, nb + 1);
}

#[verifier::rlimit(100)]
proof fn lemma_emitted_key_repeat(doc: Seq<char>, ag: Seq<char>, la: Seq<char>, ap: Seq<char>, st: Seq<char>, rep: int, sf: Seq<char>, tf: Seq<char>)
    requires
        doc.len() == o_b7(ag, la, ap, st, rep, sf, tf) + 3,
        forall|x: int| o_b4(ag, la, ap, st, rep, sf, tf) <= x < o_b4(ag, la, ap, st, rep, sf, tf) + 15 ==> #[trigger] doc[x] == ("\",\n  \"repeat\": "@)[x - (o_b4(ag, la, ap, st, rep, sf, tf))],
    ensures
        spec_parse_string(doc, (o_b4(ag, la, ap, st, rep, sf, tf)) + 5) == Some(("repeat"@, (o_b4(ag, la, ap, st, rep, sf, tf)) + 13)),
{
    reveal_strlit("\",\n  \"repeat\": ");
    reveal_strlit("repeat");
    lemma_key_repeat_plain();
    let qp = "\",\n  \"repeat\": "@;
    let base = o_b4(ag, la, ap, st, rep, sf, tf);
    let ks = base + 5;
    assert(doc[ks] == qp[5]);
    assert(qp[5] == '"');
    assert forall|k: int| 0 <= k < 6 implies doc[ks + 1 + k] == "repeat"@[k] by {
        if k == 0 {
            assert(doc[ks + 1 + 0] == qp[6]);
            assert(qp[6] == 'r');
            assert("repeat"@[0] == 'r');
        } else if k == 1 {
            assert(doc[ks + 1 + 1] == qp[7]);
            assert(qp[7] == 'e');
            assert("repeat"@[1] == 'e');
        } else if k == 2 {
            assert(doc[ks + 1 + 2] == qp[8]);
            assert(qp[8] == 'p');
            assert("repeat"@[2] == 'p');
        } else if k == 3 {
            assert(doc[ks + 1 + 3] == qp[9]);
            assert(qp[9] == 'e');
            assert("repeat"@[3] == 'e');
        } else if k == 4 {
            assert(doc[ks + 1 + 4] == qp[10]);
            assert(qp[10] == 'a');
            assert("repeat"@[4] == 'a');
        } else {
            assert(doc[ks + 1 + 5] == qp[11]);
            assert(qp[11] == 't');
            assert("repeat"@[5] == 't');
        }
    }
    assert(doc.subrange(ks + 1, ks + 1 + 6) =~= "repeat"@);
    assert(doc.subrange(ks + 1, ks + 1 + 6) =~= spec_escape("repeat"@));
    assert(doc[ks + 1 + 6] == qp[12]);
    assert(qp[12] == '"');
    assert(ks + 1 + 6 < doc.len());
    lemma_parse_string_of_escaped("repeat"@, doc, ks);
}

#[verifier::rlimit(100)]
proof fn lemma_emitted_member_repeat(doc: Seq<char>, ag: Seq<char>, la: Seq<char>, ap: Seq<char>, st: Seq<char>, rep: int, sf: Seq<char>, tf: Seq<char>)
    requires
        0 <= rep <= u32::MAX,
        doc.len() == o_b7(ag, la, ap, st, rep, sf, tf) + 3,
        forall|x: int| o_b4(ag, la, ap, st, rep, sf, tf) <= x < o_b4(ag, la, ap, st, rep, sf, tf) + 15 ==> #[trigger] doc[x] == ("\",\n  \"repeat\": "@)[x - (o_b4(ag, la, ap, st, rep, sf, tf))],
        forall|x: int| o_vn(ag, la, ap, st, rep, sf, tf) <= x < o_vn(ag, la, ap, st, rep, sf, tf) + spec_dec(rep).len() ==> #[trigger] doc[x] == (spec_dec(rep))[x - (o_vn(ag, la, ap, st, rep, sf, tf))],
        forall|x: int| o_b5(ag, la, ap, st, rep, sf, tf) <= x < o_b5(ag, la, ap, st, rep, sf, tf) + 25 ==> #[trigger] doc[x] == (",\n  \"source_framework\": \""@)[x - (o_b5(ag, la, ap, st, rep, sf, tf))],
        spec_parse_string(doc, (o_b4(ag, la, ap, st, rep, sf, tf)) + 5) == Some(("repeat"@, (o_b4(ag, la, ap, st, rep, sf, tf)) + 13)),
    ensures
        spec_parse_member(doc, (o_b4(ag, la, ap, st, rep, sf, tf)) + 5) == Some((("repeat"@, JsonValV::N(rep)), o_b5(ag, la, ap, st, rep, sf, tf))),
{
    reveal_strlit("\",\n  \"repeat\": ");
    reveal_strlit(",\n  \"source_framework\": \"");
    let qp = "\",\n  \"repeat\": "@;
    let qn = ",\n  \"source_framework\": \""@;
    let base = o_b4(ag, la, ap, st, rep, sf, tf);
    let ks = base + 5;
    let vx = o_vn(ag, la, ap, st, rep, sf, tf);
    let nb = o_b5(ag, la, ap, st, rep, sf, tf);
    let ex = spec_dec(rep);
    assert(doc[ks + 8] == qp[13]);
    assert(qp[13] == ':');
    assert(doc[ks + 9] == qp[14]);
    assert(qp[14] == ' ');
    assert(doc.subrange(vx, vx + ex.len()) =~= ex);
    lemma_dec_reads_back(rep);
    assert(doc[vx + 0] == ex[0]);
    assert(spec_is_digit(doc[vx]));
    assert(doc[vx + ex.len()] == qn[0]);
    assert(qn[0] == ',');
    assert(!spec_is_digit(','));
    assert(vx + ex.len() < doc.len());
    lemma_parse_number_of_dec(rep, doc, vx);
    lemma_member_number(doc, ks, "repeat"@, ks + 8, rep, nb);
}

#[verifier::rlimit(100)]
proof fn lemma_emitted_key_source(doc: Seq<char>, ag: Seq<char>, la: Seq<char>, ap: Seq<char>, st: Seq<char>, rep: int, sf: Seq<char>, tf: Seq<char>)
    requires
        doc.len() == o_b7(ag, la, ap, st, rep, sf, tf) + 3,
        forall|x: int| o_b5(ag, la, ap, st, rep, sf, tf) <= x < o_b5(ag, la, ap, st, rep, sf, tf) + 25 ==> #[trigger] doc[x] == (",\n  \"source_framework\": \""@)[x - (o_b5(ag, la, ap, st, rep, sf, tf))],
    ensures
        spec_parse_string(doc, (o_b5(ag, la, ap, st, rep, sf, tf)) + 4) == Some(("source_framework"@, (o_b5(ag, la, ap, st, rep, sf, tf)) + 22)),
{
    reveal_strlit(",\n  \"source_framework\": \"");
    reveal_strlit("source_framework");
    lemma_key_source_plain();
    let qp = ",\n  \"source_framework\": \""@;
    let base = o_b5(ag, la, ap, st, rep, sf, tf);
    let ks = base + 4;
    assert(doc[ks] == qp[4]);
    assert(qp[4] == '"');
    assert forall|k: int| 0 <= k < 16 implies doc[ks + 1 + k] == "source_framework"@[k] by {
        if k == 0 {
            assert(doc[ks + 1 + 0] == qp[5]);
            assert(qp[5] == 's');
            assert("source_framework"@[0] == 's');
        } else if k == 1 {
            assert(doc[ks + 1 + 1] == qp[6]);
            assert(qp[6] == 'o');
            assert("source_framework"@[1] == 'o');
        } else if k == 2 {
            assert(doc[ks + 1 + 2] == qp[7]);
            assert(qp[7] == 'u');
            assert("source_framework"@[2] == 'u');
        } else if k == 3 {
            assert(doc[ks + 1 + 3] == qp[8]);
            assert(qp[8] == 'r');
            assert("source_framework"@[3] == 'r');
        } else if k == 4 {
            assert(doc[ks + 1 + 4] == qp[9]);
            assert(qp[9] == 'c');
            assert("source_framework"@[4] == 'c');
        } else if k == 5 {
            assert(doc[ks + 1 + 5] == qp[10]);
            assert(qp[10] == 'e');
            assert("source_framework"@[5] == 'e');
        } else if k == 6 {
            assert(doc[ks + 1 + 6] == qp[11]);
            assert(qp[11] == '_');
            assert("source_framework"@[6] == '_');
        } else if k == 7 {
            assert(doc[ks + 1 + 7] == qp[12]);
            assert(qp[12] == 'f');
            assert("source_framework"@[7] == 'f');
        } else if k == 8 {
            assert(doc[ks + 1 + 8] == qp[13]);
            assert(qp[13] == 'r');
            assert("source_framework"@[8] == 'r');
        } else if k == 9 {
            assert(doc[ks + 1 + 9] == qp[14]);
            assert(qp[14] == 'a');
            assert("source_framework"@[9] == 'a');
        } else if k == 10 {
            assert(doc[ks + 1 + 10] == qp[15]);
            assert(qp[15] == 'm');
            assert("source_framework"@[10] == 'm');
        } else if k == 11 {
            assert(doc[ks + 1 + 11] == qp[16]);
            assert(qp[16] == 'e');
            assert("source_framework"@[11] == 'e');
        } else if k == 12 {
            assert(doc[ks + 1 + 12] == qp[17]);
            assert(qp[17] == 'w');
            assert("source_framework"@[12] == 'w');
        } else if k == 13 {
            assert(doc[ks + 1 + 13] == qp[18]);
            assert(qp[18] == 'o');
            assert("source_framework"@[13] == 'o');
        } else if k == 14 {
            assert(doc[ks + 1 + 14] == qp[19]);
            assert(qp[19] == 'r');
            assert("source_framework"@[14] == 'r');
        } else {
            assert(doc[ks + 1 + 15] == qp[20]);
            assert(qp[20] == 'k');
            assert("source_framework"@[15] == 'k');
        }
    }
    assert(doc.subrange(ks + 1, ks + 1 + 16) =~= "source_framework"@);
    assert(doc.subrange(ks + 1, ks + 1 + 16) =~= spec_escape("source_framework"@));
    assert(doc[ks + 1 + 16] == qp[21]);
    assert(qp[21] == '"');
    assert(ks + 1 + 16 < doc.len());
    lemma_parse_string_of_escaped("source_framework"@, doc, ks);
}

#[verifier::rlimit(100)]
proof fn lemma_emitted_member_source(doc: Seq<char>, ag: Seq<char>, la: Seq<char>, ap: Seq<char>, st: Seq<char>, rep: int, sf: Seq<char>, tf: Seq<char>)
    requires
        0 <= rep <= u32::MAX,
        doc.len() == o_b7(ag, la, ap, st, rep, sf, tf) + 3,
        forall|x: int| o_b5(ag, la, ap, st, rep, sf, tf) <= x < o_b5(ag, la, ap, st, rep, sf, tf) + 25 ==> #[trigger] doc[x] == (",\n  \"source_framework\": \""@)[x - (o_b5(ag, la, ap, st, rep, sf, tf))],
        forall|x: int| o_vf(ag, la, ap, st, rep, sf, tf) <= x < o_vf(ag, la, ap, st, rep, sf, tf) + spec_escape(sf).len() ==> #[trigger] doc[x] == (spec_escape(sf))[x - (o_vf(ag, la, ap, st, rep, sf, tf))],
        forall|x: int| o_b6(ag, la, ap, st, rep, sf, tf) <= x < o_b6(ag, la, ap, st, rep, sf, tf) + 26 ==> #[trigger] doc[x] == ("\",\n  \"target_framework\": \""@)[x - (o_b6(ag, la, ap, st, rep, sf, tf))],
        spec_parse_string(doc, (o_b5(ag, la, ap, st, rep, sf, tf)) + 4) == Some(("source_framework"@, (o_b5(ag, la, ap, st, rep, sf, tf)) + 22)),
    ensures
        spec_parse_member(doc, (o_b5(ag, la, ap, st, rep, sf, tf)) + 4) == Some((("source_framework"@, JsonValV::S(sf)), o_b6(ag, la, ap, st, rep, sf, tf) + 1)),
{
    reveal_strlit(",\n  \"source_framework\": \"");
    reveal_strlit("\",\n  \"target_framework\": \"");
    let qp = ",\n  \"source_framework\": \""@;
    let qn = "\",\n  \"target_framework\": \""@;
    let base = o_b5(ag, la, ap, st, rep, sf, tf);
    let ks = base + 4;
    let vx = o_vf(ag, la, ap, st, rep, sf, tf);
    let nb = o_b6(ag, la, ap, st, rep, sf, tf);
    let ex = spec_escape(sf);
    assert(doc[ks + 18] == qp[22]);
    assert(qp[22] == ':');
    assert(doc[ks + 19] == qp[23]);
    assert(qp[23] == ' ');
    assert(doc.subrange(vx, vx + ex.len()) =~= ex);
    assert(doc[vx - 1] == qp[24]);
    assert(qp[24] == '"');
    assert(doc[vx + ex.len()] == qn[0]);
    assert(qn[0] == '"');
    assert(vx + ex.len() < doc.len());
    lemma_parse_string_of_escaped(sf, doc, vx - 1);
    lemma_member_string(doc, ks, "source_framework"@, ks + 18, sf, nb + 1);
}

#[verifier::rlimit(100)]
proof fn lemma_emitted_key_target(doc: Seq<char>, ag: Seq<char>, la: Seq<char>, ap: Seq<char>, st: Seq<char>, rep: int, sf: Seq<char>, tf: Seq<char>)
    requires
        doc.len() == o_b7(ag, la, ap, st, rep, sf, tf) + 3,
        forall|x: int| o_b6(ag, la, ap, st, rep, sf, tf) <= x < o_b6(ag, la, ap, st, rep, sf, tf) + 26 ==> #[trigger] doc[x] == ("\",\n  \"target_framework\": \""@)[x - (o_b6(ag, la, ap, st, rep, sf, tf))],
    ensures
        spec_parse_string(doc, (o_b6(ag, la, ap, st, rep, sf, tf)) + 5) == Some(("target_framework"@, (o_b6(ag, la, ap, st, rep, sf, tf)) + 23)),
{
    reveal_strlit("\",\n  \"target_framework\": \"");
    reveal_strlit("target_framework");
    lemma_key_target_plain();
    let qp = "\",\n  \"target_framework\": \""@;
    let base = o_b6(ag, la, ap, st, rep, sf, tf);
    let ks = base + 5;
    assert(doc[ks] == qp[5]);
    assert(qp[5] == '"');
    assert forall|k: int| 0 <= k < 16 implies doc[ks + 1 + k] == "target_framework"@[k] by {
        if k == 0 {
            assert(doc[ks + 1 + 0] == qp[6]);
            assert(qp[6] == 't');
            assert("target_framework"@[0] == 't');
        } else if k == 1 {
            assert(doc[ks + 1 + 1] == qp[7]);
            assert(qp[7] == 'a');
            assert("target_framework"@[1] == 'a');
        } else if k == 2 {
            assert(doc[ks + 1 + 2] == qp[8]);
            assert(qp[8] == 'r');
            assert("target_framework"@[2] == 'r');
        } else if k == 3 {
            assert(doc[ks + 1 + 3] == qp[9]);
            assert(qp[9] == 'g');
            assert("target_framework"@[3] == 'g');
        } else if k == 4 {
            assert(doc[ks + 1 + 4] == qp[10]);
            assert(qp[10] == 'e');
            assert("target_framework"@[4] == 'e');
        } else if k == 5 {
            assert(doc[ks + 1 + 5] == qp[11]);
            assert(qp[11] == 't');
            assert("target_framework"@[5] == 't');
        } else if k == 6 {
            assert(doc[ks + 1 + 6] == qp[12]);
            assert(qp[12] == '_');
            assert("target_framework"@[6] == '_');
        } else if k == 7 {
            assert(doc[ks + 1 + 7] == qp[13]);
            assert(qp[13] == 'f');
            assert("target_framework"@[7] == 'f');
        } else if k == 8 {
            assert(doc[ks + 1 + 8] == qp[14]);
            assert(qp[14] == 'r');
            assert("target_framework"@[8] == 'r');
        } else if k == 9 {
            assert(doc[ks + 1 + 9] == qp[15]);
            assert(qp[15] == 'a');
            assert("target_framework"@[9] == 'a');
        } else if k == 10 {
            assert(doc[ks + 1 + 10] == qp[16]);
            assert(qp[16] == 'm');
            assert("target_framework"@[10] == 'm');
        } else if k == 11 {
            assert(doc[ks + 1 + 11] == qp[17]);
            assert(qp[17] == 'e');
            assert("target_framework"@[11] == 'e');
        } else if k == 12 {
            assert(doc[ks + 1 + 12] == qp[18]);
            assert(qp[18] == 'w');
            assert("target_framework"@[12] == 'w');
        } else if k == 13 {
            assert(doc[ks + 1 + 13] == qp[19]);
            assert(qp[19] == 'o');
            assert("target_framework"@[13] == 'o');
        } else if k == 14 {
            assert(doc[ks + 1 + 14] == qp[20]);
            assert(qp[20] == 'r');
            assert("target_framework"@[14] == 'r');
        } else {
            assert(doc[ks + 1 + 15] == qp[21]);
            assert(qp[21] == 'k');
            assert("target_framework"@[15] == 'k');
        }
    }
    assert(doc.subrange(ks + 1, ks + 1 + 16) =~= "target_framework"@);
    assert(doc.subrange(ks + 1, ks + 1 + 16) =~= spec_escape("target_framework"@));
    assert(doc[ks + 1 + 16] == qp[22]);
    assert(qp[22] == '"');
    assert(ks + 1 + 16 < doc.len());
    lemma_parse_string_of_escaped("target_framework"@, doc, ks);
}

proof fn lemma_region_subrange(doc: Seq<char>, b: int, e: int, content: Seq<char>)
    requires
        0 <= b,
        e == b + content.len(),
        e <= doc.len(),
        forall|x: int| b <= x < e ==> #[trigger] doc[x] == content[x - b],
    ensures
        doc.subrange(b, e) == content,
{
    assert(doc.subrange(b, e) =~= content);
}

proof fn lemma_value_string_at(doc: Seq<char>, vx: int, vend: int, val: Seq<char>)
    requires
        1 <= vx,
        vend == vx + spec_escape(val).len(),
        vend < doc.len(),
        doc.subrange(vx, vend) == spec_escape(val),
        doc[vx - 1] == '"',
        doc[vend] == '"',
    ensures
        spec_parse_string(doc, vx - 1) == Some((val, vend + 1)),
{
    lemma_parse_string_of_escaped(val, doc, vx - 1);
}

proof fn lemma_member_string_at(
    doc: Seq<char>,
    ks: int,
    klen: int,
    key: Seq<char>,
    vx: int,
    vend: int,
    val: Seq<char>,
)
    requires
        0 <= ks,
        0 <= klen,
        spec_parse_string(doc, ks) == Some((key, ks + klen + 2)),
        vx == ks + klen + 5,
        vend == vx + spec_escape(val).len(),
        vend < doc.len(),
        doc.subrange(vx, vend) == spec_escape(val),
        doc[ks + klen + 2] == ':',
        doc[ks + klen + 3] == ' ',
        doc[vx - 1] == '"',
        doc[vend] == '"',
    ensures
        spec_parse_member(doc, ks) == Some(((key, JsonValV::S(val)), vend + 1)),
{
    lemma_value_string_at(doc, vx, vend, val);
    lemma_member_string(doc, ks, key, ks + klen + 2, val, vend + 1);
}

#[verifier::rlimit(100)]
proof fn lemma_emitted_target_facts(doc: Seq<char>, ag: Seq<char>, la: Seq<char>, ap: Seq<char>, st: Seq<char>, rep: int, sf: Seq<char>, tf: Seq<char>)
    requires
        doc.len() == o_b7(ag, la, ap, st, rep, sf, tf) + 3,
        forall|x: int| o_b6(ag, la, ap, st, rep, sf, tf) <= x < o_b6(ag, la, ap, st, rep, sf, tf) + 26 ==> #[trigger] doc[x] == ("\",\n  \"target_framework\": \""@)[x - (o_b6(ag, la, ap, st, rep, sf, tf))],
        forall|x: int| o_vt(ag, la, ap, st, rep, sf, tf) <= x < o_vt(ag, la, ap, st, rep, sf, tf) + spec_escape(tf).len() ==> #[trigger] doc[x] == (spec_escape(tf))[x - (o_vt(ag, la, ap, st, rep, sf, tf))],
        forall|x: int| o_b7(ag, la, ap, st, rep, sf, tf) <= x < o_b7(ag, la, ap, st, rep, sf, tf) + 3 ==> #[trigger] doc[x] == ("\"\n}"@)[x - (o_b7(ag, la, ap, st, rep, sf, tf))],
    ensures
        doc[o_b6(ag, la, ap, st, rep, sf, tf) + 23] == ':',
        doc[o_b6(ag, la, ap, st, rep, sf, tf) + 24] == ' ',
        doc[o_vt(ag, la, ap, st, rep, sf, tf) - 1] == '"',
        doc[o_b7(ag, la, ap, st, rep, sf, tf)] == '"',
        doc.subrange(o_vt(ag, la, ap, st, rep, sf, tf), o_b7(ag, la, ap, st, rep, sf, tf)) == spec_escape(tf),
{
    reveal_strlit("\",\n  \"target_framework\": \"");
    reveal_strlit("\"\n}");
    let qp = "\",\n  \"target_framework\": \""@;
    let qn = "\"\n}"@;
    let base = o_b6(ag, la, ap, st, rep, sf, tf);
    let vx = o_vt(ag, la, ap, st, rep, sf, tf);
    let nb = o_b7(ag, la, ap, st, rep, sf, tf);
    assert(vx == base + 26);
    assert(doc[base + 23] == qp[23]);
    assert(qp[23] == ':');
    assert(doc[base + 24] == qp[24]);
    assert(qp[24] == ' ');
    assert(doc[vx - 1] == qp[25]);
    assert(qp[25] == '"');
    assert(doc[nb] == qn[0]);
    assert(qn[0] == '"');
    assert(nb == vx + spec_escape(tf).len());
    lemma_region_subrange(doc, vx, nb, spec_escape(tf));
}


#[verifier::rlimit(100)]
proof fn lemma_emitted_members_tail2(doc: Seq<char>, ag: Seq<char>, la: Seq<char>, ap: Seq<char>, st: Seq<char>, rep: int, sf: Seq<char>, tf: Seq<char>)
    requires
        0 <= rep <= u32::MAX,
        emitted_layout(doc, ag, la, ap, st, rep, sf, tf),
    ensures
        spec_parse_members(doc, o_b5(ag, la, ap, st, rep, sf, tf) + 4) == Some(
            (
                seq![("source_framework"@, JsonValV::S(sf))] + seq![
                    ("target_framework"@, JsonValV::S(tf)),
                ],
                doc.len() as int,
            ),
        ),
{
    lemma_emitted_key_source(doc, ag, la, ap, st, rep, sf, tf);
    lemma_emitted_member_source(doc, ag, la, ap, st, rep, sf, tf);
    lemma_emitted_key_target(doc, ag, la, ap, st, rep, sf, tf);
    lemma_emitted_target_facts(doc, ag, la, ap, st, rep, sf, tf);
    assert(o_vt(ag, la, ap, st, rep, sf, tf) == o_b6(ag, la, ap, st, rep, sf, tf) + 26);
    assert(o_b7(ag, la, ap, st, rep, sf, tf) == o_vt(ag, la, ap, st, rep, sf, tf) + spec_escape(tf).len());
    assert(0 <= o_b6(ag, la, ap, st, rep, sf, tf));
    lemma_member_string_at(
        doc,
        o_b6(ag, la, ap, st, rep, sf, tf) + 5,
        16,
        "target_framework"@,
        o_vt(ag, la, ap, st, rep, sf, tf),
        o_b7(ag, la, ap, st, rep, sf, tf),
        tf,
    );
    reveal_strlit(",\n  \"source_framework\": \"");
    reveal_strlit("\",\n  \"target_framework\": \"");
    reveal_strlit("\"\n}");
    let kv6 = ("source_framework"@, JsonValV::S(sf));
    let kv7 = ("target_framework"@, JsonValV::S(tf));
    assert(doc.len() == o_b7(ag, la, ap, st, rep, sf, tf) + 3);
    assert(doc[o_b7(ag, la, ap, st, rep, sf, tf) + 1] == ("\"\n}"@)[1]);
    assert(("\"\n}"@)[1] == '\n');
    assert(doc[o_b7(ag, la, ap, st, rep, sf, tf) + 2] == ("\"\n}"@)[2]);
    assert(("\"\n}"@)[2] == '}');
    lemma_members_last(doc, o_b6(ag, la, ap, st, rep, sf, tf) + 5, kv7, o_b7(ag, la, ap, st, rep, sf, tf) + 1);
    let m7 = seq![kv7];
    assert(doc[o_b6(ag, la, ap, st, rep, sf, tf) + 1] == ("\",\n  \"target_framework\": \""@)[1]);
    assert(("\",\n  \"target_framework\": \""@)[1] == ',');
    assert(doc[o_b6(ag, la, ap, st, rep, sf, tf) + 2] == ("\",\n  \"target_framework\": \""@)[2]);
    assert(("\",\n  \"target_framework\": \""@)[2] == '\n');
    assert(doc[o_b6(ag, la, ap, st, rep, sf, tf) + 3] == ("\",\n  \"target_framework\": \""@)[3]);
    assert(("\",\n  \"target_framework\": \""@)[3] == ' ');
    assert(doc[o_b6(ag, la, ap, st, rep, sf, tf) + 4] == ("\",\n  \"target_framework\": \""@)[4]);
    assert(("\",\n  \"target_framework\": \""@)[4] == ' ');
    assert(doc[o_b6(ag, la, ap, st, rep, sf, tf) + 5] == ("\",\n  \"target_framework\": \""@)[5]);
    assert(("\",\n  \"target_framework\": \""@)[5] == '"');
    assert(!spec_is_ws(doc[o_b6(ag, la, ap, st, rep, sf, tf) + 5]));
    lemma_members_cons(doc, o_b5(ag, la, ap, st, rep, sf, tf) + 4, kv6, o_b6(ag, la, ap, st, rep, sf, tf) + 1, m7, doc.len() as int);
}

#[verifier::rlimit(100)]
proof fn lemma_emitted_members_tail(doc: Seq<char>, ag: Seq<char>, la: Seq<char>, ap: Seq<char>, st: Seq<char>, rep: int, sf: Seq<char>, tf: Seq<char>)
    requires
        0 <= rep <= u32::MAX,
        emitted_layout(doc, ag, la, ap, st, rep, sf, tf),
    ensures
        spec_parse_members(doc, o_b3(ag, la, ap, st, rep, sf, tf) + 5) == Some(
            (
                seq![("status"@, JsonValV::S(st))] + (seq![("repeat"@, JsonValV::N(rep))]
                    + (seq![("source_framework"@, JsonValV::S(sf))] + seq![
                    ("target_framework"@, JsonValV::S(tf)),
                ])),
                doc.len() as int,
            ),
        ),
{
    lemma_emitted_key_status(doc, ag, la, ap, st, rep, sf, tf);
    lemma_emitted_member_status(doc, ag, la, ap, st, rep, sf, tf);
    lemma_emitted_key_repeat(doc, ag, la, ap, st, rep, sf, tf);
    lemma_emitted_member_repeat(doc, ag, la, ap, st, rep, sf, tf);
    lemma_emitted_members_tail2(doc, ag, la, ap, st, rep, sf, tf);
    reveal_strlit("\",\n  \"status\": \"");
    reveal_strlit("\",\n  \"repeat\": ");
    reveal_strlit(",\n  \"source_framework\": \"");
    let kv4 = ("status"@, JsonValV::S(st));
    let kv5 = ("repeat"@, JsonValV::N(rep));
    let kv6 = ("source_framework"@, JsonValV::S(sf));
    let kv7 = ("target_framework"@, JsonValV::S(tf));
    let m6 = seq![kv6] + seq![kv7];
    assert(doc.len() == o_b7(ag, la, ap, st, rep, sf, tf) + 3);
    assert(doc[o_b5(ag, la, ap, st, rep, sf, tf) + 0] == (",\n  \"source_framework\": \""@)[0]);
    assert((",\n  \"source_framework\": \""@)[0] == ',');
    assert(doc[o_b5(ag, la, ap, st, rep, sf, tf) + 1] == (",\n  \"source_framework\": \""@)[1]);
    assert((",\n  \"source_framework\": \""@)[1] == '\n');
    assert(doc[o_b5(ag, la, ap, st, rep, sf, tf) + 2] == (",\n  \"source_framework\": \""@)[2]);
    assert((",\n  \"source_framework\": \""@)[2] == ' ');
    assert(doc[o_b5(ag, la, ap, st, rep, sf, tf) + 3] == (",\n  \"source_framework\": \""@)[3]);
    assert((",\n  \"source_framework\": \""@)[3] == ' ');
    assert(doc[o_b5(ag, la, ap, st, rep, sf, tf) + 4] == (",\n  \"source_framework\": \""@)[4]);
    assert((",\n  \"source_framework\": \""@)[4] == '"');
    assert(!spec_is_ws(doc[o_b5(ag, la, ap, st, rep, sf, tf) + 4]));
    lemma_members_cons(doc, o_b4(ag, la, ap, st, rep, sf, tf) + 5, kv5, o_b5(ag, la, ap, st, rep, sf, tf), m6, doc.len() as int);
    let m5 = seq![kv5] + m6;
    assert(doc[o_b4(ag, la, ap, st, rep, sf, tf) + 1] == ("\",\n  \"repeat\": "@)[1]);
    assert(("\",\n  \"repeat\": "@)[1] == ',');
    assert(doc[o_b4(ag, la, ap, st, rep, sf, tf) + 2] == ("\",\n  \"repeat\": "@)[2]);
    assert(("\",\n  \"repeat\": "@)[2] == '\n');
    assert(doc[o_b4(ag, la, ap, st, rep, sf, tf) + 3] == ("\",\n  \"repeat\": "@)[3]);
    assert(("\",\n  \"repeat\": "@)[3] == ' ');
    assert(doc[o_b4(ag, la, ap, st, rep, sf, tf) + 4] == ("\",\n  \"repeat\": "@)[4]);
    assert(("\",\n  \"repeat\": "@)[4] == ' ');
    assert(doc[o_b4(ag, la, ap, st, rep, sf, tf) + 5] == ("\",\n  \"repeat\": "@)[5]);
    assert(("\",\n  \"repeat\": "@)[5] == '"');
    assert(!spec_is_ws(doc[o_b4(ag, la, ap, st, rep, sf, tf) + 5]));
    lemma_members_cons(doc, o_b3(ag, la, ap, st, rep, sf, tf) + 5, kv4, o_b4(ag, la, ap, st, rep, sf, tf) + 1, m5, doc.len() as int);
}


#[verifier::rlimit(100)]
proof fn lemma_emitted_members_all(doc: Seq<char>, ag: Seq<char>, la: Seq<char>, ap: Seq<char>, st: Seq<char>, rep: int, sf: Seq<char>, tf: Seq<char>)
    requires
        0 <= rep <= u32::MAX,
        emitted_layout(doc, ag, la, ap, st, rep, sf, tf),
    ensures
        spec_parse_members(doc, 4) == Some(
            (
                seq![("agent"@, JsonValV::S(ag))] + (seq![("layer"@, JsonValV::S(la))] + (
                seq![("app"@, JsonValV::S(ap))] + (seq![("status"@, JsonValV::S(st))] + (
                seq![("repeat"@, JsonValV::N(rep))] + (seq![
                    ("source_framework"@, JsonValV::S(sf)),
                ] + seq![("target_framework"@, JsonValV::S(tf))]))))),
                doc.len() as int,
            ),
        ),
{
    lemma_emitted_key_agent(doc, ag, la, ap, st, rep, sf, tf);
    lemma_emitted_member_agent(doc, ag, la, ap, st, rep, sf, tf);
    lemma_emitted_key_layer(doc, ag, la, ap, st, rep, sf, tf);
    lemma_emitted_member_layer(doc, ag, la, ap, st, rep, sf, tf);
    lemma_emitted_key_app(doc, ag, la, ap, st, rep, sf, tf);
    lemma_emitted_member_app(doc, ag, la, ap, st, rep, sf, tf);
    lemma_emitted_members_tail(doc, ag, la, ap, st, rep, sf, tf);
    reveal_strlit("{\n  \"agent\": \"");
    reveal_strlit("\",\n  \"layer\": \"");
    reveal_strlit("\",\n  \"app\": \"");
    reveal_strlit("\",\n  \"status\": \"");
    let kv1 = ("agent"@, JsonValV::S(ag));
    let kv2 = ("layer"@, JsonValV::S(la));
    let kv3 = ("app"@, JsonValV::S(ap));
    let kv4 = ("status"@, JsonValV::S(st));
    let kv5 = ("repeat"@, JsonValV::N(rep));
    let kv6 = ("source_framework"@, JsonValV::S(sf));
    let kv7 = ("target_framework"@, JsonValV::S(tf));
    let m4 = seq![kv4] + (seq![kv5] + (seq![kv6] + seq![kv7]));
    assert(doc.len() == o_b7(ag, la, ap, st, rep, sf, tf) + 3);
    assert(doc[o_b3(ag, la, ap, st, rep, sf, tf) + 1] == ("\",\n  \"status\": \""@)[1]);
    assert(("\",\n  \"status\": \""@)[1] == ',');
    assert(doc[o_b3(ag, la, ap, st, rep, sf, tf) + 2] == ("\",\n  \"status\": \""@)[2]);
    assert(("\",\n  \"status\": \""@)[2] == '\n');
    assert(doc[o_b3(ag, la, ap, st, rep, sf, tf) + 3] == ("\",\n  \"status\": \""@)[3]);
    assert(("\",\n  \"status\": \""@)[3] == ' ');
    assert(doc[o_b3(ag, la, ap, st, rep, sf, tf) + 4] == ("\",\n  \"status\": \""@)[4]);
    assert(("\",\n  \"status\": \""@)[4] == ' ');
    assert(doc[o_b3(ag, la, ap, st, rep, sf, tf) + 5] == ("\",\n  \"status\": \""@)[5]);
    assert(("\",\n  \"status\": \""@)[5] == '"');
    assert(!spec_is_ws(doc[o_b3(ag, la, ap, st, rep, sf, tf) + 5]));
    lemma_members_cons(doc, o_b2(ag, la, ap, st, rep, sf, tf) + 5, kv3, o_b3(ag, la, ap, st, rep, sf, tf) + 1, m4, doc.len() as int);
    let m3 = seq![kv3] + m4;
    assert(doc[o_b2(ag, la, ap, st, rep, sf, tf) + 1] == ("\",\n  \"app\": \""@)[1]);
    assert(("\",\n  \"app\": \""@)[1] == ',');
    assert(doc[o_b2(ag, la, ap, st, rep, sf, tf) + 2] == ("\",\n  \"app\": \""@)[2]);
    assert(("\",\n  \"app\": \""@)[2] == '\n');
    assert(doc[o_b2(ag, la, ap, st, rep, sf, tf) + 3] == ("\",\n  \"app\": \""@)[3]);
    assert(("\",\n  \"app\": \""@)[3] == ' ');
    assert(doc[o_b2(ag, la, ap, st, rep, sf, tf) + 4] == ("\",\n  \"app\": \""@)[4]);
    assert(("\",\n  \"app\": \""@)[4] == ' ');
    assert(doc[o_b2(ag, la, ap, st, rep, sf, tf) + 5] == ("\",\n  \"app\": \""@)[5]);
    assert(("\",\n  \"app\": \""@)[5] == '"');
    assert(!spec_is_ws(doc[o_b2(ag, la, ap, st, rep, sf, tf) + 5]));
    lemma_members_cons(doc, o_b1(ag, la, ap, st, rep, sf, tf) + 5, kv2, o_b2(ag, la, ap, st, rep, sf, tf) + 1, m3, doc.len() as int);
    let m2 = seq![kv2] + m3;
    assert(doc[o_b1(ag, la, ap, st, rep, sf, tf) + 1] == ("\",\n  \"layer\": \""@)[1]);
    assert(("\",\n  \"layer\": \""@)[1] == ',');
    assert(doc[o_b1(ag, la, ap, st, rep, sf, tf) + 2] == ("\",\n  \"layer\": \""@)[2]);
    assert(("\",\n  \"layer\": \""@)[2] == '\n');
    assert(doc[o_b1(ag, la, ap, st, rep, sf, tf) + 3] == ("\",\n  \"layer\": \""@)[3]);
    assert(("\",\n  \"layer\": \""@)[3] == ' ');
    assert(doc[o_b1(ag, la, ap, st, rep, sf, tf) + 4] == ("\",\n  \"layer\": \""@)[4]);
    assert(("\",\n  \"layer\": \""@)[4] == ' ');
    assert(doc[o_b1(ag, la, ap, st, rep, sf, tf) + 5] == ("\",\n  \"layer\": \""@)[5]);
    assert(("\",\n  \"layer\": \""@)[5] == '"');
    assert(!spec_is_ws(doc[o_b1(ag, la, ap, st, rep, sf, tf) + 5]));
    lemma_members_cons(doc, 4, kv1, o_b1(ag, la, ap, st, rep, sf, tf) + 1, m2, doc.len() as int);
    let m1 = seq![kv1] + m2;
}

/// The text the writer emits parses back into exactly its seven members,
/// in declaration order.
#[verifier::rlimit(100)]
proof fn lemma_emitted_doc_parses(ag: Seq<char>, la: Seq<char>, ap: Seq<char>, st: Seq<char>, rep: int, sf: Seq<char>, tf: Seq<char>)
    requires
        0 <= rep <= u32::MAX,
    ensures
        spec_parse_object(spec_metadata_json(ag, la, ap, st, rep, sf, tf)) == Some(
            seq![
                ("agent"@, JsonValV::S(ag)),
                ("layer"@, JsonValV::S(la)),
                ("app"@, JsonValV::S(ap)),
                ("status"@, JsonValV::S(st)),
                ("repeat"@, JsonValV::N(rep)),
                ("source_framework"@, JsonValV::S(sf)),
                ("target_framework"@, JsonValV::S(tf)),
            ],
        ),
{
    let doc = spec_metadata_json(ag, la, ap, st, rep, sf, tf);
    lemma_emitted_layout(ag, la, ap, st, rep, sf, tf);
    lemma_emitted_members_all(doc, ag, la, ap, st, rep, sf, tf);
    reveal_strlit("{\n  \"agent\": \"");
    let kv1 = ("agent"@, JsonValV::S(ag));
    let kv2 = ("layer"@, JsonValV::S(la));
    let kv3 = ("app"@, JsonValV::S(ap));
    let kv4 = ("status"@, JsonValV::S(st));
    let kv5 = ("repeat"@, JsonValV::N(rep));
    let kv6 = ("source_framework"@, JsonValV::S(sf));
    let kv7 = ("target_framework"@, JsonValV::S(tf));
    let m1 = seq![kv1] + (seq![kv2] + (seq![kv3] + (seq![kv4] + (seq![kv5] + (seq![
        kv6,
    ] + seq![kv7])))));
    assert(doc[0] == ("{\n  \"agent\": \""@)[0]);
    assert(("{\n  \"agent\": \""@)[0] == '{');
    assert(doc[1] == ("{\n  \"agent\": \""@)[1]);
    assert(("{\n  \"agent\": \""@)[1] == '\n');
    assert(doc[2] == ("{\n  \"agent\": \""@)[2]);
    assert(("{\n  \"agent\": \""@)[2] == ' ');
    assert(doc[3] == ("{\n  \"agent\": \""@)[3]);
    assert(("{\n  \"agent\": \""@)[3] == ' ');
    assert(doc[4] == ("{\n  \"agent\": \""@)[4]);
    assert(("{\n  \"agent\": \""@)[4] == '"');
    lemma_object_of_doc(doc, m1);
    assert(m1 =~= seq![kv1, kv2, kv3, kv4, kv5, kv6, kv7]);
}



proof fn lemma_seven_pairs_extract(
    ag: Seq<char>,
    la: Seq<char>,
    ap: Seq<char>,
    st: Seq<char>,
    rep: int,
    sf: Seq<char>,
    tf: Seq<char>,
)
    requires
        1 <= rep <= u32::MAX,
    ensures
        spec_fields_of_pairs(
            seq![
                ("agent"@, JsonValV::S(ag)),
                ("layer"@, JsonValV::S(la)),
                ("app"@, JsonValV::S(ap)),
                ("status"@, JsonValV::S(st)),
                ("repeat"@, JsonValV::N(rep)),
                ("source_framework"@, JsonValV::S(sf)),
                ("target_framework"@, JsonValV::S(tf)),
            ],
        ) == Some(
            RunMetaDataV {
                agent: ag,
                layer: la,
                app: ap,
                status: st,
                repeat: rep,
                source_framework: sf,
                target_framework: tf,
            },
        ),
{
    lemma_keys_distinct();
    reveal_with_fuel(spec_lookup, 9);
    reveal_with_fuel(spec_count, 9);
    let q7 = seq![("target_framework"@, JsonValV::S(tf))];
    let q6 = seq![("source_framework"@, JsonValV::S(sf)), ("target_framework"@, JsonValV::S(tf))];
    let q5 = seq![
        ("repeat"@, JsonValV::N(rep)),
        ("source_framework"@, JsonValV::S(sf)),
        ("target_framework"@, JsonValV::S(tf)),
    ];
    let q4 = seq![
        ("status"@, JsonValV::S(st)),
        ("repeat"@, JsonValV::N(rep)),
        ("source_framework"@, JsonValV::S(sf)),
        ("target_framework"@, JsonValV::S(tf)),
    ];
    let q3 = seq![
        ("app"@, JsonValV::S(ap)),
        ("status"@, JsonValV::S(st)),
        ("repeat"@, JsonValV::N(rep)),
        ("source_framework"@, JsonValV::S(sf)),
        ("target_framework"@, JsonValV::S(tf)),
    ];
    let q2 = seq![
        ("layer"@, JsonValV::S(la)),
        ("app"@, JsonValV::S(ap)),
        ("status"@, JsonValV::S(st)),
        ("repeat"@, JsonValV::N(rep)),
        ("source_framework"@, JsonValV::S(sf)),
        ("target_framework"@, JsonValV::S(tf)),
    ];
    let q1 = seq![
        ("agent"@, JsonValV::S(ag)),
        ("layer"@, JsonValV::S(la)),
        ("app"@, JsonValV::S(ap)),
        ("status"@, JsonValV::S(st)),
        ("repeat"@, JsonValV::N(rep)),
        ("source_framework"@, JsonValV::S(sf)),
        ("target_framework"@, JsonValV::S(tf)),
    ];
    assert(q1.skip(1) =~= q2);
    assert(q2.skip(1) =~= q3);
    assert(q3.skip(1) =~= q4);
    assert(q4.skip(1) =~= q5);
    assert(q5.skip(1) =~= q6);
    assert(q6.skip(1) =~= q7);
    assert(q7.skip(1) =~= Seq::<(Seq<char>, JsonValV)>::empty());
}

/// What the writer persists, the reader decodes back: the whole pretty
/// metadata document round-trips to the very record it was written from.
pub proof fn lemma_metadata_round_trip(m: RunMetaDataV)
    requires
        1 <= m.repeat <= u32::MAX,
    ensures
        spec_runmeta_of(
            spec_metadata_json(
                m.agent,
                m.layer,
                m.app,
                m.status,
                m.repeat,
                m.source_framework,
                m.target_framework,
            ),
        ) == Some(m),
{
    lemma_emitted_doc_parses(
        m.agent,
        m.layer,
        m.app,
        m.status,
        m.repeat,
        m.source_framework,
        m.target_framework,
    );
    lemma_seven_pairs_extract(
        m.agent,
        m.layer,
        m.app,
        m.status,
        m.repeat,
        m.source_framework,
        m.target_framework,
    );
    assert(m == RunMetaDataV {
        agent: m.agent,
        layer: m.layer,
        app: m.app,
        status: m.status,
        repeat: m.repeat,
        source_framework: m.source_framework,
        target_framework: m.target_framework,
    });
}

/// Decodes a metadata text as the dispatch driver reads it: the seven
/// required members must be present once each with the right shapes;
/// members under other keys are ignored.
pub fn parse_run_metadata(s: &str) -> (r: Option<RunMetaData>)
    ensures
        match r {
            Some(m) => spec_runmeta_of(s@) == Some(m@),
            None => spec_runmeta_of(s@) is None,
        },
{
    let pairs = match parse_object(s) {
        Some(p) => p,
        None => {
            return None;
        },
    };
    fields_of_pairs(&pairs)
}

/// What a whole metadata text decodes to for the validation runner: as
/// for the driver, but no member beyond the seven is tolerated and the
/// status and framework strings must belong to their closed vocabularies.
pub open spec fn spec_metadata_of(s: Seq<char>) -> Option<MetadataV> {
    match spec_parse_object(s) {
        None => None,
        Some(pairs) => {
            if pairs.len() != 7 {
                None
            } else {
                match spec_fields_of_pairs(pairs) {
                    None => None,
                    Some(f) => match spec_status_of(f.status) {
                        None => None,
                        Some(st) => match spec_framework_of(f.source_framework) {
                            None => None,
                            Some(sf) => match spec_framework_of(f.target_framework) {
                                None => None,
                                Some(tf) => Some(
                                    MetadataV {
                                        status: st,
                                        agent: f.agent,
                                        app: f.app,
                                        layer: f.layer,
                                        repeat: f.repeat,
                                        source_framework: sf,
                                        target_framework: tf,
                                    },
                                ),
                            },
                        },
                    },
                }
            }
        },
    }
}

/// Decodes a metadata text as the validation runner reads it: exactly the
/// seven members, with a known status and known framework names.
pub fn parse_metadata(s: &str) -> (r: Option<Metadata>)
    ensures
        match r {
            Some(m) => spec_metadata_of(s@) == Some(m@),
            None => spec_metadata_of(s@) is None,
        },
{
    let pairs = match parse_object(s) {
        Some(p) => p,
        None => {
            return None;
        },
    };
    if pairs.len() != 7 {
        return None;
    }
    let m = match fields_of_pairs(&pairs) {
        Some(m) => m,
        None => {
            return None;
        },
    };
    let st = match parse_status(m.status.as_str()) {
        Some(st) => st,
        None => {
            return None;
        },
    };
    let sf = match parse_framework(m.source_framework.as_str()) {
        Some(f) => f,
        None => {
            return None;
        },
    };
    let tf = match parse_framework(m.target_framework.as_str()) {
        Some(f) => f,
        None => {
            return None;
        },
    };
    Some(
        Metadata {
            status: st,
            agent: m.agent,
            app: m.app,
            layer: m.layer,
            repeat: m.repeat,
            source_framework: sf,
            target_framework: tf,
        },
    )
}

} // verus!
