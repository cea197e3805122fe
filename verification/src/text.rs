//! Plain-text helpers shared by the layout builder, the dispatch driver and
//! the validation runner: path joining, base names, the `__` field separator
//! of group-directory names, substring search and decimal rendering.

use vstd::prelude::*;

verus! {

/// Appends `child` to `base` with a single `/` between them.
pub fn path_join(base: &str, child: &str) -> (r: String)
    ensures
        r@ == base@ + "/"@ + child@,
{
    let mut s = base.to_owned();
    s.append("/");
    s.append(child);
    s
}

/// Concatenates `suffix` onto a copy of `base`.
pub fn str_concat(base: &str, suffix: &str) -> (r: String)
    ensures
        r@ == base@ + suffix@,
{
    let mut s = base.to_owned();
    s.append(suffix);
    s
}

/// Character-for-character equality of two string slices.
pub fn str_eq(a: &str, b: &str) -> (r: bool)
    ensures
        r == (a@ == b@),
{
    let al = a.unicode_len();
    let bl = b.unicode_len();
    if al != bl {
        return false;
    }
    let mut i: usize = 0;
    while i < al
        invariant
            i <= al,
            al == a@.len(),
            al == b@.len(),
            forall|j: int| 0 <= j < i ==> a@[j] == b@[j],
        decreases al - i,
    {
        if a.get_char(i) != b.get_char(i) {
            return false;
        }
        i = i + 1;
    }
    proof {
        assert(a@ =~= b@);
    }
    true
}

/// Number of fields that splitting on the two-character separator `__`
/// yields, scanning left to right and consuming non-overlapping matches.
pub open spec fn spec_field_count(s: Seq<char>) -> nat
    decreases s.len(),
{
    if s.len() < 2 {
        1
    } else if s[0] == '_' && s[1] == '_' {
        1 + spec_field_count(s.skip(2))
    } else {
        spec_field_count(s.skip(1))
    }
}

/// Counts the `__`-delimited fields of `s`, as splitting on `__` would
/// produce them.
pub fn field_count(s: &str) -> (r: usize)
    ensures
        r == spec_field_count(s@),
{
    let len = s.unicode_len();
    let mut i: usize = 0;
    let mut fields: usize = 1;
    proof {
        assert(s@.skip(0) =~= s@);
    }
    while len >= 2 && i < len - 1
        invariant
            i <= len,
            len == s@.len(),
            fields >= 1,
            fields <= i + 1,
            fields - 1 + spec_field_count(s@.skip(i as int)) == spec_field_count(s@),
        decreases len - i,
    {
        let a = s.get_char(i);
        let b = s.get_char(i + 1);
        proof {
            assert(s@.skip(i as int)[0] == s@[i as int]);
            assert(s@.skip(i as int)[1] == s@[i as int + 1]);
        }
        if a == '_' && b == '_' {
            proof {
                assert(s@.skip(i as int).skip(2) =~= s@.skip(i as int + 2));
            }
            fields = fields + 1;
            i = i + 2;
        } else {
            proof {
                assert(s@.skip(i as int).skip(1) =~= s@.skip(i as int + 1));
            }
            i = i + 1;
        }
    }
    proof {
        assert(s@.skip(i as int).len() < 2);
    }
    fields
}

/// No `__` occurs anywhere inside `s`.
pub open spec fn spec_delim_free(s: Seq<char>) -> bool {
    forall|i: int| 0 <= i < s.len() - 1 ==> !((#[trigger] s[i]) == '_' && s[i + 1] == '_')
}

proof fn lemma_field_count_no_delim(s: Seq<char>)
    requires
        spec_delim_free(s),
    ensures
        spec_field_count(s) == 1,
    decreases s.len(),
{
    if s.len() >= 2 {
        assert(!(s[0] == '_' && s[1] == '_'));
        assert forall|i: int| 0 <= i < s.skip(1).len() - 1 implies !((#[trigger] s.skip(1)[i])
            == '_' && s.skip(1)[i + 1] == '_') by {
            assert(s.skip(1)[i] == s[i + 1]);
            assert(s.skip(1)[i + 1] == s[i + 2]);
        }
        lemma_field_count_no_delim(s.skip(1));
    }
}

proof fn lemma_field_count_past_part(x: Seq<char>, y: Seq<char>)
    requires
        spec_delim_free(x),
        x.len() > 0 ==> x.last() != '_',
        y.len() >= 2,
        y[0] == '_',
        y[1] == '_',
    ensures
        spec_field_count(x + y) == 1 + spec_field_count(y.skip(2)),
    decreases x.len(),
{
    if x.len() == 0 {
        assert(x + y =~= y);
    } else if x.len() == 1 {
        let s = x + y;
        assert(s[0] == x[0]);
        assert(s[1] == y[0]);
        assert(x[0] != '_');
        assert(s.skip(1) =~= y);
        assert(spec_field_count(s) == spec_field_count(y));
    } else {
        let s = x + y;
        assert(s[0] == x[0]);
        assert(s[1] == x[1]);
        assert(!(x[0] == '_' && x[1] == '_'));
        assert(s.skip(1) =~= x.skip(1) + y);
        assert forall|i: int| 0 <= i < x.skip(1).len() - 1 implies !((#[trigger] x.skip(1)[i])
            == '_' && x.skip(1)[i + 1] == '_') by {
            assert(x.skip(1)[i] == x[i + 1]);
            assert(x.skip(1)[i + 1] == x[i + 2]);
        }
        assert(x.skip(1).last() == x.last());
        lemma_field_count_past_part(x.skip(1), y);
    }
}

/// Joining five fields with `__` yields a name of exactly five fields,
/// provided no field holds `__` itself and none of the first four ends in
/// `_` (else a field's tail would fuse with the separator).
#[verifier::rlimit(60)]
pub proof fn lemma_join5_field_count(
    a: Seq<char>,
    l: Seq<char>,
    p: Seq<char>,
    s: Seq<char>,
    t: Seq<char>,
)
    requires
        spec_delim_free(a),
        spec_delim_free(l),
        spec_delim_free(p),
        spec_delim_free(s),
        spec_delim_free(t),
        a.len() > 0 ==> a.last() != '_',
        l.len() > 0 ==> l.last() != '_',
        p.len() > 0 ==> p.last() != '_',
        s.len() > 0 ==> s.last() != '_',
    ensures
        spec_field_count(a + "__"@ + l + "__"@ + p + "__"@ + s + "__"@ + t) == 5,
{
    reveal_strlit("__");
    let d = "__"@;
    assert(d.len() == 2);
    assert(d[0] == '_');
    assert(d[1] == '_');
    let y4 = d + t;
    let y3 = d + (s + y4);
    let y2 = d + (p + y3);
    let y1 = d + (l + y2);
    assert(a + "__"@ + l + "__"@ + p + "__"@ + s + "__"@ + t =~= a + y1);
    lemma_field_count_past_part(a, y1);
    assert(y1.skip(2) =~= l + y2);
    lemma_field_count_past_part(l, y2);
    assert(y2.skip(2) =~= p + y3);
    lemma_field_count_past_part(p, y3);
    assert(y3.skip(2) =~= s + y4);
    lemma_field_count_past_part(s, y4);
    assert(y4.skip(2) =~= t);
    lemma_field_count_no_delim(t);
}

/// The characters of `s` after its last `/`; all of `s` when it holds no
/// `/`, and empty when it ends with one.
pub open spec fn spec_base_name(s: Seq<char>) -> Seq<char>
    decreases s.len(),
{
    if s.len() == 0 {
        s
    } else if s.last() == '/' {
        Seq::empty()
    } else {
        spec_base_name(s.drop_last()).push(s.last())
    }
}

proof fn lemma_base_name_suffix(s: Seq<char>, i: int)
    requires
        0 <= i <= s.len(),
        forall|j: int| i <= j < s.len() ==> s[j] != '/',
        i > 0 ==> s[i - 1] == '/',
    ensures
        spec_base_name(s) =~= s.subrange(i, s.len() as int),
    decreases s.len(),
{
    if s.len() == 0 {
    } else if i == s.len() {
        assert(s.last() == '/');
    } else {
        assert(s.last() != '/');
        lemma_base_name_suffix(s.drop_last(), i);
        assert(spec_base_name(s) =~= s.drop_last().subrange(i, s.len() - 1).push(s.last()));
    }
}

/// The base name of a `/`-separated path: everything after the last `/`.
pub fn base_name(path: &str) -> (r: String)
    ensures
        r@ == spec_base_name(path@),
{
    let len = path.unicode_len();
    let mut i: usize = len;
    while i > 0 && path.get_char(i - 1) != '/'
        invariant
            i <= len,
            len == path@.len(),
            forall|j: int| i <= j < len ==> path@[j] != '/',
        decreases i,
    {
        i = i - 1;
    }
    proof {
        lemma_base_name_suffix(path@, i as int);
    }
    path.substring_char(i, len).to_owned()
}

/// The characters of `s` before its last `/`; empty when it holds no `/`.
pub open spec fn spec_parent_dir(s: Seq<char>) -> Seq<char>
    decreases s.len(),
{
    if s.len() == 0 {
        s
    } else if s.last() == '/' {
        s.drop_last()
    } else {
        spec_parent_dir(s.drop_last())
    }
}

proof fn lemma_parent_dir_suffix(s: Seq<char>, i: int)
    requires
        0 <= i <= s.len(),
        forall|j: int| i <= j < s.len() ==> s[j] != '/',
        i > 0 ==> s[i - 1] == '/',
    ensures
        spec_parent_dir(s) =~= if i > 0 {
            s.subrange(0, i - 1)
        } else {
            Seq::<char>::empty()
        },
    decreases s.len(),
{
    if s.len() == 0 {
    } else if i == s.len() {
        assert(s.last() == '/');
        assert(s.drop_last() =~= s.subrange(0, i - 1));
    } else {
        assert(s.last() != '/');
        lemma_parent_dir_suffix(s.drop_last(), i);
    }
}

/// The parent directory of a `/`-separated path: everything before the
/// last `/`, empty when there is none.
pub fn parent_dir(path: &str) -> (r: String)
    ensures
        r@ == spec_parent_dir(path@),
{
    let len = path.unicode_len();
    let mut i: usize = len;
    while i > 0 && path.get_char(i - 1) != '/'
        invariant
            i <= len,
            len == path@.len(),
            forall|j: int| i <= j < len ==> path@[j] != '/',
        decreases i,
    {
        i = i - 1;
    }
    proof {
        lemma_parent_dir_suffix(path@, i as int);
    }
    if i > 0 {
        path.substring_char(0, i - 1).to_owned()
    } else {
        String::new()
    }
}

/// A name passes a selection filter exactly when the filter is empty or
/// names it.
pub open spec fn spec_name_selected(name: Seq<char>, filter: Seq<String>) -> bool {
    filter.len() == 0 || exists|i: int| 0 <= i < filter.len() && #[trigger] filter[i]@ == name
}

/// Whether `name` passes the layer/app selection `filter`.
pub fn name_selected(name: &str, filter: &Vec<String>) -> (r: bool)
    ensures
        r == spec_name_selected(name@, filter@),
{
    if filter.len() == 0 {
        return true;
    }
    let mut i: usize = 0;
    while i < filter.len()
        invariant
            i <= filter@.len(),
            forall|j: int| 0 <= j < i ==> #[trigger] filter@[j]@ != name@,
        decreases filter@.len() - i,
    {
        if str_eq(filter[i].as_str(), name) {
            return true;
        }
        i = i + 1;
    }
    false
}

/// `needle` occurs in `hay` starting at offset `i`.
pub open spec fn spec_match_at(hay: Seq<char>, needle: Seq<char>, i: int) -> bool {
    0 <= i && i + needle.len() <= hay.len() && hay.subrange(i, i + needle.len()) == needle
}

/// `needle` occurs somewhere in `hay`.
pub open spec fn spec_contains(hay: Seq<char>, needle: Seq<char>) -> bool {
    exists|i: int| spec_match_at(hay, needle, i)
}

/// Whether `needle` occurs in `hay` starting exactly at `i`.
fn match_at(hay: &str, needle: &str, i: usize) -> (r: bool)
    requires
        i + needle@.len() <= hay@.len(),
        hay@.len() <= usize::MAX,
    ensures
        r == spec_match_at(hay@, needle@, i as int),
{
    let n = needle.unicode_len();
    let mut j: usize = 0;
    while j < n
        invariant
            j <= n,
            n == needle@.len(),
            i + n <= hay@.len(),
            hay@.len() <= usize::MAX,
            forall|k: int| 0 <= k < j ==> hay@[i + k] == needle@[k],
        decreases n - j,
    {
        if hay.get_char(i + j) != needle.get_char(j) {
            proof {
                assert(hay@.subrange(i as int, i + needle@.len())[j as int] == hay@[i + j]);
            }
            return false;
        }
        j = j + 1;
    }
    proof {
        assert(hay@.subrange(i as int, i + needle@.len()) =~= needle@);
    }
    true
}

/// Substring search: does `needle` occur anywhere in `hay`?
pub fn contains_sub(hay: &str, needle: &str) -> (r: bool)
    ensures
        r == spec_contains(hay@, needle@),
{
    let hl = hay.unicode_len();
    let nl = needle.unicode_len();
    if nl > hl {
        proof {
            assert(forall|i: int| !spec_match_at(hay@, needle@, i));
        }
        return false;
    }
    if nl == 0 {
        proof {
            assert(hay@.subrange(0, 0) =~= needle@);
            assert(spec_match_at(hay@, needle@, 0));
        }
        return true;
    }
    let mut i: usize = 0;
    while i <= hl - nl
        invariant
            1 <= nl <= hl,
            hl == hay@.len(),
            nl == needle@.len(),
            i <= hl - nl + 1,
            forall|k: int| 0 <= k < i ==> !spec_match_at(hay@, needle@, k),
        decreases hl - i,
    {
        if match_at(hay, needle, i) {
            return true;
        }
        i = i + 1;
    }
    proof {
        assert(forall|k: int| spec_match_at(hay@, needle@, k) ==> 0 <= k <= hl - nl);
    }
    false
}

/// Whether `hay` begins with `needle`.
pub fn starts_with(hay: &str, needle: &str) -> (r: bool)
    ensures
        r == (needle@.len() <= hay@.len() && spec_match_at(hay@, needle@, 0)),
{
    let hl = hay.unicode_len();
    let nl = needle.unicode_len();
    if nl > hl {
        return false;
    }
    match_at(hay, needle, 0)
}

/// The first position at or after `i` holding a `/` (or the end).
pub open spec fn spec_nonslash_end(s: Seq<char>, i: int) -> int
    decreases s.len() - i,
{
    if 0 <= i < s.len() && s[i] != '/' {
        spec_nonslash_end(s, i + 1)
    } else {
        i
    }
}

/// The `/`-separated pieces of `s` from position `i` on, in order.
pub open spec fn spec_split_from(s: Seq<char>, i: int) -> Seq<Seq<char>>
    decreases s.len() - i,
{
    if i < 0 || i > s.len() {
        Seq::empty()
    } else {
        let e = spec_nonslash_end(s, i);
        if e >= s.len() || e < i {
            seq![s.subrange(i, s.len() as int)]
        } else {
            seq![s.subrange(i, e)] + spec_split_from(s, e + 1)
        }
    }
}

/// The `/`-separated pieces of `s`, as splitting on `/` produces them.
pub open spec fn spec_split_slash(s: Seq<char>) -> Seq<Seq<char>> {
    spec_split_from(s, 0)
}

/// Splits `s` on `/`.
pub fn split_slash(s: &str) -> (r: Vec<String>)
    ensures
        r@.map_values(|p: String| p@) == spec_split_slash(s@),
{
    let len = s.unicode_len();
    let mut parts: Vec<String> = Vec::new();
    let mut cur: usize = 0;
    proof {
        assert(parts@.map_values(|p: String| p@) =~= Seq::<Seq<char>>::empty());
    }
    loop
        invariant
            cur <= len,
            len == s@.len(),
            spec_split_slash(s@) == parts@.map_values(|p: String| p@) + spec_split_from(
                s@,
                cur as int,
            ),
        decreases len - cur,
    {
        let ghost old_parts = parts@;
        let mut e: usize = cur;
        loop
            invariant
                cur <= e <= len,
                len == s@.len(),
                spec_nonslash_end(s@, cur as int) == spec_nonslash_end(s@, e as int),
            ensures
                cur <= e <= len,
                e == spec_nonslash_end(s@, cur as int),
            decreases len - e,
        {
            if e >= len {
                break;
            }
            if s.get_char(e) == '/' {
                break;
            }
            e = e + 1;
        }
        if e >= len {
            let part = s.substring_char(cur, len).to_owned();
            parts.push(part);
            proof {
                assert(parts@.map_values(|p: String| p@) =~= old_parts.map_values(
                    |p: String| p@,
                ).push(s@.subrange(cur as int, len as int)));
                assert(spec_split_from(s@, cur as int) =~= seq![
                    s@.subrange(cur as int, len as int),
                ]);
                assert(old_parts.map_values(|p: String| p@) + seq![
                    s@.subrange(cur as int, len as int),
                ] =~= parts@.map_values(|p: String| p@));
            }
            return parts;
        }
        let part = s.substring_char(cur, e).to_owned();
        parts.push(part);
        proof {
            assert(parts@.map_values(|p: String| p@) =~= old_parts.map_values(|p: String| p@).push(
                s@.subrange(cur as int, e as int),
            ));
            assert(spec_split_from(s@, cur as int) =~= seq![s@.subrange(cur as int, e as int)]
                + spec_split_from(s@, e + 1));
            assert(old_parts.map_values(|p: String| p@) + (seq![s@.subrange(cur as int, e as int)]
                + spec_split_from(s@, e + 1)) =~= parts@.map_values(|p: String| p@)
                + spec_split_from(s@, e + 1));
        }
        cur = e + 1;
    }
}

/// The Unicode white-space characters, as `str::trim` removes them.
pub open spec fn spec_is_space(c: char) -> bool {
    c == ' ' || c == '\t' || c == '\n' || c == '\r' || c == '\u{b}' || c == '\u{c}'
        || c == '\u{85}' || c == '\u{a0}' || c == '\u{1680}'
        || ('\u{2000}' <= c && c <= '\u{200a}')
        || c == '\u{2028}' || c == '\u{2029}' || c == '\u{202f}' || c == '\u{205f}'
        || c == '\u{3000}'
}

/// Whether `c` is white space in the sense of `str::trim`.
pub fn is_space(c: char) -> (r: bool)
    ensures
        r == spec_is_space(c),
{
    c == ' ' || c == '\t' || c == '\n' || c == '\r' || c == '\u{b}' || c == '\u{c}'
        || c == '\u{85}' || c == '\u{a0}' || c == '\u{1680}'
        || ('\u{2000}' <= c && c <= '\u{200a}')
        || c == '\u{2028}' || c == '\u{2029}' || c == '\u{202f}' || c == '\u{205f}'
        || c == '\u{3000}'
}

/// `s` trims to nothing: every character is white space.
pub open spec fn spec_is_blank(s: Seq<char>) -> bool {
    forall|i: int| 0 <= i < s.len() ==> spec_is_space(s[i])
}

/// Whether `s` holds nothing but white space (so trimming empties it).
pub fn is_blank(s: &str) -> (r: bool)
    ensures
        r == spec_is_blank(s@),
{
    let len = s.unicode_len();
    let mut i: usize = 0;
    while i < len
        invariant
            i <= len,
            len == s@.len(),
            forall|j: int| 0 <= j < i ==> spec_is_space(s@[j]),
        decreases len - i,
    {
        if !is_space(s.get_char(i)) {
            return false;
        }
        i = i + 1;
    }
    true
}

/// The decimal digit character for `d` in `0..10`.
pub open spec fn spec_digit(d: int) -> char {
    if d == 0 { '0' }
    else if d == 1 { '1' }
    else if d == 2 { '2' }
    else if d == 3 { '3' }
    else if d == 4 { '4' }
    else if d == 5 { '5' }
    else if d == 6 { '6' }
    else if d == 7 { '7' }
    else if d == 8 { '8' }
    else { '9' }
}

/// The usual decimal rendering of a non-negative integer, no leading zeros.
pub open spec fn spec_dec(n: int) -> Seq<char>
    decreases n,
{
    if n < 10 {
        seq![spec_digit(n)]
    } else {
        spec_dec(n / 10).push(spec_digit(n % 10))
    }
}

fn digit_str(d: u32) -> (r: &'static str)
    requires
        d < 10,
    ensures
        r@ =~= seq![spec_digit(d as int)],
{
    proof {
        reveal_strlit("0");
        reveal_strlit("1");
        reveal_strlit("2");
        reveal_strlit("3");
        reveal_strlit("4");
        reveal_strlit("5");
        reveal_strlit("6");
        reveal_strlit("7");
        reveal_strlit("8");
        reveal_strlit("9");
    }
    match d {
        0 => "0",
        1 => "1",
        2 => "2",
        3 => "3",
        4 => "4",
        5 => "5",
        6 => "6",
        7 => "7",
        8 => "8",
        _ => "9",
    }
}

/// Renders `n` in decimal.
pub fn u32_dec(n: u32) -> (r: String)
    ensures
        r@ == spec_dec(n as int),
    decreases n,
{
    if n < 10 {
        digit_str(n).to_owned()
    } else {
        let mut s = u32_dec(n / 10);
        s.append(digit_str(n % 10));
        proof {
            assert(s@ =~= spec_dec((n / 10) as int).push(spec_digit((n % 10) as int)));
        }
        s
    }
}

} // verus!
