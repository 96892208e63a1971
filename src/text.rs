//! Character classes, case folding and trimming over character sequences.
use vstd::prelude::*;

verus! {

/// `tab`, `line feed`, `carriage return` and `space`: the whitespace that may separate the
/// pieces of a tag.
pub open spec fn is_tag_space(c: char) -> bool {
    c == '\t' || c == '\n' || c == '\r' || c == ' '
}

/// Characters that cannot appear in a block name.
pub open spec fn is_block_name_forbidden(c: char) -> bool {
    c == '\t' || c == '\n' || c == '\x0C' || c == ' ' || c == '/' || c == '>'
}

/// Characters that cannot appear in an attribute name.
pub open spec fn is_attribute_name_forbidden(c: char) -> bool {
    is_block_name_forbidden(c) || c == '='
}

pub open spec fn is_ascii_upper(c: char) -> bool {
    'A' <= c && c <= 'Z'
}

pub open spec fn is_ascii_alpha(c: char) -> bool {
    is_ascii_upper(c) || ('a' <= c && c <= 'z')
}

pub open spec fn lower_char(c: char) -> char {
    if is_ascii_upper(c) {
        (((c as u32) + 32) as u8) as char
    } else {
        c
    }
}

/// ASCII lower-casing of every character; other characters are kept.
pub open spec fn lower(s: Seq<char>) -> Seq<char> {
    s.map_values(|c: char| lower_char(c))
}

/// The characters with the Unicode `White_Space` property.
pub open spec fn is_white_space(c: char) -> bool {
    ('\t' <= c && c <= '\r') || c == ' ' || c == '\u{85}' || c == '\u{A0}' || c == '\u{1680}'
        || ('\u{2000}' <= c && c <= '\u{200A}') || c == '\u{2028}' || c == '\u{2029}'
        || c == '\u{202F}' || c == '\u{205F}' || c == '\u{3000}'
}

/// Length of `s` once its trailing white space is removed.
pub open spec fn trim_end_len(s: Seq<char>) -> nat
    decreases s.len(),
{
    if s.len() > 0 && is_white_space(s.last()) {
        trim_end_len(s.drop_last())
    } else {
        s.len()
    }
}

/// `s` without its trailing white space.
pub open spec fn trim_end(s: Seq<char>) -> Seq<char> {
    s.subrange(0, trim_end_len(s) as int)
}

/// Number of line feeds and carriage returns that `s` starts with.
pub open spec fn newline_prefix_len(s: Seq<char>) -> nat
    decreases s.len(),
{
    if s.len() > 0 && (s[0] == '\n' || s[0] == '\r') {
        1 + newline_prefix_len(s.skip(1))
    } else {
        0
    }
}

/// `s` without its leading line feeds and carriage returns and without its trailing white
/// space: the form in which text between tags is kept.
pub open spec fn trim_section(s: Seq<char>) -> Seq<char> {
    trim_end(s.skip(newline_prefix_len(s) as int))
}

pub proof fn lemma_trim_end_len_bound(s: Seq<char>)
    ensures
        trim_end_len(s) <= s.len(),
    decreases s.len(),
{
    if s.len() > 0 && is_white_space(s.last()) {
        lemma_trim_end_len_bound(s.drop_last());
    }
}

pub proof fn lemma_newline_prefix_len_bound(s: Seq<char>)
    ensures
        newline_prefix_len(s) <= s.len(),
    decreases s.len(),
{
    if s.len() > 0 && (s[0] == '\n' || s[0] == '\r') {
        lemma_newline_prefix_len_bound(s.skip(1));
    }
}

/// A trimmed sequence has no trailing white space, and trimming it again changes nothing.
pub proof fn lemma_trim_end_idempotent(s: Seq<char>)
    ensures
        trim_end(s).len() > 0 ==> !is_white_space(trim_end(s).last()),
        trim_end(trim_end(s)) == trim_end(s),
    decreases s.len(),
{
    lemma_trim_end_len_bound(s);
    if s.len() > 0 && is_white_space(s.last()) {
        lemma_trim_end_idempotent(s.drop_last());
        lemma_trim_end_len_bound(s.drop_last());
        assert(trim_end(s) =~= trim_end(s.drop_last()));
    } else {
        assert(trim_end(s) =~= s);
    }
}

pub fn is_white_space_char(c: char) -> (r: bool)
    ensures
        r == is_white_space(c),
{
    ('\t' <= c && c <= '\r') || c == ' ' || c == '\u{85}' || c == '\u{A0}' || c == '\u{1680}'
        || ('\u{2000}' <= c && c <= '\u{200A}') || c == '\u{2028}' || c == '\u{2029}'
        || c == '\u{202F}' || c == '\u{205F}' || c == '\u{3000}'
}

pub fn is_tag_space_char(c: char) -> (r: bool)
    ensures
        r == is_tag_space(c),
{
    c == '\t' || c == '\n' || c == '\r' || c == ' '
}

pub fn is_block_name_forbidden_char(c: char) -> (r: bool)
    ensures
        r == is_block_name_forbidden(c),
{
    c == '\t' || c == '\n' || c == '\x0C' || c == ' ' || c == '/' || c == '>'
}

pub fn is_attribute_name_forbidden_char(c: char) -> (r: bool)
    ensures
        r == is_attribute_name_forbidden(c),
{
    is_block_name_forbidden_char(c) || c == '='
}

pub fn is_ascii_alpha_char(c: char) -> (r: bool)
    ensures
        r == is_ascii_alpha(c),
{
    ('A' <= c && c <= 'Z') || ('a' <= c && c <= 'z')
}

pub fn lower_ascii(c: char) -> (r: char)
    ensures
        r == lower_char(c),
{
    if 'A' <= c && c <= 'Z' {
        (((c as u32) + 32) as u8) as char
    } else {
        c
    }
}

/// The characters of `s`, in order.
pub fn chars_of(s: &str) -> (v: Vec<char>)
    ensures
        v@ == s@,
{
    let mut v: Vec<char> = Vec::new();
    for c in it: s.chars()
        invariant
            v@ == it.history(),
    {
        v.push(c);
    }
    v
}

/// Relies on `String::push`: the character is appended at the end.
#[verifier::external_body]
pub(crate) fn push_char(s: &mut String, c: char)
    ensures
        final(s)@ == old(s)@.push(c),
{
    s.push(c)
}

/// Appends `t` at the end of `s`.
pub fn push_str(s: &mut String, t: &str)
    ensures
        final(s)@ == old(s)@ + t@,
{
    s.append(t);
}

/// Whether the two strings hold the same characters.
pub fn same_text(a: &str, b: &str) -> (r: bool)
    ensures
        r == (a@ == b@),
{
    let x = chars_of(a);
    let y = chars_of(b);
    if x.len() != y.len() {
        return false;
    }
    let mut i: usize = 0;
    while i < x.len()
        invariant
            x@ == a@,
            y@ == b@,
            x.len() == y.len(),
            i <= x.len(),
            forall|k: int| 0 <= k < i ==> x@[k] == y@[k],
        decreases x.len() - i,
    {
        if x[i] != y[i] {
            return false;
        }
        i = i + 1;
    }
    assert(x@ =~= y@);
    true
}

/// The order of two texts: character by character, a proper prefix first. This is the order
/// of `str`, whose UTF-8 bytes compare as their characters do.
pub open spec fn text_cmp(a: Seq<char>, b: Seq<char>) -> core::cmp::Ordering
    decreases a.len(),
{
    if a.len() == 0 {
        if b.len() == 0 {
            core::cmp::Ordering::Equal
        } else {
            core::cmp::Ordering::Less
        }
    } else if b.len() == 0 {
        core::cmp::Ordering::Greater
    } else if a[0] < b[0] {
        core::cmp::Ordering::Less
    } else if a[0] > b[0] {
        core::cmp::Ordering::Greater
    } else {
        text_cmp(a.skip(1), b.skip(1))
    }
}

/// Compares two texts in the order of [`text_cmp`].
pub fn compare_text(a: &str, b: &str) -> (r: core::cmp::Ordering)
    ensures
        r == text_cmp(a@, b@),
{
    let x = chars_of(a);
    let y = chars_of(b);
    let mut i: usize = 0;
    assert(x@.skip(0) =~= x@);
    assert(y@.skip(0) =~= y@);
    while i < x.len() && i < y.len() && x[i] == y[i]
        invariant
            x@ == a@,
            y@ == b@,
            i <= x.len(),
            i <= y.len(),
            text_cmp(a@, b@) == text_cmp(x@.skip(i as int), y@.skip(i as int)),
        decreases x.len() - i,
    {
        assert(x@.skip(i as int).skip(1) =~= x@.skip(i + 1));
        assert(y@.skip(i as int).skip(1) =~= y@.skip(i + 1));
        i = i + 1;
    }
    if i == x.len() {
        if i == y.len() {
            core::cmp::Ordering::Equal
        } else {
            core::cmp::Ordering::Less
        }
    } else if i == y.len() {
        core::cmp::Ordering::Greater
    } else if x[i] < y[i] {
        core::cmp::Ordering::Less
    } else {
        core::cmp::Ordering::Greater
    }
}

/// Whether `s` holds the character `c`.
pub fn contains_char(s: &Vec<char>, c: char) -> (r: bool)
    ensures
        r == s@.contains(c),
{
    let mut i: usize = 0;
    while i < s.len()
        invariant
            i <= s.len(),
            forall|k: int| 0 <= k < i ==> s@[k] != c,
        decreases s.len() - i,
    {
        if s[i] == c {
            assert(s@[i as int] == c);
            return true;
        }
        i = i + 1;
    }
    false
}

/// The ASCII lower-cased copy of `s`.
pub fn lowercase(s: &Vec<char>) -> (r: String)
    ensures
        r@ == lower(s@),
{
    let mut r = String::new();
    let mut i: usize = 0;
    while i < s.len()
        invariant
            i <= s.len(),
            r@ == lower(s@.subrange(0, i as int)),
        decreases s.len() - i,
    {
        let c = lower_ascii(s[i]);
        push_char(&mut r, c);
        i = i + 1;
        assert(lower(s@.subrange(0, i as int)) =~= lower(s@.subrange(0, i - 1)).push(c));
    }
    assert(s@.subrange(0, s.len() as int) =~= s@);
    r
}

/// Whether `s` holds an ASCII upper-case letter.
pub fn has_ascii_upper(s: &Vec<char>) -> (r: bool)
    ensures
        r == (exists|k: int| 0 <= k < s@.len() && is_ascii_upper(#[trigger] s@[k])),
        !r ==> lower(s@) == s@,
{
    let mut i: usize = 0;
    while i < s.len()
        invariant
            i <= s.len(),
            forall|k: int| 0 <= k < i ==> !is_ascii_upper(#[trigger] s@[k]),
        decreases s.len() - i,
    {
        if 'A' <= s[i] && s[i] <= 'Z' {
            return true;
        }
        i = i + 1;
    }
    assert(lower(s@) =~= s@);
    false
}

/// Length of `s[..end]` once its trailing white space is removed.
pub fn trim_end_index(s: &Vec<char>, start: usize, end: usize) -> (n: usize)
    requires
        start <= end <= s.len(),
    ensures
        start <= n <= end,
        n - start == trim_end_len(s@.subrange(start as int, end as int)),
{
    let mut n = end;
    while n > start && is_white_space_char(s[n - 1])
        invariant
            start <= n <= end <= s.len(),
            trim_end_len(s@.subrange(start as int, end as int)) == trim_end_len(
                s@.subrange(start as int, n as int),
            ),
        decreases n,
    {
        assert(s@.subrange(start as int, n as int).drop_last() =~= s@.subrange(
            start as int,
            n - 1,
        ));
        n = n - 1;
    }
    n
}

/// Index of the first character of `s[start..end]` that is not a line feed or carriage return.
pub fn skip_newlines_index(s: &Vec<char>, start: usize, end: usize) -> (n: usize)
    requires
        start <= end <= s.len(),
    ensures
        start <= n <= end,
        n - start == newline_prefix_len(s@.subrange(start as int, end as int)),
{
    let mut n = start;
    while n < end && (s[n] == '\n' || s[n] == '\r')
        invariant
            start <= n <= end <= s.len(),
            newline_prefix_len(s@.subrange(start as int, end as int)) == (n - start)
                + newline_prefix_len(s@.subrange(n as int, end as int)),
        decreases end - n,
    {
        assert(s@.subrange(n as int, end as int).skip(1) =~= s@.subrange(n + 1, end as int));
        n = n + 1;
    }
    n
}

/// Bounds of `trim_section(s[start..end])` within `s`.
pub fn trim_section_bounds(s: &Vec<char>, start: usize, end: usize) -> (r: (usize, usize))
    requires
        start <= end <= s.len(),
    ensures
        start <= r.0 <= r.1 <= end,
        s@.subrange(r.0 as int, r.1 as int) == trim_section(s@.subrange(start as int, end as int)),
{
    let a = skip_newlines_index(s, start, end);
    let b = trim_end_index(s, a, end);
    proof {
        let seg = s@.subrange(start as int, end as int);
        assert(seg.skip(newline_prefix_len(seg) as int) =~= s@.subrange(a as int, end as int));
        assert(s@.subrange(a as int, b as int) =~= trim_end(s@.subrange(a as int, end as int)));
    }
    (a, b)
}

} // verus!
