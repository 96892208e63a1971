//! The grammar of start tags and end tags.
//!
//! A start tag is `<`, a tag name (an ASCII letter, then any run without tab, line feed, form
//! feed, space, `/` or `>`), attributes each preceded by whitespace, optional whitespace and
//! `>`. An attribute is a name (a run without tab, line feed, form feed, space, `/`, `=` or
//! `>`), optionally followed by `=` and a double- or single-quoted value; whitespace may stand
//! around the `=`. An end tag is `</`, optional whitespace, a tag name, optional whitespace and
//! `>`. Whitespace here is tab, line feed, carriage return and space.
use std::borrow::Cow;
use vstd::prelude::*;

use crate::attribute::{
    is_valid_attribute_value, lemma_first_attribute_name_forbidden,
    Attribute, AttributeName, AttributeValue,
};
use crate::block_name::{
    block_name_error, lemma_first_block_name_forbidden, BlockName,
};
use crate::text::{
    chars_of, is_ascii_alpha, is_ascii_alpha_char, is_attribute_name_forbidden,
    is_attribute_name_forbidden_char, is_block_name_forbidden, is_block_name_forbidden_char,
    is_tag_space, is_tag_space_char, lower, lower_ascii, lower_char,
};

verus! {

/// An attribute as plain values: its name, and its value if it has one.
pub type AttributeModel = (Seq<char>, Option<Seq<char>>);

/// End of the run of tag whitespace that starts at `i`.
pub open spec fn space_end(s: Seq<char>, i: int) -> int
    decreases s.len() - i,
{
    if 0 <= i < s.len() && is_tag_space(s[i]) {
        space_end(s, i + 1)
    } else {
        i
    }
}

/// End of the run of characters allowed in a block name that starts at `i`.
pub open spec fn block_name_end(s: Seq<char>, i: int) -> int
    decreases s.len() - i,
{
    if 0 <= i < s.len() && !is_block_name_forbidden(s[i]) {
        block_name_end(s, i + 1)
    } else {
        i
    }
}

/// End of the run of characters allowed in an attribute name that starts at `i`.
pub open spec fn attribute_name_end(s: Seq<char>, i: int) -> int
    decreases s.len() - i,
{
    if 0 <= i < s.len() && !is_attribute_name_forbidden(s[i]) {
        attribute_name_end(s, i + 1)
    } else {
        i
    }
}

/// Index of the first `q` at or after `i`, or the length of `s` if there is none.
pub open spec fn find_char(s: Seq<char>, i: int, q: char) -> int
    decreases s.len() - i,
{
    if 0 <= i < s.len() && s[i] != q {
        find_char(s, i + 1, q)
    } else {
        i
    }
}

/// A quoted attribute value at `i`: its text and the index after the closing quote.
pub open spec fn attribute_value_at(s: Seq<char>, i: int) -> Option<(Seq<char>, int)> {
    if 0 <= i < s.len() && (s[i] == '"' || s[i] == '\'') {
        let k = find_char(s, i + 1, s[i]);
        if k < s.len() {
            Some((s.subrange(i + 1, k), k + 1))
        } else {
            None
        }
    } else {
        None
    }
}

/// An attribute at `i`, and the index after it.
pub open spec fn attribute_at(s: Seq<char>, i: int) -> Option<(AttributeModel, int)> {
    let n = attribute_name_end(s, i);
    if n > i {
        let name = lower(s.subrange(i, n));
        let eq = space_end(s, n);
        let value = if eq < s.len() && s[eq] == '=' {
            attribute_value_at(s, space_end(s, eq + 1))
        } else {
            None
        };
        match value {
            Some((v, e)) => Some(((name, Some(v)), e)),
            None => Some(((name, None), n)),
        }
    } else {
        None
    }
}

/// The attributes, each preceded by whitespace, that follow `i`, and the index after the last.
pub open spec fn attributes_at(s: Seq<char>, i: int) -> (Seq<AttributeModel>, int)
    decreases s.len() - i,
    via attributes_at_decreases
{
    let w = space_end(s, i);
    if w > i {
        match attribute_at(s, w) {
            Some((a, e)) => {
                let rest = attributes_at(s, e);
                (seq![a] + rest.0, rest.1)
            },
            None => (seq![], i),
        }
    } else {
        (seq![], i)
    }
}

#[via_fn]
proof fn attributes_at_decreases(s: Seq<char>, i: int) {
    let w = space_end(s, i);
    lemma_space_end(s, i);
    if w > i {
        lemma_attribute_at(s, w);
    }
}

/// A start tag at `i`: its lower-cased name, its attributes, and the index after its `>`.
pub open spec fn start_tag_at(s: Seq<char>, i: int) -> Option<(Seq<char>, Seq<AttributeModel>, int)> {
    if 0 <= i && i + 1 < s.len() && s[i] == '<' && is_ascii_alpha(s[i + 1]) {
        let n = block_name_end(s, i + 1);
        let attrs = attributes_at(s, n);
        let g = space_end(s, attrs.1);
        if 0 <= g < s.len() && s[g] == '>' {
            Some((lower(s.subrange(i + 1, n)), attrs.0, g + 1))
        } else {
            None
        }
    } else {
        None
    }
}

/// An end tag at `i`: its lower-cased name and the index after its `>`.
pub open spec fn end_tag_at(s: Seq<char>, i: int) -> Option<(Seq<char>, int)> {
    if 0 <= i && i + 1 < s.len() && s[i] == '<' && s[i + 1] == '/' {
        let w = space_end(s, i + 2);
        if w < s.len() && is_ascii_alpha(s[w]) {
            let n = block_name_end(s, w);
            let g = space_end(s, n);
            if g < s.len() && s[g] == '>' {
                Some((lower(s.subrange(w, n)), g + 1))
            } else {
                None
            }
        } else {
            None
        }
    } else {
        None
    }
}

/// Where the name of an end tag at `i` starts: after `</` and optional whitespace.
pub open spec fn end_tag_name_start(s: Seq<char>, i: int) -> int {
    space_end(s, i + 2)
}

/// The end tag of the block named `name` at `i`: `</`, optional whitespace, `name` in any ASCII
/// case, optional whitespace and `>`; the index after its `>`.
pub open spec fn end_tag_for(s: Seq<char>, i: int, name: Seq<char>) -> Option<int> {
    if 0 <= i && i + 1 < s.len() && s[i] == '<' && s[i + 1] == '/' {
        let w = end_tag_name_start(s, i);
        let n = w + name.len();
        if n <= s.len() && lower(s.subrange(w, n)) == name {
            let g = space_end(s, n);
            if g < s.len() && s[g] == '>' {
                Some(g + 1)
            } else {
                None
            }
        } else {
            None
        }
    } else {
        None
    }
}

/// The plain values of an attribute.
pub open spec fn attribute_view(a: Attribute) -> AttributeModel {
    (
        a.0@,
        match a.1 {
            Some(v) => Some(v@),
            None => None,
        },
    )
}

/// The plain values of a list of attributes.
pub open spec fn attributes_view(v: Seq<Attribute>) -> Seq<AttributeModel> {
    v.map_values(|a: Attribute| attribute_view(a))
}

pub proof fn lemma_space_end(s: Seq<char>, i: int)
    ensures
        i <= space_end(s, i),
        0 <= i <= s.len() ==> space_end(s, i) <= s.len(),
        forall|k: int| i <= k < space_end(s, i) ==> is_tag_space(#[trigger] s[k]),
        0 <= i ==> 0 <= space_end(s, i) < s.len() ==> !is_tag_space(s[space_end(s, i)]),
    decreases s.len() - i,
{
    if 0 <= i < s.len() && is_tag_space(s[i]) {
        lemma_space_end(s, i + 1);
    }
}

pub proof fn lemma_block_name_end(s: Seq<char>, i: int)
    ensures
        i <= block_name_end(s, i),
        0 <= i <= s.len() ==> block_name_end(s, i) <= s.len(),
        forall|k: int| i <= k < block_name_end(s, i) ==> !is_block_name_forbidden(#[trigger] s[k]),
        0 <= block_name_end(s, i) < s.len() ==> is_block_name_forbidden(s[block_name_end(s, i)]),
    decreases s.len() - i,
{
    if 0 <= i < s.len() && !is_block_name_forbidden(s[i]) {
        lemma_block_name_end(s, i + 1);
    }
}

pub proof fn lemma_attribute_name_end(s: Seq<char>, i: int)
    ensures
        i <= attribute_name_end(s, i),
        0 <= i <= s.len() ==> attribute_name_end(s, i) <= s.len(),
        forall|k: int|
            i <= k < attribute_name_end(s, i) ==> !is_attribute_name_forbidden(#[trigger] s[k]),
    decreases s.len() - i,
{
    if 0 <= i < s.len() && !is_attribute_name_forbidden(s[i]) {
        lemma_attribute_name_end(s, i + 1);
    }
}

pub proof fn lemma_find_char(s: Seq<char>, i: int, q: char)
    ensures
        i <= find_char(s, i, q),
        0 <= i <= s.len() ==> find_char(s, i, q) <= s.len(),
        forall|k: int| i <= k < find_char(s, i, q) ==> #[trigger] s[k] != q,
        0 <= find_char(s, i, q) < s.len() ==> s[find_char(s, i, q)] == q,
    decreases s.len() - i,
{
    if 0 <= i < s.len() && s[i] != q {
        lemma_find_char(s, i + 1, q);
    }
}

pub proof fn lemma_attribute_value_at(s: Seq<char>, i: int)
    ensures
        attribute_value_at(s, i) matches Some((v, e)) ==> i < e <= s.len()
            && is_valid_attribute_value(v),
{
    if 0 <= i < s.len() && (s[i] == '"' || s[i] == '\'') {
        let q = s[i];
        lemma_find_char(s, i + 1, q);
        let k = find_char(s, i + 1, q);
        if k < s.len() {
            let v = s.subrange(i + 1, k);
            assert(!v.contains(q)) by {
                if v.contains(q) {
                    let j = choose|j: int| 0 <= j < v.len() && v[j] == q;
                    assert(s[i + 1 + j] == q);
                }
            }
        }
    }
}

pub proof fn lemma_attribute_at(s: Seq<char>, i: int)
    ensures
        attribute_at(s, i) matches Some((a, e)) ==> i < e <= s.len() && 0 <= i,
{
    lemma_attribute_name_end(s, i);
    let n = attribute_name_end(s, i);
    if n > i {
        lemma_space_end(s, n);
        let eq = space_end(s, n);
        if eq < s.len() && s[eq] == '=' {
            lemma_space_end(s, eq + 1);
            lemma_attribute_value_at(s, space_end(s, eq + 1));
        }
    }
}

pub proof fn lemma_attributes_at(s: Seq<char>, i: int)
    requires
        0 <= i <= s.len(),
    ensures
        i <= attributes_at(s, i).1 <= s.len(),
    decreases s.len() - i,
{
    let w = space_end(s, i);
    lemma_space_end(s, i);
    if w > i {
        lemma_attribute_at(s, w);
        if let Some((a, e)) = attribute_at(s, w) {
            lemma_attributes_at(s, e);
        }
    }
}

pub proof fn lemma_start_tag_at(s: Seq<char>, i: int)
    ensures
        start_tag_at(s, i) matches Some((_, _, e)) ==> 0 <= i < e <= s.len(),
{
    if 0 <= i && i + 1 < s.len() && s[i] == '<' && is_ascii_alpha(s[i + 1]) {
        lemma_block_name_end(s, i + 1);
        let n = block_name_end(s, i + 1);
        lemma_attributes_at(s, n);
        lemma_space_end(s, attributes_at(s, n).1);
    }
}

pub proof fn lemma_end_tag_at(s: Seq<char>, i: int)
    ensures
        end_tag_at(s, i) matches Some((_, e)) ==> 0 <= i < e <= s.len(),
{
    if 0 <= i && i + 1 < s.len() && s[i] == '<' && s[i + 1] == '/' {
        lemma_space_end(s, i + 2);
        let w = space_end(s, i + 2);
        lemma_block_name_end(s, w);
        lemma_space_end(s, block_name_end(s, w));
    }
}

pub proof fn lemma_end_tag_for(s: Seq<char>, i: int, name: Seq<char>)
    ensures
        end_tag_for(s, i, name) matches Some(e) ==> 0 <= i < e <= s.len(),
{
    if 0 <= i && i + 1 < s.len() && s[i] == '<' && s[i + 1] == '/' {
        lemma_space_end(s, i + 2);
        let n = space_end(s, i + 2) + name.len();
        if n <= s.len() {
            lemma_space_end(s, n);
        }
    }
}

fn space_end_exec(s: &Vec<char>, i: usize) -> (r: usize)
    requires
        i <= s.len(),
    ensures
        r == space_end(s@, i as int),
        i <= r <= s.len(),
{
    proof {
        lemma_space_end(s@, i as int);
    }
    let mut j = i;
    while j < s.len() && is_tag_space_char(s[j])
        invariant
            i <= j <= s.len(),
            space_end(s@, i as int) == space_end(s@, j as int),
        decreases s.len() - j,
    {
        j = j + 1;
    }
    j
}

fn block_name_end_exec(s: &Vec<char>, i: usize) -> (r: usize)
    requires
        i <= s.len(),
    ensures
        r == block_name_end(s@, i as int),
        i <= r <= s.len(),
{
    proof {
        lemma_block_name_end(s@, i as int);
    }
    let mut j = i;
    while j < s.len() && !is_block_name_forbidden_char(s[j])
        invariant
            i <= j <= s.len(),
            block_name_end(s@, i as int) == block_name_end(s@, j as int),
        decreases s.len() - j,
    {
        j = j + 1;
    }
    j
}

fn attribute_name_end_exec(s: &Vec<char>, i: usize) -> (r: usize)
    requires
        i <= s.len(),
    ensures
        r == attribute_name_end(s@, i as int),
        i <= r <= s.len(),
{
    proof {
        lemma_attribute_name_end(s@, i as int);
    }
    let mut j = i;
    while j < s.len() && !is_attribute_name_forbidden_char(s[j])
        invariant
            i <= j <= s.len(),
            attribute_name_end(s@, i as int) == attribute_name_end(s@, j as int),
        decreases s.len() - j,
    {
        j = j + 1;
    }
    j
}

pub(crate) fn find_char_exec(s: &Vec<char>, i: usize, q: char) -> (r: usize)
    requires
        i <= s.len(),
    ensures
        r == find_char(s@, i as int, q),
        i <= r <= s.len(),
{
    proof {
        lemma_find_char(s@, i as int, q);
    }
    let mut j = i;
    while j < s.len() && s[j] != q
        invariant
            i <= j <= s.len(),
            find_char(s@, i as int, q) == find_char(s@, j as int, q),
        decreases s.len() - j,
    {
        j = j + 1;
    }
    j
}

/// The block name whose text is `s[a..b]`, which the grammar has already checked.
fn block_name_of<'a>(input: &'a str, s: &Vec<char>, a: usize, b: usize) -> (r: BlockName<'a>)
    requires
        input@ == s@,
        a < b <= s.len(),
        is_ascii_alpha(s@[a as int]),
        forall|k: int| a <= k < b ==> !is_block_name_forbidden(#[trigger] s@[k]),
    ensures
        r@ == lower(s@.subrange(a as int, b as int)),
{
    let text = input.substring_char(a, b);
    proof {
        let t = s@.subrange(a as int, b as int);
        lemma_first_block_name_forbidden(t, 0);
        assert(block_name_error(t) is None);
    }
    BlockName::from_cow_unchecked(Cow::Borrowed(text))
}

fn attribute_value_at_exec<'a>(input: &'a str, s: &Vec<char>, i: usize) -> (r: Option<
    (AttributeValue<'a>, usize),
>)
    requires
        input@ == s@,
        i <= s.len(),
    ensures
        match attribute_value_at(s@, i as int) {
            Some((v, e)) => r matches Some((value, end)) && value@ == v && end == e,
            None => r is None,
        },
{
    if i < s.len() && (s[i] == '"' || s[i] == '\'') {
        let q = s[i];
        let k = find_char_exec(s, i + 1, q);
        if k < s.len() {
            proof {
                lemma_attribute_value_at(s@, i as int);
            }
            let text = input.substring_char(i + 1, k);
            let value = AttributeValue::from_cow_unchecked(Cow::Borrowed(text));
            Some((value, k + 1))
        } else {
            None
        }
    } else {
        None
    }
}

fn attribute_at_exec<'a>(input: &'a str, s: &Vec<char>, i: usize) -> (r: Option<
    (Attribute<'a>, usize),
>)
    requires
        input@ == s@,
        i <= s.len(),
    ensures
        match attribute_at(s@, i as int) {
            Some((a, e)) => r matches Some((attr, end)) && attribute_view(attr) == a && end == e,
            None => r is None,
        },
{
    let n = attribute_name_end_exec(s, i);
    if n > i {
        proof {
            lemma_attribute_name_end(s@, i as int);
            let t = s@.subrange(i as int, n as int);
            lemma_first_attribute_name_forbidden(t, 0);
        }
        let text = input.substring_char(i, n);
        let name = AttributeName::from_cow_unchecked(Cow::Borrowed(text));
        let eq = space_end_exec(s, n);
        let value = if eq < s.len() && s[eq] == '=' {
            let w = space_end_exec(s, eq + 1);
            attribute_value_at_exec(input, s, w)
        } else {
            None
        };
        match value {
            Some((v, e)) => Some(((name, Some(v)), e)),
            None => Some(((name, None), n)),
        }
    } else {
        None
    }
}

fn attributes_at_exec<'a>(input: &'a str, s: &Vec<char>, i: usize) -> (r: (
    Vec<Attribute<'a>>,
    usize,
))
    requires
        input@ == s@,
        i <= s.len(),
    ensures
        attributes_view(r.0@) == attributes_at(s@, i as int).0,
        r.1 == attributes_at(s@, i as int).1,
{
    let mut attrs: Vec<Attribute<'a>> = Vec::new();
    let mut pos = i;
    loop
        invariant
            i <= pos <= s.len(),
            input@ == s@,
            attributes_at(s@, i as int).0 == attributes_view(attrs@) + attributes_at(
                s@,
                pos as int,
            ).0,
            attributes_at(s@, i as int).1 == attributes_at(s@, pos as int).1,
        decreases s.len() - pos,
    {
        let w = space_end_exec(s, pos);
        if w == pos {
            assert(attributes_view(attrs@) + seq![] =~= attributes_view(attrs@));
            return (attrs, pos);
        }
        match attribute_at_exec(input, s, w) {
            Some((a, e)) => {
                proof {
                    lemma_attribute_at(s@, w as int);
                    assert(attributes_view(attrs@.push(a)) =~= attributes_view(attrs@).push(
                        attribute_view(a),
                    ));
                    assert(seq![attribute_view(a)] + attributes_at(s@, e as int).0 =~= seq![
                        attribute_view(a),
                    ].add(attributes_at(s@, e as int).0));
                    assert(attributes_view(attrs@) + (seq![attribute_view(a)] + attributes_at(
                        s@,
                        e as int,
                    ).0) =~= attributes_view(attrs@).push(attribute_view(a)) + attributes_at(
                        s@,
                        e as int,
                    ).0);
                }
                attrs.push(a);
                pos = e;
            },
            None => {
                assert(attributes_view(attrs@) + seq![] =~= attributes_view(attrs@));
                return (attrs, pos);
            },
        }
    }
}

/// A start tag at `i` of `s`, whose characters are those of `input`.
pub(crate) fn start_tag_at_exec<'a>(input: &'a str, s: &Vec<char>, i: usize) -> (r: Option<
    (BlockName<'a>, Vec<Attribute<'a>>, usize),
>)
    requires
        input@ == s@,
        i <= s.len(),
    ensures
        match start_tag_at(s@, i as int) {
            Some((name, attrs, e)) => r matches Some((n, a, end)) && n@ == name
                && attributes_view(a@) == attrs && end == e,
            None => r is None,
        },
{
    if i < s.len() && i + 1 < s.len() && s[i] == '<' && is_ascii_alpha_char(s[i + 1]) {
        let n = block_name_end_exec(s, i + 1);
        proof {
            lemma_block_name_end(s@, i + 1);
            lemma_attributes_at(s@, n as int);
        }
        let (attrs, e) = attributes_at_exec(input, s, n);
        let g = space_end_exec(s, e);
        if g < s.len() && s[g] == '>' {
            let name = block_name_of(input, s, i + 1, n);
            Some((name, attrs, g + 1))
        } else {
            None
        }
    } else {
        None
    }
}

/// An end tag at `i` of `s`, whose characters are those of `input`.
pub(crate) fn end_tag_at_exec<'a>(input: &'a str, s: &Vec<char>, i: usize) -> (r: Option<
    (BlockName<'a>, usize),
>)
    requires
        input@ == s@,
        i <= s.len(),
    ensures
        match end_tag_at(s@, i as int) {
            Some((name, e)) => r matches Some((n, end)) && n@ == name && end == e,
            None => r is None,
        },
{
    if i < s.len() && i + 1 < s.len() && s[i] == '<' && s[i + 1] == '/' {
        let w = space_end_exec(s, i + 2);
        if w < s.len() && is_ascii_alpha_char(s[w]) {
            let n = block_name_end_exec(s, w);
            proof {
                lemma_block_name_end(s@, w as int);
            }
            let g = space_end_exec(s, n);
            if g < s.len() && s[g] == '>' {
                let name = block_name_of(input, s, w, n);
                Some((name, g + 1))
            } else {
                None
            }
        } else {
            None
        }
    } else {
        None
    }
}

/// Recognises a start tag at the beginning of `input`: its name, its attributes in source
/// order, and the text that follows its `>`.
pub fn parse_start_tag<'a>(input: &'a str) -> (r: Option<
    (&'a str, (BlockName<'a>, Vec<Attribute<'a>>)),
>)
    ensures
        match start_tag_at(input@, 0) {
            Some((name, attrs, e)) => r matches Some((rest, (n, a))) && rest@ == input@.subrange(
                e,
                input@.len() as int,
            ) && n@ == name && attributes_view(a@) == attrs,
            None => r is None,
        },
{
    let s = chars_of(input);
    match start_tag_at_exec(input, &s, 0) {
        Some((name, attributes, e)) => {
            proof {
                lemma_start_tag_at(s@, 0);
            }
            Some((input.substring_char(e, s.len()), (name, attributes)))
        },
        None => None,
    }
}

/// The end tag of the block named `name` at `i` of `s`: the index after its `>`.
pub(crate) fn end_tag_for_exec(s: &Vec<char>, i: usize, name: &Vec<char>) -> (r: Option<usize>)
    requires
        i <= s.len(),
    ensures
        match end_tag_for(s@, i as int, name@) {
            Some(e) => r == Some(e as usize),
            None => r is None,
        },
{
    proof {
        lemma_end_tag_for(s@, i as int, name@);
    }
    if i < s.len() && i + 1 < s.len() && s[i] == '<' && s[i + 1] == '/' {
        let w = space_end_exec(s, i + 2);
        if name.len() > s.len() - w {
            return None;
        }
        let n = w + name.len();
        let mut k: usize = 0;
        while k < name.len()
            invariant
                w + name.len() == n <= s.len(),
                i + 1 < s.len() && s@[i as int] == '<' && s@[i + 1] == '/',
                w == end_tag_name_start(s@, i as int),
                k <= name.len(),
                forall|j: int| 0 <= j < k ==> lower_char(s@[w + j]) == name@[j],
            decreases name.len() - k,
        {
            if lower_ascii(s[w + k]) != name[k] {
                assert(lower(s@.subrange(w as int, n as int))[k as int] != name@[k as int]);
                return None;
            }
            k = k + 1;
        }
        assert(lower(s@.subrange(w as int, n as int)) =~= name@);
        let g = space_end_exec(s, n);
        if g < s.len() && s[g] == '>' {
            Some(g + 1)
        } else {
            None
        }
    } else {
        None
    }
}

/// Recognises the end tag of the block named `name` at the beginning of `input`: the text that
/// follows its `>`, and the name as it is written there.
pub fn parse_end_tag<'a>(name: &BlockName, input: &'a str) -> (r: Option<(&'a str, &'a str)>)
    ensures
        match end_tag_for(input@, 0, name@) {
            Some(e) => r matches Some((rest, written)) && rest@ == input@.subrange(
                e,
                input@.len() as int,
            ) && written@ == input@.subrange(
                end_tag_name_start(input@, 0),
                end_tag_name_start(input@, 0) + name@.len(),
            ),
            None => r is None,
        },
{
    let s = chars_of(input);
    let name_chars = chars_of(name.as_str());
    match end_tag_for_exec(&s, 0, &name_chars) {
        Some(e) => {
            proof {
                lemma_end_tag_for(s@, 0, name@);
            }
            let w = space_end_exec(&s, 2);
            let written = input.substring_char(w, w + name_chars.len());
            Some((input.substring_char(e, s.len()), written))
        },
        None => None,
    }
}

} // verus!
