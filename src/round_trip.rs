//! What is written out is read back as it was.
//!
//! The start tag and end tag that [`Block::to_string`](crate::Block::to_string) writes are
//! recognised by the tag grammar with the same name and attributes; and sections whose texts hold
//! no `<`, written one after the other, are parsed back into the same sections.
use vstd::prelude::*;

use crate::attribute::{is_valid_attribute_name, is_valid_attribute_value};
use crate::block::{render_attribute, render_attributes, render_block, BlockModel};
use crate::block_name::is_valid_block_name;
use crate::parser::{opening_index, is_raw_text, parse_model, raw_section, scan, ScanState};
use crate::section::{render_section, SectionModel};
use crate::tag::{
    lemma_find_char, attribute_at, attribute_name_end, attribute_value_at, attributes_at, block_name_end,
    end_tag_at, end_tag_for, find_char, space_end, start_tag_at, AttributeModel,
};
use crate::block_name::lemma_lower_keeps_block_name;
use crate::tag::{lemma_attribute_at, lemma_attribute_name_end, lemma_attribute_value_at, lemma_attributes_at, lemma_block_name_end, lemma_end_tag_at, lemma_end_tag_for, lemma_space_end, lemma_start_tag_at};
use crate::text::{
    is_ascii_alpha, is_ascii_upper, lemma_trim_end_idempotent, lower_char,
    is_attribute_name_forbidden, is_block_name_forbidden, is_tag_space, lemma_newline_prefix_len_bound,
    lemma_trim_end_len_bound, lower, newline_prefix_len, trim_end, trim_end_len, trim_section,
};

verus! {

/// An attribute as the tag grammar hands it out: a non-empty valid lower-case name that does not
/// start with whitespace, and a valid value if there is one.
pub open spec fn is_parsed_attribute(a: AttributeModel) -> bool {
    &&& a.0.len() > 0
    &&& !is_tag_space(a.0[0])
    &&& is_valid_attribute_name(a.0)
    &&& lower(a.0) == a.0
    &&& (a.1 matches Some(v) ==> is_valid_attribute_value(v))
}

/// How a start tag is written.
pub open spec fn render_start_tag(name: Seq<char>, attributes: Seq<AttributeModel>) -> Seq<char> {
    "<"@ + name + render_attributes(attributes) + ">"@
}

/// How an end tag is written.
pub open spec fn render_end_tag(name: Seq<char>) -> Seq<char> {
    "</"@ + name + ">"@
}

proof fn lemma_render_attributes_cons(a: AttributeModel, rest: Seq<AttributeModel>)
    ensures
        render_attributes(seq![a] + rest) == render_attribute(a) + render_attributes(rest),
    decreases rest.len(),
{
    if rest.len() == 0 {
        assert(seq![a] + rest =~= seq![a]);
        assert(seq![a].drop_last() =~= Seq::<AttributeModel>::empty());
        assert(render_attributes(Seq::<AttributeModel>::empty()) =~= Seq::<char>::empty());
        assert(seq![a].last() == a);
        assert(render_attributes(seq![a]) == render_attributes(seq![a].drop_last())
            + render_attribute(a));
        assert(render_attribute(a) + render_attributes(rest) =~= render_attribute(a));
        assert(render_attributes(seq![a]) =~= render_attribute(a));
    } else {
        lemma_render_attributes_cons(a, rest.drop_last());
        assert((seq![a] + rest).drop_last() =~= seq![a] + rest.drop_last());
        assert((seq![a] + rest).last() == rest.last());
        assert(render_attribute(a) + render_attributes(rest.drop_last()) + render_attribute(
            rest.last(),
        ) =~= render_attribute(a) + (render_attributes(rest.drop_last()) + render_attribute(
            rest.last(),
        )));
    }
}

proof fn lemma_block_name_end_run(s: Seq<char>, i: int, j: int)
    requires
        0 <= i <= j <= s.len(),
        forall|k: int| i <= k < j ==> !is_block_name_forbidden(#[trigger] s[k]),
        j < s.len() ==> is_block_name_forbidden(s[j]),
    ensures
        block_name_end(s, i) == j,
    decreases j - i,
{
    if i < j {
        lemma_block_name_end_run(s, i + 1, j);
    }
}

proof fn lemma_attribute_name_end_run(s: Seq<char>, i: int, j: int)
    requires
        0 <= i <= j <= s.len(),
        forall|k: int| i <= k < j ==> !is_attribute_name_forbidden(#[trigger] s[k]),
        j < s.len() ==> is_attribute_name_forbidden(s[j]),
    ensures
        attribute_name_end(s, i) == j,
    decreases j - i,
{
    if i < j {
        lemma_attribute_name_end_run(s, i + 1, j);
    }
}

proof fn lemma_find_char_run(s: Seq<char>, i: int, j: int, q: char)
    requires
        0 <= i <= j < s.len(),
        forall|k: int| i <= k < j ==> #[trigger] s[k] != q,
        s[j] == q,
    ensures
        find_char(s, i, q) == j,
    decreases j - i,
{
    if i < j {
        lemma_find_char_run(s, i + 1, j, q);
    }
}

proof fn lemma_reveal_literals()
    ensures
        "<"@ == seq!['<'],
        ">"@ == seq!['>'],
        "</"@ == seq!['<', '/'],
        " "@ == seq![' '],
        "='"@ == seq!['=', '\''],
        "'"@ == seq!['\''],
        "=\""@ == seq!['=', '"'],
        "\""@ == seq!['"'],
{
    reveal_strlit("<");
    reveal_strlit(">");
    reveal_strlit("</");
    reveal_strlit(" ");
    reveal_strlit("='");
    reveal_strlit("'");
    reveal_strlit("=\"");
    reveal_strlit("\"");
}

/// The attributes written at `p` of `s`, followed by `>`, are read back as they were.
proof fn lemma_attributes_round_trip(s: Seq<char>, p: int, attrs: Seq<AttributeModel>)
    requires
        0 <= p,
        p + render_attributes(attrs).len() < s.len(),
        s.subrange(p, p + render_attributes(attrs).len() + 1) == render_attributes(attrs) + ">"@,
        forall|k: int| 0 <= k < attrs.len() ==> is_parsed_attribute(#[trigger] attrs[k]),
    ensures
        attributes_at(s, p) == (attrs, p + render_attributes(attrs).len()),
    decreases attrs.len(),
{
    lemma_reveal_literals();
    let x = render_attributes(attrs);
    assert(s[p + x.len()] == (x + ">"@)[x.len() as int]);
    if attrs.len() == 0 {
        assert(x.len() == 0);
        assert(s[p] == '>');
        assert(space_end(s, p) == p);
        assert(attrs =~= seq![]);
    } else {
        let a = attrs[0];
        let rest = attrs.skip(1);
        assert(attrs =~= seq![a] + rest);
        lemma_render_attributes_cons(a, rest);
        let ra = render_attribute(a);
        let xr = render_attributes(rest);
        assert(x == ra + xr);
        let name = a.0;
        let nl: int = name.len() as int;
        let ral: int = ra.len() as int;
        let w: int = p + 1;
        let n: int = w + name.len();
        let e: int = p + ra.len();
        assert forall|k: int| 0 <= k < x.len() + 1 implies #[trigger] s[p + k] == (x + ">"@)[k] by {
            assert(s.subrange(p, p + x.len() + 1)[k] == s[p + k]);
        }
        assert(s[p] == ' ') by {
            assert(s[p + 0] == (x + ">"@)[0]);
        }
        assert forall|k: int| 0 <= k < name.len() implies s[w + k] == #[trigger] name[k] by {
            assert(s[p + (1 + k)] == (x + ">"@)[1 + k]);
        }
        assert(s[w] == name[0]);
        assert(space_end(s, w) == w);
        assert(space_end(s, p) == w);
        // The character after the name ends it.
        let after = s[n];
        assert(after == (x + ">"@)[1 + nl]);
        assert(is_attribute_name_forbidden(after)) by {
            if a.1 is Some {
                assert(after == '=');
            } else if rest.len() > 0 {
                lemma_render_attributes_cons(rest[0], rest.skip(1));
                assert(rest =~= seq![rest[0]] + rest.skip(1));
                assert(after == xr[0]);
                assert(after == ' ');
            } else {
                assert(after == '>');
            }
        }
        assert forall|k: int| w <= k < n implies !is_attribute_name_forbidden(#[trigger] s[k]) by {
            assert(s[w + (k - w)] == name[k - w]);
        }
        lemma_attribute_name_end_run(s, w, n);
        assert(s.subrange(w, n) =~= name);
        match a.1 {
            Some(v) => {
                let q = if v.contains('"') {
                    '\''
                } else {
                    '"'
                };
                assert(s[n] == '=');
                assert(space_end(s, n) == n);
                assert(s[n + 1] == q) by {
                    assert(s[p + (1 + name.len() + 1)] == (x + ">"@)[1 + nl + 1]);
                }
                assert(space_end(s, n + 1) == n + 1);
                assert forall|k: int| 0 <= k < v.len() implies s[n + 2 + k] == #[trigger] v[k] by {
                    assert(s[p + (1 + name.len() + 2 + k)] == (x + ">"@)[1 + nl + 2 + k]);
                }
                assert(s[n + 2 + v.len()] == q) by {
                    assert(s[p + (1 + name.len() + 2 + v.len())] == (x + ">"@)[1 + nl + 2 + v.len() as int]);
                }
                assert forall|k: int| n + 2 <= k < n + 2 + v.len() implies #[trigger] s[k] != q by {
                    assert(s[n + 2 + (k - n - 2)] == v[k - n - 2]);
                    if v[k - n - 2] == q {
                        assert(v.contains(q));
                    }
                }
                lemma_find_char_run(s, n + 2, n + 2 + v.len(), q);
                assert(s.subrange(n + 2, n + 2 + v.len()) =~= v);
                assert(attribute_value_at(s, n + 1) == Some((v, e)));
            },
            None => {
                if rest.len() > 0 {
                    let b = rest[0];
                    lemma_render_attributes_cons(b, rest.skip(1));
                    assert(rest =~= seq![b] + rest.skip(1));
                    assert(s[n] == ' ');
                    assert(s[n + 1] == b.0[0]) by {
                        assert(s[p + (ra.len() + 1)] == (x + ">"@)[ral + 1]);
                        assert(xr[1] == b.0[0]);
                    }
                    assert(is_parsed_attribute(b)) by {
                        assert(b == attrs[1]);
                    }
                    assert(!is_attribute_name_forbidden(b.0[0]));
                    assert(space_end(s, n + 1) == n + 1);
                    assert(space_end(s, n) == n + 1);
                } else {
                    assert(s[n] == '>');
                    assert(space_end(s, n) == n);
                }
            },
        }
        assert(attribute_at(s, w) == Some((a, e)));
        assert forall|k: int| 0 <= k < rest.len() implies is_parsed_attribute(#[trigger] rest[k]) by {
            assert(rest[k] == attrs[k + 1]);
        }
        assert(s.subrange(e, e + xr.len() + 1) =~= xr + ">"@) by {
            assert forall|k: int| 0 <= k < xr.len() + 1 implies s.subrange(
                e,
                e + xr.len() + 1,
            )[k] == (xr + ">"@)[k] by {
                assert(s[p + (ra.len() + k)] == (x + ">"@)[ral + k]);
            }
        }
        lemma_attributes_round_trip(s, e, rest);
        assert(seq![a] + rest == attrs);
    }
}

/// The start tag written for a block name and attributes as the grammar hands them out, found
/// at `p` of any text, is read back there with the same name and attributes, and ends where it
/// was written to end.
pub proof fn lemma_start_tag_round_trip(
    s: Seq<char>,
    p: int,
    name: Seq<char>,
    attributes: Seq<AttributeModel>,
)
    requires
        is_valid_block_name(name),
        lower(name) == name,
        forall|k: int| 0 <= k < attributes.len() ==> is_parsed_attribute(#[trigger] attributes[k]),
        0 <= p,
        p + render_start_tag(name, attributes).len() <= s.len(),
        s.subrange(p, p + render_start_tag(name, attributes).len()) == render_start_tag(
            name,
            attributes,
        ),
    ensures
        start_tag_at(s, p) == Some(
            (name, attributes, p + render_start_tag(name, attributes).len()),
        ),
{
    lemma_reveal_literals();
    let t = render_start_tag(name, attributes);
    let x = render_attributes(attributes);
    let n: int = p + 1 + name.len() as int;
    assert(t == seq!['<'] + name + x + seq!['>']);
    assert forall|k: int| 0 <= k < t.len() implies #[trigger] s[p + k] == t[k] by {
        assert(s.subrange(p, p + t.len())[k] == s[p + k]);
    }
    assert(s[p] == t[0]);
    assert forall|k: int| p + 1 <= k < n implies #[trigger] s[k] == name[k - p - 1] by {
        assert(s[p + (k - p)] == t[k - p]);
    }
    assert(s[p + 1] == name[0]);
    assert(is_block_name_forbidden(s[n])) by {
        assert(s[p + (1 + name.len())] == t[1 + name.len() as int]);
        if attributes.len() > 0 {
            lemma_render_attributes_cons(attributes[0], attributes.skip(1));
            assert(attributes =~= seq![attributes[0]] + attributes.skip(1));
            assert(t[1 + name.len() as int] == x[0]);
            assert(x[0] == ' ');
        } else {
            assert(t[1 + name.len() as int] == '>');
        }
    }
    assert forall|k: int| p + 1 <= k < n implies !is_block_name_forbidden(#[trigger] s[k]) by {
        assert(s[k] == name[k - p - 1]);
    }
    lemma_block_name_end_run(s, p + 1, n);
    assert(s.subrange(p + 1, n) =~= name);
    assert(s.subrange(n, n + x.len() + 1) =~= x + ">"@) by {
        assert forall|k: int| 0 <= k < x.len() + 1 implies s.subrange(n, n + x.len() + 1)[k] == (x
            + ">"@)[k] by {
            assert(s[p + (1 + name.len() + k)] == t[1 + name.len() as int + k]);
        }
    }
    lemma_attributes_round_trip(s, n, attributes);
    let g: int = n + x.len();
    assert(s[g] == '>') by {
        assert(s[p + (t.len() - 1)] == t[t.len() as int - 1]);
    }
    assert(space_end(s, g) == g);
}

/// The end tag written for a block name, found at `p` of any text, is read back there with the
/// same name, and ends where it was written to end.
pub proof fn lemma_end_tag_round_trip(s: Seq<char>, p: int, name: Seq<char>)
    requires
        is_valid_block_name(name),
        lower(name) == name,
        0 <= p,
        p + render_end_tag(name).len() <= s.len(),
        s.subrange(p, p + render_end_tag(name).len()) == render_end_tag(name),
    ensures
        end_tag_at(s, p) == Some((name, p + render_end_tag(name).len())),
        end_tag_for(s, p, name) == Some(p + render_end_tag(name).len()),
{
    lemma_reveal_literals();
    let t = render_end_tag(name);
    let n: int = p + 2 + name.len() as int;
    assert(t == seq!['<', '/'] + name + seq!['>']);
    assert forall|k: int| 0 <= k < t.len() implies #[trigger] s[p + k] == t[k] by {
        assert(s.subrange(p, p + t.len())[k] == s[p + k]);
    }
    assert(s[p] == '<' && s[p + 1] == '/') by {
        assert(s[p + 0] == t[0]);
    }
    assert forall|k: int| p + 2 <= k < n implies #[trigger] s[k] == name[k - p - 2] by {
        assert(s[p + (k - p)] == t[k - p]);
    }
    assert(s[p + 2] == name[0]);
    assert(space_end(s, p + 2) == p + 2);
    assert(s[n] == '>') by {
        assert(s[p + (2 + name.len())] == t[2 + name.len() as int]);
    }
    assert forall|k: int| p + 2 <= k < n implies !is_block_name_forbidden(#[trigger] s[k]) by {
        assert(s[k] == name[k - p - 2]);
    }
    lemma_block_name_end_run(s, p + 2, n);
    assert(s.subrange(p + 2, n) =~= name);
    assert(space_end(s, n) == n);
}

/// Sections written one after the other.
pub open spec fn render_sections(sections: Seq<SectionModel>) -> Seq<char>
    decreases sections.len(),
{
    if sections.len() == 0 {
        seq![]
    } else {
        render_section(sections[0]) + render_sections(sections.skip(1))
    }
}

/// Text without a `<`.
pub open spec fn has_no_tag_open(t: Seq<char>) -> bool {
    forall|k: int| 0 <= k < t.len() ==> t[k] != '<'
}

/// A section as parsing hands it out: raw text that is non-empty and trimmed, or a block with a
/// valid lower-case name, attributes as the grammar gives them, and trimmed content.
pub open spec fn is_parsed_section(x: SectionModel) -> bool {
    match x {
        SectionModel::Raw(t) => t.len() > 0 && trim_section(t) == t,
        SectionModel::Block(b) => {
            &&& is_valid_block_name(b.name)
            &&& lower(b.name) == b.name
            &&& forall|k: int|
                0 <= k < b.attributes.len() ==> is_parsed_attribute(#[trigger] b.attributes[k])
            &&& trim_section(b.content) == b.content
        },
    }
}

/// A section whose raw text or block content holds no `<`.
pub open spec fn has_no_inner_tag_open(x: SectionModel) -> bool {
    match x {
        SectionModel::Raw(t) => has_no_tag_open(t),
        SectionModel::Block(b) => has_no_tag_open(b.content),
    }
}

/// Sections as parsing hands them out, no two raw sections in a row.
pub open spec fn are_parsed_sections(sections: Seq<SectionModel>) -> bool {
    &&& forall|k: int| 0 <= k < sections.len() ==> is_parsed_section(#[trigger] sections[k])
    &&& forall|k: int|
        0 <= k < sections.len() - 1 ==> !((#[trigger] sections[k] is Raw) && sections[k
            + 1] is Raw)
}

/// A section as parsing hands it out, whose text holds no `<`.
pub open spec fn is_plain_section(x: SectionModel) -> bool {
    is_parsed_section(x) && has_no_inner_tag_open(x)
}

/// Plain sections, no two raw sections in a row.
pub open spec fn are_plain_sections(sections: Seq<SectionModel>) -> bool {
    &&& forall|k: int| 0 <= k < sections.len() ==> is_plain_section(#[trigger] sections[k])
    &&& forall|k: int|
        0 <= k < sections.len() - 1 ==> !((#[trigger] sections[k] is Raw) && sections[k
            + 1] is Raw)
}

/// How a block's end-trimmed content is written between its tags.
pub open spec fn render_content(c: Seq<char>) -> Seq<char> {
    if c.len() > 0 {
        "\n"@ + c + "\n"@
    } else {
        seq![]
    }
}

proof fn lemma_render_block_parts(b: BlockModel)
    ensures
        render_block(b) == render_start_tag(b.name, b.attributes) + render_content(
            trim_end(b.content),
        ) + render_end_tag(b.name),
{
    assert(render_block(b) =~= render_start_tag(b.name, b.attributes) + render_content(
        trim_end(b.content),
    ) + render_end_tag(b.name));
}

proof fn lemma_trim_section_fixed(c: Seq<char>)
    requires
        trim_section(c) == c,
    ensures
        trim_end(c) == c,
        c.len() > 0 ==> c[0] != '\n' && c[0] != '\r',
        newline_prefix_len(c) == 0,
{
    let k = newline_prefix_len(c);
    lemma_newline_prefix_len_bound(c);
    lemma_trim_end_len_bound(c.skip(k as int));
    assert(k == 0);
    assert(c.skip(0) =~= c);
    if c.len() > 0 && (c[0] == '\n' || c[0] == '\r') {
        assert(newline_prefix_len(c) >= 1);
    }
}

proof fn lemma_trim_rendered_content(c: Seq<char>)
    requires
        trim_section(c) == c,
    ensures
        trim_section(render_content(c)) == c,
{
    reveal_strlit("\n");
    lemma_trim_section_fixed(c);
    if c.len() == 0 {
        let r = render_content(c);
        assert(r.len() == 0);
        assert(newline_prefix_len(r) == 0);
        assert(r.skip(0) =~= r);
        assert(trim_end_len(r) == 0);
        assert(trim_section(r) =~= c);
    } else {
        let r = render_content(c);
        let t = c + seq!['\n'];
        assert(r =~= seq!['\n'] + t);
        assert(r.skip(1) =~= t);
        assert(t[0] == c[0]);
        assert(newline_prefix_len(t) == 0);
        assert(newline_prefix_len(r) == 1);
        assert(t.drop_last() =~= c);
        assert(trim_end_len(t) == trim_end_len(c));
        lemma_trim_end_len_bound(c);
        assert(trim_end(t) =~= trim_end(c));
    }
}

proof fn lemma_subrange_split(s: Seq<char>, p: int, q: int, a: Seq<char>, b: Seq<char>)
    requires
        0 <= p <= q <= s.len(),
        s.subrange(p, q) == a + b,
    ensures
        s.subrange(p, p + a.len()) == a,
        s.subrange(p + a.len(), q) == b,
        q == p + a.len() + b.len(),
{
    assert(s.subrange(p, q).len() == q - p);
    assert((a + b).len() == a.len() + b.len());
    assert forall|k: int| 0 <= k < a.len() implies s.subrange(p, p + a.len())[k] == a[k] by {
        assert(s.subrange(p, q)[k] == (a + b)[k]);
    }
    assert forall|k: int| 0 <= k < b.len() implies s.subrange(p + a.len(), q)[k] == b[k] by {
        let j = a.len() + k;
        assert(s.subrange(p, q)[j] == (a + b)[j]);
        assert(s.subrange(p, q)[j] == s[p + j]);
        assert((a + b)[j] == b[k]);
        assert(s.subrange(p + a.len(), q)[k] == s[p + a.len() + k]);
    }
    assert(s.subrange(p, p + a.len()) =~= a);
    assert(s.subrange(p + a.len(), q) =~= b);
}

/// From just after a written start tag, the scanner reads the written content and end tag back
/// into the block.
proof fn lemma_scan_block(s: Seq<char>, e: int, b: BlockModel, done: Seq<SectionModel>)
    requires
        is_plain_section(SectionModel::Block(b)),
        0 <= e,
        e + render_content(b.content).len() + render_end_tag(b.name).len() <= s.len(),
        s.subrange(e, e + render_content(b.content).len() + render_end_tag(b.name).len())
            == render_content(b.content) + render_end_tag(b.name),
    ensures
        scan(
            s,
            e,
            e,
            ScanState::Open {
                name: b.name,
                attributes: b.attributes,
                raw_text: is_raw_text(b.name, b.attributes),
                depth: 0,
            },
            done,
        ) == scan(
            s,
            e + render_content(b.content).len() + render_end_tag(b.name).len(),
            e + render_content(b.content).len() + render_end_tag(b.name).len(),
            ScanState::Root,
            done.push(SectionModel::Block(b)),
        ),
{
    reveal_strlit("\n");
    reveal_strlit("</");
    let rc = render_content(b.content);
    let et = render_end_tag(b.name);
    let i = e + rc.len();
    let f = i + et.len();
    lemma_subrange_split(s, e, f, rc, et);
    assert(has_no_tag_open(rc)) by {
        if b.content.len() > 0 {
            assert(rc =~= seq!['\n'] + b.content + seq!['\n']);
            assert forall|k: int| 0 <= k < rc.len() implies rc[k] != '<' by {
                if 1 <= k < rc.len() - 1 {
                    assert(rc[k] == b.content[k - 1]);
                }
            }
        }
    }
    assert forall|k: int| e <= k < i implies #[trigger] s[k] != '<' by {
        assert(s.subrange(e, i)[k - e] == rc[k - e]);
    }
    assert(s[i] == '<') by {
        assert(s.subrange(i, f)[0] == et[0]);
        assert(et =~= seq!['<', '/'] + b.name + ">"@);
    }
    lemma_find_char_run(s, e, i, '<');
    lemma_end_tag_round_trip(s, i, b.name);
    lemma_trim_rendered_content(b.content);
    let block = BlockModel { name: b.name, attributes: b.attributes, content: b.content };
    assert(block == b);
}

/// From the root, text without `<` followed by a written block is read back as the raw section
/// that the text gives and the block.
proof fn lemma_scan_text_then_block(
    s: Seq<char>,
    p: int,
    t: Seq<char>,
    b: BlockModel,
    done: Seq<SectionModel>,
)
    requires
        is_plain_section(SectionModel::Block(b)),
        has_no_tag_open(t),
        0 <= p,
        p + t.len() + render_block(b).len() <= s.len(),
        s.subrange(p, p + t.len() + render_block(b).len()) == t + render_block(b),
    ensures
        scan(s, p, p, ScanState::Root, done) == scan(
            s,
            p + t.len() + render_block(b).len(),
            p + t.len() + render_block(b).len(),
            ScanState::Root,
            (done + raw_section(t)).push(SectionModel::Block(b)),
        ),
{
    let st = render_start_tag(b.name, b.attributes);
    let rc = render_content(b.content);
    let et = render_end_tag(b.name);
    lemma_trim_section_fixed(b.content);
    lemma_render_block_parts(b);
    let i = p + t.len();
    let e = i + st.len();
    let f = e + rc.len() + et.len();
    assert(t + render_block(b) =~= t + (st + (rc + et)));
    lemma_subrange_split(s, p, f, t, st + (rc + et));
    lemma_subrange_split(s, i, f, st, rc + et);
    lemma_start_tag_round_trip(s, i, b.name, b.attributes);
    reveal_strlit("<");
    assert(s[i] == '<') by {
        assert(s.subrange(i, e)[0] == st[0]);
    }
    assert(s[i + 1] == b.name[0]) by {
        assert(s.subrange(i, e)[1] == st[1]);
    }
    assert forall|k: int| p <= k < i implies #[trigger] s[k] != '<' by {
        assert(s.subrange(p, i)[k - p] == t[k - p]);
    }
    lemma_find_char_run(s, p, i, '<');
    assert(end_tag_at(s, i) is None);
    lemma_scan_block(s, e, b, done + raw_section(t));
}

proof fn lemma_raw_section_of_empty()
    ensures
        raw_section(Seq::<char>::empty()) == Seq::<SectionModel>::empty(),
{
    assert(newline_prefix_len(Seq::<char>::empty()) == 0);
    assert(Seq::<char>::empty().skip(0) =~= Seq::<char>::empty());
    assert(raw_section(Seq::<char>::empty()) =~= seq![]);
}

proof fn lemma_plain_tail(sections: Seq<SectionModel>)
    requires
        are_plain_sections(sections),
        sections.len() > 0,
    ensures
        are_plain_sections(sections.skip(1)),
{
    let rest = sections.skip(1);
    assert forall|k: int| 0 <= k < rest.len() implies is_plain_section(#[trigger] rest[k]) by {
        assert(rest[k] == sections[k + 1]);
    }
    assert forall|k: int| 0 <= k < rest.len() - 1 implies !((#[trigger] rest[k] is Raw)
        && rest[k + 1] is Raw) by {
        assert(rest[k] == sections[k + 1]);
        assert(rest[k + 1] == sections[k + 2]);
    }
}

/// Scanning written plain sections from the root gives them back.
#[verifier::rlimit(30)]
proof fn lemma_scan_rendered(
    s: Seq<char>,
    p: int,
    sections: Seq<SectionModel>,
    done: Seq<SectionModel>,
)
    requires
        are_plain_sections(sections),
        0 <= p <= s.len(),
        s.subrange(p, s.len() as int) == render_sections(sections),
    ensures
        scan(s, p, p, ScanState::Root, done) == Ok::<
            Seq<SectionModel>,
            crate::parser::ParseErrorModel,
        >(done + sections),
    decreases sections.len(),
{
    lemma_find_char(s, p, '<');
    lemma_raw_section_of_empty();
    if sections.len() == 0 {
        assert(s.subrange(p, s.len() as int) =~= Seq::<char>::empty());
        assert(done + sections =~= done + seq![]);
    } else {
        let rest = sections.skip(1);
        assert(is_plain_section(sections[0]));
        lemma_plain_tail(sections);
        match sections[0] {
            SectionModel::Block(b) => {
                let f = p + render_block(b).len();
                lemma_subrange_split(
                    s,
                    p,
                    s.len() as int,
                    render_block(b),
                    render_sections(rest),
                );
                assert(Seq::<char>::empty() + render_block(b) =~= render_block(b));
                lemma_scan_text_then_block(s, p, Seq::<char>::empty(), b, done);
                assert(done + Seq::<SectionModel>::empty() =~= done);
                lemma_scan_rendered(s, f, rest, done.push(SectionModel::Block(b)));
                assert(done.push(SectionModel::Block(b)) + rest =~= done + sections);
            },
            SectionModel::Raw(t) => {
                lemma_subrange_split(s, p, s.len() as int, t, render_sections(rest));
                let i = p + t.len();
                assert(raw_section(t) == seq![SectionModel::Raw(t)]);
                if rest.len() == 0 {
                    assert forall|k: int| p <= k < i implies #[trigger] s[k] != '<' by {
                        assert(s.subrange(p, i)[k - p] == t[k - p]);
                    }
                    assert(find_char(s, p, '<') == s.len());
                    assert(s.subrange(p, s.len() as int) =~= t);
                    assert(done + sections =~= done + seq![SectionModel::Raw(t)]);
                } else {
                    assert(!(sections[0] is Raw && sections[1] is Raw));
                    assert(rest[0] == sections[1]);
                    let b = rest[0]->Block_0;
                    assert(rest[0] == SectionModel::Block(b));
                    let rest2 = rest.skip(1);
                    lemma_plain_tail(rest);
                    assert(is_plain_section(rest[0]));
                    let f = i + render_block(b).len();
                    lemma_subrange_split(
                        s,
                        i,
                        s.len() as int,
                        render_block(b),
                        render_sections(rest2),
                    );
                    assert(s.subrange(p, f) =~= t + render_block(b)) by {
                        assert forall|k: int| 0 <= k < f - p implies s.subrange(p, f)[k] == (t
                            + render_block(b))[k] by {
                            if k < t.len() {
                                assert(s.subrange(p, i)[k] == s[p + k]);
                            } else {
                                assert(s.subrange(i, f)[k - t.len()] == s[p + k]);
                            }
                        }
                    }
                    lemma_scan_text_then_block(s, p, t, b, done);
                    let d1 = (done + raw_section(t)).push(SectionModel::Block(b));
                    lemma_scan_rendered(s, f, rest2, d1);
                    assert(d1 + rest2 =~= done + sections);
                }
            },
        }
    }
}

/// Sections as parsing hands them out whose texts hold no `<`, with no two raw sections in a
/// row, are parsed back from their written form unchanged.
pub proof fn lemma_render_then_parse(sections: Seq<SectionModel>)
    requires
        are_plain_sections(sections),
    ensures
        parse_model(render_sections(sections)) == Ok::<Seq<SectionModel>, crate::parser::ParseErrorModel>(sections),
{
    let s = render_sections(sections);
    assert(s.subrange(0, s.len() as int) =~= s);
    lemma_scan_rendered(s, 0, sections, seq![]);
    assert(seq![] + sections =~= sections);
}

proof fn lemma_lower_char_classes(c: char)
    ensures
        is_tag_space(lower_char(c)) == is_tag_space(c),
        is_attribute_name_forbidden(lower_char(c)) == is_attribute_name_forbidden(c),
{
    if is_ascii_upper(c) {
        let u = c as u32;
        assert(65 <= u <= 90);
        let l = (((u + 32) as u8) as char);
        assert(97 <= l as u32 <= 122);
    }
}

proof fn lemma_attribute_at_parsed(s: Seq<char>, w: int)
    requires
        0 <= w,
        w < s.len() ==> !is_tag_space(s[w]),
    ensures
        attribute_at(s, w) matches Some((a, _)) ==> is_parsed_attribute(a),
{
    lemma_attribute_name_end(s, w);
    let n = attribute_name_end(s, w);
    if n > w {
        let raw = s.subrange(w, n);
        let name = lower(raw);
        assert forall|k: int| 0 <= k < name.len() implies !is_attribute_name_forbidden(
            #[trigger] name[k],
        ) by {
            lemma_lower_char_classes(raw[k]);
            assert(raw[k] == s[w + k]);
        }
        lemma_lower_char_classes(raw[0]);
        assert(lower(name) =~= name) by {
            assert forall|k: int| 0 <= k < name.len() implies lower(name)[k] == name[k] by {
                if is_ascii_upper(raw[k]) {
                    let u = raw[k] as u32;
                    assert(97 <= (((u + 32) as u8) as char) as u32 <= 122);
                }
            }
        }
        let eq = space_end(s, n);
        if eq < s.len() && s[eq] == '=' {
            lemma_attribute_value_at(s, space_end(s, eq + 1));
        }
    }
}

proof fn lemma_attributes_at_parsed(s: Seq<char>, i: int)
    requires
        0 <= i <= s.len(),
    ensures
        forall|k: int|
            0 <= k < attributes_at(s, i).0.len() ==> is_parsed_attribute(
                #[trigger] attributes_at(s, i).0[k],
            ),
    decreases s.len() - i,
{
    let w = space_end(s, i);
    lemma_space_end(s, i);
    if w > i {
        lemma_attribute_at(s, w);
        lemma_attribute_at_parsed(s, w);
        if let Some((a, e)) = attribute_at(s, w) {
            lemma_attributes_at_parsed(s, e);
            let rest = attributes_at(s, e).0;
            assert forall|k: int| 0 <= k < (seq![a] + rest).len() implies is_parsed_attribute(
                #[trigger] (seq![a] + rest)[k],
            ) by {
                if k > 0 {
                    assert((seq![a] + rest)[k] == rest[k - 1]);
                }
            }
        }
    }
}

proof fn lemma_start_tag_parsed(s: Seq<char>, i: int)
    ensures
        start_tag_at(s, i) matches Some((name, attrs, _)) ==> {
            &&& is_valid_block_name(name)
            &&& lower(name) == name
            &&& forall|k: int| 0 <= k < attrs.len() ==> is_parsed_attribute(#[trigger] attrs[k])
        },
{
    if 0 <= i && i + 1 < s.len() && s[i] == '<' && is_ascii_alpha(s[i + 1]) {
        lemma_block_name_end(s, i + 1);
        let n = block_name_end(s, i + 1);
        assert(!is_block_name_forbidden(s[i + 1]));
        assert(n == block_name_end(s, i + 2));
        lemma_block_name_end(s, i + 2);
        let raw = s.subrange(i + 1, n);
        assert(is_valid_block_name(raw)) by {
            assert(raw[0] == s[i + 1]);
            assert forall|k: int| 0 <= k < raw.len() implies !is_block_name_forbidden(
                #[trigger] raw[k],
            ) by {
                assert(raw[k] == s[i + 1 + k]);
            }
        }
        lemma_lower_keeps_block_name(raw);
        lemma_attributes_at(s, n);
        lemma_attributes_at_parsed(s, n);
    }
}

proof fn lemma_newline_prefix_skip(x: Seq<char>)
    ensures
        newline_prefix_len(x.skip(newline_prefix_len(x) as int)) == 0,
    decreases x.len(),
{
    lemma_newline_prefix_len_bound(x);
    if x.len() > 0 && (x[0] == '\n' || x[0] == '\r') {
        lemma_newline_prefix_skip(x.skip(1));
        lemma_newline_prefix_len_bound(x.skip(1));
        assert(x.skip(newline_prefix_len(x) as int) =~= x.skip(1).skip(
            newline_prefix_len(x.skip(1)) as int,
        ));
    } else {
        assert(x.skip(0) =~= x);
    }
}

/// Trimming text a second time changes nothing.
pub proof fn lemma_trim_section_idempotent(x: Seq<char>)
    ensures
        trim_section(trim_section(x)) == trim_section(x),
{
    lemma_newline_prefix_len_bound(x);
    let y = x.skip(newline_prefix_len(x) as int);
    lemma_newline_prefix_skip(x);
    let z = trim_end(y);
    lemma_trim_end_len_bound(y);
    lemma_trim_end_idempotent(y);
    assert(newline_prefix_len(z) == 0) by {
        if z.len() > 0 {
            assert(z[0] == y[0]);
        }
    }
    assert(z.skip(0) =~= z);
}

proof fn lemma_append_raw(done: Seq<SectionModel>, seg: Seq<char>)
    requires
        are_parsed_sections(done),
        done.len() == 0 || done.last() is Block,
    ensures
        are_parsed_sections(done + raw_section(seg)),
{
    lemma_trim_section_idempotent(seg);
    let r = done + raw_section(seg);
    assert forall|k: int| 0 <= k < r.len() implies is_parsed_section(#[trigger] r[k]) by {
        if k >= done.len() {
            assert(r[k] == raw_section(seg)[k - done.len()]);
        } else {
            assert(r[k] == done[k]);
        }
    }
    assert forall|k: int| 0 <= k < r.len() - 1 implies !((#[trigger] r[k] is Raw) && r[k
        + 1] is Raw) by {
        if k + 1 < done.len() {
            assert(r[k] == done[k] && r[k + 1] == done[k + 1]);
        } else if k + 1 == done.len() {
            assert(r[k] == done.last());
        }
    }
}

proof fn lemma_push_block(done: Seq<SectionModel>, b: BlockModel)
    requires
        are_parsed_sections(done),
        is_parsed_section(SectionModel::Block(b)),
    ensures
        are_parsed_sections(done.push(SectionModel::Block(b))),
{
    let r = done.push(SectionModel::Block(b));
    assert forall|k: int| 0 <= k < r.len() implies is_parsed_section(#[trigger] r[k]) by {
        if k < done.len() {
            assert(r[k] == done[k]);
        }
    }
    assert forall|k: int| 0 <= k < r.len() - 1 implies !((#[trigger] r[k] is Raw) && r[k
        + 1] is Raw) by {
        if k + 1 < done.len() {
            assert(r[k] == done[k] && r[k + 1] == done[k + 1]);
        }
    }
}

/// What the scanner hands out from a well-formed state is well-formed.
proof fn lemma_scan_parsed(
    s: Seq<char>,
    pos: int,
    offset: int,
    state: ScanState,
    done: Seq<SectionModel>,
)
    requires
        0 <= pos <= s.len(),
        are_parsed_sections(done),
        state is Root ==> done.len() == 0 || done.last() is Block,
        state matches ScanState::Open { name, attributes, .. } ==> {
            &&& is_valid_block_name(name)
            &&& lower(name) == name
            &&& forall|k: int|
                0 <= k < attributes.len() ==> is_parsed_attribute(#[trigger] attributes[k])
        },
    ensures
        scan(s, pos, offset, state, done) matches Ok(r) ==> are_parsed_sections(r),
    decreases s.len() - pos,
{
    let i = find_char(s, pos, '<');
    lemma_find_char(s, pos, '<');
    lemma_end_tag_at(s, i);
    lemma_start_tag_at(s, i);
    if let ScanState::Open { name, .. } = state {
        lemma_end_tag_for(s, i, name);
    }
    match state {
        ScanState::Root => {
            if i >= s.len() {
                lemma_append_raw(done, s.subrange(offset, s.len() as int));
            } else if end_tag_at(s, i) is Some {
            } else if let Some((name, attributes, e)) = start_tag_at(s, i) {
                lemma_start_tag_parsed(s, i);
                lemma_append_raw(done, s.subrange(offset, i));
                lemma_scan_parsed(
                    s,
                    e,
                    e,
                    ScanState::Open {
                        name,
                        attributes,
                        raw_text: is_raw_text(name, attributes),
                        depth: 0,
                    },
                    done + raw_section(s.subrange(offset, i)),
                );
            } else {
                lemma_scan_parsed(s, i + 1, offset, ScanState::Root, done);
            }
        },
        ScanState::Open { name, attributes, raw_text, depth } => {
            if i >= s.len() {
            } else if end_tag_for(s, i, name) is Some {
                let e = end_tag_for(s, i, name)->Some_0;
                if raw_text || depth == 0 {
                    let block = BlockModel {
                        name,
                        attributes,
                        content: trim_section(s.subrange(offset, i)),
                    };
                    lemma_trim_section_idempotent(s.subrange(offset, i));
                    lemma_push_block(done, block);
                    lemma_scan_parsed(
                        s,
                        e,
                        e,
                        ScanState::Root,
                        done.push(SectionModel::Block(block)),
                    );
                } else {
                    lemma_scan_parsed(
                        s,
                        e,
                        offset,
                        ScanState::Open { name, attributes, raw_text, depth: (depth - 1) as nat },
                        done,
                    );
                }
            } else if !raw_text && (start_tag_at(s, i) matches Some((n, _, _)) && n == name) {
                let e = opening_index(start_tag_at(s, i));
                lemma_scan_parsed(
                    s,
                    e,
                    offset,
                    ScanState::Open { name, attributes, raw_text, depth: depth + 1 },
                    done,
                );
            } else {
                lemma_scan_parsed(s, i + 1, offset, state, done);
            }
        },
    }
}

/// Parsing hands out well-formed sections, with no two raw sections in a row.
pub proof fn lemma_parse_is_well_formed(s: Seq<char>)
    ensures
        parse_model(s) matches Ok(sections) ==> are_parsed_sections(sections),
{
    lemma_scan_parsed(s, 0, 0, ScanState::Root, seq![]);
}

/// Writing out the sections of a component whose raw texts and block contents hold no `<`, and
/// parsing that text, gives the same sections as parsing the component.
pub proof fn lemma_round_trip_without_inner_tags(s: Seq<char>)
    requires
        parse_model(s) is Ok,
        forall|k: int|
            0 <= k < parse_model(s)->Ok_0.len() ==> has_no_inner_tag_open(
                #[trigger] parse_model(s)->Ok_0[k],
            ),
    ensures
        parse_model(render_sections(parse_model(s)->Ok_0)) == parse_model(s),
{
    lemma_parse_is_well_formed(s);
    let sections = parse_model(s)->Ok_0;
    assert(are_plain_sections(sections));
    lemma_render_then_parse(sections);
}

} // verus!
