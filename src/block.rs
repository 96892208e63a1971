//! Blocks, and how a block is written out.
use std::borrow::Cow;
use vstd::prelude::*;

use crate::attribute::Attribute;
use crate::block_name::BlockName;
use crate::tag::{attribute_view, attributes_view, AttributeModel};
use crate::text::{chars_of, contains_char, push_str, same_text, trim_end, trim_end_index};

verus! {

/// A block as plain values.
pub struct BlockModel {
    pub name: Seq<char>,
    pub attributes: Seq<AttributeModel>,
    pub content: Seq<char>,
}

/// A block: a name, attributes in the order they were written, and the text between the
/// start tag and the end tag.
#[derive(Debug, Hash)]
pub struct Block<'a> {
    pub name: BlockName<'a>,
    pub attributes: Vec<Attribute<'a>>,
    pub content: Cow<'a, str>,
}

impl<'a> View for Block<'a> {
    type V = BlockModel;

    open spec fn view(&self) -> BlockModel {
        BlockModel {
            name: self.name@,
            attributes: attributes_view(self.attributes@),
            content: self.content@,
        }
    }
}

/// How an attribute is written in a start tag: a space, the name, and the value if any,
/// in single quotes when it holds a double quote and in double quotes otherwise.
pub open spec fn render_attribute(a: AttributeModel) -> Seq<char> {
    match a.1 {
        Some(v) => if v.contains('"') {
            " "@ + a.0 + "='"@ + v + "'"@
        } else {
            " "@ + a.0 + "=\""@ + v + "\""@
        },
        None => " "@ + a.0,
    }
}

/// The attributes written one after the other.
pub open spec fn render_attributes(attrs: Seq<AttributeModel>) -> Seq<char>
    decreases attrs.len(),
{
    if attrs.len() == 0 {
        seq![]
    } else {
        render_attributes(attrs.drop_last()) + render_attribute(attrs.last())
    }
}

/// How a block is written: `<name attributes>`, then the end-trimmed content between two
/// line feeds unless it is empty, then `</name>`.
pub open spec fn render_block(b: BlockModel) -> Seq<char> {
    let content = trim_end(b.content);
    "<"@ + b.name + render_attributes(b.attributes) + ">"@ + (if content.len() > 0 {
        "\n"@ + content + "\n"@
    } else {
        seq![]
    }) + "</"@ + b.name + ">"@
}

/// Appends how `a` is written in a start tag.
fn push_attribute(out: &mut String, a: &Attribute)
    ensures
        final(out)@ == old(out)@ + render_attribute(attribute_view(*a)),
{
    push_str(out, " ");
    push_str(out, a.0.as_str());
    match &a.1 {
        Some(value) => {
            let text = value.as_str();
            let v = chars_of(text);
            if contains_char(&v, '"') {
                push_str(out, "='");
                push_str(out, text);
                push_str(out, "'");
            } else {
                push_str(out, "=\"");
                push_str(out, text);
                push_str(out, "\"");
            }
        },
        None => {},
    }
}

/// Whether two attributes have the same name and the same value.
fn same_attribute(a: &Attribute, b: &Attribute) -> (r: bool)
    ensures
        r == (attribute_view(*a) == attribute_view(*b)),
{
    if !same_text(a.0.as_str(), b.0.as_str()) {
        return false;
    }
    match (&a.1, &b.1) {
        (Some(x), Some(y)) => same_text(x.as_str(), y.as_str()),
        (None, None) => true,
        _ => false,
    }
}

impl<'a> Block<'a> {
    /// The block written out as text.
    pub fn to_string(&self) -> (r: String)
        ensures
            r@ == render_block(self@),
    {
        let mut out = String::new();
        push_str(&mut out, "<");
        push_str(&mut out, self.name.as_str());
        let mut i: usize = 0;
        while i < self.attributes.len()
            invariant
                i <= self.attributes.len(),
                out@ == "<"@ + self.name@ + render_attributes(
                    attributes_view(self.attributes@).subrange(0, i as int),
                ),
            decreases self.attributes.len() - i,
        {
            push_attribute(&mut out, &self.attributes[i]);
            proof {
                let all = attributes_view(self.attributes@);
                assert(all.subrange(0, i + 1).drop_last() =~= all.subrange(0, i as int));
            }
            i = i + 1;
        }
        assert(attributes_view(self.attributes@).subrange(0, i as int) =~= attributes_view(
            self.attributes@,
        ));
        push_str(&mut out, ">");
        let (content, v) = match &self.content {
            Cow::Borrowed(b) => (*b, chars_of(b)),
            Cow::Owned(o) => (o.as_str(), chars_of(o.as_str())),
        };
        let n = trim_end_index(&v, 0, v.len());
        assert(v@.subrange(0, v@.len() as int) =~= v@);
        if n > 0 {
            let trimmed = content.substring_char(0, n);
            push_str(&mut out, "\n");
            push_str(&mut out, trimmed);
            push_str(&mut out, "\n");
        }
        push_str(&mut out, "</");
        push_str(&mut out, self.name.as_str());
        push_str(&mut out, ">");
        assert(out@ =~= render_block(self@));
        out
    }
}

/// A copy of an attribute.
fn clone_attribute<'a>(a: &Attribute<'a>) -> (r: Attribute<'a>)
    ensures
        attribute_view(r) == attribute_view(*a),
{
    let value = match &a.1 {
        Some(v) => Some(v.clone()),
        None => None,
    };
    (a.0.clone(), value)
}

impl<'a> Clone for Block<'a> {
    fn clone(&self) -> (r: Self)
        ensures
            r@ == self@,
    {
        let mut attributes: Vec<Attribute<'a>> = Vec::new();
        let mut i: usize = 0;
        while i < self.attributes.len()
            invariant
                i <= self.attributes.len(),
                attributes_view(attributes@) == attributes_view(self.attributes@).subrange(
                    0,
                    i as int,
                ),
            decreases self.attributes.len() - i,
        {
            let a = clone_attribute(&self.attributes[i]);
            let ghost before = attributes@;
            attributes.push(a);
            assert(attributes_view(attributes@) =~= attributes_view(before).push(
                attribute_view(a),
            ));
            assert(attributes_view(self.attributes@).subrange(0, i + 1) =~= attributes_view(
                self.attributes@,
            ).subrange(0, i as int).push(attribute_view(self.attributes@[i as int])));
            i = i + 1;
        }
        assert(attributes_view(self.attributes@).subrange(0, i as int) =~= attributes_view(
            self.attributes@,
        ));
        let content = match &self.content {
            Cow::Borrowed(b) => Cow::Borrowed(*b),
            Cow::Owned(o) => Cow::Owned(o.clone()),
        };
        Block { name: self.name.clone(), attributes, content }
    }
}

impl<'a> PartialEq for Block<'a> {
    fn eq(&self, other: &Self) -> bool {
        if !(self.name == other.name) {
            return false;
        }
        if self.attributes.len() != other.attributes.len() {
            assert(attributes_view(self.attributes@).len() != attributes_view(
                other.attributes@,
            ).len());
            return false;
        }
        let mut i: usize = 0;
        while i < self.attributes.len()
            invariant
                i <= self.attributes.len() == other.attributes.len(),
                forall|k: int|
                    0 <= k < i ==> attribute_view(#[trigger] self.attributes@[k]) == attribute_view(
                        other.attributes@[k],
                    ),
            decreases self.attributes.len() - i,
        {
            if !same_attribute(&self.attributes[i], &other.attributes[i]) {
                assert(attributes_view(self.attributes@)[i as int] != attributes_view(
                    other.attributes@,
                )[i as int]);
                return false;
            }
            i = i + 1;
        }
        assert(attributes_view(self.attributes@) =~= attributes_view(other.attributes@));
        let x = match &self.content {
            Cow::Borrowed(b) => *b,
            Cow::Owned(o) => o.as_str(),
        };
        let y = match &other.content {
            Cow::Borrowed(b) => *b,
            Cow::Owned(o) => o.as_str(),
        };
        same_text(x, y)
    }
}

impl<'a> Eq for Block<'a> {

}

impl<'a> vstd::std_specs::cmp::PartialEqSpecImpl for Block<'a> {
    open spec fn obeys_eq_spec() -> bool {
        true
    }

    open spec fn eq_spec(&self, other: &Self) -> bool {
        self@ == other@
    }
}

} // verus!
