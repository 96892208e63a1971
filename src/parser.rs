//! The scanner that splits a component into sections.
use std::borrow::Cow;
use vstd::prelude::*;

use crate::attribute::Attribute;
use crate::block::{Block, BlockModel};
use crate::block_name::BlockName;
use crate::raw::Raw;
use crate::section::{sections_view, Section, SectionModel};
use crate::tag::{
    attributes_view, end_tag_at, end_tag_at_exec, end_tag_for, end_tag_for_exec, find_char,
    find_char_exec, lemma_end_tag_at, lemma_end_tag_for, lemma_find_char, lemma_start_tag_at,
    start_tag_at, start_tag_at_exec, AttributeModel,
};
use crate::text::{
    chars_of, lemma_trim_end_idempotent, push_str, same_text, trim_section, trim_section_bounds,
};

verus! {

/// A parsing error.
#[derive(Debug)]
#[non_exhaustive]
pub enum ParseError {
    /// A block was opened and the input ended before its end tag.
    MissingEndTag(String),
    /// An end tag stood outside any block.
    UnexpectedEndTag(String),
}

impl ParseError {
    /// The message that names the tag.
    pub open spec fn message(&self) -> Seq<char> {
        match self {
            ParseError::MissingEndTag(name) => "missing end tag: `"@ + name@ + "`"@,
            ParseError::UnexpectedEndTag(name) => "unexpected end tag: `"@ + name@ + "`"@,
        }
    }

    /// A message that names the tag.
    pub fn to_string(&self) -> (r: String)
        ensures
            r@ == self.message(),
    {
        let (mut r, name) = match self {
            ParseError::MissingEndTag(name) => (String::from_str("missing end tag: `"), name),
            ParseError::UnexpectedEndTag(name) => (
                String::from_str("unexpected end tag: `"),
                name,
            ),
        };
        push_str(&mut r, name.as_str());
        push_str(&mut r, "`");
        r
    }
}

impl PartialEq for ParseError {
    fn eq(&self, other: &Self) -> bool {
        match (self, other) {
            (ParseError::MissingEndTag(a), ParseError::MissingEndTag(b)) => same_text(
                a.as_str(),
                b.as_str(),
            ),
            (ParseError::UnexpectedEndTag(a), ParseError::UnexpectedEndTag(b)) => same_text(
                a.as_str(),
                b.as_str(),
            ),
            _ => false,
        }
    }
}

impl Eq for ParseError {

}

impl vstd::std_specs::cmp::PartialEqSpecImpl for ParseError {
    open spec fn obeys_eq_spec() -> bool {
        true
    }

    open spec fn eq_spec(&self, other: &Self) -> bool {
        self@ == other@
    }
}

/// A parsing error as plain values.
pub enum ParseErrorModel {
    MissingEndTag(Seq<char>),
    UnexpectedEndTag(Seq<char>),
}

impl View for ParseError {
    type V = ParseErrorModel;

    open spec fn view(&self) -> ParseErrorModel {
        match self {
            ParseError::MissingEndTag(name) => ParseErrorModel::MissingEndTag(name@),
            ParseError::UnexpectedEndTag(name) => ParseErrorModel::UnexpectedEndTag(name@),
        }
    }
}

/// Where the scanner stands: outside any block, or inside one, with its name, its attributes,
/// whether its content is raw text, and how many start tags of the same name are open in it.
pub enum ScanState {
    Root,
    Open { name: Seq<char>, attributes: Seq<AttributeModel>, raw_text: bool, depth: nat },
}

/// A block's content is raw text unless the block is a `template` without a `lang` attribute
/// whose value is other than `html`.
pub open spec fn is_raw_text(name: Seq<char>, attributes: Seq<AttributeModel>) -> bool {
    name != "template"@ || exists|k: int|
        0 <= k < attributes.len() && is_non_html_lang(#[trigger] attributes[k])
}

/// A `lang` attribute with a value other than `html`.
pub open spec fn is_non_html_lang(a: AttributeModel) -> bool {
    a.0 == "lang"@ && match a.1 {
        Some(v) => v != "html"@,
        None => false,
    }
}

/// The raw section that the text `seg` gives: none if it is empty once trimmed.
pub open spec fn raw_section(seg: Seq<char>) -> Seq<SectionModel> {
    if trim_section(seg).len() > 0 {
        seq![SectionModel::Raw(trim_section(seg))]
    } else {
        seq![]
    }
}

/// The scanner from its state: the next `<` at or after `pos` is looked at; `offset` is where
/// the pending text (raw text, or the open block's content) starts, and `done` holds the
/// sections already emitted.
pub open spec fn scan(
    s: Seq<char>,
    pos: int,
    offset: int,
    state: ScanState,
    done: Seq<SectionModel>,
) -> Result<Seq<SectionModel>, ParseErrorModel>
    decreases s.len() - pos,
    when 0 <= pos <= s.len()
    via scan_decreases
{
    let i = find_char(s, pos, '<');
    match state {
        ScanState::Root => {
            if i >= s.len() {
                Ok(done + raw_section(s.subrange(offset, s.len() as int)))
            } else if let Some((name, _)) = end_tag_at(s, i) {
                Err(ParseErrorModel::UnexpectedEndTag(name))
            } else if let Some((name, attributes, e)) = start_tag_at(s, i) {
                scan(
                    s,
                    e,
                    e,
                    ScanState::Open {
                        name,
                        attributes,
                        raw_text: is_raw_text(name, attributes),
                        depth: 0,
                    },
                    done + raw_section(s.subrange(offset, i)),
                )
            } else {
                scan(s, i + 1, offset, ScanState::Root, done)
            }
        },
        ScanState::Open { name, attributes, raw_text, depth } => {
            if i >= s.len() {
                Err(ParseErrorModel::MissingEndTag(name))
            } else if end_tag_for(s, i, name) is Some {
                let e = end_tag_for(s, i, name)->Some_0;
                if raw_text || depth == 0 {
                    let block = BlockModel {
                        name,
                        attributes,
                        content: trim_section(s.subrange(offset, i)),
                    };
                    scan(s, e, e, ScanState::Root, done.push(SectionModel::Block(block)))
                } else {
                    scan(
                        s,
                        e,
                        offset,
                        ScanState::Open { name, attributes, raw_text, depth: (depth - 1) as nat },
                        done,
                    )
                }
            } else if !raw_text && (start_tag_at(s, i) matches Some((n, _, e)) && n == name) {
                let e = opening_index(start_tag_at(s, i));
                scan(
                    s,
                    e,
                    offset,
                    ScanState::Open { name, attributes, raw_text, depth: depth + 1 },
                    done,
                )
            } else {
                scan(s, i + 1, offset, state, done)
            }
        },
    }
}

/// The index after a recognised start tag.
pub open spec fn opening_index(t: Option<(Seq<char>, Seq<AttributeModel>, int)>) -> int {
    match t {
        Some((_, _, e)) => e,
        None => 0,
    }
}

#[via_fn]
proof fn scan_decreases(
    s: Seq<char>,
    pos: int,
    offset: int,
    state: ScanState,
    done: Seq<SectionModel>,
) {
    let i = find_char(s, pos, '<');
    lemma_find_char(s, pos, '<');
    lemma_end_tag_at(s, i);
    lemma_start_tag_at(s, i);
    if let ScanState::Open { name, .. } = state {
        lemma_end_tag_for(s, i, name);
    }
}

/// What parsing `s` gives: the sections in source order, or the first error met.
pub open spec fn parse_model(s: Seq<char>) -> Result<Seq<SectionModel>, ParseErrorModel> {
    scan(s, 0, 0, ScanState::Root, seq![])
}

/// The scanner's state, with the values of the open block.
enum State<'a> {
    /// Outside any block.
    Root,
    /// Inside a block whose content is markup: start tags of the same name nest.
    Data { name: BlockName<'a>, attributes: Vec<Attribute<'a>>, depth: usize },
    /// Inside a block whose content is raw text, ended by the first matching end tag.
    RawText { name: BlockName<'a>, attributes: Vec<Attribute<'a>> },
}

impl<'a> State<'a> {
    spec fn model(&self) -> ScanState {
        match self {
            State::Root => ScanState::Root,
            State::Data { name, attributes, depth } => ScanState::Open {
                name: name@,
                attributes: attributes_view(attributes@),
                raw_text: false,
                depth: *depth as nat,
            },
            State::RawText { name, attributes } => ScanState::Open {
                name: name@,
                attributes: attributes_view(attributes@),
                raw_text: true,
                depth: 0,
            },
        }
    }
}

/// Whether the content of a block with these name and attributes is raw text.
fn raw_text_mode(name: &BlockName, attributes: &Vec<Attribute>) -> (r: bool)
    ensures
        r == is_raw_text(name@, attributes_view(attributes@)),
{
    let template = String::from_str("template");
    if !same_text(name.as_str(), template.as_str()) {
        return true;
    }
    let mut i: usize = 0;
    while i < attributes.len()
        invariant
            i <= attributes.len(),
            name@ == "template"@,
            forall|k: int|
                0 <= k < i ==> !is_non_html_lang(#[trigger] attributes_view(attributes@)[k]),
        decreases attributes.len() - i,
    {
        let (attr_name, value) = &attributes[i];
        let lang = String::from_str("lang");
        let html = String::from_str("html");
        if same_text(attr_name.as_str(), lang.as_str()) {
            if let Some(v) = value {
                if !same_text(v.as_str(), html.as_str()) {
                    assert(attributes_view(attributes@)[i as int].0 == "lang"@);
                    return true;
                }
            }
        }
        i = i + 1;
    }
    false
}

/// Appends to `buffer` the raw section that `s[start..end]` gives, if any.
fn push_raw<'a>(
    buffer: &mut Vec<Section<'a>>,
    input: &'a str,
    s: &Vec<char>,
    start: usize,
    end: usize,
)
    requires
        input@ == s@,
        start <= end <= s.len(),
    ensures
        sections_view(final(buffer)@) == sections_view(old(buffer)@) + raw_section(
            s@.subrange(start as int, end as int),
        ),
{
    let (a, b) = trim_section_bounds(s, start, end);
    proof {
        let seg = s@.subrange(start as int, end as int);
        lemma_trim_end_idempotent(seg.skip(crate::text::newline_prefix_len(seg) as int));
    }
    if a < b {
        let raw = Raw::from_cow_unchecked(Cow::Borrowed(input.substring_char(a, b)));
        buffer.push(Section::Raw(raw));
        assert(sections_view(buffer@) =~= sections_view(old(buffer)@).push(
            SectionModel::Raw(raw@),
        ));
    } else {
        assert(sections_view(buffer@) =~= sections_view(old(buffer)@) + seq![]);
    }
}

/// Parse the given input as a Vue SFC.
///
/// Fails with [`ParseError::UnexpectedEndTag`] on an end tag outside any block, and with
/// [`ParseError::MissingEndTag`] when the input ends inside a block.
pub fn parse(input: &str) -> (r: Result<Vec<Section<'_>>, ParseError>)
    ensures
        match parse_model(input@) {
            Ok(sections) => r matches Ok(v) && sections_view(v@) == sections,
            Err(e) => r matches Err(err) && err@ == e,
        },
{
    let s = chars_of(input);
    let mut buffer: Vec<Section> = Vec::new();
    let mut pos: usize = 0;
    let mut offset: usize = 0;
    let mut state = State::Root;
    assert(sections_view(buffer@) =~= seq![]);
    loop
        invariant
            input@ == s@,
            pos <= s.len(),
            offset <= pos,
            state.model() matches ScanState::Open { depth, .. } ==> depth <= pos,
            scan(s@, pos as int, offset as int, state.model(), sections_view(buffer@))
                == parse_model(s@),
        decreases s.len() - pos,
    {
        let ghost g_pos = pos as int;
        let ghost g_offset = offset as int;
        let ghost g_state = state.model();
        let ghost g_done = sections_view(buffer@);
        let i = find_char_exec(&s, pos, '<');
        proof {
            lemma_find_char(s@, pos as int, '<');
        }
        match state {
            State::Root => {
                if i >= s.len() {
                    push_raw(&mut buffer, input, &s, offset, s.len());
                    return Ok(buffer);
                }
                if let Some((name, _)) = end_tag_at_exec(input, &s, i) {
                    return Err(ParseError::UnexpectedEndTag(String::from_str(name.as_str())));
                }
                match start_tag_at_exec(input, &s, i) {
                    Some((name, attributes, e)) => {
                        proof {
                            lemma_start_tag_at(s@, i as int);
                        }
                        push_raw(&mut buffer, input, &s, offset, i);
                        offset = e;
                        pos = e;
                        if raw_text_mode(&name, &attributes) {
                            state = State::RawText { name, attributes };
                        } else {
                            state = State::Data { name, attributes, depth: 0 };
                        }
                    },
                    None => {
                        pos = i + 1;
                        state = State::Root;
                    },
                }
            },
            State::Data { name, attributes, depth } => {
                if i >= s.len() {
                    return Err(ParseError::MissingEndTag(String::from_str(name.as_str())));
                }
                let name_chars = chars_of(name.as_str());
                proof {
                    lemma_end_tag_for(s@, i as int, name@);
                    lemma_start_tag_at(s@, i as int);
                }
                let end = end_tag_for_exec(&s, i, &name_chars);
                if let Some(e) = end {
                    if depth == 0 {
                        let (a, b) = trim_section_bounds(&s, offset, i);
                        let block = Block {
                            name,
                            attributes,
                            content: Cow::Borrowed(input.substring_char(a, b)),
                        };
                        let ghost model = block@;
                        buffer.push(Section::Block(block));
                        assert(sections_view(buffer@) =~= g_done.push(SectionModel::Block(model)));
                        offset = e;
                        state = State::Root;
                    } else {
                        state = State::Data { name, attributes, depth: depth - 1 };
                    }
                    pos = e;
                } else {
                    match start_tag_at_exec(input, &s, i) {
                        Some((start_name, _, e)) if start_name == name => {
                            state = State::Data { name, attributes, depth: depth + 1 };
                            pos = e;
                        },
                        _ => {
                            state = State::Data { name, attributes, depth };
                            pos = i + 1;
                        },
                    }
                }
            },
            State::RawText { name, attributes } => {
                if i >= s.len() {
                    return Err(ParseError::MissingEndTag(String::from_str(name.as_str())));
                }
                let name_chars = chars_of(name.as_str());
                proof {
                    lemma_end_tag_for(s@, i as int, name@);
                }
                match end_tag_for_exec(&s, i, &name_chars) {
                    Some(e) => {
                        let (a, b) = trim_section_bounds(&s, offset, i);
                        let block = Block {
                            name,
                            attributes,
                            content: Cow::Borrowed(input.substring_char(a, b)),
                        };
                        let ghost model = block@;
                        buffer.push(Section::Block(block));
                        assert(sections_view(buffer@) =~= g_done.push(SectionModel::Block(model)));
                        offset = e;
                        state = State::Root;
                        pos = e;
                    },
                    _ => {
                        state = State::RawText { name, attributes };
                        pos = i + 1;
                    },
                }
            },
        }
        assert(scan(s@, g_pos, g_offset, g_state, g_done) == scan(
            s@,
            pos as int,
            offset as int,
            state.model(),
            sections_view(buffer@),
        ));
    }
}

} // verus!
