//! A section of a component: raw text or a block.
use vstd::prelude::*;

use crate::block::{render_block, Block, BlockModel};
use crate::raw::Raw;

verus! {

/// A section as plain values.
pub enum SectionModel {
    Raw(Seq<char>),
    Block(BlockModel),
}

/// A Vue SFC section.
#[derive(Debug, Hash)]
pub enum Section<'a> {
    /// See [`Raw`].
    Raw(Raw<'a>),
    /// See [`Block`].
    Block(Block<'a>),
}

impl<'a> View for Section<'a> {
    type V = SectionModel;

    open spec fn view(&self) -> SectionModel {
        match self {
            Section::Raw(raw) => SectionModel::Raw(raw@),
            Section::Block(block) => SectionModel::Block(block@),
        }
    }
}

/// How a section is written: a raw section as its text, a block as [`render_block`] says.
pub open spec fn render_section(s: SectionModel) -> Seq<char> {
    match s {
        SectionModel::Raw(text) => text,
        SectionModel::Block(b) => render_block(b),
    }
}

/// The plain values of a list of sections.
pub open spec fn sections_view(v: Seq<Section>) -> Seq<SectionModel> {
    v.map_values(|x: Section| x@)
}

impl<'a> Section<'a> {
    /// The section written out as text.
    pub fn to_string(&self) -> (r: String)
        ensures
            r@ == render_section(self@),
    {
        match self {
            Section::Raw(raw) => raw.to_string(),
            Section::Block(block) => block.to_string(),
        }
    }
}

impl<'a> Clone for Section<'a> {
    fn clone(&self) -> (r: Self)
        ensures
            r@ == self@,
    {
        match self {
            Section::Raw(raw) => Section::Raw(raw.clone()),
            Section::Block(block) => Section::Block(block.clone()),
        }
    }
}

impl<'a> PartialEq for Section<'a> {
    fn eq(&self, other: &Self) -> bool {
        match (self, other) {
            (Section::Raw(a), Section::Raw(b)) => a == b,
            (Section::Block(a), Section::Block(b)) => a == b,
            _ => false,
        }
    }
}

impl<'a> Eq for Section<'a> {

}

impl<'a> vstd::std_specs::cmp::PartialEqSpecImpl for Section<'a> {
    open spec fn obeys_eq_spec() -> bool {
        true
    }

    open spec fn eq_spec(&self, other: &Self) -> bool {
        self@ == other@
    }
}

} // verus!
