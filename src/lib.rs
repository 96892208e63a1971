//! Splits a Vue single-file component into its raw text sections and its blocks.
//!
//! [`parse`] turns a component into a list of [`Section`]s; [`Block::to_string`],
//! [`Raw::to_string`] and [`Section::to_string`] write them back out as text.
use vstd::prelude::*;

pub mod attribute;
pub mod block;
pub mod block_name;
pub mod error;
pub mod parser;
pub mod raw;
pub mod round_trip;
pub mod section;
pub mod tag;
pub mod text;

pub use self::attribute::{
    Attribute, AttributeName, AttributeValue, InvalidAttributeName, InvalidAttributeValue,
};
pub use self::block::Block;
pub use self::block_name::{BlockName, InvalidBlockName, InvalidBlockNameKind};
pub use self::error::{Error, ErrorKind, IllegalChar};
pub use self::parser::{parse, ParseError};
pub use self::raw::{InvalidRaw, Raw};
pub use self::section::Section;
pub use self::tag::{parse_end_tag, parse_start_tag};

verus! {

} // verus!
