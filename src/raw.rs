//! Text before, after or between blocks.
use std::borrow::Cow;
use vstd::prelude::*;

use crate::text::{
    chars_of, compare_text, lemma_trim_end_idempotent, lemma_trim_end_len_bound, same_text,
    text_cmp, trim_end, trim_end_index,
};

verus! {

/// Returned when a string cannot be turned into a [`Raw`]: it is empty once end-trimmed.
#[derive(Clone, Copy, Debug, PartialEq, Eq, Structural)]
pub struct InvalidRaw;

/// Non-empty text, without trailing white space, before, after or between blocks.
#[derive(Debug, Hash, Ord)]
pub struct Raw<'a>(Cow<'a, str>);

impl<'a> View for Raw<'a> {
    type V = Seq<char>;

    open spec fn view(&self) -> Seq<char> {
        self.spec_text()
    }
}

impl<'a> Raw<'a> {
    pub closed spec fn spec_text(&self) -> Seq<char> {
        self.0@
    }

    #[verifier::type_invariant]
    closed spec fn inv(self) -> bool {
        self.0@.len() > 0 && trim_end(self.0@) == self.0@
    }

    /// Attempts to convert a string to a [`Raw`], removing its trailing white space.
    ///
    /// Fails if nothing is left once the trailing white space is removed.
    pub fn from_cow(src: Cow<'a, str>) -> (r: Result<Self, InvalidRaw>)
        ensures
            match r {
                Ok(raw) => trim_end(src@).len() > 0 && raw@ == trim_end(src@),
                Err(_) => trim_end(src@).len() == 0,
            },
    {
        let v = match &src {
            Cow::Borrowed(b) => chars_of(b),
            Cow::Owned(o) => chars_of(o.as_str()),
        };
        let n = trim_end_index(&v, 0, v.len());
        proof {
            assert(v@.subrange(0, v@.len() as int) =~= v@);
            lemma_trim_end_len_bound(v@);
            lemma_trim_end_idempotent(v@);
        }
        if n == 0 {
            return Err(InvalidRaw);
        }
        let trimmed = match src {
            Cow::Borrowed(b) => Cow::Borrowed(b.substring_char(0, n)),
            Cow::Owned(o) => Cow::Owned(String::from_str(o.as_str().substring_char(0, n))),
        };
        Ok(Raw(trimmed))
    }

    /// Converts text already known to be non-empty and end-trimmed; for the scanner, which
    /// trims the text between blocks itself.
    pub(crate) fn from_cow_unchecked(src: Cow<'a, str>) -> (r: Self)
        requires
            src@.len() > 0,
            trim_end(src@) == src@,
        ensures
            r@ == src@,
    {
        Raw(src)
    }

    /// Attempts to convert a string slice to a [`Raw`]; see [`Raw::from_cow`].
    pub fn try_new(src: &'a str) -> (r: Result<Self, InvalidRaw>)
        ensures
            match r {
                Ok(raw) => trim_end(src@).len() > 0 && raw@ == trim_end(src@),
                Err(_) => trim_end(src@).len() == 0,
            },
    {
        Self::from_cow(Cow::Borrowed(src))
    }

    /// The text as a string slice.
    pub fn as_str(&self) -> (r: &str)
        ensures
            r@ == self@,
    {
        match &self.0 {
            Cow::Borrowed(b) => b,
            Cow::Owned(o) => o.as_str(),
        }
    }

    /// The text, which is how a raw section is written out.
    pub fn to_string(&self) -> (r: String)
        ensures
            r@ == self@,
    {
        String::from_str(self.as_str())
    }
}

impl<'a> Clone for Raw<'a> {
    fn clone(&self) -> (r: Self)
        ensures
            r@ == self@,
    {
        proof {
            use_type_invariant(self);
        }
        match &self.0 {
            Cow::Borrowed(b) => Raw(Cow::Borrowed(b)),
            Cow::Owned(o) => Raw(Cow::Owned(o.clone())),
        }
    }
}

impl<'a> std::ops::Deref for Raw<'a> {
    type Target = str;

    fn deref(&self) -> (r: &str)
        ensures
            r@ == self@,
    {
        self.as_str()
    }
}

impl<'a> std::borrow::Borrow<str> for Raw<'a> {
    fn borrow(&self) -> &str {
        self.as_str()
    }
}

impl<'a> PartialEq for Raw<'a> {
    fn eq(&self, other: &Self) -> bool {
        same_text(self.as_str(), other.as_str())
    }
}

impl<'a> Eq for Raw<'a> {

}

impl<'a> PartialOrd for Raw<'a> {
    fn partial_cmp(&self, other: &Self) -> Option<core::cmp::Ordering> {
        Some(compare_text(self.as_str(), other.as_str()))
    }
}

impl<'a> vstd::std_specs::cmp::PartialOrdSpecImpl for Raw<'a> {
    open spec fn obeys_partial_cmp_spec() -> bool {
        true
    }

    open spec fn partial_cmp_spec(&self, other: &Self) -> Option<core::cmp::Ordering> {
        Some(text_cmp(self@, other@))
    }
}

impl<'a> vstd::std_specs::cmp::PartialEqSpecImpl for Raw<'a> {
    open spec fn obeys_eq_spec() -> bool {
        true
    }

    open spec fn eq_spec(&self, other: &Self) -> bool {
        self@ == other@
    }
}

impl InvalidRaw {
    /// A message that says why the text was refused.
    pub fn to_string(&self) -> (r: String)
        ensures
            r@ == "raw section must not be empty once end-trimmed"@,
    {
        String::from_str("raw section must not be empty once end-trimmed")
    }
}

} // verus!
