//! The name of a block.
use std::borrow::Cow;
use vstd::prelude::*;

use crate::text::{
    chars_of, compare_text, has_ascii_upper, is_ascii_alpha, is_ascii_alpha_char, is_ascii_upper,
    is_block_name_forbidden, is_block_name_forbidden_char, lower, lower_char, lowercase, push_char,
    push_str, same_text, text_cmp,
};

verus! {

/// Why a string is not a block name.
#[derive(Clone, Copy, Debug, PartialEq, Eq, Structural)]
pub enum InvalidBlockNameKind {
    /// The name holds this character, which no block name can hold.
    IllegalChar(char),
    /// The name is empty or does not start with an ASCII letter.
    StartsWithNonAsciiAlpha,
}

/// Returned when a string cannot be turned into a [`BlockName`].
#[derive(Clone, Copy, Debug, PartialEq, Eq, Structural)]
pub struct InvalidBlockName(pub InvalidBlockNameKind);

/// The first character of `s[i..]` that no block name can hold.
pub open spec fn first_block_name_forbidden(s: Seq<char>, i: int) -> Option<char>
    decreases s.len() - i,
{
    if i < 0 || i >= s.len() {
        None
    } else if is_block_name_forbidden(s[i]) {
        Some(s[i])
    } else {
        first_block_name_forbidden(s, i + 1)
    }
}

/// Non-empty, starting with an ASCII letter, and without a forbidden character.
pub open spec fn is_valid_block_name(s: Seq<char>) -> bool {
    &&& s.len() > 0
    &&& is_ascii_alpha(s[0])
    &&& forall|k: int| 0 <= k < s.len() ==> !is_block_name_forbidden(#[trigger] s[k])
}

/// The error that [`BlockName::from_cow`] reports for `s`, if any.
pub open spec fn block_name_error(s: Seq<char>) -> Option<InvalidBlockName> {
    if s.len() == 0 || !is_ascii_alpha(s[0]) {
        Some(InvalidBlockName(InvalidBlockNameKind::StartsWithNonAsciiAlpha))
    } else {
        match first_block_name_forbidden(s, 0) {
            Some(c) => Some(InvalidBlockName(InvalidBlockNameKind::IllegalChar(c))),
            None => None,
        }
    }
}

pub proof fn lemma_first_block_name_forbidden(s: Seq<char>, i: int)
    requires
        0 <= i,
    ensures
        first_block_name_forbidden(s, i) is None <==> (forall|k: int|
            i <= k < s.len() ==> !is_block_name_forbidden(#[trigger] s[k])),
    decreases s.len() - i,
{
    if i < s.len() {
        lemma_first_block_name_forbidden(s, i + 1);
        if !is_block_name_forbidden(s[i]) && first_block_name_forbidden(s, i + 1) is None {
            assert forall|k: int| i <= k < s.len() implies !is_block_name_forbidden(
                #[trigger] s[k],
            ) by {
                if k > i {
                }
            }
        }
    }
}

/// A string is accepted as a block name exactly when it is non-empty, starts with an ASCII
/// letter, and holds no tab, line feed, form feed, space, `/` or `>`.
pub proof fn lemma_block_name_error(s: Seq<char>)
    ensures
        block_name_error(s) is None <==> is_valid_block_name(s),
{
    lemma_first_block_name_forbidden(s, 0);
}

/// The name of a block, i.e: `script` in `<script lang="ts">`.
#[derive(Debug, Hash, Ord)]
pub struct BlockName<'a>(Cow<'a, str>);

impl<'a> View for BlockName<'a> {
    type V = Seq<char>;

    open spec fn view(&self) -> Seq<char> {
        self.spec_text()
    }
}

impl<'a> BlockName<'a> {
    pub closed spec fn spec_text(&self) -> Seq<char> {
        self.0@
    }

    /// A block name is valid and already lower-cased.
    #[verifier::type_invariant]
    closed spec fn inv(self) -> bool {
        is_valid_block_name(self.0@) && lower(self.0@) == self.0@
    }

    /// Attempts to convert a string to a [`BlockName`], lower-casing its ASCII letters.
    ///
    /// Fails if the string does not start with an ASCII letter, or holds a tab, line feed,
    /// form feed, space, `/` or `>`.
    pub fn from_cow(src: Cow<'a, str>) -> (r: Result<Self, InvalidBlockName>)
        ensures
            match r {
                Ok(name) => block_name_error(src@) is None && name@ == lower(src@),
                Err(e) => block_name_error(src@) == Some(e),
            },
    {
        let v = match &src {
            Cow::Borrowed(b) => chars_of(b),
            Cow::Owned(o) => chars_of(o.as_str()),
        };
        assert(v@ == src@);
        if v.len() == 0 || !is_ascii_alpha_char(v[0]) {
            return Err(InvalidBlockName(InvalidBlockNameKind::StartsWithNonAsciiAlpha));
        }
        let mut i: usize = 0;
        while i < v.len()
            invariant
                i <= v.len(),
                v@ == src@,
                v.len() > 0 && is_ascii_alpha(v@[0]),
                first_block_name_forbidden(v@, 0) == first_block_name_forbidden(v@, i as int),
                forall|k: int| 0 <= k < i ==> !is_block_name_forbidden(#[trigger] v@[k]),
            decreases v.len() - i,
        {
            if is_block_name_forbidden_char(v[i]) {
                assert(first_block_name_forbidden(v@, i as int) == Some(v@[i as int]));
                return Err(InvalidBlockName(InvalidBlockNameKind::IllegalChar(v[i])));
            }
            i = i + 1;
        }
        proof {
            lemma_first_block_name_forbidden(v@, 0);
        }
        Ok(Self::from_cow_unchecked(src))
    }

    /// Converts a string already known to be a valid block name, lower-casing its ASCII
    /// letters; for the tag grammar, which only hands over valid names.
    pub(crate) fn from_cow_unchecked(src: Cow<'a, str>) -> (r: Self)
        requires
            block_name_error(src@) is None,
        ensures
            r@ == lower(src@),
    {
        let v = match &src {
            Cow::Borrowed(b) => chars_of(b),
            Cow::Owned(o) => chars_of(o.as_str()),
        };
        proof {
            lemma_block_name_error(v@);
            lemma_lower_keeps_block_name(v@);
        }
        if has_ascii_upper(&v) {
            BlockName(Cow::Owned(lowercase(&v)))
        } else {
            BlockName(src)
        }
    }

    /// Attempts to convert a string slice to a [`BlockName`]; see [`BlockName::from_cow`].
    pub fn try_new(src: &'a str) -> (r: Result<Self, InvalidBlockName>)
        ensures
            match r {
                Ok(name) => block_name_error(src@) is None && name@ == lower(src@),
                Err(e) => block_name_error(src@) == Some(e),
            },
    {
        Self::from_cow(Cow::Borrowed(src))
    }

    /// The name as a string slice.
    pub fn as_str(&self) -> (r: &str)
        ensures
            r@ == self@,
    {
        match &self.0 {
            Cow::Borrowed(b) => b,
            Cow::Owned(o) => o.as_str(),
        }
    }
}

/// Lower-casing a character keeps it a letter or not, and keeps it forbidden in names or not.
proof fn lemma_lower_char(c: char)
    ensures
        is_ascii_alpha(lower_char(c)) == is_ascii_alpha(c),
        is_block_name_forbidden(lower_char(c)) == is_block_name_forbidden(c),
        is_block_name_forbidden(c) ==> lower_char(c) == c,
{
    if is_ascii_upper(c) {
        let u = c as u32;
        assert(65 <= u <= 90);
        let l = (((u + 32) as u8) as char);
        assert(97 <= l as u32 <= 122);
    }
}

proof fn lemma_first_forbidden_lower(s: Seq<char>, i: int)
    ensures
        first_block_name_forbidden(lower(s), i) == first_block_name_forbidden(s, i),
    decreases s.len() - i,
{
    if 0 <= i < s.len() {
        lemma_lower_char(s[i]);
        lemma_first_forbidden_lower(s, i + 1);
    }
}

/// Block names ignore ASCII case: two strings that lower-case to the same text are both
/// refused with the same error, or both accepted as the same name.
pub proof fn lemma_block_name_case_insensitive(a: Seq<char>, b: Seq<char>)
    requires
        lower(a) == lower(b),
    ensures
        block_name_error(a) == block_name_error(b),
{
    assert forall|s: Seq<char>| block_name_error(lower(s)) == #[trigger] block_name_error(s) by {
        lemma_first_forbidden_lower(s, 0);
        if s.len() > 0 {
            lemma_lower_char(s[0]);
        }
    }
    assert(block_name_error(lower(a)) == block_name_error(a));
    assert(block_name_error(lower(b)) == block_name_error(b));
}

/// Lower-casing keeps a valid block name valid, and lower-casing twice changes nothing.
pub proof fn lemma_lower_keeps_block_name(s: Seq<char>)
    requires
        is_valid_block_name(s),
    ensures
        is_valid_block_name(lower(s)),
        lower(lower(s)) == lower(s),
{
    assert(lower(lower(s)) =~= lower(s));
}

impl<'a> Clone for BlockName<'a> {
    fn clone(&self) -> (r: Self)
        ensures
            r@ == self@,
    {
        proof {
            use_type_invariant(self);
        }
        match &self.0 {
            Cow::Borrowed(b) => BlockName(Cow::Borrowed(b)),
            Cow::Owned(o) => BlockName(Cow::Owned(o.clone())),
        }
    }
}

impl<'a> std::ops::Deref for BlockName<'a> {
    type Target = str;

    fn deref(&self) -> (r: &str)
        ensures
            r@ == self@,
    {
        self.as_str()
    }
}

impl<'a> std::borrow::Borrow<str> for BlockName<'a> {
    fn borrow(&self) -> &str {
        self.as_str()
    }
}

impl<'a> PartialEq for BlockName<'a> {
    fn eq(&self, other: &Self) -> bool {
        same_text(self.as_str(), other.as_str())
    }
}

impl<'a> Eq for BlockName<'a> {

}

impl<'a> PartialOrd for BlockName<'a> {
    fn partial_cmp(&self, other: &Self) -> Option<core::cmp::Ordering> {
        Some(compare_text(self.as_str(), other.as_str()))
    }
}

impl<'a> vstd::std_specs::cmp::PartialOrdSpecImpl for BlockName<'a> {
    open spec fn obeys_partial_cmp_spec() -> bool {
        true
    }

    open spec fn partial_cmp_spec(&self, other: &Self) -> Option<core::cmp::Ordering> {
        Some(text_cmp(self@, other@))
    }
}

impl<'a> vstd::std_specs::cmp::PartialEqSpecImpl for BlockName<'a> {
    open spec fn obeys_eq_spec() -> bool {
        true
    }

    open spec fn eq_spec(&self, other: &Self) -> bool {
        self@ == other@
    }
}

impl InvalidBlockName {
    /// The message that says why the name was refused.
    pub open spec fn message(&self) -> Seq<char> {
        match self.0 {
            InvalidBlockNameKind::StartsWithNonAsciiAlpha =>
                "block name must start with ASCII alpha"@,
            InvalidBlockNameKind::IllegalChar(c) => "block name cannot contain `"@ + seq![c] + "`"@,
        }
    }

    /// A message that says why the name was refused.
    pub fn to_string(&self) -> (r: String)
        ensures
            r@ == self.message(),
    {
        match self.0 {
            InvalidBlockNameKind::StartsWithNonAsciiAlpha => String::from_str(
                "block name must start with ASCII alpha",
            ),
            InvalidBlockNameKind::IllegalChar(c) => {
                let mut r = String::from_str("block name cannot contain `");
                push_char(&mut r, c);
                push_str(&mut r, "`");
                r
            },
        }
    }
}

} // verus!
