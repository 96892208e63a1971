//! Attribute names and values.
use std::borrow::Cow;
use vstd::prelude::*;

use crate::text::{
    chars_of, compare_text, contains_char, has_ascii_upper, is_attribute_name_forbidden,
    is_attribute_name_forbidden_char, lower, lowercase, push_char, push_str, same_text, text_cmp,
};

verus! {

/// Returned when a string cannot be turned into an [`AttributeName`]: the first character
/// that no attribute name can hold.
#[derive(Clone, Copy, Debug, PartialEq, Eq, Structural)]
pub struct InvalidAttributeName(pub char);

/// Returned when a string cannot be turned into an [`AttributeValue`]: it holds both kinds of
/// quote, and this is the single quote.
#[derive(Clone, Copy, Debug, PartialEq, Eq, Structural)]
pub struct InvalidAttributeValue(pub char);

/// The first character of `s[i..]` that no attribute name can hold.
pub open spec fn first_attribute_name_forbidden(s: Seq<char>, i: int) -> Option<char>
    decreases s.len() - i,
{
    if i < 0 || i >= s.len() {
        None
    } else if is_attribute_name_forbidden(s[i]) {
        Some(s[i])
    } else {
        first_attribute_name_forbidden(s, i + 1)
    }
}

/// Without a tab, line feed, form feed, space, `/`, `=` or `>`.
pub open spec fn is_valid_attribute_name(s: Seq<char>) -> bool {
    forall|k: int| 0 <= k < s.len() ==> !is_attribute_name_forbidden(#[trigger] s[k])
}

/// Not holding both a double quote and a single quote.
pub open spec fn is_valid_attribute_value(s: Seq<char>) -> bool {
    !(s.contains('"') && s.contains('\''))
}

pub proof fn lemma_first_attribute_name_forbidden(s: Seq<char>, i: int)
    requires
        0 <= i,
    ensures
        first_attribute_name_forbidden(s, i) is None <==> (forall|k: int|
            i <= k < s.len() ==> !is_attribute_name_forbidden(#[trigger] s[k])),
    decreases s.len() - i,
{
    if i < s.len() {
        lemma_first_attribute_name_forbidden(s, i + 1);
        if !is_attribute_name_forbidden(s[i]) && first_attribute_name_forbidden(s, i + 1) is None {
            assert forall|k: int| i <= k < s.len() implies !is_attribute_name_forbidden(
                #[trigger] s[k],
            ) by {
                if k > i {
                }
            }
        }
    }
}

/// A string is accepted as an attribute name exactly when it holds no tab, line feed, form
/// feed, space, `/`, `=` or `>`.
pub proof fn lemma_attribute_name_error(s: Seq<char>)
    ensures
        first_attribute_name_forbidden(s, 0) is None <==> is_valid_attribute_name(s),
{
    lemma_first_attribute_name_forbidden(s, 0);
}

/// The name of an attribute, i.e: `lang` in `<script lang="ts">`.
#[derive(Debug, Hash, Ord)]
pub struct AttributeName<'a>(Cow<'a, str>);

impl<'a> View for AttributeName<'a> {
    type V = Seq<char>;

    open spec fn view(&self) -> Seq<char> {
        self.spec_text()
    }
}

impl<'a> AttributeName<'a> {
    pub closed spec fn spec_text(&self) -> Seq<char> {
        self.0@
    }

    /// An attribute name is valid and already lower-cased.
    #[verifier::type_invariant]
    closed spec fn inv(self) -> bool {
        is_valid_attribute_name(self.0@) && lower(self.0@) == self.0@
    }

    /// Attempts to convert a string to an [`AttributeName`], lower-casing its ASCII letters.
    ///
    /// Fails on the first tab, line feed, form feed, space, `/`, `=` or `>` of the string.
    pub fn from_cow(src: Cow<'a, str>) -> (r: Result<Self, InvalidAttributeName>)
        ensures
            match r {
                Ok(name) => first_attribute_name_forbidden(src@, 0) is None && name@ == lower(
                    src@,
                ),
                Err(e) => first_attribute_name_forbidden(src@, 0) == Some(e.0),
            },
    {
        let v = match &src {
            Cow::Borrowed(b) => chars_of(b),
            Cow::Owned(o) => chars_of(o.as_str()),
        };
        let mut i: usize = 0;
        while i < v.len()
            invariant
                i <= v.len(),
                v@ == src@,
                first_attribute_name_forbidden(v@, 0) == first_attribute_name_forbidden(
                    v@,
                    i as int,
                ),
            decreases v.len() - i,
        {
            if is_attribute_name_forbidden_char(v[i]) {
                assert(first_attribute_name_forbidden(v@, i as int) == Some(v@[i as int]));
                return Err(InvalidAttributeName(v[i]));
            }
            i = i + 1;
        }
        Ok(Self::from_cow_unchecked(src))
    }

    /// Converts a string already known to be a valid attribute name, lower-casing its ASCII
    /// letters; for the tag grammar, which only hands over valid names.
    pub(crate) fn from_cow_unchecked(src: Cow<'a, str>) -> (r: Self)
        requires
            first_attribute_name_forbidden(src@, 0) is None,
        ensures
            r@ == lower(src@),
    {
        let v = match &src {
            Cow::Borrowed(b) => chars_of(b),
            Cow::Owned(o) => chars_of(o.as_str()),
        };
        proof {
            lemma_first_attribute_name_forbidden(v@, 0);
            assert(lower(lower(v@)) =~= lower(v@));
        }
        if has_ascii_upper(&v) {
            AttributeName(Cow::Owned(lowercase(&v)))
        } else {
            AttributeName(src)
        }
    }

    /// Attempts to convert a string slice to an [`AttributeName`]; see
    /// [`AttributeName::from_cow`].
    pub fn try_new(src: &'a str) -> (r: Result<Self, InvalidAttributeName>)
        ensures
            match r {
                Ok(name) => first_attribute_name_forbidden(src@, 0) is None && name@ == lower(
                    src@,
                ),
                Err(e) => first_attribute_name_forbidden(src@, 0) == Some(e.0),
            },
    {
        Self::from_cow(Cow::Borrowed(src))
    }

    /// The name as a string slice.
    pub fn as_str(&self) -> (r: &str)
        ensures
            r@ == self@,
    {
        match &self.0 {
            Cow::Borrowed(b) => b,
            Cow::Owned(o) => o.as_str(),
        }
    }
}

impl<'a> Clone for AttributeName<'a> {
    fn clone(&self) -> (r: Self)
        ensures
            r@ == self@,
    {
        proof {
            use_type_invariant(self);
        }
        match &self.0 {
            Cow::Borrowed(b) => AttributeName(Cow::Borrowed(b)),
            Cow::Owned(o) => AttributeName(Cow::Owned(o.clone())),
        }
    }
}

impl<'a> std::ops::Deref for AttributeName<'a> {
    type Target = str;

    fn deref(&self) -> (r: &str)
        ensures
            r@ == self@,
    {
        self.as_str()
    }
}

impl<'a> std::borrow::Borrow<str> for AttributeName<'a> {
    fn borrow(&self) -> &str {
        self.as_str()
    }
}

impl<'a> PartialEq for AttributeName<'a> {
    fn eq(&self, other: &Self) -> bool {
        same_text(self.as_str(), other.as_str())
    }
}

impl<'a> Eq for AttributeName<'a> {

}

impl<'a> PartialOrd for AttributeName<'a> {
    fn partial_cmp(&self, other: &Self) -> Option<core::cmp::Ordering> {
        Some(compare_text(self.as_str(), other.as_str()))
    }
}

impl<'a> vstd::std_specs::cmp::PartialOrdSpecImpl for AttributeName<'a> {
    open spec fn obeys_partial_cmp_spec() -> bool {
        true
    }

    open spec fn partial_cmp_spec(&self, other: &Self) -> Option<core::cmp::Ordering> {
        Some(text_cmp(self@, other@))
    }
}

impl<'a> vstd::std_specs::cmp::PartialEqSpecImpl for AttributeName<'a> {
    open spec fn obeys_eq_spec() -> bool {
        true
    }

    open spec fn eq_spec(&self, other: &Self) -> bool {
        self@ == other@
    }
}

/// The value of an attribute, i.e: `ts` in `<script lang="ts">`.
#[derive(Debug, Hash, Ord)]
pub struct AttributeValue<'a>(Cow<'a, str>);

impl<'a> View for AttributeValue<'a> {
    type V = Seq<char>;

    open spec fn view(&self) -> Seq<char> {
        self.spec_text()
    }
}

impl<'a> AttributeValue<'a> {
    pub closed spec fn spec_text(&self) -> Seq<char> {
        self.0@
    }

    #[verifier::type_invariant]
    closed spec fn inv(self) -> bool {
        is_valid_attribute_value(self.0@)
    }

    /// Attempts to convert a string to an [`AttributeValue`]; the text is kept as it is.
    ///
    /// Fails if the string holds both a double quote and a single quote.
    pub fn from_cow(src: Cow<'a, str>) -> (r: Result<Self, InvalidAttributeValue>)
        ensures
            match r {
                Ok(value) => is_valid_attribute_value(src@) && value@ == src@,
                Err(e) => !is_valid_attribute_value(src@) && e == InvalidAttributeValue('\''),
            },
    {
        let v = match &src {
            Cow::Borrowed(b) => chars_of(b),
            Cow::Owned(o) => chars_of(o.as_str()),
        };
        if contains_char(&v, '"') {
            if contains_char(&v, '\'') {
                return Err(InvalidAttributeValue('\''));
            }
            return Ok(AttributeValue(src));
        }
        Ok(AttributeValue(src))
    }

    /// Converts a string already known to be a valid attribute value; for the tag grammar,
    /// whose quoted values never hold their own quote.
    pub(crate) fn from_cow_unchecked(src: Cow<'a, str>) -> (r: Self)
        requires
            is_valid_attribute_value(src@),
        ensures
            r@ == src@,
    {
        AttributeValue(src)
    }

    /// Attempts to convert a string slice to an [`AttributeValue`]; see
    /// [`AttributeValue::from_cow`].
    pub fn try_new(src: &'a str) -> (r: Result<Self, InvalidAttributeValue>)
        ensures
            match r {
                Ok(value) => is_valid_attribute_value(src@) && value@ == src@,
                Err(e) => !is_valid_attribute_value(src@) && e == InvalidAttributeValue('\''),
            },
    {
        Self::from_cow(Cow::Borrowed(src))
    }

    /// The value as a string slice.
    pub fn as_str(&self) -> (r: &str)
        ensures
            r@ == self@,
    {
        match &self.0 {
            Cow::Borrowed(b) => b,
            Cow::Owned(o) => o.as_str(),
        }
    }
}

impl<'a> Clone for AttributeValue<'a> {
    fn clone(&self) -> (r: Self)
        ensures
            r@ == self@,
    {
        proof {
            use_type_invariant(self);
        }
        match &self.0 {
            Cow::Borrowed(b) => AttributeValue(Cow::Borrowed(b)),
            Cow::Owned(o) => AttributeValue(Cow::Owned(o.clone())),
        }
    }
}

impl<'a> std::ops::Deref for AttributeValue<'a> {
    type Target = str;

    fn deref(&self) -> (r: &str)
        ensures
            r@ == self@,
    {
        self.as_str()
    }
}

impl<'a> std::borrow::Borrow<str> for AttributeValue<'a> {
    fn borrow(&self) -> &str {
        self.as_str()
    }
}

impl<'a> PartialEq for AttributeValue<'a> {
    fn eq(&self, other: &Self) -> bool {
        same_text(self.as_str(), other.as_str())
    }
}

impl<'a> Eq for AttributeValue<'a> {

}

impl<'a> PartialOrd for AttributeValue<'a> {
    fn partial_cmp(&self, other: &Self) -> Option<core::cmp::Ordering> {
        Some(compare_text(self.as_str(), other.as_str()))
    }
}

impl<'a> vstd::std_specs::cmp::PartialOrdSpecImpl for AttributeValue<'a> {
    open spec fn obeys_partial_cmp_spec() -> bool {
        true
    }

    open spec fn partial_cmp_spec(&self, other: &Self) -> Option<core::cmp::Ordering> {
        Some(text_cmp(self@, other@))
    }
}

impl<'a> vstd::std_specs::cmp::PartialEqSpecImpl for AttributeValue<'a> {
    open spec fn obeys_eq_spec() -> bool {
        true
    }

    open spec fn eq_spec(&self, other: &Self) -> bool {
        self@ == other@
    }
}

/// An attribute: a name, and a value unless the attribute is a boolean one (`setup`).
pub type Attribute<'a> = (AttributeName<'a>, Option<AttributeValue<'a>>);

impl InvalidAttributeName {
    /// The message that names the refused character.
    pub open spec fn message(&self) -> Seq<char> {
        "illegal char: `"@ + seq![self.0] + "`"@
    }

    /// A message that names the refused character.
    pub fn to_string(&self) -> (r: String)
        ensures
            r@ == self.message(),
    {
        let mut r = String::from_str("illegal char: `");
        push_char(&mut r, self.0);
        push_str(&mut r, "`");
        r
    }
}

impl InvalidAttributeValue {
    /// The message that names the refused character.
    pub open spec fn message(&self) -> Seq<char> {
        "illegal char: `"@ + seq![self.0] + "`"@
    }

    /// A message that names the refused character.
    pub fn to_string(&self) -> (r: String)
        ensures
            r@ == self.message(),
    {
        let mut r = String::from_str("illegal char: `");
        push_char(&mut r, self.0);
        push_str(&mut r, "`");
        r
    }
}

} // verus!
