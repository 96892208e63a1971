use std::borrow::Cow;

use vue_sfc::{
    AttributeName, AttributeValue, BlockName, Error, IllegalChar, InvalidAttributeName,
    InvalidAttributeValue, InvalidBlockName, InvalidBlockNameKind, InvalidRaw, ParseError, Raw,
};

#[test]
fn block_name_case_normalization() {
    let upper = BlockName::try_new("SCRIPT").unwrap();
    let lower = BlockName::try_new("script").unwrap();
    assert!(upper == lower);
    assert_eq!(upper.as_str(), "script");
    let mixed = BlockName::from_cow(Cow::Owned(String::from("TemPlate"))).unwrap();
    assert_eq!(mixed.as_str(), "template");
}

#[test]
fn block_name_validation() {
    assert_eq!(BlockName::try_new("template").unwrap().as_str(), "template");
    assert_eq!(BlockName::try_new("my-block").unwrap().as_str(), "my-block");
    assert_eq!(
        BlockName::try_new("").unwrap_err(),
        InvalidBlockName(InvalidBlockNameKind::StartsWithNonAsciiAlpha)
    );
    assert_eq!(
        BlockName::try_new("1abc").unwrap_err(),
        InvalidBlockName(InvalidBlockNameKind::StartsWithNonAsciiAlpha)
    );
    assert_eq!(
        BlockName::try_new("-abc").unwrap_err(),
        InvalidBlockName(InvalidBlockNameKind::StartsWithNonAsciiAlpha)
    );
    for (input, ch) in [
        ("a b", ' '),
        ("a\tb", '\t'),
        ("a\nb", '\n'),
        ("a\u{000C}b", '\u{000C}'),
        ("a/b", '/'),
        ("a>b", '>'),
        ("ab/c>", '/'),
    ] {
        assert_eq!(
            BlockName::try_new(input).unwrap_err(),
            InvalidBlockName(InvalidBlockNameKind::IllegalChar(ch))
        );
    }
    assert_eq!(
        BlockName::try_new("a b").unwrap_err().to_string(),
        "block name cannot contain ` `"
    );
    assert_eq!(
        BlockName::try_new("1").unwrap_err().to_string(),
        "block name must start with ASCII alpha"
    );
}

#[test]
fn attribute_name_validation() {
    assert_eq!(AttributeName::try_new("LANG").unwrap().as_str(), "lang");
    assert_eq!(AttributeName::try_new("#default").unwrap().as_str(), "#default");
    assert_eq!(AttributeName::try_new("").unwrap().as_str(), "");
    for (input, ch) in [
        ("a=b", '='),
        ("a b", ' '),
        ("a/b", '/'),
        ("a>b", '>'),
        ("a\tb", '\t'),
        ("a\nb", '\n'),
        ("a\u{000C}b", '\u{000C}'),
    ] {
        assert_eq!(
            AttributeName::try_new(input).unwrap_err(),
            InvalidAttributeName(ch)
        );
    }
    assert_eq!(
        AttributeName::try_new("a=b").unwrap_err().to_string(),
        "illegal char: `=`"
    );
}

#[test]
fn attribute_value_validation() {
    assert_eq!(AttributeValue::try_new("TS").unwrap().as_str(), "TS");
    assert_eq!(AttributeValue::try_new("a\"b").unwrap().as_str(), "a\"b");
    assert_eq!(AttributeValue::try_new("a'b").unwrap().as_str(), "a'b");
    assert_eq!(AttributeValue::try_new("").unwrap().as_str(), "");
    assert_eq!(
        AttributeValue::try_new("a\"b'c").unwrap_err(),
        InvalidAttributeValue('\'')
    );
    assert_eq!(
        AttributeValue::try_new("'\"").unwrap_err().to_string(),
        "illegal char: `'`"
    );
}

#[test]
fn raw_validation() {
    assert_eq!(Raw::try_new("text \t\n").unwrap().as_str(), "text");
    assert_eq!(Raw::try_new("\n text").unwrap().as_str(), "\n text");
    assert_eq!(
        Raw::from_cow(Cow::Owned(String::from("owned\u{3000}"))).unwrap().as_str(),
        "owned"
    );
    assert_eq!(Raw::try_new("").unwrap_err(), InvalidRaw);
    assert_eq!(Raw::try_new(" \n\t\u{A0}").unwrap_err(), InvalidRaw);
    assert_eq!(
        InvalidRaw.to_string(),
        "raw section must not be empty once end-trimmed"
    );
}

#[test]
fn error_conversions() {
    let e = Error::from(ParseError::MissingEndTag(String::from("template")));
    assert_eq!(e.to_string(), "missing end tag: `template`");
    let e = Error::from(BlockName::try_new("9").unwrap_err());
    assert_eq!(e.to_string(), "block name must start with ASCII alpha");
    let e = Error::from(AttributeName::try_new("a b").unwrap_err());
    assert_eq!(e.to_string(), "illegal char: ` `");
    let e = Error::from(AttributeValue::try_new("\"'").unwrap_err());
    assert_eq!(e.to_string(), "illegal char: `'`");
    assert_eq!(IllegalChar('x').to_string(), "Illegal char: `x`");
    assert_eq!(
        ParseError::UnexpectedEndTag(String::from("script")).to_string(),
        "unexpected end tag: `script`"
    );
}

#[test]
fn names_order_by_text() {
    let script = BlockName::try_new("script").unwrap();
    let style = BlockName::try_new("STYLE").unwrap();
    assert!(script < style);
    assert_eq!(
        script.partial_cmp(&BlockName::try_new("Script").unwrap()),
        Some(std::cmp::Ordering::Equal)
    );
    assert!(BlockName::try_new("a").unwrap() < BlockName::try_new("ab").unwrap());
    assert!(AttributeName::try_new("setup").unwrap() > AttributeName::try_new("lang").unwrap());
    assert!(AttributeValue::try_new("TS").unwrap() < AttributeValue::try_new("ts").unwrap());
    assert!(Raw::try_new("b").unwrap() > Raw::try_new("a \n").unwrap());
    let mut names = vec![style.clone(), script.clone()];
    names.sort();
    assert_eq!(names[0].as_str(), "script");
}

#[test]
fn names_deref_and_hash() {
    let name = BlockName::try_new("Template").unwrap();
    assert_eq!(&*name, "template");
    assert_eq!(name.len(), 8);
    let value = AttributeValue::try_new("ts").unwrap();
    assert!(value.starts_with('t'));
    let raw = Raw::try_new("text  ").unwrap();
    assert_eq!(&*raw, "text");
    let mut set = std::collections::HashSet::new();
    set.insert(BlockName::try_new("SCRIPT").unwrap());
    set.insert(BlockName::try_new("script").unwrap());
    assert_eq!(set.len(), 1);
    assert!(set.contains("script"));
}
