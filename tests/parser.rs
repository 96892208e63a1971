use std::borrow::Cow;

use vue_sfc::{
    parse, parse_end_tag, parse_start_tag, Block, BlockName, ParseError, Raw, Section,
};

#[test]
fn test_parse_empty() {
    assert_eq!(parse("").unwrap(), vec![]);
}

#[test]
fn test_parse_raw() {
    assert_eq!(
        parse("<!-- a comment -->").unwrap(),
        vec![Section::Raw(Raw::try_new("<!-- a comment -->").unwrap())]
    );
}

#[test]
fn test_parse_block() {
    assert_eq!(
        parse("<template></template>").unwrap(),
        vec![Section::Block(Block {
            name: BlockName::try_new("template").unwrap(),
            attributes: vec![],
            content: Cow::default()
        })]
    );
}

#[test]
fn test_parse_consecutive_blocks() {
    assert_eq!(
        parse("<template></template><script></script>").unwrap(),
        vec![
            Section::Block(Block {
                name: BlockName::try_new("template").unwrap(),
                attributes: vec![],
                content: Cow::default()
            }),
            Section::Block(Block {
                name: BlockName::try_new("script").unwrap(),
                attributes: vec![],
                content: Cow::default()
            })
        ]
    );
}

#[test]
fn test_parse() {
    let raw = r#"<template>
  <router-view v-slot="{ Component }"
  >
    <suspense v-if="Component" :timeout="150">
      <template #default>
        <component :is="Component"/>
      </template>
      <template #fallback>
        Loading...
      </template>
    </suspense>
  </router-view>
</template>

<script lang="ts" setup>
onErrorCaptured((err) => {
  console.error(err);
});
</script>"#;

    let sfc = parse(raw).unwrap();

    match &sfc[0] {
        Section::Block(Block {
            name,
            attributes,
            content,
        }) => {
            assert_eq!(name.as_str(), "template");
            assert_eq!(content.len(), 266);
            assert!(attributes.is_empty());
        }
        _ => panic!("expected a block"),
    }

    match &sfc[1] {
        Section::Block(Block {
            name,
            attributes,
            content,
        }) => {
            assert_eq!(name.as_str(), "script");
            assert_eq!(content.len(), 52);
            assert_eq!(attributes[0].0.as_str(), "lang");
            assert_eq!(attributes[0].1.as_ref().unwrap().as_str(), "ts");
            assert_eq!(attributes[1].0.as_str(), "setup");
            assert!(attributes[1].1.is_none());
        }
        _ => panic!("expected a block"),
    }
}

fn only_block<'a>(sections: &'a [Section<'a>]) -> &'a Block<'a> {
    assert_eq!(sections.len(), 1);
    match &sections[0] {
        Section::Block(block) => block,
        Section::Raw(_) => panic!("expected a block"),
    }
}

#[test]
fn parse_nested_templates() {
    let sfc = parse("<template><template></template></template>").unwrap();
    let block = only_block(&sfc);
    assert_eq!(block.name.as_str(), "template");
    assert_eq!(block.content, "<template></template>");
}

#[test]
fn parse_rawtext_is_opaque() {
    let sfc = parse("<script><template></script>").unwrap();
    let block = only_block(&sfc);
    assert_eq!(block.name.as_str(), "script");
    assert_eq!(block.content, "<template>");
}

#[test]
fn parse_template_mode_switch() {
    // With a non-html lang the content is raw text: the inner start tag does not nest.
    let sfc = parse("<template lang=\"pug\"><template></template>").unwrap();
    let block = only_block(&sfc);
    assert_eq!(block.content, "<template>");

    // Without lang, or with lang="html", the inner start tag nests.
    let sfc = parse("<template><template></template>").unwrap_err();
    assert_eq!(sfc, ParseError::MissingEndTag(String::from("template")));
    let sfc = parse("<template lang=\"html\"><template></template></template>").unwrap();
    let block = only_block(&sfc);
    assert_eq!(block.content, "<template></template>");
    let sfc = parse("<template lang=\"html\"><template></template>").unwrap_err();
    assert_eq!(sfc, ParseError::MissingEndTag(String::from("template")));
}

#[test]
fn parse_missing_and_unexpected_end_tag() {
    assert_eq!(
        parse("<template>").unwrap_err(),
        ParseError::MissingEndTag(String::from("template"))
    );
    assert_eq!(
        parse("</template>").unwrap_err(),
        ParseError::UnexpectedEndTag(String::from("template"))
    );
    assert_eq!(
        parse("text </ Script >").unwrap_err(),
        ParseError::UnexpectedEndTag(String::from("script"))
    );
    assert_eq!(
        parse("<style>a {}</script>").unwrap_err(),
        ParseError::MissingEndTag(String::from("style"))
    );
}

#[test]
fn parse_drops_whitespace_between_blocks() {
    let sfc = parse("<template></template>\n\n<script></script>").unwrap();
    assert_eq!(sfc.len(), 2);
    assert!(matches!(sfc[0], Section::Block(_)));
    assert!(matches!(sfc[1], Section::Block(_)));
}

#[test]
fn parse_keeps_attribute_order() {
    let sfc = parse("<script lang=\"ts\" setup></script>").unwrap();
    let block = only_block(&sfc);
    assert_eq!(block.attributes.len(), 2);
    assert_eq!(block.attributes[0].0.as_str(), "lang");
    assert_eq!(block.attributes[0].1.as_ref().unwrap().as_str(), "ts");
    assert_eq!(block.attributes[1].0.as_str(), "setup");
    assert!(block.attributes[1].1.is_none());
}

#[test]
fn parse_raw_sections_are_trimmed() {
    let sfc = parse("\n\r\n  intro  \n<style scoped>\n\na {}\n  \n</style>\n outro \n").unwrap();
    assert_eq!(sfc.len(), 3);
    match &sfc[0] {
        Section::Raw(raw) => assert_eq!(raw.as_str(), "  intro"),
        _ => panic!("expected a raw section"),
    }
    match &sfc[1] {
        Section::Block(block) => {
            assert_eq!(block.name.as_str(), "style");
            assert_eq!(block.content, "a {}");
        }
        _ => panic!("expected a block"),
    }
    match &sfc[2] {
        Section::Raw(raw) => assert_eq!(raw.as_str(), " outro"),
        _ => panic!("expected a raw section"),
    }
}

#[test]
fn parse_end_tag_is_case_insensitive() {
    let sfc = parse("<SCRIPT>x</Script >").unwrap();
    let block = only_block(&sfc);
    assert_eq!(block.name.as_str(), "script");
    assert_eq!(block.content, "x");
}

#[test]
fn parse_lenient_on_broken_tags() {
    // An unterminated value makes the whole tag plain text.
    let sfc = parse("<script lang=\"ts>text").unwrap();
    assert_eq!(sfc.len(), 1);
    match &sfc[0] {
        Section::Raw(raw) => assert_eq!(raw.as_str(), "<script lang=\"ts>text"),
        _ => panic!("expected a raw section"),
    }
    // Here the start tag fails too, so the end tag stands outside any block.
    assert_eq!(
        parse("<script lang=\"ts></script>").unwrap_err(),
        ParseError::UnexpectedEndTag(String::from("script"))
    );
}

#[test]
fn parse_round_trip_is_stable() {
    let input = "<!-- top -->\n<template>\n  <div>  </div>\n</template>\n<script setup lang='ts'>let a = \"x\";</script>\n";
    let first = parse(input).unwrap();
    let mut rendered = String::new();
    for section in &first {
        rendered.push_str(&section.to_string());
        rendered.push('\n');
    }
    let second = parse(&rendered).unwrap();
    assert_eq!(first, second);
}

#[test]
fn start_and_end_tags() {
    let (rest, (name, attributes)) =
        parse_start_tag("<Template v-if = 'ok' Lang=\"TS\" flag >rest").unwrap();
    assert_eq!(rest, "rest");
    assert_eq!(name.as_str(), "template");
    assert_eq!(attributes.len(), 3);
    assert_eq!(attributes[0].0.as_str(), "v-if");
    assert_eq!(attributes[0].1.as_ref().unwrap().as_str(), "ok");
    assert_eq!(attributes[1].0.as_str(), "lang");
    assert_eq!(attributes[1].1.as_ref().unwrap().as_str(), "TS");
    assert_eq!(attributes[2].0.as_str(), "flag");
    assert!(attributes[2].1.is_none());
    assert!(parse_start_tag("< template>").is_none());
    assert!(parse_start_tag("<1a>").is_none());
    assert!(parse_start_tag("<a b=\"c>").is_none());

    let script = BlockName::try_new("script").unwrap();
    let (rest, written) = parse_end_tag(&script, "</ SCRIPT\n>tail").unwrap();
    assert_eq!(rest, "tail");
    assert_eq!(written, "SCRIPT");
    let (rest, written) = parse_end_tag(&script, "</script\r>").unwrap();
    assert_eq!(rest, "");
    assert_eq!(written, "script");
    assert!(parse_end_tag(&script, "<script>").is_none());
    assert!(parse_end_tag(&script, "</script").is_none());
    assert!(parse_end_tag(&script, "</scripts>").is_none());
    assert!(parse_end_tag(&script, "</style>").is_none());
}

#[test]
fn parse_end_tag_allows_whitespace_after_name() {
    let sfc = parse("<script>x</script\r>").unwrap();
    let block = only_block(&sfc);
    assert_eq!(block.name.as_str(), "script");
    assert_eq!(block.content, "x");

    let sfc = parse("<template><template></template\r\n></template\t>").unwrap();
    let block = only_block(&sfc);
    assert_eq!(block.content, "<template></template\r\n>");

    let sfc = parse("<style>a {}</ STYLE \r\n >").unwrap();
    let block = only_block(&sfc);
    assert_eq!(block.content, "a {}");
}
