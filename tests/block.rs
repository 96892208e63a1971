use std::borrow::Cow;

use vue_sfc::{AttributeName, AttributeValue, Block, BlockName, Raw, Section};

#[test]
fn test_display() {
    assert_eq!(
        Block {
            name: BlockName::try_new("template").unwrap(),
            attributes: Vec::new(),
            content: Cow::Borrowed("")
        }
        .to_string(),
        "<template></template>"
    );

    assert_eq!(
        Block {
            name: BlockName::try_new("script").unwrap(),
            attributes: vec![(
                AttributeName::try_new("lang").unwrap(),
                Some(AttributeValue::try_new("ts").unwrap())
            )],
            content: Cow::Borrowed("")
        }
        .to_string(),
        r#"<script lang="ts"></script>"#
    );

    assert_eq!(
        Block {
            name: BlockName::try_new("script").unwrap(),
            attributes: vec![
                (
                    AttributeName::try_new("lang").unwrap(),
                    Some(AttributeValue::try_new("ts").unwrap())
                ),
                (AttributeName::try_new("setup").unwrap(), None)
            ],
            content: Cow::Borrowed("")
        }
        .to_string(),
        r#"<script lang="ts" setup></script>"#
    );

    assert_eq!(
        Block {
            name: BlockName::try_new("style").unwrap(),
            attributes: vec![(AttributeName::try_new("scoped").unwrap(), None)],
            content: Cow::Borrowed("")
        }
        .to_string(),
        r#"<style scoped></style>"#
    );

    assert_eq!(
        Block {
            name: BlockName::try_new("template").unwrap(),
            attributes: Vec::new(),
            content: Cow::Borrowed("<!-- content -->")
        }
        .to_string(),
        "<template>\n<!-- content -->\n</template>"
    );

    assert_eq!(
        Block {
            name: BlockName::try_new("template").unwrap(),
            attributes: Vec::new(),
            content: Cow::Borrowed("<!-- multiline -->\n<!-- content -->")
        }
        .to_string(),
        "<template>\n<!-- multiline -->\n<!-- content -->\n</template>"
    );
}

#[test]
fn display_single_quotes_value_with_double_quote() {
    let block = Block {
        name: BlockName::try_new("div").unwrap(),
        attributes: vec![(
            AttributeName::try_new("title").unwrap(),
            Some(AttributeValue::try_new("say \"hi\"").unwrap()),
        )],
        content: Cow::Borrowed("x  \n\t"),
    };
    assert_eq!(block.to_string(), "<div title='say \"hi\"'>\nx\n</div>");
}

#[test]
fn display_sections() {
    let raw = Raw::try_new("<!-- note -->  \n").unwrap();
    assert_eq!(raw.to_string(), "<!-- note -->");
    let section = Section::Raw(raw);
    assert_eq!(section.to_string(), "<!-- note -->");
    let block = Section::Block(Block {
        name: BlockName::try_new("style").unwrap(),
        attributes: Vec::new(),
        content: Cow::Borrowed("a {}"),
    });
    assert_eq!(block.to_string(), "<style>\na {}\n</style>");
}

#[test]
fn section_equality() {
    let a = Section::Raw(Raw::try_new("text").unwrap());
    let b = Section::Raw(Raw::try_new("text \n").unwrap());
    let c = Section::Raw(Raw::try_new("other").unwrap());
    assert!(a == b);
    assert!(a != c);
}

#[test]
fn block_clone_is_equal() {
    let block = Block {
        name: BlockName::try_new("script").unwrap(),
        attributes: vec![
            (
                AttributeName::try_new("lang").unwrap(),
                Some(AttributeValue::try_new("ts").unwrap()),
            ),
            (AttributeName::try_new("setup").unwrap(), None),
        ],
        content: Cow::Owned(String::from("let a = 1;")),
    };
    let copy = block.clone();
    assert!(copy == block);
    assert_eq!(copy.to_string(), "<script lang=\"ts\" setup>\nlet a = 1;\n</script>");
    let section = Section::Block(block);
    assert!(section.clone() == section);
}
