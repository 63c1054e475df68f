use obsidized::ast::Expression;
use obsidized::parser::ParseError;
use obsidized::parser::parse;
use obsidized::parser::parse_block;

fn text(s: &str) -> Expression {
    Expression::Text(s.to_string())
}

fn block(contents: Vec<Expression>) -> Expression {
    Expression::Block(contents)
}

#[test]
fn test_basic() {
    assert_eq!(parse("This is a test").unwrap(), vec![block(vec![text("This is a test")])]);

    assert_eq!(
        parse("**Bold Testing**").unwrap(),
        vec![block(vec![Expression::Bold(vec![text("Bold Testing")])])]
    );

    assert_eq!(
        parse("__Bold Testing__").unwrap(),
        vec![block(vec![Expression::Bold(vec![text("Bold Testing")])])]
    );

    assert_eq!(
        parse("*Italic Testing*").unwrap(),
        vec![block(vec![Expression::Italic(vec![text("Italic Testing")])])]
    );

    assert_eq!(
        parse("_Italic Testing_").unwrap(),
        vec![block(vec![Expression::Italic(vec![text("Italic Testing")])])]
    );

    assert_eq!(
        parse("~~Not like this~~").unwrap(),
        vec![block(vec![Expression::StrikeThrough(vec![text("Not like this")])])]
    );

    assert_eq!(
        parse("==REACTION==").unwrap(),
        vec![block(vec![Expression::Highlight(vec![text("REACTION")])])]
    );

    assert_eq!(
        parse("`inline_code`").unwrap(),
        vec![block(vec![Expression::InlineCode("inline_code".to_string())])]
    );

    assert_eq!(
        parse("$b^2-4ac$").unwrap(),
        vec![block(vec![Expression::InlineMath("b^2-4ac".to_string())])]
    );
}

#[test]
fn test_codeblock() {
    // The block segmenter scans line by line, so a fence opened on a line of
    // its own is never closed on that line: the parse fails fast instead of
    // falling back to plain text.
    let input = "```\n        fn test() -> bool {}\n        ```";
    assert_eq!(parse(input), Err(ParseError { line: 0 }));
}

#[test]
fn test_blocks() {
    // The indented middle line is not exactly `---`, so it stays plain text
    // (trimmed of its leading whitespace); no blank line, so one block.
    assert_eq!(
        parse(
            r#"This is a test
            ---
            This is another test"#
        )
        .unwrap(),
        vec![block(vec![
            text("This is a test"),
            text("---"),
            text("This is another test"),
        ])]
    );

    // A blank line finalizes the current block and starts a new one.
    assert_eq!(
        parse(
            r#"This is a test

            This is another test"#
        )
        .unwrap(),
        vec![
            block(vec![text("This is a test")]),
            block(vec![text("This is another test")]),
        ]
    );
}

#[test]
fn lifetime_test() {
    let contents = "This is a test".to_string();

    parse(&*contents).unwrap();
}

#[test]
fn horizontal_bar_exact_line_only() {
    assert_eq!(parse("---").unwrap(), vec![block(vec![Expression::HorizontalBar])]);
    // Trailing content disqualifies the reserved literal.
    assert_eq!(parse("--- ").unwrap(), vec![block(vec![text("--- ")])]);
    assert_eq!(parse("---x").unwrap(), vec![block(vec![text("---x")])]);
}

#[test]
fn parse_block_matches_parse_line_handling() {
    assert_eq!(parse_block("---").unwrap(), vec![Expression::HorizontalBar]);
    assert_eq!(parse_block("plain words").unwrap(), vec![text("plain words")]);
    assert!(parse_block("`open").is_err());
}

#[test]
fn blank_line_splits_blocks() {
    assert_eq!(
        parse("A\n\nB").unwrap(),
        vec![block(vec![text("A")]), block(vec![text("B")])]
    );
    assert_eq!(parse("A\nB").unwrap(), vec![block(vec![text("A"), text("B")])]);
}

#[test]
fn empty_document_is_one_empty_block() {
    assert_eq!(parse("").unwrap(), vec![block(vec![])]);
}

#[test]
fn fence_matching_is_first_occurrence() {
    assert_eq!(
        parse("`a` `b`").unwrap(),
        vec![block(vec![
            Expression::InlineCode("a".to_string()),
            text(""),
            Expression::InlineCode("b".to_string()),
        ])]
    );
}

#[test]
fn unterminated_fence_is_an_error() {
    assert_eq!(parse("`unterminated"), Err(ParseError { line: 0 }));
    assert_eq!(parse("a $5 left"), Err(ParseError { line: 0 }));
}

#[test]
fn parse_error_carries_line_index() {
    assert_eq!(parse("ok\n*bad"), Err(ParseError { line: 1 }));
}

#[test]
fn nested_styles() {
    assert_eq!(
        parse("**bold *and italic* text**").unwrap(),
        vec![block(vec![Expression::Bold(vec![
            text("bold "),
            Expression::Italic(vec![text("and italic")]),
            text("text"),
        ])])]
    );
}

#[test]
fn links_and_images() {
    assert_eq!(
        parse("[[page]]").unwrap(),
        vec![block(vec![Expression::InternalLink("page".to_string())])]
    );
    assert_eq!(
        parse("![[img.png]]").unwrap(),
        vec![block(vec![Expression::InternalImage("img.png".to_string())])]
    );
    assert_eq!(
        parse("![alt](http://x/y.png)").unwrap(),
        vec![block(vec![Expression::ExternalImage {
            alt: "alt".to_string(),
            url: "http://x/y.png".to_string(),
        }])]
    );
}

#[test]
fn text_between_directives() {
    assert_eq!(
        parse("cost $x+y$ here").unwrap(),
        vec![block(vec![
            text("cost "),
            Expression::InlineMath("x+y".to_string()),
            text("here"),
        ])]
    );
}

#[test]
fn single_line_code_block() {
    assert_eq!(
        parse("```rust``` x").unwrap(),
        vec![block(vec![
            Expression::CodeBlock { lang: "rust".to_string(), contents: "".to_string() },
            text("x"),
        ])]
    );
}

#[test]
fn code_block_language_tag_trims_carriage_returns() {
    assert_eq!(
        parse("```rust\r``` x").unwrap(),
        vec![block(vec![
            Expression::CodeBlock { lang: "rust".to_string(), contents: "".to_string() },
            text("x"),
        ])]
    );
}

#[test]
fn end_to_end_ast() {
    assert_eq!(
        parse("This is a *test*!").unwrap(),
        vec![block(vec![
            text("This is a "),
            Expression::Italic(vec![text("test")]),
            text("!"),
        ])]
    );
}
