use obsidized::ast::Document;
use obsidized::ast::Expression;
use obsidized::converter::convert;
use obsidized::parser::parse;

fn compile_ast(contents: Vec<Expression>) -> String {
    let document = Document { frontmatter: "".to_string(), contents };
    let mut buf = String::new();
    let _result = convert(&document, &mut buf).expect("An error occurred");
    buf
}

fn text(s: &str) -> Expression {
    Expression::Text(s.to_string())
}

#[test]
pub fn test_converter() {
    let contents = vec![Expression::Text("This is a test!".to_string())];

    assert_eq!(
        compile_ast(contents),
        r##"<p class="block">
This is a test!
</p>
"##
    )
}

#[test]
fn round_trip_plain_text() {
    let html = compile_ast(parse("hello world").unwrap());
    assert_eq!(html, "<p class=\"block\">\nhello world\n</p>\n");
}

#[test]
fn end_to_end_italic() {
    let html = compile_ast(parse("This is a *test*!").unwrap());
    assert_eq!(
        html,
        "<p class=\"block\">\nThis is a <span class=\"italic\">\ntest</span>\n!\n</p>\n"
    );
    assert!(html.contains("<span class=\"italic\">"));
    assert!(html.contains("</span>\n!"));
}

#[test]
fn heading_fragments() {
    let html = compile_ast(vec![Expression::Heading {
        level: 2,
        text: "Title".to_string(),
    }]);
    assert_eq!(html, "<p class=\"block\">\n<h2 class=\"heading header-2\">Title</div>\n</p>\n");

    let html = compile_ast(vec![Expression::Heading {
        level: 12,
        text: "Deep".to_string(),
    }]);
    assert_eq!(html, "<p class=\"block\">\n<div class=\"heading header-12\">Deep</div>\n</p>\n");
}

#[test]
fn link_fragments() {
    let html = compile_ast(vec![Expression::RawHyperLink("http://a".to_string())]);
    assert_eq!(
        html,
        "<p class=\"block\">\n<a class=\"link\" href\"http://a\">http://a</a>\n</p>\n"
    );

    let html = compile_ast(vec![Expression::InternalLink("note".to_string())]);
    assert_eq!(
        html,
        "<p class=\"block\">\n<a class=\"link internal-link\" href=\"note\"> note\n</p>\n"
    );
}

#[test]
fn verbatim_fragments() {
    let html = compile_ast(vec![
        Expression::InlineCode("x".to_string()),
        Expression::InlineMath("y".to_string()),
        Expression::BlockMath("z".to_string()),
    ]);
    assert_eq!(
        html,
        "<p class=\"block\">\n<span class=\"inline-code\">x</span>\n</p>\n<p class=\"block\">\n$y$\n</p>\n<p class=\"block\">\n$$z$$\n</p>\n"
    );
}

#[test]
fn image_fragments() {
    let html = compile_ast(vec![Expression::ExternalImage {
        alt: "a".to_string(),
        url: "u".to_string(),
    }]);
    assert_eq!(
        html,
        "<p class=\"block\">\n<img class=\"external-image\" alt=\"a\" src=\"u\"/>\n</p>\n"
    );

    let html = compile_ast(vec![Expression::InternalImage("i.png".to_string())]);
    assert_eq!(
        html,
        "<p class=\"block\">\n<img class=\"external-image\" alt=\"i.png\" src=\"i.png\"/>\n</p>\n"
    );
}

#[test]
fn container_fragments() {
    let html = compile_ast(vec![Expression::BlockQuote(vec![text("quoted")])]);
    assert_eq!(
        html,
        "<p class=\"block\">\n<quote class=\"blockquote\">\nquoted</quote>\n\n</p>\n"
    );

    let html = compile_ast(vec![Expression::HorizontalBar]);
    assert_eq!(html, "<p class=\"block\">\n<div class=\"horizontal-bar\"> </div>\n\n</p>\n");
}

#[test]
fn unimplemented_variants_render_nothing() {
    let html = compile_ast(vec![
        Expression::CodeBlock { lang: "rust".to_string(), contents: "fn".to_string() },
        Expression::TaskList(vec![]),
        Expression::Task { completed: true, content: vec![] },
        Expression::Callout { callout_type: "note".to_string(), contents: vec![] },
        Expression::Tables(vec![]),
        Expression::ListElement { style: "-".to_string(), loose: false, contents: vec![] },
    ]);
    assert_eq!(
        html,
        "<p class=\"block\">\n\n</p>\n<p class=\"block\">\n\n</p>\n<p class=\"block\">\n\n</p>\n<p class=\"block\">\n\n</p>\n<p class=\"block\">\n\n</p>\n<p class=\"block\">\n\n</p>\n"
    );
}
