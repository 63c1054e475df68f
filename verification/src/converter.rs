//! The renderer: walks the document tree and emits HTML.
//!
//! Each node variant maps to one fixed HTML fragment, given exactly by
//! [`render_expr`]; container variants wrap a recursive render of their
//! children.  Variants with no implemented rendering (code blocks, tasks,
//! callouts, tables, list elements) produce no output by design: they are
//! inert placeholders for unfinished feature scope, not errors.

use crate::ast::Document;
use crate::ast::Expression;
use crate::ast::ExprView;
use crate::ast::lemma_model_seq;
use vstd::prelude::*;

verus! {

broadcast use vstd::seq::group_seq_axioms, vstd::std_specs::vec::group_vec_axioms;

/// A conversion failure: the output sink refused a write.  Rendering into a
/// `String` cannot fail, so the verified renderer never returns it; callers
/// that stream the rendered text onward use it to report their sink's error.
#[derive(Debug)]
pub enum ConversionError {
    IoError,
}

/// The decimal digits of `n`, most significant first.
pub open spec fn dec_model(n: nat) -> Seq<char>
    decreases n,
{
    if n < 10 {
        seq![digit_char(n)]
    } else {
        dec_model(n / 10).push(digit_char(n % 10))
    }
}

/// The character for one decimal digit.
pub open spec fn digit_char(d: nat) -> char {
    if d == 0 {
        '0'
    } else if d == 1 {
        '1'
    } else if d == 2 {
        '2'
    } else if d == 3 {
        '3'
    } else if d == 4 {
        '4'
    } else if d == 5 {
        '5'
    } else if d == 6 {
        '6'
    } else if d == 7 {
        '7'
    } else if d == 8 {
        '8'
    } else {
        '9'
    }
}

/// The tag a heading renders with: `h1` to `h4`, any deeper level degrading
/// to a generic container tag.
pub open spec fn heading_tag(level: int) -> Seq<char> {
    if level == 1 {
        "h1"@
    } else if level == 2 {
        "h2"@
    } else if level == 3 {
        "h3"@
    } else if level == 4 {
        "h4"@
    } else {
        "div"@
    }
}

/// The exact HTML fragment one node renders to.
pub open spec fn render_expr(e: ExprView) -> Seq<char>
    decreases e, 0int,
{
    match e {
        ExprView::Text(t) => t,
        ExprView::RawHyperLink(l) => "<a class=\"link\" href\""@ + l + "\">"@ + l + "</a>"@,
        ExprView::InternalLink(l) => "<a class=\"link internal-link\" href=\""@ + l + "\"> "@ + l,
        ExprView::InlineCode(c) => "<span class=\"inline-code\">"@ + c + "</span>"@,
        ExprView::InlineMath(m) => "$"@ + m + "$"@,
        ExprView::BlockMath(m) => "$$"@ + m + "$$"@,
        ExprView::Heading { level, text } => "<"@ + heading_tag(level)
            + " class=\"heading header-"@ + dec_model(level as nat) + "\">"@ + text + "</div>"@,
        ExprView::CodeBlock { lang, contents } => Seq::empty(),
        ExprView::TaskList(v) => Seq::empty(),
        ExprView::Task { completed, content } => Seq::empty(),
        ExprView::BlockQuote(v) => "<quote class=\"blockquote\">\n"@ + render_seq_from(v, 0)
            + "</quote>\n"@,
        ExprView::Callout { callout_type, contents } => Seq::empty(),
        ExprView::ExternalImage { alt, url } => "<img class=\"external-image\" alt=\""@ + alt
            + "\" src=\""@ + url + "\"/>"@,
        ExprView::InternalImage(l) => "<img class=\"external-image\" alt=\""@ + l + "\" src=\""@
            + l + "\"/>"@,
        ExprView::Tables(v) => Seq::empty(),
        ExprView::Italic(v) => "<span class=\"italic\">\n"@ + render_seq_from(v, 0) + "</span>\n"@,
        ExprView::Bold(v) => "<span class=\"bold\">\n"@ + render_seq_from(v, 0) + "</span>\n"@,
        ExprView::StrikeThrough(v) => "<span class=\"strikethrough\">\n"@ + render_seq_from(v, 0)
            + "</span>\n"@,
        ExprView::Highlight(v) => "<span class=\"highlight\">\n"@ + render_seq_from(v, 0)
            + "</span>\n"@,
        ExprView::HorizontalBar => "<div class=\"horizontal-bar\"> </div>\n"@,
        ExprView::ListElement { style, loose, contents } => Seq::empty(),
        ExprView::Block(v) => render_seq_from(v, 0),
    }
}

/// The fragments of the nodes from index `i` on, concatenated in order.
pub open spec fn render_seq_from(v: Seq<ExprView>, i: int) -> Seq<char>
    decreases v, v.len() - i + 1,
{
    if 0 <= i < v.len() {
        render_expr(v[i]) + render_seq_from(v, i + 1)
    } else {
        Seq::empty()
    }
}

/// The fragments of a sequence of nodes, concatenated in order.
pub open spec fn render_seq(v: Seq<ExprView>) -> Seq<char> {
    render_seq_from(v, 0)
}

/// The whole document from block index `i` on: each block wrapped in the
/// paragraph-class wrapper.
pub open spec fn render_doc_from(contents: Seq<ExprView>, i: int) -> Seq<char>
    decreases contents.len() - i,
{
    if 0 <= i < contents.len() {
        "<p class=\"block\">\n"@ + render_expr(contents[i]) + "\n</p>\n"@ + render_doc_from(
            contents,
            i + 1,
        )
    } else {
        Seq::empty()
    }
}

/// The HTML of the whole document.
pub open spec fn render_doc(contents: Seq<ExprView>) -> Seq<char> {
    render_doc_from(contents, 0)
}

/// The decimal digit `d` as a string slice.
fn digit_str(d: usize) -> (r: &'static str)
    requires
        d < 10,
    ensures
        r@ == seq![digit_char(d as nat)],
{
    proof {
        reveal_strlit("0");
        reveal_strlit("1");
        reveal_strlit("2");
        reveal_strlit("3");
        reveal_strlit("4");
        reveal_strlit("5");
        reveal_strlit("6");
        reveal_strlit("7");
        reveal_strlit("8");
        reveal_strlit("9");
        assert("0"@ =~= seq![digit_char(0)]);
        assert("1"@ =~= seq![digit_char(1)]);
        assert("2"@ =~= seq![digit_char(2)]);
        assert("3"@ =~= seq![digit_char(3)]);
        assert("4"@ =~= seq![digit_char(4)]);
        assert("5"@ =~= seq![digit_char(5)]);
        assert("6"@ =~= seq![digit_char(6)]);
        assert("7"@ =~= seq![digit_char(7)]);
        assert("8"@ =~= seq![digit_char(8)]);
        assert("9"@ =~= seq![digit_char(9)]);
    }
    if d == 0 {
        "0"
    } else if d == 1 {
        "1"
    } else if d == 2 {
        "2"
    } else if d == 3 {
        "3"
    } else if d == 4 {
        "4"
    } else if d == 5 {
        "5"
    } else if d == 6 {
        "6"
    } else if d == 7 {
        "7"
    } else if d == 8 {
        "8"
    } else {
        "9"
    }
}

/// Appends the decimal rendering of `n` to the output.
fn append_decimal(n: usize, output: &mut String)
    ensures
        final(output)@ == old(output)@ + dec_model(n as nat),
    decreases n,
{
    if n < 10 {
        output.append(digit_str(n));
    } else {
        append_decimal(n / 10, output);
        output.append(digit_str(n % 10));
        proof {
            assert(output@ =~= old(output)@ + dec_model(n as nat));
        }
    }
}

/// Renders one node into the output: exactly the fragment [`render_expr`]
/// gives for it.
pub fn convert_expression(expr: &Expression, output: &mut String) -> (r: Result<
    (),
    ConversionError,
>)
    ensures
        r is Ok,
        final(output)@ == old(output)@ + render_expr(expr.model()),
    decreases *expr, 0int,
{
    match expr {
        Expression::Text(text) => {
            output.append(text.as_str());
        },
        Expression::RawHyperLink(link) => {
            output.append("<a class=\"link\" href\"");
            output.append(link.as_str());
            output.append("\">");
            output.append(link.as_str());
            output.append("</a>");
        },
        Expression::InternalLink(link) => {
            output.append("<a class=\"link internal-link\" href=\"");
            output.append(link.as_str());
            output.append("\"> ");
            output.append(link.as_str());
        },
        Expression::InlineCode(code) => {
            output.append("<span class=\"inline-code\">");
            output.append(code.as_str());
            output.append("</span>");
        },
        Expression::InlineMath(math) => {
            output.append("$");
            output.append(math.as_str());
            output.append("$");
        },
        Expression::BlockMath(math) => {
            output.append("$$");
            output.append(math.as_str());
            output.append("$$");
        },
        Expression::Heading { level, text } => {
            output.append("<");
            let tag = if *level == 1 {
                "h1"
            } else if *level == 2 {
                "h2"
            } else if *level == 3 {
                "h3"
            } else if *level == 4 {
                "h4"
            } else {
                "div"
            };
            output.append(tag);
            output.append(" class=\"heading header-");
            append_decimal(*level, output);
            output.append("\">");
            output.append(text.as_str());
            output.append("</div>");
        },
        Expression::CodeBlock { lang: _, contents: _ } => {},
        Expression::TaskList(_elements) => {},
        Expression::Task { completed: _, content: _ } => {},
        Expression::BlockQuote(contents) => {
            output.append("<quote class=\"blockquote\">\n");
            let _inner = convert_inner(contents, output);
            output.append("</quote>\n");
        },
        Expression::Callout { callout_type: _, contents: _ } => {},
        Expression::ExternalImage { alt, url } => {
            output.append("<img class=\"external-image\" alt=\"");
            output.append(alt.as_str());
            output.append("\" src=\"");
            output.append(url.as_str());
            output.append("\"/>");
        },
        Expression::InternalImage(link) => {
            output.append("<img class=\"external-image\" alt=\"");
            output.append(link.as_str());
            output.append("\" src=\"");
            output.append(link.as_str());
            output.append("\"/>");
        },
        Expression::Tables(_rows) => {},
        Expression::Italic(contents) => {
            output.append("<span class=\"italic\">\n");
            let _inner = convert_inner(contents, output);
            output.append("</span>\n");
        },
        Expression::Bold(contents) => {
            output.append("<span class=\"bold\">\n");
            let _inner = convert_inner(contents, output);
            output.append("</span>\n");
        },
        Expression::StrikeThrough(contents) => {
            output.append("<span class=\"strikethrough\">\n");
            let _inner = convert_inner(contents, output);
            output.append("</span>\n");
        },
        Expression::Highlight(contents) => {
            output.append("<span class=\"highlight\">\n");
            let _inner = convert_inner(contents, output);
            output.append("</span>\n");
        },
        Expression::HorizontalBar => {
            output.append("<div class=\"horizontal-bar\"> </div>\n");
        },
        Expression::ListElement { style: _, loose: _, contents: _ } => {},
        Expression::Block(contents) => {
            let _inner = convert_inner(contents, output);
        },
    }
    proof {
        assert(output@ =~= old(output)@ + render_expr(expr.model()));
    }
    Ok(())
}

/// Renders a list of sibling nodes, in order.
pub fn convert_inner(elements: &Vec<Expression>, output: &mut String) -> (r: Result<
    (),
    ConversionError,
>)
    ensures
        r is Ok,
        final(output)@ == old(output)@ + render_seq(Expression::model_seq(elements@)),
    decreases *elements, 1int,
{
    let ghost m = Expression::model_seq(elements@);
    proof {
        lemma_model_seq(elements@);
    }
    let n = elements.len();
    let mut i: usize = 0;
    while i < n
        invariant
            i <= n,
            n == elements@.len(),
            m == Expression::model_seq(elements@),
            m.len() == n,
            forall|j: int| 0 <= j < n ==> #[trigger] m[j] == elements@[j].model(),
            old(output)@ + render_seq_from(m, 0) == output@ + render_seq_from(m, i as int),
        decreases n - i,
    {
        let ghost before = output@;
        let _e = convert_expression(&elements[i], output);
        proof {
            assert(before + render_expr(m[i as int]) + render_seq_from(m, i + 1) =~= before
                + render_seq_from(m, i as int));
        }
        i += 1;
    }
    proof {
        assert(output@ + render_seq_from(m, n as int) =~= output@);
        assert(old(output)@ + render_seq_from(m, 0) =~= output@);
    }
    Ok(())
}

/// Renders the whole document: each top-level entry between an opening
/// paragraph-class wrapper and the matching closing tag.
pub fn convert(document: &Document, output: &mut String) -> (r: Result<(), ConversionError>)
    ensures
        r is Ok,
        final(output)@ == old(output)@ + render_doc(Expression::model_seq(document.contents@)),
{
    let ghost m = Expression::model_seq(document.contents@);
    proof {
        lemma_model_seq(document.contents@);
    }
    let n = document.contents.len();
    let mut i: usize = 0;
    while i < n
        invariant
            i <= n,
            n == document.contents@.len(),
            m == Expression::model_seq(document.contents@),
            m.len() == n,
            forall|j: int| 0 <= j < n ==> #[trigger] m[j] == document.contents@[j].model(),
            old(output)@ + render_doc_from(m, 0) == output@ + render_doc_from(m, i as int),
        decreases n - i,
    {
        let ghost before = output@;
        output.append("<p class=\"block\">\n");
        let _e = convert_expression(&document.contents[i], output);
        output.append("\n</p>\n");
        proof {
            assert(before + ("<p class=\"block\">\n"@ + render_expr(m[i as int]) + "\n</p>\n"@
                + render_doc_from(m, i + 1)) =~= before + render_doc_from(m, i as int));
            assert(output@ =~= before + ("<p class=\"block\">\n"@ + render_expr(m[i as int])
                + "\n</p>\n"@));
            assert(output@ + render_doc_from(m, i + 1) =~= before + render_doc_from(m, i as int));
        }
        i += 1;
    }
    proof {
        assert(output@ + render_doc_from(m, n as int) =~= output@);
        assert(old(output)@ + render_doc_from(m, 0) =~= output@);
    }
    Ok(())
}

} // verus!
