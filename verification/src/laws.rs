//! Verified laws of the parser and renderer: properties that relate several
//! functions, proved from the models the contracts are stated over.

use crate::ast::ExprView;
use crate::converter::render_doc;
use crate::converter::render_doc_from;
use crate::converter::render_expr;
use crate::converter::render_seq_from;
use crate::parser::directive::DirView;
use crate::parser::directive::ScanView;
use crate::parser::directive::directive_model;
use crate::parser::directive::image_model;
use crate::parser::directive::inline_math_model;
use crate::parser::directive::internal_link_model;
use crate::parser::directive::remote_image_model;
use crate::parser::directive::single_backtick_model;
use crate::parser::directive::triple_backtick_model;
use crate::parser::directive::parse_inline_model;
use crate::parser::directive::scan_from_model;
use crate::parser::hbar_line;
use crate::parser::is_blank_model;
use crate::parser::line_model;
use crate::parser::lines_model;
use crate::parser::parse_from_model;
use crate::parser::parse_model;
use crate::parser::utils::FencedView;
use crate::parser::utils::fenced_model;
use crate::parser::utils::find_from;
use crate::parser::utils::is_ws;
use crate::parser::utils::lemma_find_from;
use crate::parser::utils::occurs_at;
use crate::parser::utils::trim_start_model;
use crate::parser::utils::StyleView;
use crate::parser::utils::style_model;
use vstd::prelude::*;

verus! {

broadcast use vstd::seq::group_seq_axioms;

/// A character that can begin some directive's start delimiter.  At a
/// position holding any other character, every recognizer reports a miss.
pub open spec fn is_directive_char(c: char) -> bool {
    c == '$' || c == '[' || c == '!' || c == '`' || c == '*' || c == '_' || c == '~' || c == '='
}

/// A pattern whose first character differs from the input's first character
/// does not occur at position zero.
proof fn lemma_start_differs(s: Seq<char>, p: Seq<char>)
    requires
        p.len() >= 1,
        s.len() == 0 || s[0] != p[0],
    ensures
        !occurs_at(s, p, 0),
{
    if occurs_at(s, p, 0) {
        assert(s.subrange(0, p.len() as int)[0] == s[0]);
    }
}

/// At a position whose character begins no directive, the dispatcher
/// reports a miss.
pub proof fn lemma_directive_plain(t: Seq<char>)
    requires
        t.len() == 0 || !is_directive_char(t[0]),
    ensures
        directive_model(t) is NoMatch,
{
    lemma_start_differs(t, seq!['$']);
    lemma_start_differs(t, seq!['[', '[']);
    lemma_start_differs(t, seq!['`', '`', '`']);
    lemma_start_differs(t, seq!['`']);
    lemma_start_differs(t, seq!['*', '*']);
    lemma_start_differs(t, seq!['_', '_']);
    lemma_start_differs(t, seq!['*']);
    lemma_start_differs(t, seq!['_']);
    lemma_start_differs(t, seq!['~', '~']);
    lemma_start_differs(t, seq!['=', '=']);
}

proof fn lemma_scan_all_miss(s: Seq<char>, i: int)
    requires
        0 <= i <= s.len(),
        forall|j: int|
            0 <= j < s.len() ==> #[trigger] directive_model(s.subrange(j, s.len() as int))
                is NoMatch,
    ensures
        scan_from_model(s, i) is NotFound,
    decreases s.len() - i,
{
    if i < s.len() {
        assert(directive_model(s.subrange(i, s.len() as int)) is NoMatch);
        lemma_scan_all_miss(s, i + 1);
    }
}

/// A line containing no recognized directive — one at which the dispatcher
/// misses at every position — scans to exactly one text node holding the
/// line itself, trimmed of leading whitespace.
pub proof fn lemma_no_directive_is_text(s: Seq<char>)
    requires
        s.len() > 0,
        forall|j: int|
            0 <= j < s.len() ==> #[trigger] directive_model(s.subrange(j, s.len() as int))
                is NoMatch,
    ensures
        parse_inline_model(s) == Some(seq![ExprView::Text(trim_start_model(s))]),
{
    lemma_scan_all_miss(s, 0);
}

/// The syntactic form of the plain-line law: a line holding no directive
/// character at all contains no recognized directive, so it scans to one
/// text node.
pub proof fn lemma_plain_line(s: Seq<char>)
    requires
        s.len() > 0,
        forall|k: int| 0 <= k < s.len() ==> !is_directive_char(s[k]),
    ensures
        parse_inline_model(s) == Some(seq![ExprView::Text(trim_start_model(s))]),
{
    assert forall|j: int| 0 <= j < s.len() implies #[trigger] directive_model(
        s.subrange(j, s.len() as int),
    ) is NoMatch by {
        let t = s.subrange(j, s.len() as int);
        assert(t[0] == s[j]);
        lemma_directive_plain(t);
    }
    lemma_no_directive_is_text(s);
}

/// The line holding exactly the reserved literal `---` parses as the
/// horizontal bar; a line holding anything else around it does not: with no
/// directive characters it is plain text.
pub proof fn lemma_horizontal_bar(line: Seq<char>)
    requires
        line.len() > 0,
        forall|k: int| 0 <= k < line.len() ==> !is_directive_char(line[k]),
    ensures
        line == hbar_line() ==> line_model(line) == Some(seq![ExprView::HorizontalBar]),
        line != hbar_line() ==> line_model(line) == Some(
            seq![ExprView::Text(trim_start_model(line))],
        ),
{
    if line != hbar_line() {
        lemma_plain_line(line);
    }
}

/// An input with no line feed is a single line.
pub proof fn lemma_single_line(s: Seq<char>)
    requires
        s.len() > 0,
        forall|k: int| 0 <= k < s.len() ==> s[k] != '\n',
    ensures
        lines_model(s) == seq![s],
{
    lemma_find_from(s, seq!['\n'], 0);
    match find_from(s, seq!['\n'], 0) {
        Some(j) => {
            assert(s.subrange(j, j + 1)[0] == s[j]);
        },
        None => {},
    }
}

/// A one-line document parses into a single block holding what the line
/// yields, and fails exactly where the line does.
pub proof fn lemma_parse_single_line(line: Seq<char>)
    requires
        line.len() > 0,
        forall|k: int| 0 <= k < line.len() ==> line[k] != '\n',
        !is_blank_model(line),
    ensures
        parse_model(line) == match line_model(line) {
            Some(es) => Ok::<Seq<ExprView>, int>(seq![ExprView::Block(es)]),
            None => Err::<Seq<ExprView>, int>(0int),
        },
{
    lemma_single_line(line);
    let lines = seq![line];
    match line_model(line) {
        Some(es) => {
            assert(Seq::<ExprView>::empty() + es =~= es);
            assert(parse_from_model(lines, 1, es) == Ok::<Seq<ExprView>, int>(
                seq![ExprView::Block(es)],
            ));
        },
        None => {},
    }
}

proof fn lemma_find_from_exact(s: Seq<char>, pat: Seq<char>, i: int, j: int)
    requires
        0 <= i <= j,
        occurs_at(s, pat, j),
        forall|k: int| i <= k < j ==> !occurs_at(s, pat, k),
    ensures
        find_from(s, pat, i) == Some(j),
    decreases j - i,
{
    if i < j {
        lemma_find_from_exact(s, pat, i + 1, j);
    }
}

/// Fence matching is first-occurrence: the interior of a matched fenced span
/// never contains the end delimiter.
pub proof fn lemma_fence_first_occurrence(s: Seq<char>, start: Seq<char>, end: Seq<char>)
    requires
        end.len() >= 1,
        fenced_model(s, start, end) is Hit,
    ensures
        match fenced_model(s, start, end) {
            FencedView::Hit(inner, rest) => forall|k: int|
                0 <= k <= inner.len() - end.len() ==> !occurs_at(inner, end, k),
            _ => true,
        },
{
    lemma_find_from(s, end, start.len() as int);
    match find_from(s, end, start.len() as int) {
        Some(i) => {
            let inner = s.subrange(start.len() as int, i);
            assert forall|k: int| 0 <= k <= inner.len() - end.len() implies !occurs_at(
                inner,
                end,
                k,
            ) by {
                if occurs_at(inner, end, k) {
                    assert(s.subrange(start.len() + k, start.len() + k + end.len())
                        =~= inner.subrange(k, k + end.len()));
                    assert(occurs_at(s, end, start.len() + k));
                }
            }
        },
        None => {},
    }
}

/// A whole line of the shape `boundary X boundary`, where the boundary does
/// not occur earlier inside `X boundary`, scans the interior `X` recursively
/// and leaves nothing behind.
proof fn lemma_style_span(b: Seq<char>, x: Seq<char>)
    requires
        b.len() >= 1,
        forall|k: int| 0 <= k < x.len() ==> !occurs_at(x + b, b, k),
    ensures
        style_model(b + x + b, b) == (match parse_inline_model(x) {
            Some(es) => StyleView::Hit(es, Seq::<char>::empty()),
            None => StyleView::Failed,
        }),
{
    let s = b + x + b;
    let bl = b.len() as int;
    let xl = x.len() as int;
    assert(s.subrange(0, bl) =~= b);
    assert(s.subrange(bl + xl, bl + xl + bl) =~= b);
    assert(occurs_at(s, b, bl + xl));
    assert forall|m: int| bl <= m < bl + xl implies !occurs_at(s, b, m) by {
        if occurs_at(s, b, m) {
            let k = m - bl;
            assert((x + b).subrange(k, k + bl) =~= s.subrange(m, m + bl));
            assert(occurs_at(x + b, b, k));
        }
    }
    lemma_find_from_exact(s, b, bl, bl + xl);
    assert(s.subrange(bl, bl + xl) =~= x);
    assert(s.subrange(bl + xl + bl, s.len() as int) =~= Seq::<char>::empty());
}

/// Every recognizer of higher priority than the styled spans misses at a
/// position holding a style character.
proof fn lemma_styles_have_priority(s: Seq<char>)
    requires
        s.len() > 0,
        s[0] == '*' || s[0] == '_' || s[0] == '~' || s[0] == '=',
    ensures
        inline_math_model(s) is NoMatch,
        internal_link_model(s) is NoMatch,
        remote_image_model(s) is NoMatch,
        triple_backtick_model(s) is NoMatch,
        single_backtick_model(s) is NoMatch,
        image_model(s) is NoMatch,
{
    lemma_start_differs(s, seq!['$']);
    lemma_start_differs(s, seq!['[', '[']);
    lemma_start_differs(s, seq!['`', '`', '`']);
    lemma_start_differs(s, seq!['`']);
}

/// A line at whose start the dispatcher matches a directive consuming the
/// whole line yields exactly that one node.
proof fn lemma_single_span_line(s: Seq<char>, e: ExprView)
    requires
        s.len() > 0,
        directive_model(s) == DirView::Match(e, Seq::<char>::empty()),
    ensures
        parse_inline_model(s) == Some(seq![e]),
{
    assert(s.subrange(0, s.len() as int) =~= s);
    assert(scan_from_model(s, 0) == ScanView::Found(0, e, Seq::<char>::empty()));
    assert(parse_inline_model(Seq::<char>::empty()) == Some(Seq::<ExprView>::empty()));
    assert(Seq::<ExprView>::empty() + seq![e] + Seq::<ExprView>::empty() =~= seq![e]);
}

/// A line at whose start the dispatcher fails hard fails the whole scan.
proof fn lemma_failed_span_line(s: Seq<char>)
    requires
        s.len() > 0,
        directive_model(s) is Failed,
    ensures
        parse_inline_model(s) is None,
{
    assert(s.subrange(0, s.len() as int) =~= s);
    assert(scan_from_model(s, 0) is Failed);
}

/// A well-formed `**X**` line parses as a bold node around the inline parse
/// of `X`, and fails exactly where `X` does.  Well-formed means the closing
/// delimiter's first occurrence after the opening is at the very end.
pub proof fn lemma_bold_star(x: Seq<char>)
    requires
        forall|k: int| 0 <= k < x.len() ==> !occurs_at(x + seq!['*', '*'], seq!['*', '*'], k),
    ensures
        parse_inline_model(seq!['*', '*'] + x + seq!['*', '*']) == (match parse_inline_model(x) {
            Some(es) => Some(seq![ExprView::Bold(es)]),
            None => None::<Seq<ExprView>>,
        }),
{
    let b = seq!['*', '*'];
    let s = b + x + b;
    assert(s[0] == '*');
    lemma_styles_have_priority(s);
    lemma_style_span(b, x);
    match parse_inline_model(x) {
        Some(es) => {
            lemma_single_span_line(s, ExprView::Bold(es));
        },
        None => {
            lemma_failed_span_line(s);
        },
    }
}

/// The underscore form of the bold law: a well-formed `__X__` line.
pub proof fn lemma_bold_underscore(x: Seq<char>)
    requires
        forall|k: int| 0 <= k < x.len() ==> !occurs_at(x + seq!['_', '_'], seq!['_', '_'], k),
    ensures
        parse_inline_model(seq!['_', '_'] + x + seq!['_', '_']) == (match parse_inline_model(x) {
            Some(es) => Some(seq![ExprView::Bold(es)]),
            None => None::<Seq<ExprView>>,
        }),
{
    let b = seq!['_', '_'];
    let s = b + x + b;
    assert(s[0] == '_');
    lemma_styles_have_priority(s);
    lemma_start_differs(s, seq!['*', '*']);
    lemma_style_span(b, x);
    match parse_inline_model(x) {
        Some(es) => {
            lemma_single_span_line(s, ExprView::Bold(es));
        },
        None => {
            lemma_failed_span_line(s);
        },
    }
}

/// A well-formed `*X*` line, `X` nonempty and free of stars, parses as an
/// italic node around the inline parse of `X`.
pub proof fn lemma_italic_star(x: Seq<char>)
    requires
        x.len() > 0,
        forall|k: int| 0 <= k < x.len() ==> x[k] != '*',
    ensures
        parse_inline_model(seq!['*'] + x + seq!['*']) == (match parse_inline_model(x) {
            Some(es) => Some(seq![ExprView::Italic(es)]),
            None => None::<Seq<ExprView>>,
        }),
{
    let b = seq!['*'];
    let s = b + x + b;
    assert(s[0] == '*');
    lemma_styles_have_priority(s);
    // bold misses: the second character is not a star, and not an underscore
    if occurs_at(s, seq!['*', '*'], 0) {
        assert(s.subrange(0, 2)[1] == s[1]);
        assert(s[1] == x[0]);
    }
    lemma_start_differs(s, seq!['_', '_']);
    assert forall|k: int| 0 <= k < x.len() implies !occurs_at(x + b, b, k) by {
        if occurs_at(x + b, b, k) {
            assert((x + b).subrange(k, k + 1)[0] == (x + b)[k]);
        }
    }
    lemma_style_span(b, x);
    match parse_inline_model(x) {
        Some(es) => {
            lemma_single_span_line(s, ExprView::Italic(es));
        },
        None => {
            lemma_failed_span_line(s);
        },
    }
}

/// The underscore form of the italic law: a well-formed `_X_` line.
pub proof fn lemma_italic_underscore(x: Seq<char>)
    requires
        x.len() > 0,
        forall|k: int| 0 <= k < x.len() ==> x[k] != '_',
    ensures
        parse_inline_model(seq!['_'] + x + seq!['_']) == (match parse_inline_model(x) {
            Some(es) => Some(seq![ExprView::Italic(es)]),
            None => None::<Seq<ExprView>>,
        }),
{
    let b = seq!['_'];
    let s = b + x + b;
    assert(s[0] == '_');
    lemma_styles_have_priority(s);
    lemma_start_differs(s, seq!['*', '*']);
    if occurs_at(s, seq!['_', '_'], 0) {
        assert(s.subrange(0, 2)[1] == s[1]);
        assert(s[1] == x[0]);
    }
    lemma_start_differs(s, seq!['*']);
    assert forall|k: int| 0 <= k < x.len() implies !occurs_at(x + b, b, k) by {
        if occurs_at(x + b, b, k) {
            assert((x + b).subrange(k, k + 1)[0] == (x + b)[k]);
        }
    }
    lemma_style_span(b, x);
    match parse_inline_model(x) {
        Some(es) => {
            lemma_single_span_line(s, ExprView::Italic(es));
        },
        None => {
            lemma_failed_span_line(s);
        },
    }
}

/// A well-formed `~~X~~` line parses as a strikethrough node around the
/// inline parse of `X`.
pub proof fn lemma_strikethrough(x: Seq<char>)
    requires
        forall|k: int| 0 <= k < x.len() ==> !occurs_at(x + seq!['~', '~'], seq!['~', '~'], k),
    ensures
        parse_inline_model(seq!['~', '~'] + x + seq!['~', '~']) == (match parse_inline_model(x) {
            Some(es) => Some(seq![ExprView::StrikeThrough(es)]),
            None => None::<Seq<ExprView>>,
        }),
{
    let b = seq!['~', '~'];
    let s = b + x + b;
    assert(s[0] == '~');
    lemma_styles_have_priority(s);
    lemma_start_differs(s, seq!['*', '*']);
    lemma_start_differs(s, seq!['_', '_']);
    lemma_start_differs(s, seq!['*']);
    lemma_start_differs(s, seq!['_']);
    lemma_style_span(b, x);
    match parse_inline_model(x) {
        Some(es) => {
            lemma_single_span_line(s, ExprView::StrikeThrough(es));
        },
        None => {
            lemma_failed_span_line(s);
        },
    }
}

/// A well-formed `==X==` line parses as a highlight node around the inline
/// parse of `X`.
pub proof fn lemma_highlight(x: Seq<char>)
    requires
        forall|k: int| 0 <= k < x.len() ==> !occurs_at(x + seq!['=', '='], seq!['=', '='], k),
    ensures
        parse_inline_model(seq!['=', '='] + x + seq!['=', '=']) == (match parse_inline_model(x) {
            Some(es) => Some(seq![ExprView::Highlight(es)]),
            None => None::<Seq<ExprView>>,
        }),
{
    let b = seq!['=', '='];
    let s = b + x + b;
    assert(s[0] == '=');
    lemma_styles_have_priority(s);
    lemma_start_differs(s, seq!['*', '*']);
    lemma_start_differs(s, seq!['_', '_']);
    lemma_start_differs(s, seq!['*']);
    lemma_start_differs(s, seq!['_']);
    lemma_start_differs(s, seq!['~', '~']);
    lemma_style_span(b, x);
    match parse_inline_model(x) {
        Some(es) => {
            lemma_single_span_line(s, ExprView::Highlight(es));
        },
        None => {
            lemma_failed_span_line(s);
        },
    }
}

/// An unterminated fence is a parse failure, never a silent fallback to
/// plain text: a line opening an inline-code fence that is never closed
/// fails the whole scan.
pub proof fn lemma_unterminated_fence(x: Seq<char>)
    requires
        forall|k: int| 0 <= k < x.len() ==> x[k] != '`',
    ensures
        parse_inline_model(seq!['`'] + x) is None,
{
    let s = seq!['`'] + x;
    assert(s[0] == '`');
    lemma_start_differs(s, seq!['$']);
    lemma_start_differs(s, seq!['[', '[']);
    if occurs_at(s, seq!['`', '`', '`'], 0) {
        assert(s.subrange(0, 3)[1] == s[1]);
        assert(s[1] == x[0]);
    }
    assert(s.subrange(0, 1) =~= seq!['`']);
    lemma_find_from(s, seq!['`'], 1);
    match find_from(s, seq!['`'], 1) {
        Some(j) => {
            assert(s.subrange(j, j + 1)[0] == s[j]);
            assert(s[j] == x[j - 1]);
        },
        None => {},
    }
    lemma_failed_span_line(s);
}

/// Two non-blank lines with a blank line between them parse into two
/// blocks, one per line; with no blank line between them they parse into one
/// block holding both lines' nodes in order.  Errors carry the index of the
/// offending line.
pub proof fn lemma_blank_line_splits(a: Seq<char>, b: Seq<char>)
    requires
        a.len() > 0,
        b.len() > 0,
        forall|k: int| 0 <= k < a.len() ==> a[k] != '\n' && a[k] != '\r',
        forall|k: int| 0 <= k < b.len() ==> b[k] != '\n' && b[k] != '\r',
        !is_blank_model(a),
        !is_blank_model(b),
    ensures
        parse_model(a + seq!['\n', '\n'] + b) == match (line_model(a), line_model(b)) {
            (Some(ea), Some(eb)) => Ok::<Seq<ExprView>, int>(
                seq![ExprView::Block(ea), ExprView::Block(eb)],
            ),
            (None, _) => Err::<Seq<ExprView>, int>(0int),
            (Some(_), None) => Err::<Seq<ExprView>, int>(2int),
        },
        parse_model(a + seq!['\n'] + b) == match (line_model(a), line_model(b)) {
            (Some(ea), Some(eb)) => Ok::<Seq<ExprView>, int>(seq![ExprView::Block(ea + eb)]),
            (None, _) => Err::<Seq<ExprView>, int>(0int),
            (Some(_), None) => Err::<Seq<ExprView>, int>(1int),
        },
{
    lemma_lines_two(a, b, seq!['\n', '\n']);
    lemma_lines_two(a, b, seq!['\n']);
    let lines2 = seq![a, Seq::<char>::empty(), b];
    let lines1 = seq![a, b];
    assert(is_blank_model(Seq::<char>::empty()));
    match line_model(a) {
        Some(ea) => {
            assert(Seq::<ExprView>::empty() + ea =~= ea);
            assert(parse_from_model(lines2, 0, Seq::empty()) == parse_from_model(lines2, 1, ea));
            assert(parse_from_model(lines1, 0, Seq::empty()) == parse_from_model(lines1, 1, ea));
            match line_model(b) {
                Some(eb) => {
                    assert(Seq::<ExprView>::empty() + eb =~= eb);
                    assert(parse_from_model(lines2, 3, eb) == Ok::<Seq<ExprView>, int>(
                        seq![ExprView::Block(eb)],
                    ));
                    assert(parse_from_model(lines2, 2, Seq::empty()) == parse_from_model(
                        lines2,
                        3,
                        eb,
                    ));
                    assert(seq![ExprView::Block(ea)] + seq![ExprView::Block(eb)] =~= seq![
                        ExprView::Block(ea),
                        ExprView::Block(eb),
                    ]);
                    assert(parse_from_model(lines1, 2, ea + eb) == Ok::<Seq<ExprView>, int>(
                        seq![ExprView::Block(ea + eb)],
                    ));
                    assert(parse_from_model(lines1, 1, ea) == parse_from_model(lines1, 2, ea + eb));
                },
                None => {
                    assert(parse_from_model(lines2, 2, Seq::empty()) == Err::<Seq<ExprView>, int>(
                        2int,
                    ));
                    assert(parse_from_model(lines1, 1, ea) == Err::<Seq<ExprView>, int>(1int));
                },
            }
        },
        None => {},
    }
}

/// The middle separator, all line feeds, splits `a + sep + b` into the line
/// `a`, one empty line per line feed beyond the first, and the line `b`.
proof fn lemma_lines_two(a: Seq<char>, b: Seq<char>, sep: Seq<char>)
    requires
        a.len() > 0,
        b.len() > 0,
        forall|k: int| 0 <= k < a.len() ==> a[k] != '\n' && a[k] != '\r',
        forall|k: int| 0 <= k < b.len() ==> b[k] != '\n' && b[k] != '\r',
        sep == seq!['\n'] || sep == seq!['\n', '\n'],
    ensures
        sep == seq!['\n'] ==> lines_model(a + sep + b) == seq![a, b],
        sep == seq!['\n', '\n'] ==> lines_model(a + sep + b) == seq![a, Seq::<char>::empty(), b],
{
    let s = a + sep + b;
    let al = a.len() as int;
    assert(s.subrange(al, al + 1) =~= seq!['\n']);
    assert forall|k: int| 0 <= k < al implies !occurs_at(s, seq!['\n'], k) by {
        if occurs_at(s, seq!['\n'], k) {
            assert(s.subrange(k, k + 1)[0] == s[k]);
        }
    }
    lemma_find_from_exact(s, seq!['\n'], 0, al);
    assert(s.subrange(0, al) =~= a);
    let t = s.subrange(al + 1, s.len() as int);
    if sep == seq!['\n'] {
        assert(t =~= b);
        lemma_single_line(b);
    } else {
        assert(t =~= seq!['\n'] + b);
        assert(t.subrange(0, 1) =~= seq!['\n']);
        lemma_find_from_exact(t, seq!['\n'], 0, 0);
        assert(t.subrange(0, 0) =~= Seq::<char>::empty());
        assert(t.subrange(1, t.len() as int) =~= b);
        lemma_single_line(b);
        assert(lines_model(t) == seq![Seq::<char>::empty()] + seq![b]);
        assert(seq![Seq::<char>::empty()] + seq![b] =~= seq![Seq::<char>::empty(), b]);
        assert(seq![a] + seq![Seq::<char>::empty(), b] =~= seq![a, Seq::<char>::empty(), b]);
    }
}

/// Round-trip idempotence on plain text: rendering the parse of a one-line
/// document holding no directive character reproduces the text unchanged
/// inside the paragraph wrapper.
pub proof fn lemma_round_trip_plain(s: Seq<char>)
    requires
        s.len() > 0,
        !is_ws(s[0]),
        s != hbar_line(),
        forall|k: int| 0 <= k < s.len() ==> !is_directive_char(s[k]) && s[k] != '\n',
    ensures
        match parse_model(s) {
            Ok(blocks) => render_doc(blocks) == "<p class=\"block\">\n"@ + s + "\n</p>\n"@,
            Err(_) => false,
        },
{
    assert(!is_blank_model(s)) by {
        assert(!is_ws(s[0]));
    }
    lemma_plain_line(s);
    lemma_parse_single_line(s);
    let blocks = seq![ExprView::Block(seq![ExprView::Text(s)])];
    assert(parse_model(s) == Ok::<Seq<ExprView>, int>(blocks));
    assert(seq![ExprView::Text(s)][0] == ExprView::Text(s));
    assert(render_expr(ExprView::Text(s)) == s);
    assert(render_seq_from(seq![ExprView::Text(s)], 1) =~= Seq::<char>::empty());
    assert(render_seq_from(seq![ExprView::Text(s)], 0) =~= s);
    assert(blocks[0] == ExprView::Block(seq![ExprView::Text(s)]));
    assert(render_expr(blocks[0]) =~= s);
    assert(render_doc_from(blocks, 1) =~= Seq::<char>::empty());
    assert(render_doc(blocks) =~= "<p class=\"block\">\n"@ + s + "\n</p>\n"@);
}

} // verus!

