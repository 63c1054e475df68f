//! The inline-directive recognizers and the inline scanner.
//!
//! At a given position, [`directive`] tries each recognizer in a fixed
//! priority order and returns the first success.  A recognizer can also fail
//! hard: a fence whose start delimiter matched but whose end delimiter never
//! occurs is a malformed span, not a near-miss, and the failure propagates.
//! [`parse_inline`] walks a line left to right, collecting directive matches
//! and the plain text between them.

use crate::ast::Expression;
use crate::ast::ExprView;
use crate::ast::lemma_model_seq_push;
use crate::parser::utils::Styled;
use crate::parser::utils::StyleView;
use crate::parser::utils::Fenced;
use crate::parser::utils::FencedView;
use crate::parser::utils::fenced;
use crate::parser::utils::fenced_model;
use crate::parser::utils::find_char_from;
use crate::parser::utils::find_from;
use crate::parser::utils::style;
use crate::parser::utils::style_model;
use crate::parser::utils::trim_end;
use crate::parser::utils::trim_end_cr;
use crate::parser::utils::trim_end_cr_model;
use crate::parser::utils::trim_end_model;
use crate::parser::utils::trim_start;
use crate::parser::utils::trim_start_model;
use vstd::prelude::*;

verus! {

broadcast use vstd::seq::group_seq_axioms, vstd::std_specs::vec::group_vec_axioms;

/// Outcome of trying one recognizer, or all of them, at a position.
pub enum Directive<'a> {
    /// A directive begins here: the parsed node and the remaining input.
    Hit { node: Expression, rest: &'a str },
    /// No directive begins here; the position is plain text.
    Miss,
    /// A malformed span begins here (an unterminated fence).
    Failed,
}

/// Ghost counterpart of [`Directive`].
pub enum DirView {
    Match(ExprView, Seq<char>),
    NoMatch,
    Failed,
}

/// The exec outcome `r` agrees with the model outcome `m` on an input of
/// length `n`; a hit leaves strictly less than `n` characters behind.
pub open spec fn dir_ok(r: Directive, m: DirView, n: nat) -> bool {
    match r {
        Directive::Hit { node, rest } => m == DirView::Match(node.model(), rest@) && rest@.len()
            < n,
        Directive::Miss => m is NoMatch,
        Directive::Failed => m is Failed,
    }
}

/// An inline math span: `$...$`.
pub open spec fn inline_math_model(s: Seq<char>) -> DirView {
    match fenced_model(s, seq!['$'], seq!['$']) {
        FencedView::Hit(inner, rest) => DirView::Match(ExprView::InlineMath(inner), rest),
        FencedView::Miss => DirView::NoMatch,
        FencedView::Unterminated => DirView::Failed,
    }
}

/// A wiki-style internal link: `[[...]]`.
pub open spec fn internal_link_model(s: Seq<char>) -> DirView {
    match fenced_model(s, seq!['[', '['], seq![']', ']']) {
        FencedView::Hit(inner, rest) => DirView::Match(ExprView::InternalLink(inner), rest),
        FencedView::Miss => DirView::NoMatch,
        FencedView::Unterminated => DirView::Failed,
    }
}

/// Ghost outcome of scanning a markdown-style link `[alt](url)`.
pub enum MdLinkView {
    Hit(Seq<char>, Seq<char>, Seq<char>),
    Miss,
    Failed,
}

/// A markdown-style link: `[alt](url)`.
pub open spec fn markdown_link_model(s: Seq<char>) -> MdLinkView {
    match fenced_model(s, seq!['['], seq![']']) {
        FencedView::Hit(alt, r1) => match fenced_model(r1, seq!['('], seq![')']) {
            FencedView::Hit(url, r2) => MdLinkView::Hit(alt, url, r2),
            FencedView::Miss => MdLinkView::Miss,
            FencedView::Unterminated => MdLinkView::Failed,
        },
        FencedView::Miss => MdLinkView::Miss,
        FencedView::Unterminated => MdLinkView::Failed,
    }
}

/// An external image: `!` immediately followed by a markdown-style link.
pub open spec fn remote_image_model(s: Seq<char>) -> DirView {
    if s.len() >= 1 && s[0] == '!' {
        match markdown_link_model(s.subrange(1, s.len() as int)) {
            MdLinkView::Hit(alt, url, rest) => DirView::Match(
                ExprView::ExternalImage { alt, url },
                rest,
            ),
            MdLinkView::Miss => DirView::NoMatch,
            MdLinkView::Failed => DirView::Failed,
        }
    } else {
        DirView::NoMatch
    }
}

/// An internal image: `!` immediately followed by a wiki-style link.
pub open spec fn image_model(s: Seq<char>) -> DirView {
    if s.len() >= 1 && s[0] == '!' {
        match fenced_model(s.subrange(1, s.len() as int), seq!['[', '['], seq![']', ']']) {
            FencedView::Hit(inner, rest) => DirView::Match(ExprView::InternalImage(inner), rest),
            FencedView::Miss => DirView::NoMatch,
            FencedView::Unterminated => DirView::Failed,
        }
    } else {
        DirView::NoMatch
    }
}

/// A fenced code block: the interior's first line is the language tag
/// (trailing carriage returns trimmed), the remainder (trailing whitespace
/// trimmed) is the code body.
pub open spec fn triple_backtick_model(s: Seq<char>) -> DirView {
    match fenced_model(s, seq!['`', '`', '`'], seq!['`', '`', '`']) {
        FencedView::Hit(inner, rest) => {
            let j = match find_from(inner, seq!['\n'], 0) {
                Some(j) => j,
                None => inner.len() as int,
            };
            // The bounds guard is never false (`lemma_find_from`); it only
            // keeps the subranges well-formed.
            if 0 <= j <= inner.len() {
                DirView::Match(
                    ExprView::CodeBlock {
                        lang: trim_end_cr_model(inner.subrange(0, j)),
                        contents: trim_end_model(inner.subrange(j, inner.len() as int)),
                    },
                    rest,
                )
            } else {
                DirView::Failed
            }
        },
        FencedView::Miss => DirView::NoMatch,
        FencedView::Unterminated => DirView::Failed,
    }
}

/// An inline code span: `` `...` ``.
pub open spec fn single_backtick_model(s: Seq<char>) -> DirView {
    match fenced_model(s, seq!['`'], seq!['`']) {
        FencedView::Hit(inner, rest) => DirView::Match(ExprView::InlineCode(inner), rest),
        FencedView::Miss => DirView::NoMatch,
        FencedView::Unterminated => DirView::Failed,
    }
}

/// Bold: `**...**` or `__...__`.
pub open spec fn bold_model(s: Seq<char>) -> DirView
    decreases s.len(), 0int, 1int,
{
    match style_model(s, seq!['*', '*']) {
        StyleView::Hit(es, rest) => DirView::Match(ExprView::Bold(es), rest),
        StyleView::Failed => DirView::Failed,
        StyleView::Miss => match style_model(s, seq!['_', '_']) {
            StyleView::Hit(es, rest) => DirView::Match(ExprView::Bold(es), rest),
            StyleView::Failed => DirView::Failed,
            StyleView::Miss => DirView::NoMatch,
        },
    }
}

/// Italic: `*...*` or `_..._`.
pub open spec fn italic_model(s: Seq<char>) -> DirView
    decreases s.len(), 0int, 1int,
{
    match style_model(s, seq!['*']) {
        StyleView::Hit(es, rest) => DirView::Match(ExprView::Italic(es), rest),
        StyleView::Failed => DirView::Failed,
        StyleView::Miss => match style_model(s, seq!['_']) {
            StyleView::Hit(es, rest) => DirView::Match(ExprView::Italic(es), rest),
            StyleView::Failed => DirView::Failed,
            StyleView::Miss => DirView::NoMatch,
        },
    }
}

/// Strikethrough: `~~...~~`.
pub open spec fn strikethrough_model(s: Seq<char>) -> DirView
    decreases s.len(), 0int, 1int,
{
    match style_model(s, seq!['~', '~']) {
        StyleView::Hit(es, rest) => DirView::Match(ExprView::StrikeThrough(es), rest),
        StyleView::Failed => DirView::Failed,
        StyleView::Miss => DirView::NoMatch,
    }
}

/// Highlight: `==...==`.
pub open spec fn highlight_model(s: Seq<char>) -> DirView
    decreases s.len(), 0int, 1int,
{
    match style_model(s, seq!['=', '=']) {
        StyleView::Hit(es, rest) => DirView::Match(ExprView::Highlight(es), rest),
        StyleView::Failed => DirView::Failed,
        StyleView::Miss => DirView::NoMatch,
    }
}

/// First-success alternation: `b` is tried only where `a` reports no match.
pub open spec fn or_else(a: DirView, b: DirView) -> DirView {
    match a {
        DirView::NoMatch => b,
        _ => a,
    }
}

/// All recognizers, in strict priority order.
pub open spec fn directive_model(s: Seq<char>) -> DirView
    decreases s.len(), 0int, 2int,
{
    or_else(
        inline_math_model(s),
        or_else(
            internal_link_model(s),
            or_else(
                remote_image_model(s),
                or_else(
                    triple_backtick_model(s),
                    or_else(
                        single_backtick_model(s),
                        or_else(
                            image_model(s),
                            or_else(
                                bold_model(s),
                                or_else(
                                    italic_model(s),
                                    or_else(strikethrough_model(s), highlight_model(s)),
                                ),
                            ),
                        ),
                    ),
                ),
            ),
        ),
    )
}

/// Ghost outcome of scanning a line for the first directive at or after a
/// position.
pub enum ScanView {
    Found(int, ExprView, Seq<char>),
    NotFound,
    Failed,
}

/// The first position `>= i` of `s` at which a directive matches, together
/// with the parsed node and the remaining input.
pub open spec fn scan_from_model(s: Seq<char>, i: int) -> ScanView
    decreases s.len(), s.len() - i, 3int,
{
    if i < 0 || i >= s.len() {
        ScanView::NotFound
    } else {
        match directive_model(s.subrange(i, s.len() as int)) {
            DirView::Match(e, rest) => ScanView::Found(i, e, rest),
            DirView::NoMatch => scan_from_model(s, i + 1),
            DirView::Failed => ScanView::Failed,
        }
    }
}

/// The inline scanner: the ordered sequence of nodes covering the whole
/// line, or `None` where the line holds a malformed span.
pub open spec fn parse_inline_model(s: Seq<char>) -> Option<Seq<ExprView>>
    decreases s.len(), s.len(), 4int,
{
    if s.len() == 0 {
        Some(Seq::empty())
    } else {
        match scan_from_model(s, 0) {
            ScanView::Found(i, e, rest) => {
                let lead: Seq<ExprView> = if i > 0 {
                    seq![ExprView::Text(trim_start_model(s.subrange(0, i)))]
                } else {
                    Seq::empty()
                };
                if rest.len() < s.len() {
                    match parse_inline_model(rest) {
                        Some(tail) => Some(lead + seq![e] + tail),
                        None => None,
                    }
                } else {
                    None
                }
            },
            ScanView::NotFound => Some(seq![ExprView::Text(trim_start_model(s))]),
            ScanView::Failed => None,
        }
    }
}

/// Glue for the scanner's loop invariant: the nodes already emitted, ahead
/// of whatever the remaining input yields.
pub open spec fn glue(done: Seq<ExprView>, rest: Option<Seq<ExprView>>) -> Option<Seq<ExprView>> {
    match rest {
        Some(t) => Some(done + t),
        None => None,
    }
}

pub(crate) fn single_dollar<'a>(input: &'a str) -> (r: Directive<'a>)
    ensures
        dir_ok(r, inline_math_model(input@), input@.len()),
{
    proof {
        reveal_strlit("$");
        assert("$"@ =~= seq!['$']);
    }
    match fenced(input, "$", "$") {
        Fenced::Hit { inner, rest } => Directive::Hit {
            node: Expression::InlineMath(inner.to_owned()),
            rest,
        },
        Fenced::Miss => Directive::Miss,
        Fenced::Unterminated => Directive::Failed,
    }
}

pub(crate) fn internal_link<'a>(input: &'a str) -> (r: Directive<'a>)
    ensures
        dir_ok(r, internal_link_model(input@), input@.len()),
{
    proof {
        reveal_strlit("[[");
        reveal_strlit("]]");
        assert("[["@ =~= seq!['[', '[']);
        assert("]]"@ =~= seq![']', ']']);
    }
    match fenced(input, "[[", "]]") {
        Fenced::Hit { inner, rest } => Directive::Hit {
            node: Expression::InternalLink(inner.to_owned()),
            rest,
        },
        Fenced::Miss => Directive::Miss,
        Fenced::Unterminated => Directive::Failed,
    }
}

/// Exec outcome of scanning a markdown-style link `[alt](url)`.
pub(crate) enum MdLink<'a> {
    Hit { alt: String, url: String, rest: &'a str },
    Miss,
    Failed,
}

pub(crate) fn markdown_link<'a>(input: &'a str) -> (r: MdLink<'a>)
    ensures
        match r {
            MdLink::Hit { alt, url, rest } => markdown_link_model(input@) == MdLinkView::Hit(
                alt@,
                url@,
                rest@,
            ) && rest@.len() < input@.len(),
            MdLink::Miss => markdown_link_model(input@) is Miss,
            MdLink::Failed => markdown_link_model(input@) is Failed,
        },
{
    proof {
        reveal_strlit("[");
        reveal_strlit("]");
        reveal_strlit("(");
        reveal_strlit(")");
        assert("["@ =~= seq!['[']);
        assert("]"@ =~= seq![']']);
        assert("("@ =~= seq!['(']);
        assert(")"@ =~= seq![')']);
    }
    match fenced(input, "[", "]") {
        Fenced::Hit { inner: alt, rest: r1 } => match fenced(r1, "(", ")") {
            Fenced::Hit { inner: url, rest } => MdLink::Hit {
                alt: alt.to_owned(),
                url: url.to_owned(),
                rest,
            },
            Fenced::Miss => MdLink::Miss,
            Fenced::Unterminated => MdLink::Failed,
        },
        Fenced::Miss => MdLink::Miss,
        Fenced::Unterminated => MdLink::Failed,
    }
}

/// Parses `![alt](url)`.
pub(crate) fn remote_image<'a>(input: &'a str) -> (r: Directive<'a>)
    ensures
        dir_ok(r, remote_image_model(input@), input@.len()),
{
    let n = input.unicode_len();
    if n == 0 || input.get_char(0) != '!' {
        return Directive::Miss;
    }
    let tail = input.substring_char(1, n);
    match markdown_link(tail) {
        MdLink::Hit { alt, url, rest } => Directive::Hit {
            node: Expression::ExternalImage { alt, url },
            rest,
        },
        MdLink::Miss => Directive::Miss,
        MdLink::Failed => Directive::Failed,
    }
}

/// Parses `![[target]]`.
pub(crate) fn image<'a>(input: &'a str) -> (r: Directive<'a>)
    ensures
        dir_ok(r, image_model(input@), input@.len()),
{
    let n = input.unicode_len();
    if n == 0 || input.get_char(0) != '!' {
        return Directive::Miss;
    }
    let tail = input.substring_char(1, n);
    proof {
        reveal_strlit("[[");
        reveal_strlit("]]");
        assert("[["@ =~= seq!['[', '[']);
        assert("]]"@ =~= seq![']', ']']);
    }
    match fenced(tail, "[[", "]]") {
        Fenced::Hit { inner, rest } => Directive::Hit {
            node: Expression::InternalImage(inner.to_owned()),
            rest,
        },
        Fenced::Miss => Directive::Miss,
        Fenced::Unterminated => Directive::Failed,
    }
}

pub(crate) fn triple_backtick<'a>(input: &'a str) -> (r: Directive<'a>)
    ensures
        dir_ok(r, triple_backtick_model(input@), input@.len()),
{
    proof {
        reveal_strlit("```");
        assert("```"@ =~= seq!['`', '`', '`']);
    }
    match fenced(input, "```", "```") {
        Fenced::Hit { inner, rest } => {
            let ilen = inner.unicode_len();
            let j = match find_char_from(inner, '\n', 0) {
                Some(j) => j,
                None => ilen,
            };
            let lang = trim_end_cr(inner.substring_char(0, j));
            let contents = trim_end(inner.substring_char(j, ilen));
            Directive::Hit {
                node: Expression::CodeBlock {
                    lang: lang.to_owned(),
                    contents: contents.to_owned(),
                },
                rest,
            }
        },
        Fenced::Miss => Directive::Miss,
        Fenced::Unterminated => Directive::Failed,
    }
}

pub(crate) fn single_backtick<'a>(input: &'a str) -> (r: Directive<'a>)
    ensures
        dir_ok(r, single_backtick_model(input@), input@.len()),
{
    proof {
        reveal_strlit("`");
        assert("`"@ =~= seq!['`']);
    }
    match fenced(input, "`", "`") {
        Fenced::Hit { inner, rest } => Directive::Hit {
            node: Expression::InlineCode(inner.to_owned()),
            rest,
        },
        Fenced::Miss => Directive::Miss,
        Fenced::Unterminated => Directive::Failed,
    }
}

pub(crate) fn bold<'a>(input: &'a str) -> (r: Directive<'a>)
    ensures
        dir_ok(r, bold_model(input@), input@.len()),
    decreases input@.len(), 0int, 1int,
{
    proof {
        reveal_strlit("**");
        reveal_strlit("__");
        assert("**"@ =~= seq!['*', '*']);
        assert("__"@ =~= seq!['_', '_']);
    }
    match style(input, "**") {
        Styled::Hit { children, rest } => Directive::Hit {
            node: Expression::Bold(children),
            rest,
        },
        Styled::Failed => Directive::Failed,
        Styled::Miss => match style(input, "__") {
            Styled::Hit { children, rest } => Directive::Hit {
                node: Expression::Bold(children),
                rest,
            },
            Styled::Failed => Directive::Failed,
            Styled::Miss => Directive::Miss,
        },
    }
}

pub(crate) fn italic<'a>(input: &'a str) -> (r: Directive<'a>)
    ensures
        dir_ok(r, italic_model(input@), input@.len()),
    decreases input@.len(), 0int, 1int,
{
    proof {
        reveal_strlit("*");
        reveal_strlit("_");
        assert("*"@ =~= seq!['*']);
        assert("_"@ =~= seq!['_']);
    }
    match style(input, "*") {
        Styled::Hit { children, rest } => Directive::Hit {
            node: Expression::Italic(children),
            rest,
        },
        Styled::Failed => Directive::Failed,
        Styled::Miss => match style(input, "_") {
            Styled::Hit { children, rest } => Directive::Hit {
                node: Expression::Italic(children),
                rest,
            },
            Styled::Failed => Directive::Failed,
            Styled::Miss => Directive::Miss,
        },
    }
}

pub(crate) fn strikethrough<'a>(input: &'a str) -> (r: Directive<'a>)
    ensures
        dir_ok(r, strikethrough_model(input@), input@.len()),
    decreases input@.len(), 0int, 1int,
{
    proof {
        reveal_strlit("~~");
        assert("~~"@ =~= seq!['~', '~']);
    }
    match style(input, "~~") {
        Styled::Hit { children, rest } => Directive::Hit {
            node: Expression::StrikeThrough(children),
            rest,
        },
        Styled::Failed => Directive::Failed,
        Styled::Miss => Directive::Miss,
    }
}

pub(crate) fn highlight<'a>(input: &'a str) -> (r: Directive<'a>)
    ensures
        dir_ok(r, highlight_model(input@), input@.len()),
    decreases input@.len(), 0int, 1int,
{
    proof {
        reveal_strlit("==");
        assert("=="@ =~= seq!['=', '=']);
    }
    match style(input, "==") {
        Styled::Hit { children, rest } => Directive::Hit {
            node: Expression::Highlight(children),
            rest,
        },
        Styled::Failed => Directive::Failed,
        Styled::Miss => Directive::Miss,
    }
}

/// Tries every recognizer at the current position, in priority order.
pub(crate) fn directive<'a>(input: &'a str) -> (r: Directive<'a>)
    ensures
        dir_ok(r, directive_model(input@), input@.len()),
    decreases input@.len(), 0int, 2int,
{
    let d = single_dollar(input);
    match d {
        Directive::Miss => {},
        _ => {
            return d;
        },
    }
    let d = internal_link(input);
    match d {
        Directive::Miss => {},
        _ => {
            return d;
        },
    }
    let d = remote_image(input);
    match d {
        Directive::Miss => {},
        _ => {
            return d;
        },
    }
    let d = triple_backtick(input);
    match d {
        Directive::Miss => {},
        _ => {
            return d;
        },
    }
    let d = single_backtick(input);
    match d {
        Directive::Miss => {},
        _ => {
            return d;
        },
    }
    let d = image(input);
    match d {
        Directive::Miss => {},
        _ => {
            return d;
        },
    }
    let d = bold(input);
    match d {
        Directive::Miss => {},
        _ => {
            return d;
        },
    }
    let d = italic(input);
    match d {
        Directive::Miss => {},
        _ => {
            return d;
        },
    }
    let d = strikethrough(input);
    match d {
        Directive::Miss => {},
        _ => {
            return d;
        },
    }
    highlight(input)
}

/// Exec outcome of scanning a line for its first directive.
pub(crate) enum Scanned<'a> {
    Found { at: usize, node: Expression, rest: &'a str },
    NotFound,
    Failed,
}

/// Finds the first position of `s` at which a directive matches.
pub(crate) fn scan<'a>(s: &'a str) -> (r: Scanned<'a>)
    ensures
        match r {
            Scanned::Found { at, node, rest } => scan_from_model(s@, 0) == ScanView::Found(
                at as int,
                node.model(),
                rest@,
            ) && at < s@.len() && rest@.len() < s@.len() - at,
            Scanned::NotFound => scan_from_model(s@, 0) is NotFound,
            Scanned::Failed => scan_from_model(s@, 0) is Failed,
        },
    decreases s@.len(), s@.len(), 3int,
{
    let n = s.unicode_len();
    let mut i: usize = 0;
    while i < n
        invariant
            i <= n,
            n == s@.len(),
            scan_from_model(s@, 0) == scan_from_model(s@, i as int),
        decreases n - i,
    {
        let sub = s.substring_char(i, n);
        match directive(sub) {
            Directive::Hit { node, rest } => {
                return Scanned::Found { at: i, node, rest };
            },
            Directive::Miss => {
                i += 1;
            },
            Directive::Failed => {
                return Scanned::Failed;
            },
        }
    }
    Scanned::NotFound
}

/// Parse a line of text, counting anything that doesn't match a directive as
/// plain text.  Fails on a malformed span (an unterminated fence).
pub(crate) fn parse_inline(input: &str) -> (r: Option<Vec<Expression>>)
    ensures
        match r {
            Some(v) => parse_inline_model(input@) == Some(Expression::model_seq(v@)),
            None => parse_inline_model(input@) is None,
        },
    decreases input@.len(), input@.len(), 4int,
{
    let mut output: Vec<Expression> = Vec::new();
    let mut cur: &str = input;
    let mut cur_len: usize = input.unicode_len();
    loop
        invariant
            cur_len == cur@.len(),
            cur@.len() <= input@.len(),
            glue(Expression::model_seq(output@), parse_inline_model(cur@)) == parse_inline_model(
                input@,
            ),
        ensures
            cur@.len() == 0,
            glue(Expression::model_seq(output@), parse_inline_model(cur@)) == parse_inline_model(
                input@,
            ),
        decreases cur@.len(),
    {
        if cur_len == 0 {
            break ;
        }
        let ghost c = cur@;
        let ghost d = Expression::model_seq(output@);
        match scan(cur) {
            Scanned::Found { at, node, rest } => {
                let ghost e = node.model();
                let ghost lead: Seq<ExprView> = if at > 0 {
                    seq![ExprView::Text(trim_start_model(c.subrange(0, at as int)))]
                } else {
                    Seq::empty()
                };
                if at > 0 {
                    let lead_str = trim_start(cur.substring_char(0, at));
                    let lead_owned = lead_str.to_owned();
                    proof {
                        lemma_model_seq_push(output@, Expression::Text(lead_owned));
                    }
                    output.push(Expression::Text(lead_owned));
                }
                proof {
                    lemma_model_seq_push(output@, node);
                }
                output.push(node);
                let rlen = rest.unicode_len();
                cur = rest;
                cur_len = rlen;
                proof {
                    assert(Expression::model_seq(output@) =~= d + lead + seq![e]);
                    match parse_inline_model(cur@) {
                        Some(t) => {
                            assert((d + lead + seq![e]) + t =~= d + (lead + seq![e] + t));
                        },
                        None => {},
                    }
                }
            },
            Scanned::NotFound => {
                let t = trim_start(cur);
                let t_owned = t.to_owned();
                proof {
                    lemma_model_seq_push(output@, Expression::Text(t_owned));
                }
                output.push(Expression::Text(t_owned));
                proof {
                    assert(Expression::model_seq(output@) =~= d + seq![
                        ExprView::Text(trim_start_model(c)),
                    ]);
                }
                return Some(output);
            },
            Scanned::Failed => {
                return None;
            },
        }
    }
    proof {
        assert(Expression::model_seq(output@) + Seq::<ExprView>::empty() =~= Expression::model_seq(
            output@,
        ));
    }
    Some(output)
}

} // verus!
