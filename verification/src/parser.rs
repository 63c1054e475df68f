//! The Markdown parser: block segmentation over the inline scanner.
//!
//! The input is split into lines; blank lines finalize the current block.
//! Every non-blank line is either the reserved horizontal-bar literal or is
//! handed to the inline scanner, and a line holding a malformed span fails
//! the whole parse.

pub mod directive;
pub mod utils;

use crate::ast::Expression;
use crate::ast::ExprView;
use crate::ast::lemma_model_seq_concat;
use crate::ast::lemma_model_seq_push;
use crate::parser::directive::parse_inline;
use crate::parser::directive::parse_inline_model;
use crate::parser::utils::find_char_from;
use crate::parser::utils::find_from;
use crate::parser::utils::is_ws;
use crate::parser::utils::is_ws_char;
use crate::parser::utils::str_eq;
use vstd::prelude::*;

verus! {

broadcast use vstd::seq::group_seq_axioms, vstd::std_specs::vec::group_vec_axioms;

/// A parse failure: the (zero-based) index of the first line that holds a
/// malformed span.
#[derive(Debug, Clone, Copy, PartialEq, Eq)]
pub struct ParseError {
    pub line: usize,
}

/// A line segment with one trailing carriage return removed, as the line
/// splitter strips it ahead of a line feed.
pub open spec fn strip_cr(line: Seq<char>) -> Seq<char> {
    if line.len() > 0 && line[line.len() - 1] == '\r' {
        line.subrange(0, line.len() - 1)
    } else {
        line
    }
}

/// The lines of `s`: split at each line feed, with a carriage return ahead
/// of the line feed stripped, and no empty final line for a trailing line
/// feed.
pub open spec fn lines_model(s: Seq<char>) -> Seq<Seq<char>>
    decreases s.len(),
{
    if s.len() == 0 {
        Seq::empty()
    } else {
        match find_from(s, seq!['\n'], 0) {
            Some(i) => if 0 <= i < s.len() {
                seq![strip_cr(s.subrange(0, i))] + lines_model(s.subrange(i + 1, s.len() as int))
            } else {
                Seq::empty()
            },
            None => seq![s],
        }
    }
}

/// A line is blank when it is empty after trimming whitespace.
pub open spec fn is_blank_model(line: Seq<char>) -> bool {
    forall|k: int| 0 <= k < line.len() ==> is_ws(line[k])
}

/// The reserved whole-line literal that parses as a horizontal bar.
pub open spec fn hbar_line() -> Seq<char> {
    seq!['-', '-', '-']
}

/// What one non-blank line yields: the horizontal bar for the reserved
/// literal, otherwise the inline scan of the line.
pub open spec fn line_model(line: Seq<char>) -> Option<Seq<ExprView>> {
    if line == hbar_line() {
        Some(seq![ExprView::HorizontalBar])
    } else {
        parse_inline_model(line)
    }
}

/// Folds the lines from index `i` on into blocks, `cur` being the content of
/// the block under construction.  A blank line (or the end of the input)
/// finalizes the current block; an error carries the index of the offending
/// line.
pub open spec fn parse_from_model(lines: Seq<Seq<char>>, i: int, cur: Seq<ExprView>) -> Result<
    Seq<ExprView>,
    int,
>
    decreases lines.len() - i,
{
    if i < 0 || i >= lines.len() {
        Ok(seq![ExprView::Block(cur)])
    } else if is_blank_model(lines[i]) {
        match parse_from_model(lines, i + 1, Seq::empty()) {
            Ok(r) => Ok(seq![ExprView::Block(cur)] + r),
            Err(e) => Err(e),
        }
    } else {
        match line_model(lines[i]) {
            Some(es) => parse_from_model(lines, i + 1, cur + es),
            None => Err(i),
        }
    }
}

/// The block list of the whole document.
pub open spec fn parse_model(s: Seq<char>) -> Result<Seq<ExprView>, int> {
    parse_from_model(lines_model(s), 0, Seq::empty())
}

/// Splits the input into lines, as [`lines_model`] describes.
fn split_lines(s: &str) -> (r: Vec<String>)
    ensures
        r.deep_view() == lines_model(s@),
{
    let mut lines: Vec<String> = Vec::new();
    let mut rest: &str = s;
    loop
        invariant_except_break
            lines.deep_view() + lines_model(rest@) == lines_model(s@),
        ensures
            lines.deep_view() == lines_model(s@),
        decreases rest@.len(),
    {
        let rn = rest.unicode_len();
        if rn == 0 {
            proof {
                assert(lines.deep_view() + lines_model(rest@) =~= lines.deep_view());
            }
            break ;
        }
        let ghost prev = lines.deep_view();
        let ghost old_rest = rest@;
        match find_char_from(rest, '\n', 0) {
            Some(i) => {
                let raw = rest.substring_char(0, i);
                let line = if i > 0 && raw.get_char(i - 1) == '\r' {
                    raw.substring_char(0, i - 1)
                } else {
                    raw
                };
                proof {
                    assert(raw@ =~= old_rest.subrange(0, i as int));
                    if i > 0 && raw@[i - 1] == '\r' {
                        assert(raw@.subrange(0, i - 1) =~= strip_cr(old_rest.subrange(0, i as int)));
                    }
                }
                lines.push(line.to_owned());
                rest = rest.substring_char(i + 1, rn);
                proof {
                    assert(lines.deep_view() =~= prev.push(line@));
                    assert(prev.push(line@) + lines_model(rest@) =~= prev + (seq![
                        strip_cr(old_rest.subrange(0, i as int)),
                    ] + lines_model(old_rest.subrange(i + 1, old_rest.len() as int))));
                }
            },
            None => {
                lines.push(rest.to_owned());
                proof {
                    assert(lines.deep_view() =~= prev.push(old_rest));
                    assert(prev.push(old_rest) =~= prev + seq![old_rest]);
                }
                break ;
            },
        }
    }
    lines
}

/// Whether the line is blank: empty after trimming whitespace.
fn is_blank(line: &str) -> (r: bool)
    ensures
        r == is_blank_model(line@),
{
    let n = line.unicode_len();
    let mut k: usize = 0;
    while k < n
        invariant
            k <= n,
            n == line@.len(),
            forall|t: int| 0 <= t < k ==> is_ws(line@[t]),
        decreases n - k,
    {
        if !is_ws_char(line.get_char(k)) {
            return false;
        }
        k += 1;
    }
    true
}

/// Parses one line: the reserved literal `---` (exactly, nothing else)
/// yields the horizontal bar in place of running the inline scanner.
pub fn parse_block(input: &str) -> (r: Result<Vec<Expression>, ParseError>)
    ensures
        match r {
            Ok(v) => line_model(input@) == Some(Expression::model_seq(v@)),
            Err(e) => line_model(input@) is None && e.line == 0,
        },
{
    proof {
        reveal_strlit("---");
        assert("---"@ =~= hbar_line());
    }
    if str_eq(input, "---") {
        let mut v: Vec<Expression> = Vec::new();
        proof {
            lemma_model_seq_push(v@, Expression::HorizontalBar);
        }
        v.push(Expression::HorizontalBar);
        proof {
            assert(Expression::model_seq(v@) =~= seq![ExprView::HorizontalBar]);
        }
        Ok(v)
    } else {
        match parse_inline(input) {
            Some(v) => Ok(v),
            None => Err(ParseError { line: 0 }),
        }
    }
}

/// Parses the whole document into its list of blocks, or fails with the
/// index of the first malformed line.
pub fn parse(input: &str) -> (r: Result<Vec<Expression>, ParseError>)
    ensures
        match r {
            Ok(v) => parse_model(input@) == Ok::<Seq<ExprView>, int>(Expression::model_seq(v@)),
            Err(e) => parse_model(input@) == Err::<Seq<ExprView>, int>(e.line as int),
        },
{
    let lines = split_lines(input);
    let ghost lm = lines.deep_view();
    let mut contents: Vec<Expression> = Vec::new();
    let mut current: Vec<Expression> = Vec::new();
    let mut i: usize = 0;
    while i < lines.len()
        invariant
            i <= lines@.len(),
            lm == lines.deep_view(),
            lm == lines_model(input@),
            match parse_from_model(lm, i as int, Expression::model_seq(current@)) {
                Ok(rest) => parse_model(input@) == Ok::<Seq<ExprView>, int>(
                    Expression::model_seq(contents@) + rest,
                ),
                Err(e) => parse_model(input@) == Err::<Seq<ExprView>, int>(e),
            },
        decreases lines@.len() - i,
    {
        let line: &String = &lines[i];
        let line_str: &str = line.as_str();
        proof {
            assert(line_str@ == lm[i as int]);
        }
        let ghost cur_m = Expression::model_seq(current@);
        let ghost done_m = Expression::model_seq(contents@);
        if is_blank(line_str) {
            let finished = current;
            current = Vec::new();
            proof {
                lemma_model_seq_push(contents@, Expression::Block(finished));
            }
            contents.push(Expression::Block(finished));
            proof {
                assert(Expression::model_seq(current@) =~= Seq::<ExprView>::empty());
                match parse_from_model(lm, i + 1, Seq::empty()) {
                    Ok(rest) => {
                        assert((done_m + (seq![ExprView::Block(cur_m)] + rest)) =~= (done_m.push(
                            ExprView::Block(cur_m),
                        ) + rest));
                    },
                    Err(_) => {},
                }
            }
        } else {
            match parse_block(line_str) {
                Ok(mut es) => {
                    let ghost cur_old = current@;
                    let ghost es_v = es@;
                    current.append(&mut es);
                    proof {
                        lemma_model_seq_concat(cur_old, es_v);
                    }
                },
                Err(_) => {
                    return Err(ParseError { line: i });
                },
            }
        }
        i += 1;
    }
    let ghost cur_m = Expression::model_seq(current@);
    let ghost done_m = Expression::model_seq(contents@);
    proof {
        lemma_model_seq_push(contents@, Expression::Block(current));
    }
    contents.push(Expression::Block(current));
    proof {
        assert(done_m + seq![ExprView::Block(cur_m)] =~= done_m.push(ExprView::Block(cur_m)));
    }
    Ok(contents)
}

} // verus!
