//! The document tree produced by the parser and consumed by the renderer.

use vstd::prelude::*;

verus! {

broadcast use vstd::seq::group_seq_axioms, vstd::std_specs::vec::group_vec_axioms;

/// One node of inline or block content.  Every textual payload is an owned
/// copy of the span of the source text it was parsed from.
#[allow(inconsistent_fields)]
#[derive(Debug, PartialEq, Eq)]
pub enum Expression {
    Text(String),
    RawHyperLink(String),
    InternalLink(String),
    InlineCode(String),
    InlineMath(String),
    BlockMath(String),
    Heading { level: usize, text: String },
    CodeBlock { lang: String, contents: String },
    TaskList(Vec<Expression>),
    Task { completed: bool, content: Vec<Expression> },
    BlockQuote(Vec<Expression>),
    Callout { callout_type: String, contents: Vec<Expression> },
    ExternalImage { alt: String, url: String },
    InternalImage(String),
    Tables(Vec<Vec<Expression>>),
    Italic(Vec<Expression>),
    Bold(Vec<Expression>),
    StrikeThrough(Vec<Expression>),
    Highlight(Vec<Expression>),
    HorizontalBar,
    ListElement { style: String, loose: bool, contents: Vec<Expression> },
    /// One paragraph: the run of nodes between two blank lines.
    Block(Vec<Expression>),
}

/// The mathematical value of an [`Expression`]: the same tree with every
/// `String` replaced by its sequence of characters.  Contracts and the
/// grammar model are stated over this type.
#[allow(inconsistent_fields)]
pub enum ExprView {
    Text(Seq<char>),
    RawHyperLink(Seq<char>),
    InternalLink(Seq<char>),
    InlineCode(Seq<char>),
    InlineMath(Seq<char>),
    BlockMath(Seq<char>),
    Heading { level: int, text: Seq<char> },
    CodeBlock { lang: Seq<char>, contents: Seq<char> },
    TaskList(Seq<ExprView>),
    Task { completed: bool, content: Seq<ExprView> },
    BlockQuote(Seq<ExprView>),
    Callout { callout_type: Seq<char>, contents: Seq<ExprView> },
    ExternalImage { alt: Seq<char>, url: Seq<char> },
    InternalImage(Seq<char>),
    Tables(Seq<Seq<ExprView>>),
    Italic(Seq<ExprView>),
    Bold(Seq<ExprView>),
    StrikeThrough(Seq<ExprView>),
    Highlight(Seq<ExprView>),
    HorizontalBar,
    ListElement { style: Seq<char>, loose: bool, contents: Seq<ExprView> },
    Block(Seq<ExprView>),
}

impl Expression {
    /// The mathematical value of this node.
    pub open spec fn model(self) -> ExprView
        decreases self, 0int, 0int,
    {
        match self {
            Expression::Text(s) => ExprView::Text(s@),
            Expression::RawHyperLink(s) => ExprView::RawHyperLink(s@),
            Expression::InternalLink(s) => ExprView::InternalLink(s@),
            Expression::InlineCode(s) => ExprView::InlineCode(s@),
            Expression::InlineMath(s) => ExprView::InlineMath(s@),
            Expression::BlockMath(s) => ExprView::BlockMath(s@),
            Expression::Heading { level, text } => ExprView::Heading {
                level: level as int,
                text: text@,
            },
            Expression::CodeBlock { lang, contents } => ExprView::CodeBlock {
                lang: lang@,
                contents: contents@,
            },
            Expression::TaskList(v) => ExprView::TaskList(Expression::model_seq(v@)),
            Expression::Task { completed, content } => ExprView::Task {
                completed,
                content: Expression::model_seq(content@),
            },
            Expression::BlockQuote(v) => ExprView::BlockQuote(Expression::model_seq(v@)),
            Expression::Callout { callout_type, contents } => ExprView::Callout {
                callout_type: callout_type@,
                contents: Expression::model_seq(contents@),
            },
            Expression::ExternalImage { alt, url } => ExprView::ExternalImage {
                alt: alt@,
                url: url@,
            },
            Expression::InternalImage(s) => ExprView::InternalImage(s@),
            Expression::Tables(v) => ExprView::Tables(Expression::model_table_from(v@, 0)),
            Expression::Italic(v) => ExprView::Italic(Expression::model_seq(v@)),
            Expression::Bold(v) => ExprView::Bold(Expression::model_seq(v@)),
            Expression::StrikeThrough(v) => ExprView::StrikeThrough(Expression::model_seq(v@)),
            Expression::Highlight(v) => ExprView::Highlight(Expression::model_seq(v@)),
            Expression::HorizontalBar => ExprView::HorizontalBar,
            Expression::ListElement { style, loose, contents } => ExprView::ListElement {
                style: style@,
                loose,
                contents: Expression::model_seq(contents@),
            },
            Expression::Block(v) => ExprView::Block(Expression::model_seq(v@)),
        }
    }

    /// The models of a sequence of nodes, in order.
    pub open spec fn model_seq(s: Seq<Expression>) -> Seq<ExprView>
        decreases s, s.len(), 2int,
    {
        Expression::model_seq_from(s, 0)
    }

    pub open spec fn model_seq_from(s: Seq<Expression>, i: int) -> Seq<ExprView>
        decreases s, s.len() - i, 1int,
    {
        if 0 <= i < s.len() {
            seq![s[i].model()] + Expression::model_seq_from(s, i + 1)
        } else {
            Seq::empty()
        }
    }

    pub open spec fn model_table_from(s: Seq<Vec<Expression>>, i: int) -> Seq<Seq<ExprView>>
        decreases s, s.len() - i, 2int,
    {
        if 0 <= i < s.len() {
            seq![Expression::model_seq(s[i]@)] + Expression::model_table_from(s, i + 1)
        } else {
            Seq::empty()
        }
    }
}

proof fn lemma_model_seq_from(s: Seq<Expression>, i: int)
    requires
        0 <= i <= s.len(),
    ensures
        Expression::model_seq_from(s, i).len() == s.len() - i,
        forall|j: int|
            i <= j < s.len() ==> Expression::model_seq_from(s, i)[j - i] == s[j].model(),
    decreases s.len() - i,
{
    if i < s.len() {
        lemma_model_seq_from(s, i + 1);
    }
}

/// `model_seq` maps each node of the sequence to its model, in place.
pub proof fn lemma_model_seq(s: Seq<Expression>)
    ensures
        Expression::model_seq(s).len() == s.len(),
        forall|j: int| 0 <= j < s.len() ==> #[trigger] Expression::model_seq(s)[j] == s[j].model(),
{
    lemma_model_seq_from(s, 0);
}

/// Appending one node to a sequence appends its model to the sequence's model.
pub proof fn lemma_model_seq_push(s: Seq<Expression>, e: Expression)
    ensures
        Expression::model_seq(s.push(e)) == Expression::model_seq(s).push(e.model()),
{
    lemma_model_seq(s);
    lemma_model_seq(s.push(e));
    assert(Expression::model_seq(s.push(e)) =~= Expression::model_seq(s).push(e.model()));
}

/// The model of a concatenation is the concatenation of the models.
pub proof fn lemma_model_seq_concat(a: Seq<Expression>, b: Seq<Expression>)
    ensures
        Expression::model_seq(a + b) == Expression::model_seq(a) + Expression::model_seq(b),
{
    lemma_model_seq(a);
    lemma_model_seq(b);
    lemma_model_seq(a + b);
    assert(Expression::model_seq(a + b) =~= Expression::model_seq(a) + Expression::model_seq(
        b,
    ));
}

/// The root record handed to the renderer: the parsed blocks plus the
/// (currently always empty) frontmatter.
pub struct Document {
    pub frontmatter: String,
    pub contents: Vec<Expression>,
}

} // verus!
