//! Low-level scanning primitives: substring search, whitespace trimming, and
//! the fenced-span scanner that every inline directive is built from.

use crate::ast::Expression;
use crate::ast::ExprView;
use crate::parser::directive::parse_inline;
use crate::parser::directive::parse_inline_model;
use vstd::prelude::*;

verus! {

broadcast use vstd::seq::group_seq_axioms;

/// Whitespace, as this library trims it: the ASCII whitespace characters.
pub open spec fn is_ws(c: char) -> bool {
    c == ' ' || c == '\t' || c == '\n' || c == '\r' || c == '\u{b}' || c == '\u{c}'
}

/// `pat` occurs in `s` starting at position `i`.
pub open spec fn occurs_at(s: Seq<char>, pat: Seq<char>, i: int) -> bool {
    0 <= i && i + pat.len() <= s.len() && s.subrange(i, i + pat.len()) == pat
}

/// The first position `>= i` at which `pat` occurs in `s`, if any.
pub open spec fn find_from(s: Seq<char>, pat: Seq<char>, i: int) -> Option<int>
    decreases s.len() - i,
{
    if i < 0 || i > s.len() {
        None
    } else if occurs_at(s, pat, i) {
        Some(i)
    } else if i < s.len() {
        find_from(s, pat, i + 1)
    } else {
        None
    }
}

/// What `find_from` returns is the first occurrence at or after the starting
/// position, and `None` means there is none.
pub proof fn lemma_find_from(s: Seq<char>, pat: Seq<char>, i: int)
    requires
        0 <= i <= s.len(),
    ensures
        match find_from(s, pat, i) {
            Some(j) => i <= j && occurs_at(s, pat, j) && (forall|k: int|
                i <= k < j ==> !occurs_at(s, pat, k)),
            None => forall|k: int| i <= k ==> !occurs_at(s, pat, k),
        },
    decreases s.len() - i,
{
    if !occurs_at(s, pat, i) && i < s.len() {
        lemma_find_from(s, pat, i + 1);
    }
}

/// Result of scanning for a delimiter pair.
pub enum Fenced<'a> {
    /// Both delimiters found: the text strictly between them, and the input
    /// remaining after the end delimiter.
    Hit { inner: &'a str, rest: &'a str },
    /// The start delimiter is not at the current position.
    Miss,
    /// The start delimiter matched but the end delimiter never occurs after
    /// it: a malformed span.
    Unterminated,
}

/// Ghost counterpart of [`Fenced`].
pub enum FencedView {
    Hit(Seq<char>, Seq<char>),
    Miss,
    Unterminated,
}

/// The fenced-span scanner: `start` must sit at position 0, and the interior
/// runs to the first occurrence of `end` after it.
pub open spec fn fenced_model(s: Seq<char>, start: Seq<char>, end: Seq<char>) -> FencedView {
    if !occurs_at(s, start, 0) {
        FencedView::Miss
    } else {
        match find_from(s, end, start.len() as int) {
            // The bounds guard is never false: a found occurrence lies
            // within the input (`lemma_find_from`); it only keeps the
            // subranges well-formed without appeal to that lemma.
            Some(i) => if start.len() <= i && i + end.len() <= s.len() {
                FencedView::Hit(
                    s.subrange(start.len() as int, i),
                    s.subrange(i + end.len(), s.len() as int),
                )
            } else {
                FencedView::Unterminated
            },
            None => FencedView::Unterminated,
        }
    }
}

/// Whether `pat` occurs in `s` at position `i`.
pub(crate) fn matches_at(s: &str, i: usize, pat: &str) -> (r: bool)
    requires
        i <= s@.len(),
    ensures
        r == occurs_at(s@, pat@, i as int),
{
    let n = s.unicode_len();
    let m = pat.unicode_len();
    if m > n - i {
        return false;
    }
    let mut k: usize = 0;
    loop
        invariant
            n == s@.len(),
            m == pat@.len(),
            i + m <= n,
            k <= m,
            forall|t: int| 0 <= t < k ==> s@[i + t] == pat@[t],
        ensures
            k <= m,
            forall|t: int| 0 <= t < k ==> s@[i + t] == pat@[t],
            k < m ==> s@[i + k] != pat@[k as int],
        decreases m - k,
    {
        if k >= m {
            break ;
        }
        if s.get_char(i + k) != pat.get_char(k) {
            break ;
        }
        k += 1;
    }
    if k == m {
        proof {
            assert(s@.subrange(i as int, i + m) =~= pat@);
        }
        true
    } else {
        proof {
            if occurs_at(s@, pat@, i as int) {
                assert(s@.subrange(i as int, i + m)[k as int] == s@[i + k]);
            }
        }
        false
    }
}

/// The first position `>= from` at which `pat` occurs in `s`.
pub(crate) fn find_str_from(s: &str, pat: &str, from: usize) -> (r: Option<usize>)
    requires
        from <= s@.len(),
        pat@.len() >= 1,
    ensures
        match r {
            Some(j) => find_from(s@, pat@, from as int) == Some(j as int) && from <= j
                && occurs_at(s@, pat@, j as int),
            None => find_from(s@, pat@, from as int) is None,
        },
{
    let n = s.unicode_len();
    let mut i = from;
    while i < n
        invariant
            from <= i <= n,
            n == s@.len(),
            pat@.len() >= 1,
            find_from(s@, pat@, from as int) == find_from(s@, pat@, i as int),
        decreases n - i,
    {
        if matches_at(s, i, pat) {
            return Some(i);
        }
        i += 1;
    }
    None
}

/// The two strings hold the same characters.
pub(crate) fn str_eq(a: &str, b: &str) -> (r: bool)
    ensures
        r == (a@ == b@),
{
    let n = a.unicode_len();
    if n != b.unicode_len() {
        return false;
    }
    let mut k: usize = 0;
    while k < n
        invariant
            k <= n,
            n == a@.len() == b@.len(),
            forall|t: int| 0 <= t < k ==> a@[t] == b@[t],
        decreases n - k,
    {
        if a.get_char(k) != b.get_char(k) {
            return false;
        }
        k += 1;
    }
    proof {
        assert(a@ =~= b@);
    }
    true
}

/// Scan for the text between the first occurrence of `start` (which must sit
/// at the very beginning of `input`) and the first occurrence of `end` after
/// it.  Matching is non-greedy: the first `end` wins, so same-delimiter
/// nesting is not supported.
pub fn fenced<'a>(input: &'a str, start: &str, end: &str) -> (r: Fenced<'a>)
    requires
        start@.len() >= 1,
        end@.len() >= 1,
    ensures
        match r {
            Fenced::Hit { inner, rest } => {
                &&& fenced_model(input@, start@, end@) == FencedView::Hit(inner@, rest@)
                &&& inner@.len() + start@.len() + end@.len() <= input@.len()
                &&& rest@.len() + end@.len() + inner@.len() + start@.len() == input@.len()
            },
            Fenced::Miss => fenced_model(input@, start@, end@) is Miss,
            Fenced::Unterminated => fenced_model(input@, start@, end@) is Unterminated,
        },
{
    let n = input.unicode_len();
    if !matches_at(input, 0, start) {
        return Fenced::Miss;
    }
    let sl = start.unicode_len();
    let el = end.unicode_len();
    match find_str_from(input, end, sl) {
        None => Fenced::Unterminated,
        Some(i) => {
            let inner = input.substring_char(sl, i);
            let rest = input.substring_char(i + el, n);
            Fenced::Hit { inner, rest }
        },
    }
}

/// The single-character version of [`fenced`]: stop-at-character scanning.
pub fn fenced_char<'a>(input: &'a str, start: char, end: char) -> (r: Fenced<'a>)
    ensures
        match r {
            Fenced::Hit { inner, rest } => {
                &&& fenced_model(input@, seq![start], seq![end]) == FencedView::Hit(
                    inner@,
                    rest@,
                )
                &&& inner@.len() + 2 <= input@.len()
                &&& rest@.len() + 2 + inner@.len() == input@.len()
            },
            Fenced::Miss => fenced_model(input@, seq![start], seq![end]) is Miss,
            Fenced::Unterminated => fenced_model(input@, seq![start], seq![end]) is Unterminated,
        },
{
    let n = input.unicode_len();
    if n == 0 || input.get_char(0) != start {
        proof {
            if occurs_at(input@, seq![start], 0) {
                assert(input@.subrange(0, 1)[0] == input@[0]);
            }
        }
        return Fenced::Miss;
    }
    proof {
        assert(input@.subrange(0, 1) =~= seq![start]);
    }
    match find_char_from(input, end, 1) {
        None => Fenced::Unterminated,
        Some(i) => {
            let inner = input.substring_char(1, i);
            let rest = input.substring_char(i + 1, n);
            Fenced::Hit { inner, rest }
        },
    }
}

/// The first position `>= from` at which the character `c` occurs in `s`.
pub(crate) fn find_char_from(s: &str, c: char, from: usize) -> (r: Option<usize>)
    requires
        from <= s@.len(),
    ensures
        match r {
            Some(j) => find_from(s@, seq![c], from as int) == Some(j as int) && from <= j
                && occurs_at(s@, seq![c], j as int),
            None => find_from(s@, seq![c], from as int) is None,
        },
{
    let n = s.unicode_len();
    let mut i = from;
    while i < n
        invariant
            from <= i <= n,
            n == s@.len(),
            find_from(s@, seq![c], from as int) == find_from(s@, seq![c], i as int),
        decreases n - i,
    {
        if s.get_char(i) == c {
            proof {
                assert(s@.subrange(i as int, i + 1) =~= seq![c]);
            }
            return Some(i);
        }
        proof {
            if occurs_at(s@, seq![c], i as int) {
                assert(s@.subrange(i as int, i + 1)[0] == s@[i as int]);
            }
        }
        i += 1;
    }
    None
}

/// `s` with its leading whitespace removed.
pub open spec fn trim_start_model(s: Seq<char>) -> Seq<char>
    decreases s.len(),
{
    if s.len() > 0 && is_ws(s[0]) {
        trim_start_model(s.subrange(1, s.len() as int))
    } else {
        s
    }
}

/// `s` with its trailing whitespace removed.
pub open spec fn trim_end_model(s: Seq<char>) -> Seq<char>
    decreases s.len(),
{
    if s.len() > 0 && is_ws(s[s.len() - 1]) {
        trim_end_model(s.subrange(0, s.len() - 1))
    } else {
        s
    }
}

/// `s` with its trailing carriage returns removed.
pub open spec fn trim_end_cr_model(s: Seq<char>) -> Seq<char>
    decreases s.len(),
{
    if s.len() > 0 && s[s.len() - 1] == '\r' {
        trim_end_cr_model(s.subrange(0, s.len() - 1))
    } else {
        s
    }
}

proof fn lemma_trim_start_at(s: Seq<char>, j: int)
    requires
        0 <= j <= s.len(),
        forall|k: int| 0 <= k < j ==> is_ws(s[k]),
        j == s.len() || !is_ws(s[j]),
    ensures
        trim_start_model(s) == s.subrange(j, s.len() as int),
    decreases j,
{
    if j == 0 {
        assert(s.subrange(0, s.len() as int) =~= s);
    } else {
        let t = s.subrange(1, s.len() as int);
        lemma_trim_start_at(t, j - 1);
        assert(t.subrange(j - 1, t.len() as int) =~= s.subrange(j, s.len() as int));
    }
}

proof fn lemma_trim_end_at(s: Seq<char>, j: int)
    requires
        0 <= j <= s.len(),
        forall|k: int| j <= k < s.len() ==> is_ws(s[k]),
        j == 0 || !is_ws(s[j - 1]),
    ensures
        trim_end_model(s) == s.subrange(0, j),
    decreases s.len() - j,
{
    if j == s.len() {
        assert(s.subrange(0, s.len() as int) =~= s);
    } else {
        let t = s.subrange(0, s.len() - 1);
        lemma_trim_end_at(t, j);
        assert(t.subrange(0, j) =~= s.subrange(0, j));
    }
}

proof fn lemma_trim_end_cr_at(s: Seq<char>, j: int)
    requires
        0 <= j <= s.len(),
        forall|k: int| j <= k < s.len() ==> s[k] == '\r',
        j == 0 || s[j - 1] != '\r',
    ensures
        trim_end_cr_model(s) == s.subrange(0, j),
    decreases s.len() - j,
{
    if j == s.len() {
        assert(s.subrange(0, s.len() as int) =~= s);
    } else {
        let t = s.subrange(0, s.len() - 1);
        lemma_trim_end_cr_at(t, j);
        assert(t.subrange(0, j) =~= s.subrange(0, j));
    }
}

/// Whether `c` counts as whitespace for trimming.
pub(crate) fn is_ws_char(c: char) -> (r: bool)
    ensures
        r == is_ws(c),
{
    c == ' ' || c == '\t' || c == '\n' || c == '\r' || c == '\u{b}' || c == '\u{c}'
}

/// `s` without its leading whitespace.
pub(crate) fn trim_start<'a>(s: &'a str) -> (r: &'a str)
    ensures
        r@ == trim_start_model(s@),
{
    let n = s.unicode_len();
    let mut j: usize = 0;
    loop
        invariant
            j <= n,
            n == s@.len(),
            forall|k: int| 0 <= k < j ==> is_ws(s@[k]),
        ensures
            j <= n,
            forall|k: int| 0 <= k < j ==> is_ws(s@[k]),
            j == n || !is_ws(s@[j as int]),
        decreases n - j,
    {
        if j >= n {
            break ;
        }
        if !is_ws_char(s.get_char(j)) {
            break ;
        }
        j += 1;
    }
    proof {
        lemma_trim_start_at(s@, j as int);
    }
    s.substring_char(j, n)
}

/// `s` without its trailing whitespace.
pub(crate) fn trim_end<'a>(s: &'a str) -> (r: &'a str)
    ensures
        r@ == trim_end_model(s@),
{
    let n = s.unicode_len();
    let mut j: usize = n;
    loop
        invariant
            j <= n,
            n == s@.len(),
            forall|k: int| j <= k < n ==> is_ws(s@[k]),
        ensures
            j <= n,
            forall|k: int| j <= k < n ==> is_ws(s@[k]),
            j == 0 || !is_ws(s@[j - 1]),
        decreases j,
    {
        if j == 0 {
            break ;
        }
        if !is_ws_char(s.get_char(j - 1)) {
            break ;
        }
        j -= 1;
    }
    proof {
        lemma_trim_end_at(s@, j as int);
    }
    s.substring_char(0, j)
}

/// `s` without its trailing carriage returns.
pub(crate) fn trim_end_cr<'a>(s: &'a str) -> (r: &'a str)
    ensures
        r@ == trim_end_cr_model(s@),
{
    let n = s.unicode_len();
    let mut j: usize = n;
    loop
        invariant
            j <= n,
            n == s@.len(),
            forall|k: int| j <= k < n ==> s@[k] == '\r',
        ensures
            j <= n,
            forall|k: int| j <= k < n ==> s@[k] == '\r',
            j == 0 || s@[j - 1] != '\r',
        decreases j,
    {
        if j == 0 {
            break ;
        }
        if s.get_char(j - 1) != '\r' {
            break ;
        }
        j -= 1;
    }
    proof {
        lemma_trim_end_cr_at(s@, j as int);
    }
    s.substring_char(0, j)
}

/// A character the word scanner accepts: one whose low byte is not a space,
/// a tab or a line feed.
pub open spec fn word_char(c: char) -> bool {
    (c as u32) % 256 != 32 && (c as u32) % 256 != 9 && (c as u32) % 256 != 10
}

/// Checks if the provided character is not a whitespace or a new line,
/// judged by the character's low byte.
pub fn non_whitespace(c: char) -> (r: bool)
    ensures
        r == word_char(c),
{
    let b = (c as u32) % 256;
    b != 32 && b != 9 && b != 10
}

/// The length of the longest prefix of word characters.
pub open spec fn word_len(s: Seq<char>) -> int
    decreases s.len(),
{
    if s.len() > 0 && word_char(s[0]) {
        1 + word_len(s.subrange(1, s.len() as int))
    } else {
        0
    }
}

proof fn lemma_word_len_at(s: Seq<char>, j: int)
    requires
        0 <= j <= s.len(),
        forall|k: int| 0 <= k < j ==> word_char(s[k]),
        j == s.len() || !word_char(s[j]),
    ensures
        word_len(s) == j,
    decreases j,
{
    if j == 0 {
    } else {
        let t = s.subrange(1, s.len() as int);
        lemma_word_len_at(t, j - 1);
    }
}

/// Parses a single word: the longest nonempty prefix of word characters,
/// returned together with the remaining input.
pub fn word<'a>(input: &'a str) -> (r: Option<(&'a str, &'a str)>)
    ensures
        match r {
            Some((w, rest)) => word_len(input@) > 0 && w@ == input@.subrange(0, word_len(input@))
                && rest@ == input@.subrange(word_len(input@), input@.len() as int),
            None => word_len(input@) == 0,
        },
{
    let n = input.unicode_len();
    let mut j: usize = 0;
    loop
        invariant
            j <= n,
            n == input@.len(),
            forall|k: int| 0 <= k < j ==> word_char(input@[k]),
        ensures
            j <= n,
            forall|k: int| 0 <= k < j ==> word_char(input@[k]),
            j == n || !word_char(input@[j as int]),
        decreases n - j,
    {
        if j >= n {
            break ;
        }
        if !non_whitespace(input.get_char(j)) {
            break ;
        }
        j += 1;
    }
    proof {
        lemma_word_len_at(input@, j as int);
    }
    if j == 0 {
        None
    } else {
        Some((input.substring_char(0, j), input.substring_char(j, n)))
    }
}

/// Result of scanning a styled span: the recursively parsed interior and the
/// remaining input.
pub enum Styled<'a> {
    Hit { children: Vec<Expression>, rest: &'a str },
    Miss,
    Failed,
}

/// Ghost counterpart of [`Styled`].
pub enum StyleView {
    Hit(Seq<ExprView>, Seq<char>),
    Miss,
    Failed,
}

/// A styled span: a fenced scan whose interior is itself parsed as inline
/// content.
pub open spec fn style_model(s: Seq<char>, boundary: Seq<char>) -> StyleView
    decreases s.len(), 0int, 0int,
{
    match fenced_model(s, boundary, boundary) {
        // The length guard is never false for a nonempty boundary; it only
        // bounds the recursion into the interior.
        FencedView::Hit(inner, rest) => if inner.len() < s.len() {
            match parse_inline_model(inner) {
                Some(es) => StyleView::Hit(es, rest),
                None => StyleView::Failed,
            }
        } else {
            StyleView::Failed
        },
        FencedView::Miss => StyleView::Miss,
        FencedView::Unterminated => StyleView::Failed,
    }
}

/// Scans a span delimited on both sides by `boundary` and parses its
/// interior as inline content.
pub fn style<'a>(input: &'a str, boundary: &str) -> (r: Styled<'a>)
    requires
        boundary@.len() >= 1,
    ensures
        match r {
            Styled::Hit { children, rest } => style_model(input@, boundary@) == StyleView::Hit(
                Expression::model_seq(children@),
                rest@,
            ) && rest@.len() < input@.len(),
            Styled::Miss => style_model(input@, boundary@) is Miss,
            Styled::Failed => style_model(input@, boundary@) is Failed,
        },
    decreases input@.len(), 0int, 0int,
{
    match fenced(input, boundary, boundary) {
        Fenced::Hit { inner, rest } => match parse_inline(inner) {
            Some(children) => Styled::Hit { children, rest },
            None => Styled::Failed,
        },
        Fenced::Miss => Styled::Miss,
        Fenced::Unterminated => Styled::Failed,
    }
}

/// The single-character version of [`style`].
pub fn style_char<'a>(input: &'a str, boundary: char) -> (r: Styled<'a>)
    ensures
        match r {
            Styled::Hit { children, rest } => style_model(input@, seq![boundary])
                == StyleView::Hit(Expression::model_seq(children@), rest@) && rest@.len()
                < input@.len(),
            Styled::Miss => style_model(input@, seq![boundary]) is Miss,
            Styled::Failed => style_model(input@, seq![boundary]) is Failed,
        },
    decreases input@.len(), 0int, 0int,
{
    match fenced_char(input, boundary, boundary) {
        Fenced::Hit { inner, rest } => match parse_inline(inner) {
            Some(children) => Styled::Hit { children, rest },
            None => Styled::Failed,
        },
        Fenced::Miss => Styled::Miss,
        Fenced::Unterminated => Styled::Failed,
    }
}

/// Recognizes one line ending at the start of the input: `\r\n` or `\n`.
/// Returns the matched ending and the remaining input.
pub fn new_line<'a>(input: &'a str) -> (r: Option<(&'a str, &'a str)>)
    ensures
        match r {
            Some((nl, rest)) => {
                &&& nl@ + rest@ == input@
                &&& (nl@ == seq!['\r', '\n'] || nl@ == seq!['\n'])
                &&& occurs_at(input@, nl@, 0)
            },
            None => !occurs_at(input@, seq!['\r', '\n'], 0) && !occurs_at(
                input@,
                seq!['\n'],
                0,
            ),
        },
{
    proof {
        reveal_strlit("\r\n");
        reveal_strlit("\n");
        assert("\r\n"@ =~= seq!['\r', '\n']);
        assert("\n"@ =~= seq!['\n']);
    }
    let n = input.unicode_len();
    if matches_at(input, 0, "\r\n") {
        let nl = input.substring_char(0, 2);
        let rest = input.substring_char(2, n);
        proof {
            assert(nl@ + rest@ =~= input@);
        }
        Some((nl, rest))
    } else if matches_at(input, 0, "\n") {
        let nl = input.substring_char(0, 1);
        let rest = input.substring_char(1, n);
        proof {
            assert(nl@ + rest@ =~= input@);
        }
        Some((nl, rest))
    } else {
        None
    }
}

} // verus!
