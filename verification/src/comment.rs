//! Normalization of comment tokens into documentation text.
//!
//! Every line of every comment loses its comment markers and the white space
//! around it. The comments come in the order in which a backward walk finds
//! them, last one first, and leave in source order.

use vstd::prelude::*;
use crate::text::{
    char_is_whitespace, chars_of, is_whitespace, join_lines, lemma_join_next, lines_of,
    line_spans, skip_whitespace, skip_whitespace_back, trim, trim_end,
};

verus! {

/// White space or the marker of a line comment.
pub open spec fn is_lead(c: char) -> bool {
    is_whitespace(c) || c == '#'
}

/// `s` without the run of white space and line-comment markers at its start.
pub open spec fn strip_lead(s: Seq<char>) -> Seq<char>
    decreases s.len(),
{
    if s.len() > 0 && is_lead(s[0]) {
        strip_lead(s.drop_first())
    } else {
        s
    }
}

/// Tells whether `s` begins with the opener of a block comment.
pub open spec fn opens_block(s: Seq<char>) -> bool {
    s.len() >= 2 && s[0] == '/' && s[1] == '*'
}

/// Tells whether `s` ends with the closer of a block comment.
pub open spec fn closes_block(s: Seq<char>) -> bool {
    s.len() >= 2 && s[s.len() - 2] == '*' && s[s.len() - 1] == '/'
}

/// `s` without the block-comment openers at its start, however many follow
/// each other there.
pub open spec fn strip_openers(s: Seq<char>) -> Seq<char>
    decreases s.len(),
{
    if opens_block(s) {
        strip_openers(s.skip(2))
    } else {
        s
    }
}

/// `s` without the block-comment closers at its end, however many follow each
/// other there.
pub open spec fn strip_closers(s: Seq<char>) -> Seq<char>
    decreases s.len(),
{
    if closes_block(s) {
        strip_closers(s.take(s.len() - 2))
    } else {
        s
    }
}

/// One line of a comment, normalized: the leading run of white space and line
/// markers goes, then the block openers, then the white space at both ends,
/// then the block closers, then the white space before them.
pub open spec fn normalize_line(line: Seq<char>) -> Seq<char> {
    trim_end(strip_closers(trim(strip_openers(strip_lead(line)))))
}

/// One comment token, normalized line by line; its line feeds stay.
pub open spec fn normalize_comment(comment: Seq<char>) -> Seq<char> {
    join_lines(lines_of(comment).map_values(|line: Seq<char>| normalize_line(line)))
}

/// The documentation text of comments given last one first: each normalized,
/// first one first, a line feed between each two.
pub open spec fn cleanup_text(comments: Seq<Seq<char>>) -> Seq<char> {
    join_lines(comments.reverse().map_values(|comment: Seq<char>| normalize_comment(comment)))
}

/// A line that normalization has nothing to take from: it neither begins with
/// white space, a line marker or a block opener, nor ends with white space
/// or a block closer.
pub open spec fn is_clean_line(line: Seq<char>) -> bool {
    &&& line.len() > 0 ==> !is_lead(line[0]) && !is_whitespace(line.last())
    &&& !opens_block(line)
    &&& !closes_block(line)
}

/// Normalization leaves a clean line as it is.
pub proof fn lemma_clean_line_is_kept(line: Seq<char>)
    requires
        is_clean_line(line),
    ensures
        normalize_line(line) == line,
{
}

/// Normalization leaves a clean text of one line as it is.
pub proof fn lemma_clean_text_is_kept(line: Seq<char>)
    requires
        is_clean_line(line),
        forall|i: int| 0 <= i < line.len() ==> line[i] != '\n',
    ensures
        normalize_comment(line) == line,
        cleanup_text(seq![line]) == line,
{
    lemma_one_line(line);
    let lines = lines_of(line);
    let cleaned = lines.map_values(|l: Seq<char>| normalize_line(l));
    assert(cleaned.len() == 1);
    assert(cleaned[0] == normalize_line(line));
    assert(normalize_comment(line) == line);
    let given = seq![line];
    assert(given.reverse() =~= given);
    let docs = given.reverse().map_values(|c: Seq<char>| normalize_comment(c));
    assert(docs.len() == 1);
    assert(docs[0] == normalize_comment(line));
}

/// A text without a line feed is one line.
pub proof fn lemma_one_line(s: Seq<char>)
    requires
        forall|i: int| 0 <= i < s.len() ==> s[i] != '\n',
    ensures
        lines_of(s) == seq![s],
    decreases s.len(),
{
    if s.len() == 0 {
        assert(s =~= Seq::<char>::empty());
    } else {
        lemma_one_line(s.drop_last());
        assert(s.drop_last().push(s.last()) =~= s);
        assert(lines_of(s) =~= seq![s]);
    }
}

/// No comment gives no text.
pub proof fn lemma_cleanup_of_none()
    ensures
        cleanup_text(Seq::<Seq<char>>::empty()).len() == 0,
{
    let none = Seq::<Seq<char>>::empty();
    assert(none.reverse().map_values(|c: Seq<char>| normalize_comment(c)).len() == 0);
}

/// The start of what is left of `from..to` without its leading run of white
/// space and line markers.
fn strip_lead_span(chars: &Vec<char>, from: usize, to: usize) -> (at: usize)
    requires
        from <= to <= chars@.len(),
    ensures
        from <= at <= to,
        chars@.subrange(at as int, to as int) == strip_lead(
            chars@.subrange(from as int, to as int),
        ),
{
    let mut at: usize = from;
    while at < to && (char_is_whitespace(chars[at]) || chars[at] == '#')
        invariant
            from <= at <= to <= chars@.len(),
            strip_lead(chars@.subrange(at as int, to as int)) == strip_lead(
                chars@.subrange(from as int, to as int),
            ),
        decreases to - at,
    {
        proof {
            let rest = chars@.subrange(at as int, to as int);
            assert(rest[0] == chars@[at as int]);
            assert(rest.drop_first() =~= chars@.subrange(at + 1, to as int));
        }
        at = at + 1;
    }
    proof {
        let rest = chars@.subrange(at as int, to as int);
        if at < to {
            assert(rest[0] == chars@[at as int]);
        }
    }
    at
}

/// The start of what is left of `from..to` without the block openers at its
/// start.
fn strip_openers_span(chars: &Vec<char>, from: usize, to: usize) -> (at: usize)
    requires
        from <= to <= chars@.len(),
    ensures
        from <= at <= to,
        chars@.subrange(at as int, to as int) == strip_openers(
            chars@.subrange(from as int, to as int),
        ),
{
    let mut at: usize = from;
    while to - at >= 2 && chars[at] == '/' && chars[at + 1] == '*'
        invariant
            from <= at <= to <= chars@.len(),
            strip_openers(chars@.subrange(at as int, to as int)) == strip_openers(
                chars@.subrange(from as int, to as int),
            ),
        decreases to - at,
    {
        proof {
            let rest = chars@.subrange(at as int, to as int);
            assert(rest[0] == chars@[at as int]);
            assert(rest[1] == chars@[at + 1]);
            assert(rest.skip(2) =~= chars@.subrange(at + 2, to as int));
        }
        at = at + 2;
    }
    proof {
        let rest = chars@.subrange(at as int, to as int);
        if to - at >= 2 {
            assert(rest[0] == chars@[at as int]);
            assert(rest[1] == chars@[at + 1]);
        }
    }
    at
}

/// The end of what is left of `from..to` without the block closers at its
/// end.
fn strip_closers_span(chars: &Vec<char>, from: usize, to: usize) -> (end: usize)
    requires
        from <= to <= chars@.len(),
    ensures
        from <= end <= to,
        chars@.subrange(from as int, end as int) == strip_closers(
            chars@.subrange(from as int, to as int),
        ),
{
    let mut end: usize = to;
    while end - from >= 2 && chars[end - 2] == '*' && chars[end - 1] == '/'
        invariant
            from <= end <= to <= chars@.len(),
            strip_closers(chars@.subrange(from as int, end as int)) == strip_closers(
                chars@.subrange(from as int, to as int),
            ),
        decreases end - from,
    {
        proof {
            let rest = chars@.subrange(from as int, end as int);
            assert(rest[rest.len() - 2] == chars@[end - 2]);
            assert(rest[rest.len() - 1] == chars@[end - 1]);
            assert(rest.take(rest.len() - 2) =~= chars@.subrange(from as int, end - 2));
        }
        end = end - 2;
    }
    proof {
        let rest = chars@.subrange(from as int, end as int);
        if end - from >= 2 {
            assert(rest[rest.len() - 2] == chars@[end - 2]);
            assert(rest[rest.len() - 1] == chars@[end - 1]);
        }
    }
    end
}

/// The range of `chars` that is left of the line `from..to` after
/// normalization.
pub(crate) fn normalize_span(chars: &Vec<char>, from: usize, to: usize) -> (kept: (usize, usize))
    requires
        from <= to <= chars@.len(),
    ensures
        from <= kept.0 <= kept.1 <= to,
        chars@.subrange(kept.0 as int, kept.1 as int) == normalize_line(
            chars@.subrange(from as int, to as int),
        ),
{
    let led = strip_lead_span(chars, from, to);
    let opened = strip_openers_span(chars, led, to);
    let start = skip_whitespace(chars, opened, to);
    let trimmed = skip_whitespace_back(chars, start, to);
    let closed = strip_closers_span(chars, start, trimmed);
    let end = skip_whitespace_back(chars, start, closed);
    (start, end)
}

/// Appends the normalized form of one comment token to `out`.
pub fn push_normalized(comment: &str, out: &mut String)
    ensures
        final(out)@ == old(out)@ + normalize_comment(comment@),
{
    let chars = chars_of(comment);
    let spans = line_spans(&chars);
    let ghost before = out@;
    let ghost cleaned = lines_of(comment@).map_values(|line: Seq<char>| normalize_line(line));
    let mut k: usize = 0;
    proof {
        assert(cleaned.take(0) =~= Seq::<Seq<char>>::empty());
        assert(before + join_lines(cleaned.take(0)) =~= before);
    }
    while k < spans.len()
        invariant
            k <= spans@.len(),
            chars@ == comment@,
            cleaned == lines_of(comment@).map_values(|line: Seq<char>| normalize_line(line)),
            spans@.len() == lines_of(chars@).len(),
            forall|j: int|
                0 <= j < spans@.len() ==> {
                    &&& (#[trigger] spans@[j]).0 <= spans@[j].1 <= chars@.len()
                    &&& lines_of(chars@)[j] == chars@.subrange(
                        spans@[j].0 as int,
                        spans@[j].1 as int,
                    )
                },
            out@ == before + join_lines(cleaned.take(k as int)),
        decreases spans@.len() - k,
    {
        let (from, to) = spans[k];
        let (a, b) = normalize_span(&chars, from, to);
        proof {
            reveal_strlit("\n");
            assert("\n"@ =~= seq!['\n']);
            lemma_join_next(cleaned, k as int);
            assert(cleaned[k as int] == chars@.subrange(a as int, b as int));
        }
        if k > 0 {
            out.append("\n");
        }
        out.append(comment.substring_char(a, b));
        k = k + 1;
    }
    proof {
        assert(cleaned.take(k as int) =~= cleaned);
    }
}

/// The documentation text of `comment`, whose tokens come last one first, as
/// a backward walk finds them: each token normalized line by line, the tokens
/// in source order, a line feed between each two.
pub fn cleanup_comments(comment: &Vec<String>) -> (doc: String)
    ensures
        doc@ == cleanup_text(comment@.map_values(|c: String| c@)),
{
    let mut doc = String::new();
    let ghost given = comment@.map_values(|c: String| c@);
    let ghost docs = given.reverse().map_values(|c: Seq<char>| normalize_comment(c));
    let n = comment.len();
    let mut k: usize = 0;
    proof {
        assert(docs.take(0) =~= Seq::<Seq<char>>::empty());
    }
    while k < n
        invariant
            k <= n == comment@.len(),
            given == comment@.map_values(|c: String| c@),
            docs == given.reverse().map_values(|c: Seq<char>| normalize_comment(c)),
            doc@ == join_lines(docs.take(k as int)),
        decreases n - k,
    {
        proof {
            reveal_strlit("\n");
            assert("\n"@ =~= seq!['\n']);
            lemma_join_next(docs, k as int);
            assert(docs[k as int] == normalize_comment(comment@[n - 1 - k]@));
        }
        if k > 0 {
            doc.append("\n");
        }
        push_normalized(comment[n - 1 - k].as_str(), &mut doc);
        k = k + 1;
    }
    proof {
        assert(docs.take(k as int) =~= docs);
    }
    doc
}

} // verus!
