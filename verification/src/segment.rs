//! How raw text is cut into lines and spans when a document is loaded.
//!
//! A text splits into lines at every newline. A line splits into spans, each
//! a maximal run of characters that ends at a space; the last span of a line
//! may end without one. A line without characters gets one span that holds a
//! single blank, so that no line is ever empty.

use vstd::prelude::*;

verus! {

/// The lines of `text`: the pieces between its newlines, in order. A text
/// with `k` newlines has `k + 1` lines, some of which may be empty.
pub open spec fn split_lines(text: Seq<char>) -> Seq<Seq<char>>
    decreases text.len(),
{
    if text.len() == 0 {
        seq![Seq::empty()]
    } else {
        let before = split_lines(text.drop_last());
        if text.last() == '\n' {
            before.push(Seq::empty())
        } else {
            before.drop_last().push(before.last().push(text.last()))
        }
    }
}

/// The spans of `line`: a character opens a new span when it is the first of
/// the line or follows a space, and joins the span before it otherwise.
pub open spec fn split_spans(line: Seq<char>) -> Seq<Seq<char>>
    decreases line.len(),
{
    if line.len() == 0 {
        Seq::empty()
    } else {
        let before = split_spans(line.drop_last());
        if line.len() == 1 || line[line.len() - 2] == ' ' {
            before.push(seq![line.last()])
        } else {
            before.drop_last().push(before.last().push(line.last()))
        }
    }
}

/// The spans that a line is stored as: those of [`split_spans`], or one span
/// of a single blank where the line has no characters.
pub open spec fn line_spans(line: Seq<char>) -> Seq<Seq<char>> {
    if line.len() == 0 {
        seq![seq![' ']]
    } else {
        split_spans(line)
    }
}

/// The runs of text that a span is stored as: one per character.
pub open spec fn span_runs_of(span: Seq<char>) -> Seq<Seq<char>> {
    span.map_values(|c: char| seq![c])
}

/// The runs of text that the spans of a line are stored as.
pub open spec fn line_runs_of(spans: Seq<Seq<char>>) -> Seq<Seq<Seq<char>>> {
    spans.map_values(|span: Seq<char>| span_runs_of(span))
}

/// The runs of text that `text` is stored as, grouped by line and by span.
pub open spec fn document_runs_of(text: Seq<char>) -> Seq<Seq<Seq<Seq<char>>>> {
    split_lines(text).map_values(|line: Seq<char>| line_runs_of(line_spans(line)))
}

/// The contents of a vector of character vectors.
pub open spec fn views(v: Seq<Vec<char>>) -> Seq<Seq<char>> {
    v.map_values(|run: Vec<char>| run@)
}

/// Every span of a line has at least one character.
pub proof fn lemma_split_spans_nonempty(line: Seq<char>)
    ensures
        forall|k: int| 0 <= k < split_spans(line).len() ==> (#[trigger] split_spans(line)[k]).len() > 0,
        line.len() > 0 ==> split_spans(line).len() > 0,
    decreases line.len(),
{
    if line.len() > 0 {
        lemma_split_spans_nonempty(line.drop_last());
    }
}

/// The spans of a line end at its spaces and nowhere else: the last
/// character of the last span is the last character of the line, every span
/// before the last ends with a space, and no span has a space before its
/// last character.
pub proof fn lemma_spans_end_at_spaces(line: Seq<char>)
    ensures
        line.len() > 0 ==> split_spans(line).len() > 0 && split_spans(line).last().len() > 0
            && split_spans(line).last().last() == line.last(),
        forall|k: int|
            0 <= k < split_spans(line).len() - 1 ==> (#[trigger] split_spans(line)[k]).len() > 0
                && split_spans(line)[k].last() == ' ',
        forall|k: int, j: int|
            0 <= k < split_spans(line).len() && 0 <= j < split_spans(line)[k].len() - 1
                ==> #[trigger] split_spans(line)[k][j] != ' ',
    decreases line.len(),
{
    if line.len() > 0 {
        let head = line.drop_last();
        let before = split_spans(head);
        let now = split_spans(line);
        lemma_spans_end_at_spaces(head);
        lemma_split_spans_nonempty(head);
        if line.len() == 1 || line[line.len() - 2] == ' ' {
            assert(now == before.push(seq![line.last()]));
            assert forall|k: int| 0 <= k < now.len() - 1 implies (#[trigger] now[k]).len() > 0
                && now[k].last() == ' ' by {
                assert(now[k] == before[k]);
                if k == before.len() - 1 {
                    assert(head.last() == line[line.len() - 2]);
                }
            }
            assert forall|k: int, j: int|
                0 <= k < now.len() && 0 <= j < now[k].len() - 1 implies #[trigger] now[k][j]
                != ' ' by {
                if k < before.len() {
                    assert(now[k] == before[k]);
                }
            }
        } else {
            assert(now == before.drop_last().push(before.last().push(line.last())));
            assert(head.last() == line[line.len() - 2]);
            assert forall|k: int| 0 <= k < now.len() - 1 implies (#[trigger] now[k]).len() > 0
                && now[k].last() == ' ' by {
                assert(now[k] == before[k]);
            }
            assert forall|k: int, j: int|
                0 <= k < now.len() && 0 <= j < now[k].len() - 1 implies #[trigger] now[k][j]
                != ' ' by {
                if k < now.len() - 1 {
                    assert(now[k] == before[k]);
                } else {
                    assert(now[k][j] == before.last()[j]);
                }
            }
        }
    }
}

/// No line of a text holds a newline.
pub proof fn lemma_lines_hold_no_newline(text: Seq<char>)
    ensures
        split_lines(text).len() > 0,
        forall|k: int, j: int|
            0 <= k < split_lines(text).len() && 0 <= j < split_lines(text)[k].len()
                ==> #[trigger] split_lines(text)[k][j] != '\n',
    decreases text.len(),
{
    if text.len() > 0 {
        let before = split_lines(text.drop_last());
        let now = split_lines(text);
        lemma_lines_hold_no_newline(text.drop_last());
        assert forall|k: int, j: int| 0 <= k < now.len() && 0 <= j < now[k].len() implies #[trigger] now[k][j]
            != '\n' by {
            if k < before.len() - 1 {
                assert(now[k] == before[k]);
            } else if text.last() != '\n' && j < before.last().len() {
                assert(now[k][j] == before.last()[j]);
            }
        }
    }
}

/// The characters of `text`, in order.
pub fn chars_of(text: &str) -> (chars: Vec<char>)
    ensures
        chars@ == text@,
{
    let mut chars: Vec<char> = Vec::new();
    let n = text.unicode_len();
    let mut i: usize = 0;
    while i < n
        invariant
            n == text@.len(),
            i <= n,
            chars@ == text@.take(i as int),
        decreases n - i,
    {
        chars.push(text.get_char(i));
        i += 1;
    }
    chars
}

/// Cuts `text` into its lines.
pub fn lines_of(text: &Vec<char>) -> (lines: Vec<Vec<char>>)
    ensures
        views(lines@) == split_lines(text@),
{
    let mut lines: Vec<Vec<char>> = Vec::new();
    let mut current: Vec<char> = Vec::new();
    let mut i: usize = 0;
    while i < text.len()
        invariant
            i <= text.len(),
            views(lines@).push(current@) == split_lines(text@.take(i as int)),
        decreases text.len() - i,
    {
        let c = text[i];
        proof {
            assert(text@.take(i + 1).drop_last() == text@.take(i as int));
        }
        let ghost before = views(lines@);
        if c == '\n' {
            lines.push(current);
            current = Vec::new();
            assert(views(lines@) == before.push(lines@.last()@));
        } else {
            current.push(c);
            assert(before.push(current@).drop_last() == before);
        }
        i += 1;
    }
    assert(text@.take(i as int) == text@);
    let ghost before = views(lines@);
    lines.push(current);
    assert(views(lines@) == before.push(lines@.last()@));
    lines
}

/// Cuts `line` into the spans it is stored as.
pub fn spans_of(line: &Vec<char>) -> (spans: Vec<Vec<char>>)
    ensures
        views(spans@) == line_spans(line@),
{
    let mut spans: Vec<Vec<char>> = Vec::new();
    if line.len() == 0 {
        let mut blank: Vec<char> = Vec::new();
        blank.push(' ');
        spans.push(blank);
        assert(views(spans@) == seq![seq![' ']]);
        return spans;
    }
    let mut current: Vec<char> = Vec::new();
    let mut i: usize = 0;
    while i < line.len()
        invariant
            i <= line.len(),
            current@.len() == 0 <==> (i == 0 || line@[i - 1] == ' '),
            current@.len() > 0 ==> views(spans@).push(current@) == split_spans(line@.take(i as int)),
            current@.len() == 0 ==> views(spans@) == split_spans(line@.take(i as int)),
        decreases line.len() - i,
    {
        let c = line[i];
        proof {
            assert(line@.take(i + 1).drop_last() == line@.take(i as int));
        }
        let ghost before = views(spans@);
        let ghost run = current@;
        current.push(c);
        proof {
            let upto = line@.take(i + 1);
            assert(upto.last() == c);
            if run.len() == 0 {
                assert(current@ == seq![c]);
            } else {
                assert(upto[upto.len() - 2] == line@[i - 1]);
                assert(before.push(run).drop_last() == before);
                assert(before.push(run).last() == run);
            }
            assert(before.push(current@) == split_spans(upto));
        }
        if c == ' ' {
            spans.push(current);
            current = Vec::new();
            assert(views(spans@) == before.push(spans@.last()@));
        }
        i += 1;
    }
    assert(line@.take(i as int) == line@);
    if current.len() > 0 {
        let ghost before = views(spans@);
        spans.push(current);
        assert(views(spans@) == before.push(spans@.last()@));
    }
    spans
}

} // verus!
