//! What saving gives back of what was loaded.
//!
//! A document that was loaded and not edited saves as its text with a
//! newline after every line. A line without characters is stored as a blank
//! and is therefore saved as a blank: such a text does not come back byte
//! for byte.

use vstd::prelude::*;
use crate::segment::{
    document_runs_of, lemma_split_spans_nonempty, line_runs_of, line_spans, span_runs_of,
    split_lines, split_spans,
};
use crate::tree::TreeView;

verus! {

/// The runs joined in order.
pub open spec fn concat(runs: Seq<Seq<char>>) -> Seq<char>
    decreases runs.len(),
{
    if runs.len() == 0 {
        Seq::empty()
    } else {
        concat(runs.drop_last()) + runs.last()
    }
}

/// What a line is saved as: itself, or a blank where it has no characters.
pub open spec fn stored_line(line: Seq<char>) -> Seq<char> {
    if line.len() == 0 {
        seq![' ']
    } else {
        line
    }
}

/// What the lines are saved as: each as it is stored, with a newline after
/// it.
pub open spec fn written(lines: Seq<Seq<char>>) -> Seq<char>
    decreases lines.len(),
{
    if lines.len() == 0 {
        Seq::empty()
    } else {
        written(lines.drop_last()) + stored_line(lines.last()).push('\n')
    }
}

/// The lines joined, with a newline after each.
pub open spec fn joined(lines: Seq<Seq<char>>) -> Seq<char>
    decreases lines.len(),
{
    if lines.len() == 0 {
        Seq::empty()
    } else {
        joined(lines.drop_last()) + lines.last().push('\n')
    }
}

/// The spans of a line, joined, are the line.
pub proof fn lemma_concat_spans(line: Seq<char>)
    ensures
        concat(split_spans(line)) == line,
    decreases line.len(),
{
    if line.len() > 0 {
        let head = line.drop_last();
        let before = split_spans(head);
        let c = line.last();
        lemma_concat_spans(head);
        lemma_split_spans_nonempty(head);
        assert(line =~= head.push(c));
        if line.len() == 1 || line[line.len() - 2] == ' ' {
            let now = before.push(seq![c]);
            assert(now.drop_last() =~= before);
            assert(concat(now) =~= line);
        } else {
            let now = before.drop_last().push(before.last().push(c));
            assert(now.drop_last() =~= before.drop_last());
            assert(concat(before) == concat(before.drop_last()) + before.last());
            assert(concat(now) =~= line);
        }
    }
}

/// The spans that a line is stored as, joined, are the line as it is saved.
pub proof fn lemma_concat_line_spans(line: Seq<char>)
    ensures
        concat(line_spans(line)) == stored_line(line),
{
    if line.len() == 0 {
        let blank = seq![seq![' ']];
        assert(blank.drop_last() =~= Seq::<Seq<char>>::empty());
        assert(concat(blank.drop_last()) =~= Seq::<char>::empty());
        assert(concat(blank) =~= seq![' ']);
    } else {
        lemma_concat_spans(line);
    }
}

/// The lines of a text, joined with a newline after each, are the text and
/// one more newline.
pub proof fn lemma_joined_lines(text: Seq<char>)
    ensures
        split_lines(text).len() >= 1,
        joined(split_lines(text)) == text.push('\n'),
    decreases text.len(),
{
    if text.len() == 0 {
        let only = seq![Seq::<char>::empty()];
        assert(only.drop_last() =~= Seq::<Seq<char>>::empty());
        assert(joined(only.drop_last()) =~= Seq::<char>::empty());
        assert(joined(only) =~= text.push('\n'));
    } else {
        let head = text.drop_last();
        let before = split_lines(head);
        let c = text.last();
        lemma_joined_lines(head);
        assert(text =~= head.push(c));
        assert(joined(before) == joined(before.drop_last()) + before.last().push('\n'));
        if c == '\n' {
            let now = before.push(Seq::empty());
            assert(now.drop_last() =~= before);
            assert(joined(now) =~= text.push('\n'));
        } else {
            let now = before.drop_last().push(before.last().push(c));
            assert(now.drop_last() =~= before.drop_last());
            assert(joined(before.drop_last()) + before.last() =~= head) by {
                let whole = joined(before.drop_last()) + before.last().push('\n');
                assert(whole == head.push('\n'));
                assert(whole.drop_last() =~= joined(before.drop_last()) + before.last());
                assert(head.push('\n').drop_last() =~= head);
            }
            assert(joined(now) =~= text.push('\n'));
        }
    }
}

/// Lines that all have characters are saved as they are joined.
pub proof fn lemma_written_nonempty(lines: Seq<Seq<char>>)
    requires
        forall|k: int| 0 <= k < lines.len() ==> (#[trigger] lines[k]).len() > 0,
    ensures
        written(lines) == joined(lines),
    decreases lines.len(),
{
    if lines.len() > 0 {
        assert forall|k: int| 0 <= k < lines.drop_last().len() implies (#[trigger] lines.drop_last()[k]).len()
            > 0 by {
            assert(lines.drop_last()[k] == lines[k]);
        }
        lemma_written_nonempty(lines.drop_last());
    }
}

/// The text of characters that hold one character each of `span`.
proof fn lemma_chars_text(tree: TreeView, ids: Seq<usize>, span: Seq<char>)
    requires
        ids.len() == span.len(),
        forall|k: int| 0 <= k < ids.len() ==> tree.text(#[trigger] ids[k]) == seq![span[k]],
    ensures
        tree.chars_text(ids) == span,
    decreases ids.len(),
{
    if ids.len() > 0 {
        assert forall|k: int| 0 <= k < ids.drop_last().len() implies tree.text(
            #[trigger] ids.drop_last()[k],
        ) == seq![span.drop_last()[k]] by {
            assert(ids.drop_last()[k] == ids[k]);
        }
        lemma_chars_text(tree, ids.drop_last(), span.drop_last());
        assert(tree.text(ids.last()) == seq![span.last()]);
        assert(tree.chars_text(ids) =~= span);
    } else {
        assert(tree.chars_text(ids) =~= span);
    }
}

/// The text of spans that are stored as `spans`.
proof fn lemma_spans_text(tree: TreeView, ids: Seq<usize>, spans: Seq<Seq<char>>)
    requires
        ids.len() == spans.len(),
        forall|k: int|
            0 <= k < ids.len() ==> tree.span_runs(#[trigger] ids[k]) == span_runs_of(spans[k]),
    ensures
        tree.spans_text(ids) == concat(spans),
    decreases ids.len(),
{
    if ids.len() > 0 {
        assert forall|k: int| 0 <= k < ids.drop_last().len() implies tree.span_runs(
            #[trigger] ids.drop_last()[k],
        ) == span_runs_of(spans.drop_last()[k]) by {
            assert(ids.drop_last()[k] == ids[k]);
        }
        lemma_spans_text(tree, ids.drop_last(), spans.drop_last());
        let span = ids.last();
        let run = spans.last();
        assert(tree.span_runs(span) == span_runs_of(run));
        let kids = tree.kids(span);
        assert(kids.len() == run.len()) by {
            assert(tree.span_runs(span).len() == kids.len());
            assert(span_runs_of(run).len() == run.len());
        }
        assert forall|k: int| 0 <= k < kids.len() implies tree.text(#[trigger] kids[k]) == seq![
            run[k],
        ] by {
            assert(tree.span_runs(span)[k] == tree.text(kids[k]));
            assert(span_runs_of(run)[k] == seq![run[k]]);
        }
        lemma_chars_text(tree, kids, run);
    }
}

/// The text of lines that are stored as the spans of `lines`.
proof fn lemma_lines_text(tree: TreeView, ids: Seq<usize>, lines: Seq<Seq<char>>)
    requires
        ids.len() == lines.len(),
        forall|k: int|
            0 <= k < ids.len() ==> tree.line_runs(#[trigger] ids[k]) == line_runs_of(
                line_spans(lines[k]),
            ),
    ensures
        tree.lines_text(ids) == written(lines),
    decreases ids.len(),
{
    if ids.len() > 0 {
        assert forall|k: int| 0 <= k < ids.drop_last().len() implies tree.line_runs(
            #[trigger] ids.drop_last()[k],
        ) == line_runs_of(line_spans(lines.drop_last()[k])) by {
            assert(ids.drop_last()[k] == ids[k]);
        }
        lemma_lines_text(tree, ids.drop_last(), lines.drop_last());
        let line = ids.last();
        let spans = line_spans(lines.last());
        assert(tree.line_runs(line) == line_runs_of(spans));
        let kids = tree.kids(line);
        assert(kids.len() == spans.len()) by {
            assert(tree.line_runs(line).len() == kids.len());
            assert(line_runs_of(spans).len() == spans.len());
        }
        assert forall|k: int| 0 <= k < kids.len() implies tree.span_runs(#[trigger] kids[k])
            == span_runs_of(spans[k]) by {
            assert(tree.line_runs(line)[k] == tree.span_runs(kids[k]));
            assert(line_runs_of(spans)[k] == span_runs_of(spans[k]));
        }
        lemma_spans_text(tree, kids, spans);
        lemma_concat_line_spans(lines.last());
    }
}

/// A document that holds `text` as it was loaded saves every line of the
/// text as it is stored, with a newline after it.
pub proof fn lemma_saved_as_loaded(tree: TreeView, text: Seq<char>)
    requires
        tree.document_runs(tree.document()) == document_runs_of(text),
    ensures
        tree.saved_text() == written(split_lines(text)),
{
    let doc = tree.document();
    let kids = tree.kids(doc);
    let lines = split_lines(text);
    assert(kids.len() == lines.len()) by {
        assert(tree.document_runs(doc).len() == kids.len());
        assert(document_runs_of(text).len() == lines.len());
    }
    assert forall|k: int| 0 <= k < kids.len() implies tree.line_runs(#[trigger] kids[k])
        == line_runs_of(line_spans(lines[k])) by {
        assert(tree.document_runs(doc)[k] == tree.line_runs(kids[k]));
        assert(document_runs_of(text)[k] == line_runs_of(line_spans(lines[k])));
    }
    lemma_lines_text(tree, kids, lines);
}

/// Loading and saving without an edit in between gives the text back with
/// one newline added at its end, provided no line of the text is empty.
pub proof fn lemma_round_trip(tree: TreeView, text: Seq<char>)
    requires
        tree.document_runs(tree.document()) == document_runs_of(text),
        forall|k: int|
            0 <= k < split_lines(text).len() ==> (#[trigger] split_lines(text)[k]).len() > 0,
    ensures
        tree.saved_text() == text.push('\n'),
{
    lemma_saved_as_loaded(tree, text);
    lemma_written_nonempty(split_lines(text));
    lemma_joined_lines(text);
}

} // verus!
