//! What holds of every text: its lines spell it, blank lines change
//! nothing, and one bad line fails the whole text.

use vstd::prelude::*;
use crate::batch::{
    batch_errors, kept_lines, line_outcome, parse_text, split_lines, LineErrorView, LineFaultView,
};
use crate::chars::{all_blank, blank_char, trim};
use crate::lexer::{bad_char, lemma_lex_refuses_unrecognized, lex_line, recognized};

verus! {

/// A text always has at least one line.
pub proof fn lemma_split_not_empty(text: Seq<char>)
    ensures
        split_lines(text).len() >= 1,
    decreases text.len(),
{
    if text.len() > 0 {
        lemma_split_not_empty(text.drop_last());
    }
}

/// Lines put together again, with a line feed between one and the next.
pub open spec fn joined_lines(lines: Seq<Seq<char>>) -> Seq<char>
    decreases lines.len(),
{
    if lines.len() == 0 {
        Seq::empty()
    } else if lines.len() == 1 {
        lines[0]
    } else {
        joined_lines(lines.drop_last()) + seq!['\n'] + lines.last()
    }
}

/// No line holds a line feed.
pub open spec fn no_line_feed(lines: Seq<Seq<char>>) -> bool {
    forall|k: int, i: int|
        0 <= k < lines.len() && 0 <= i < lines[k].len() ==> #[trigger] lines[k][i] != '\n'
}

/// The lines of a text hold no line feed, and put together again they are
/// the text.
pub proof fn lemma_lines_spell_text(text: Seq<char>)
    ensures
        no_line_feed(split_lines(text)),
        joined_lines(split_lines(text)) == text,
    decreases text.len(),
{
    let lines = split_lines(text);
    if text.len() > 0 {
        let shorter = text.drop_last();
        let before = split_lines(shorter);
        let c = text.last();
        lemma_lines_spell_text(shorter);
        lemma_split_not_empty(shorter);
        assert(shorter.push(c) == text);
        if c == '\n' {
            assert(lines.drop_last() == before);
            assert(joined_lines(before) + seq!['\n'] + Seq::<char>::empty() == shorter.push(c));
            assert forall|k: int, i: int|
                0 <= k < lines.len() && 0 <= i < lines[k].len() implies #[trigger] lines[k][i]
                != '\n' by {
                assert(lines[k] == before[k]);
            }
        } else {
            let grown = before.last().push(c);
            assert(lines.last() == grown);
            if before.len() > 1 {
                assert(lines.drop_last() == before.drop_last());
                assert(joined_lines(before.drop_last()) + seq!['\n'] + grown == (joined_lines(
                    before.drop_last(),
                ) + seq!['\n'] + before.last()).push(c));
            }
            assert forall|k: int, i: int|
                0 <= k < lines.len() && 0 <= i < lines[k].len() implies #[trigger] lines[k][i]
                != '\n' by {
                if k < before.len() - 1 {
                    assert(lines[k] == before[k]);
                } else if i < before.last().len() {
                    assert(lines[k][i] == before[k][i]);
                }
            }
        }
    }
}

/// The lines of two texts joined by a line feed are the lines of the first
/// and then the lines of the second.
pub proof fn lemma_split_joined(above: Seq<char>, below: Seq<char>)
    ensures
        split_lines(above + seq!['\n'] + below) == split_lines(above) + split_lines(below),
    decreases below.len(),
{
    let text = above + seq!['\n'] + below;
    if below.len() == 0 {
        assert(text.drop_last() == above);
        assert(split_lines(below) == seq![Seq::<char>::empty()]);
        assert(split_lines(above).push(Seq::<char>::empty()) == split_lines(above) + split_lines(
            below,
        ));
    } else {
        let shorter = below.drop_last();
        assert(text.drop_last() == above + seq!['\n'] + shorter);
        assert(text.last() == below.last());
        lemma_split_joined(above, shorter);
        lemma_split_not_empty(shorter);
        let upper = split_lines(above);
        let lower = split_lines(shorter);
        if below.last() == '\n' {
            assert((upper + lower).push(Seq::<char>::empty()) == upper + lower.push(
                Seq::<char>::empty(),
            ));
        } else {
            let grown = lower.last().push(below.last());
            assert((upper + lower).last() == lower.last());
            assert((upper + lower).update((upper + lower).len() - 1, grown) == upper
                + lower.update(lower.len() - 1, grown));
        }
    }
}

/// The lines that count among two lists of lines are those of the first
/// and then those of the second.
pub proof fn lemma_kept_joined(upper: Seq<Seq<char>>, lower: Seq<Seq<char>>)
    ensures
        kept_lines(upper + lower) == kept_lines(upper) + kept_lines(lower),
    decreases lower.len(),
{
    if lower.len() == 0 {
        assert(upper + lower == upper);
    } else {
        assert((upper + lower).drop_last() == upper + lower.drop_last());
        assert((upper + lower).last() == lower.last());
        lemma_kept_joined(upper, lower.drop_last());
        let line = lower.last();
        if trim(line).len() != 0 {
            assert((kept_lines(upper) + kept_lines(lower.drop_last())).push(trim(line))
                == kept_lines(upper) + kept_lines(lower.drop_last()).push(trim(line)));
        }
    }
}

/// Nothing is left of white space once it is trimmed.
pub proof fn lemma_trim_blank(line: Seq<char>)
    requires
        all_blank(line),
    ensures
        trim(line).len() == 0,
    decreases line.len(),
{
    if line.len() > 0 {
        assert(blank_char(line[0]));
        assert forall|i: int| 0 <= i < line.drop_first().len() implies blank_char(
            #[trigger] line.drop_first()[i],
        ) by {
            assert(line.drop_first()[i] == line[i + 1]);
        }
        lemma_trim_blank(line.drop_first());
    }
}

/// Every line of a text of white space is white space.
pub proof fn lemma_split_blank(text: Seq<char>)
    requires
        all_blank(text),
    ensures
        forall|k: int| 0 <= k < split_lines(text).len() ==> all_blank(#[trigger] split_lines(text)[k]),
    decreases text.len(),
{
    if text.len() > 0 {
        let shorter = text.drop_last();
        assert forall|i: int| 0 <= i < shorter.len() implies blank_char(#[trigger] shorter[i]) by {
            assert(shorter[i] == text[i]);
        }
        lemma_split_blank(shorter);
        lemma_split_not_empty(shorter);
        let before = split_lines(shorter);
        assert(blank_char(text[text.len() - 1]));
        assert forall|k: int| 0 <= k < split_lines(text).len() implies all_blank(
            #[trigger] split_lines(text)[k],
        ) by {
            if k < before.len() - 1 {
                assert(split_lines(text)[k] == before[k]);
            } else if text.last() != '\n' {
                assert(all_blank(before[before.len() - 1]));
            }
        }
    }
}

/// No line counts among lines of white space.
pub proof fn lemma_kept_blank(lines: Seq<Seq<char>>)
    requires
        forall|k: int| 0 <= k < lines.len() ==> all_blank(#[trigger] lines[k]),
    ensures
        kept_lines(lines).len() == 0,
    decreases lines.len(),
{
    if lines.len() > 0 {
        assert forall|k: int| 0 <= k < lines.drop_last().len() implies all_blank(
            #[trigger] lines.drop_last()[k],
        ) by {
            assert(lines.drop_last()[k] == lines[k]);
        }
        lemma_kept_blank(lines.drop_last());
        assert(all_blank(lines[lines.len() - 1]));
        lemma_trim_blank(lines.last());
    }
}

/// Blank lines change nothing: a text parses as it does with any lines of
/// white space above it and below it, be it into items or into failures.
pub proof fn lemma_blank_lines_ignored(above: Seq<char>, text: Seq<char>, below: Seq<char>)
    requires
        all_blank(above),
        all_blank(below),
    ensures
        parse_text(above + seq!['\n'] + text + seq!['\n'] + below) == parse_text(text),
        parse_text(above + seq!['\n'] + text) == parse_text(text),
        parse_text(text + seq!['\n'] + below) == parse_text(text),
{
    lemma_split_joined(above, text);
    lemma_split_joined(above + seq!['\n'] + text, below);
    lemma_split_joined(text, below);
    lemma_split_blank(above);
    lemma_split_blank(below);
    lemma_kept_blank(split_lines(above));
    lemma_kept_blank(split_lines(below));
    lemma_kept_joined(split_lines(above), split_lines(text));
    lemma_kept_joined(split_lines(above) + split_lines(text), split_lines(below));
    lemma_kept_joined(split_lines(text), split_lines(below));
    let kept = kept_lines(split_lines(text));
    assert(kept_lines(split_lines(above)) + kept == kept);
    assert(kept + kept_lines(split_lines(below)) == kept);
}

/// A line that fails is among the failures of its text, under its index.
pub proof fn lemma_failed_line_reported(lines: Seq<Seq<char>>, k: int)
    requires
        0 <= k < lines.len(),
        line_outcome(lines[k]) is Err,
    ensures
        batch_errors(lines).contains(
            LineErrorView { line: k, fault: line_outcome(lines[k])->Err_0 },
        ),
    decreases lines.len(),
{
    let before = batch_errors(lines.drop_last());
    let e = LineErrorView { line: k, fault: line_outcome(lines[k])->Err_0 };
    if k == lines.len() - 1 {
        assert(batch_errors(lines)[before.len() as int] == e);
    } else {
        assert(lines.drop_last()[k] == lines[k]);
        lemma_failed_line_reported(lines.drop_last(), k);
        let i = choose|i: int| 0 <= i < before.len() && before[i] == e;
        assert(batch_errors(lines)[i] == e);
    }
}

/// One bad line fails the whole text: where a line that counts holds a
/// character that the tokenizer has no class for, the text is refused, and
/// among its failures is that line, under its index, with that character
/// and its offset in the line.
pub proof fn lemma_unrecognized_character_fails_text(text: Seq<char>, k: int, pos: int)
    requires
        0 <= k < kept_lines(split_lines(text)).len(),
        0 <= pos < kept_lines(split_lines(text))[k].len(),
        !recognized(kept_lines(split_lines(text))[k][pos]),
    ensures
        parse_text(text) is Err,
        exists|i: int|
            0 <= i < parse_text(text)->Err_0.len() && (#[trigger] parse_text(text)->Err_0[i]).line
                == k && parse_text(text)->Err_0[i].fault == LineFaultView::Lex(
                lex_line(kept_lines(split_lines(text))[k])->Err_0,
            ),
        lex_line(kept_lines(split_lines(text))[k])->Err_0.contains(
            bad_char(kept_lines(split_lines(text))[k], pos),
        ),
{
    let lines = kept_lines(split_lines(text));
    lemma_lex_refuses_unrecognized(lines[k]);
    lemma_failed_line_reported(lines, k);
    let e = LineErrorView { line: k, fault: line_outcome(lines[k])->Err_0 };
    let i = choose|i: int| 0 <= i < batch_errors(lines).len() && batch_errors(lines)[i] == e;
    assert(parse_text(text)->Err_0[i].line == k);
}

} // verus!
