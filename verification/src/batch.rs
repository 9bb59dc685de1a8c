//! Parsing a whole text: its lines are split, trimmed and parsed one by
//! one, and either every line yields its items or the text is refused with
//! a report on each line that failed.

use vstd::prelude::*;
use vstd::string::StringExecFns;
use crate::chars::{to_chars, trim, trim_bounds};
use crate::error::{lex_error_text, parse_error_text, LexError, ParseError};
use crate::grammar::line_items;
use crate::item::{Item, ItemView};
use crate::lexer::{lex_chars, lex_line};
use crate::number::{decimal, push_decimal};
use crate::parser::Parser;

verus! {

/// Why a line failed, as contracts see it.
pub enum LineFaultView {
    Lex(Seq<LexError>),
    Parse(ParseError),
}

/// Why a line failed: characters that are no part of any token, or tokens
/// that the grammar rejects.
#[derive(Debug, PartialEq)]
pub enum LineFault {
    Lex(Vec<LexError>),
    Parse(ParseError),
}

impl View for LineFault {
    type V = LineFaultView;

    open spec fn view(&self) -> LineFaultView {
        match self {
            LineFault::Lex(errors) => LineFaultView::Lex(errors@),
            LineFault::Parse(e) => LineFaultView::Parse(*e),
        }
    }
}

/// A failed line, as contracts see it.
pub struct LineErrorView {
    pub line: int,
    pub fault: LineFaultView,
}

/// A line that failed. Lines are counted from 0, and lines that are blank
/// are not counted.
#[derive(Debug, PartialEq)]
pub struct LineError {
    pub line: usize,
    pub fault: LineFault,
}

impl View for LineError {
    type V = LineErrorView;

    open spec fn view(&self) -> LineErrorView {
        LineErrorView { line: self.line as int, fault: self.fault@ }
    }
}

impl DeepView for LineError {
    type V = LineErrorView;

    open spec fn deep_view(&self) -> LineErrorView {
        self@
    }
}

/// The lines of `text`: the pieces that line feeds separate, so one more
/// than there are line feeds.
pub open spec fn split_lines(text: Seq<char>) -> Seq<Seq<char>>
    decreases text.len(),
{
    if text.len() == 0 {
        seq![Seq::empty()]
    } else {
        let before = split_lines(text.drop_last());
        if text.last() == '\n' {
            before.push(Seq::empty())
        } else {
            before.update(before.len() - 1, before.last().push(text.last()))
        }
    }
}

/// `kept` with `line` after it, trimmed, unless `line` is blank.
pub open spec fn keep(kept: Seq<Seq<char>>, line: Seq<char>) -> Seq<Seq<char>> {
    if trim(line).len() == 0 {
        kept
    } else {
        kept.push(trim(line))
    }
}

/// The lines that count: each line trimmed, the blank ones left out.
pub open spec fn kept_lines(lines: Seq<Seq<char>>) -> Seq<Seq<char>>
    decreases lines.len(),
{
    if lines.len() == 0 {
        Seq::empty()
    } else {
        keep(kept_lines(lines.drop_last()), lines.last())
    }
}

/// What one line yields: its items, or why it failed.
pub open spec fn line_outcome(line: Seq<char>) -> Result<Seq<ItemView>, LineFaultView> {
    match lex_line(line) {
        Err(errors) => Err(LineFaultView::Lex(errors)),
        Ok(tokens) => match line_items(tokens) {
            Ok(items) => Ok(items),
            Err(e) => Err(LineFaultView::Parse(e)),
        },
    }
}

/// The items of the lines that parse, in the order of the lines.
pub open spec fn batch_items(lines: Seq<Seq<char>>) -> Seq<ItemView>
    decreases lines.len(),
{
    if lines.len() == 0 {
        Seq::empty()
    } else {
        match line_outcome(lines.last()) {
            Ok(items) => batch_items(lines.drop_last()) + items,
            Err(_) => batch_items(lines.drop_last()),
        }
    }
}

/// The lines that fail, each with its index among `lines`, in order.
pub open spec fn batch_errors(lines: Seq<Seq<char>>) -> Seq<LineErrorView>
    decreases lines.len(),
{
    if lines.len() == 0 {
        Seq::empty()
    } else {
        match line_outcome(lines.last()) {
            Ok(_) => batch_errors(lines.drop_last()),
            Err(fault) => batch_errors(lines.drop_last()).push(
                LineErrorView { line: lines.len() - 1, fault },
            ),
        }
    }
}

/// What a text yields: the items of all its lines, or, where any line
/// fails, the failed lines and nothing else.
pub open spec fn parse_text(text: Seq<char>) -> Result<Seq<ItemView>, Seq<LineErrorView>> {
    let lines = kept_lines(split_lines(text));
    if batch_errors(lines).len() > 0 {
        Err(batch_errors(lines))
    } else {
        Ok(batch_items(lines))
    }
}

/// The items and the failures gathered from the lines read so far.
struct Batch {
    items: Vec<Item>,
    errors: Vec<LineError>,
    lines: usize,
}

impl Batch {
    /// The batch holds what the counted lines `kept` yield.
    spec fn gathers(&self, kept: Seq<Seq<char>>) -> bool {
        &&& self.lines == kept.len()
        &&& self.items.deep_view() == batch_items(kept)
        &&& self.errors.deep_view() == batch_errors(kept)
    }

    /// Takes in the line `text[from..to]`.
    fn absorb(&mut self, text: &Vec<char>, from: usize, to: usize, Ghost(kept): Ghost<
        Seq<Seq<char>>,
    >)
        requires
            from <= to <= text.len(),
            old(self).gathers(kept),
            old(self).lines <= from,
        ensures
            final(self).gathers(keep(kept, text@.subrange(from as int, to as int))),
            final(self).lines <= to,
    {
        let bounds = trim_bounds(text, from, to);
        if bounds.0 == bounds.1 {
            return ;
        }
        let ghost line = text@.subrange(bounds.0 as int, bounds.1 as int);
        let ghost now = kept.push(line);
        proof {
            assert(now.drop_last() == kept);
            assert(now.last() == line);
        }
        let mut chars: Vec<char> = Vec::new();
        let mut i: usize = bounds.0;
        while i < bounds.1
            invariant
                bounds.0 <= i <= bounds.1 <= text.len(),
                chars@ == text@.subrange(bounds.0 as int, i as int),
            decreases bounds.1 - i,
        {
            chars.push(text[i]);
            i += 1;
        }
        match parse_line(chars) {
            Ok(items) => {
                let ghost before = self.items.deep_view();
                let mut items = items;
                let ghost added = items.deep_view();
                self.items.append(&mut items);
                proof {
                    assert(self.items.deep_view() =~= before + added);
                }
            },
            Err(fault) => {
                let ghost before = self.errors.deep_view();
                let error = LineError { line: self.lines, fault };
                self.errors.push(error);
                proof {
                    assert(self.errors.deep_view() =~= before.push(error@));
                }
            },
        }
        self.lines += 1;
    }
}

/// Tokenizes and parses one line.
pub fn parse_line(line: Vec<char>) -> (r: Result<Vec<Item>, LineFault>)
    ensures
        match r {
            Ok(items) => line_outcome(line@) == Ok::<Seq<ItemView>, LineFaultView>(
                items.deep_view(),
            ),
            Err(fault) => line_outcome(line@) == Err::<Seq<ItemView>, LineFaultView>(fault@),
        },
{
    let tokens = match lex_chars(line) {
        Ok(tokens) => tokens,
        Err(errors) => {
            return Err(LineFault::Lex(errors));
        },
    };
    let mut parser = Parser::new(tokens);
    match parser.item() {
        Ok(items) => Ok(items),
        Err(e) => Err(LineFault::Parse(e)),
    }
}

/// Parses a text line by line. Blank lines are passed over. Either every
/// other line parses, and the items of all of them come back in order, or
/// the failed lines come back, each with its index and the reason.
pub fn parse_lines(s: &str) -> (r: Result<Vec<Item>, Vec<LineError>>)
    ensures
        match r {
            Ok(items) => parse_text(s@) == Ok::<Seq<ItemView>, Seq<LineErrorView>>(
                items.deep_view(),
            ),
            Err(errors) => parse_text(s@) == Err::<Seq<ItemView>, Seq<LineErrorView>>(
                errors.deep_view(),
            ),
        },
{
    let text = to_chars(s);
    let mut batch = Batch { items: Vec::new(), errors: Vec::new(), lines: 0 };
    let ghost mut done: Seq<Seq<char>> = Seq::empty();
    let mut start: usize = 0;
    let mut i: usize = 0;
    proof {
        assert(text@.take(0) == Seq::<char>::empty());
        assert(text@.subrange(0, 0) == Seq::<char>::empty());
        assert(split_lines(text@.take(0)) == done.push(text@.subrange(0, 0)));
        assert(batch.items.deep_view() == Seq::<ItemView>::empty());
        assert(batch.errors.deep_view() == Seq::<LineErrorView>::empty());
    }
    while i < text.len()
        invariant
            start <= i <= text.len(),
            text@ == s@,
            split_lines(text@.take(i as int)) == done.push(
                text@.subrange(start as int, i as int),
            ),
            batch.gathers(kept_lines(done)),
            batch.lines <= start,
        decreases text.len() - i,
    {
        let ghost before = split_lines(text@.take(i as int));
        let ghost line = text@.subrange(start as int, i as int);
        proof {
            assert(text@.take(i as int + 1).drop_last() == text@.take(i as int));
            assert(text@.take(i as int + 1).last() == text@[i as int]);
        }
        if text[i] == '\n' {
            batch.absorb(&text, start, i, Ghost(kept_lines(done)));
            proof {
                assert(done.push(line).drop_last() == done);
                done = done.push(line);
                assert(text@.subrange(i as int + 1, i as int + 1) == Seq::<char>::empty());
            }
            start = i + 1;
        } else {
            proof {
                assert(line.push(text@[i as int]) == text@.subrange(start as int, i as int + 1));
                assert(before.update(before.len() - 1, before.last().push(text@[i as int]))
                    == done.push(text@.subrange(start as int, i as int + 1)));
            }
        }
        i += 1;
    }
    batch.absorb(&text, start, i, Ghost(kept_lines(done)));
    proof {
        let line = text@.subrange(start as int, i as int);
        assert(text@.take(i as int) == text@);
        assert(done.push(line).drop_last() == done);
    }
    if batch.errors.len() > 0 {
        return Err(batch.errors);
    }
    Ok(batch.items)
}

/// How the lexical errors of one line read: one after the other, with
/// `"; "` between them.
pub open spec fn lex_errors_text(errors: Seq<LexError>) -> Seq<char>
    decreases errors.len(),
{
    if errors.len() == 0 {
        Seq::empty()
    } else if errors.len() == 1 {
        lex_error_text(errors[0])
    } else {
        lex_errors_text(errors.drop_last()) + "; "@ + lex_error_text(errors.last())
    }
}

/// How the failure of a line reads.
pub open spec fn line_fault_text(fault: LineFaultView) -> Seq<char> {
    match fault {
        LineFaultView::Lex(errors) => lex_errors_text(errors),
        LineFaultView::Parse(e) => parse_error_text(e),
    }
}

/// How a failed line reads: `line`, its index, a colon and the reason.
pub open spec fn line_error_text(e: LineErrorView) -> Seq<char> {
    "line "@ + decimal(e.line as nat) + ": "@ + line_fault_text(e.fault)
}

/// How the failed lines of a text read: one report a line.
pub open spec fn batch_text(errors: Seq<LineErrorView>) -> Seq<char>
    decreases errors.len(),
{
    if errors.len() == 0 {
        Seq::empty()
    } else if errors.len() == 1 {
        line_error_text(errors[0])
    } else {
        batch_text(errors.drop_last()) + "\n"@ + line_error_text(errors.last())
    }
}

impl LineFault {
    /// The reason as text.
    pub fn message(&self) -> (r: String)
        ensures
            r@ == line_fault_text(self@),
    {
        match self {
            LineFault::Parse(e) => e.message(),
            LineFault::Lex(errors) => {
                let mut r = String::new();
                let mut i: usize = 0;
                proof {
                    assert(errors@.take(0) == Seq::<LexError>::empty());
                }
                while i < errors.len()
                    invariant
                        i <= errors.len(),
                        r@ == lex_errors_text(errors@.take(i as int)),
                    decreases errors.len() - i,
                {
                    proof {
                        assert(errors@.take(i as int + 1).drop_last() == errors@.take(i as int));
                        assert(errors@.take(i as int + 1).last() == errors@[i as int]);
                        assert(Seq::<char>::empty() + lex_error_text(errors@[i as int])
                            == lex_error_text(errors@[i as int]));
                    }
                    if i > 0 {
                        r.append("; ");
                    }
                    let one = errors[i].message();
                    r.append(one.as_str());
                    i += 1;
                }
                proof {
                    assert(errors@.take(i as int) == errors@);
                }
                r
            },
        }
    }
}

impl LineError {
    /// The failed line as text: its index and the reason.
    pub fn message(&self) -> (r: String)
        ensures
            r@ == line_error_text(self@),
    {
        let mut r = String::from_str("line ");
        push_decimal(&mut r, self.line as u64);
        r.append(": ");
        let reason = self.fault.message();
        r.append(reason.as_str());
        r
    }
}

/// The report on the failed lines of a text.
pub fn report(errors: &Vec<LineError>) -> (r: String)
    ensures
        r@ == batch_text(errors.deep_view()),
{
    let ghost all = errors.deep_view();
    let mut r = String::new();
    let mut i: usize = 0;
    proof {
        assert(all.take(0) == Seq::<LineErrorView>::empty());
    }
    while i < errors.len()
        invariant
            i <= errors.len(),
            all == errors.deep_view(),
            r@ == batch_text(all.take(i as int)),
        decreases errors.len() - i,
    {
        proof {
            assert(all.take(i as int + 1).drop_last() == all.take(i as int));
            assert(all.take(i as int + 1).last() == errors@[i as int]@);
            assert(Seq::<char>::empty() + line_error_text(errors@[i as int]@) == line_error_text(
                errors@[i as int]@,
            ));
        }
        if i > 0 {
            r.append("\n");
        }
        let one = errors[i].message();
        r.append(one.as_str());
        i += 1;
    }
    proof {
        assert(all.take(i as int) == all);
    }
    r
}

/// Parses a text into its items. Where any line fails the whole text is
/// refused, and the error is the report on every failed line.
pub fn parse(s: &str) -> (r: Result<Vec<Item>, String>)
    ensures
        match r {
            Ok(items) => parse_text(s@) == Ok::<Seq<ItemView>, Seq<LineErrorView>>(
                items.deep_view(),
            ),
            Err(text) => parse_text(s@) is Err && text@ == batch_text(parse_text(s@)->Err_0),
        },
{
    match parse_lines(s) {
        Ok(items) => Ok(items),
        Err(errors) => Err(report(&errors)),
    }
}

} // verus!
