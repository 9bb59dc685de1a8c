//! The parser of one line: a cursor over the line's tokens and the grammar
//! rules as methods that move it.

use vstd::prelude::*;
use vstd::string::StringExecFns;
use crate::chars::{push_chars, string_of, trim_bounds};
use crate::error::{Fault, ParseError};
use crate::grammar::{
    amount_at, bracket_at, clean_name, empty_slot, full_name_at, grouped_value, groups_from,
    holds, item_at, lemma_grouped_value_grows, lemma_grouped_value_push, located, name_run,
    no_negative, one, quantity_at, skip, terminated,
};
use crate::item::{Item, ItemView};
use crate::number::{count_of, parse_count};
use crate::token::{Token, TokenKind, TokenView};

verus! {

/// The views of a list of groups.
pub open spec fn group_values(groups: Seq<i64>) -> Seq<int> {
    groups.map_values(|g: i64| g as int)
}

/// The value of `groups`, or nothing where it exceeds 64 bits.
pub fn grouped_sum(groups: &Vec<i64>) -> (r: Option<i64>)
    requires
        no_negative(group_values(groups@)),
    ensures
        match r {
            Some(v) => v == grouped_value(group_values(groups@)),
            None => grouped_value(group_values(groups@)) > i64::MAX,
        },
{
    let ghost all = group_values(groups@);
    let mut total: i64 = 0;
    let mut i: usize = 0;
    proof {
        assert(all.take(0) == Seq::<int>::empty());
    }
    while i < groups.len()
        invariant
            i <= groups.len(),
            all == group_values(groups@),
            no_negative(all),
            total == grouped_value(all.take(i as int)),
            0 <= total,
        decreases groups.len() - i,
    {
        let g: i64 = groups[i];
        proof {
            assert(all[i as int] == g);
            assert(all.take(i as int + 1) == all.take(i as int).push(g as int));
            lemma_grouped_value_push(all.take(i as int), g as int);
            lemma_grouped_value_grows(all, i as int + 1);
        }
        if total > (i64::MAX - g) / 1000 {
            return None;
        }
        total = total * 1000 + g;
        i += 1;
    }
    proof {
        assert(all.take(i as int) == all);
    }
    Some(total)
}

/// A cursor over the tokens of one line.
pub struct Parser {
    pub tokens: Vec<Token>,
    pub current: usize,
}

impl Parser {
    /// The tokens as contracts see them.
    pub open spec fn toks(&self) -> Seq<TokenView> {
        self.tokens.deep_view()
    }

    /// The tokens end with `EndOfInput` and the cursor is on one of them.
    pub open spec fn wf(&self) -> bool {
        terminated(self.toks()) && self.current < self.tokens.len()
    }

    /// A parser at the first of `tokens`.
    pub fn new(tokens: Vec<Token>) -> (p: Parser)
        requires
            terminated(tokens.deep_view()),
        ensures
            p.wf(),
            p.tokens == tokens,
            p.current == 0,
    {
        Parser { tokens, current: 0 }
    }

    /// Whether the cursor is on the end of input.
    pub fn at_end(&self) -> (r: bool)
        requires
            self.wf(),
        ensures
            r == (self.toks()[self.current as int].kind == TokenKind::EndOfInput),
    {
        match self.peek().kind {
            TokenKind::EndOfInput => true,
            _ => false,
        }
    }

    /// Moves past the current token, unless it is the end of input, and
    /// hands out the token before the cursor.
    pub fn advance(&mut self) -> (t: &Token)
        requires
            old(self).wf(),
            old(self).current > 0 || old(self).toks()[0].kind != TokenKind::EndOfInput,
        ensures
            final(self).wf(),
            final(self).tokens == old(self).tokens,
            final(self).current == if old(self).toks()[old(self).current as int].kind
                == TokenKind::EndOfInput {
                old(self).current as int
            } else {
                old(self).current + 1
            },
            t@ == old(self).toks()[final(self).current - 1],
    {
        if !self.at_end() {
            self.current += 1;
        }
        self.previous()
    }

    /// The token before the cursor.
    pub fn previous(&self) -> (t: &Token)
        requires
            self.wf(),
            self.current > 0,
        ensures
            t@ == self.toks()[self.current - 1],
    {
        &self.tokens[self.current - 1]
    }

    /// Moves past the current token if it is of `kind`, and says whether it
    /// was.
    pub fn match_kind(&mut self, kind: TokenKind) -> (r: bool)
        requires
            old(self).wf(),
        ensures
            final(self).wf(),
            final(self).tokens == old(self).tokens,
            r == holds(old(self).toks(), old(self).current as int, kind),
            final(self).current == skip(old(self).toks(), old(self).current as int, kind),
    {
        if self.check(kind) {
            self.advance();
            return true;
        }
        false
    }

    /// Whether the current token is of `kind`. The end of input is of no
    /// kind that can be asked for.
    pub fn check(&self, kind: TokenKind) -> (r: bool)
        requires
            self.wf(),
        ensures
            r == holds(self.toks(), self.current as int, kind),
    {
        if self.at_end() {
            return false;
        }
        let next = self.peek();
        kind == next.kind
    }

    /// Whether the token after the current one is of `kind`. At the end of
    /// input no token follows.
    pub fn check2(&self, kind: TokenKind) -> (r: bool)
        requires
            self.wf(),
        ensures
            r == (self.toks()[self.current as int].kind != TokenKind::EndOfInput
                && self.toks()[self.current + 1].kind == kind),
    {
        if self.at_end() {
            return false;
        }
        let next2 = self.peek2();
        kind == next2.kind
    }

    /// The current token.
    pub fn peek(&self) -> (t: &Token)
        requires
            self.wf(),
        ensures
            t@ == self.toks()[self.current as int],
    {
        &self.tokens[self.current]
    }

    /// The token after the current one.
    pub fn peek2(&self) -> (t: &Token)
        requires
            self.wf(),
            self.toks()[self.current as int].kind != TokenKind::EndOfInput,
        ensures
            self.current + 1 < self.tokens.len(),
            t@ == self.toks()[self.current + 1],
    {
        &self.tokens[self.current + 1]
    }

    /// Moves past the current token if it is of `kind` and hands it out;
    /// fails with `fault`, without moving, if it is not.
    pub fn consume(&mut self, kind: TokenKind, fault: Fault) -> (r: Result<&Token, Fault>)
        requires
            old(self).wf(),
        ensures
            final(self).wf(),
            final(self).tokens == old(self).tokens,
            match r {
                Ok(t) => holds(old(self).toks(), old(self).current as int, kind) && t@
                    == old(self).toks()[old(self).current as int] && final(self).current
                    == old(self).current + 1,
                Err(f) => !holds(old(self).toks(), old(self).current as int, kind) && f == fault
                    && final(self).current == old(self).current,
            },
    {
        if self.check(kind) {
            return Ok(self.advance());
        }
        Err(fault)
    }
}

/// Whether `text` reads exactly as `word`.
fn reads(text: &String, word: &str) -> (r: bool)
    ensures
        r == (text@ == word@),
{
    let other = String::from_str(word);
    *text == other
}

/// The list that holds `item` alone.
fn single(name: String, quantity: i64) -> (v: Vec<Item>)
    ensures
        v.deep_view() == one(name@, quantity as int),
{
    let mut v: Vec<Item> = Vec::new();
    v.push(Item { name, quantity });
    assert(v.deep_view() =~= one(name@, quantity as int));
    v
}

impl Parser {
    /// The name rule: gathers words, digits and spaces into one name,
    /// trims it and takes one trailing `*` off.
    pub fn full_name(&mut self) -> (r: Result<String, Fault>)
        requires
            old(self).wf(),
        ensures
            final(self).wf(),
            final(self).tokens == old(self).tokens,
            final(self).current == full_name_at(old(self).toks(), old(self).current as int).next,
            match r {
                Ok(name) => full_name_at(old(self).toks(), old(self).current as int).out == Ok::<
                    Seq<char>,
                    Fault,
                >(name@),
                Err(f) => full_name_at(old(self).toks(), old(self).current as int).out == Err::<
                    Seq<char>,
                    Fault,
                >(f),
            },
    {
        let ghost toks = self.toks();
        let ghost start = self.current as int;
        let mut raw: Vec<char> = Vec::new();
        loop
            invariant
                self.wf(),
                self.tokens == old(self).tokens,
                toks == self.toks(),
                name_run(toks, start, Seq::empty()) == name_run(toks, self.current as int, raw@),
            ensures
                self.wf(),
                self.tokens == old(self).tokens,
                name_run(toks, start, Seq::empty()) == (self.current as int, raw@),
            decreases self.tokens.len() - self.current,
        {
            if self.check(TokenKind::Digits) {
                // Digits that close the line are a quantity: two paladins
                // read "Paladin 2".
                if self.check2(TokenKind::EndOfInput) {
                    break ;
                }
                let tok = self.peek();
                push_chars(&mut raw, tok.text.as_str());
                self.advance();
            } else if self.check(TokenKind::Word) {
                let tok = self.peek();
                // Some fittings mark a module "/OFFLINE", which says nothing
                // of the item.
                if !reads(&tok.text, "/OFFLINE") {
                    push_chars(&mut raw, tok.text.as_str());
                }
                self.advance();
            } else if self.check(TokenKind::Space) {
                if self.check2(TokenKind::EndOfInput) {
                    self.advance();
                    break ;
                }
                let after = self.peek2();
                if after.kind == TokenKind::Word && reads(&after.text, "x") {
                    break ;
                }
                raw.push(' ');
                self.advance();
            } else {
                break ;
            }
        }
        let bounds = trim_bounds(&raw, 0, raw.len());
        let from: usize = bounds.0;
        let mut to: usize = bounds.1;
        proof {
            assert(raw@.subrange(0, raw.len() as int) == raw@);
        }
        if to > from && raw[to - 1] == '*' {
            proof {
                assert(raw@.subrange(from as int, to as int).drop_last() == raw@.subrange(
                    from as int,
                    to as int - 1,
                ));
            }
            to = to - 1;
        }
        assert(raw@.subrange(from as int, to as int) == clean_name(raw@));
        if from == to {
            return Err(Fault::EmptyName);
        }
        Ok(string_of(&raw, from, to))
    }

    /// The digits at the cursor as a count.
    fn count(&mut self, missing: Fault) -> (r: Result<i64, Fault>)
        requires
            old(self).wf(),
        ensures
            final(self).wf(),
            final(self).tokens == old(self).tokens,
            match r {
                Ok(q) => holds(old(self).toks(), old(self).current as int, TokenKind::Digits)
                    && count_of(old(self).toks()[old(self).current as int].text) == Some(
                    q as int,
                ) && final(self).current == old(self).current + 1 && 0 <= q,
                Err(f) => if holds(old(self).toks(), old(self).current as int, TokenKind::Digits) {
                    count_of(old(self).toks()[old(self).current as int].text) is None && f
                        == Fault::NumberInvalid && final(self).current == old(self).current + 1
                } else {
                    f == missing && final(self).current == old(self).current
                },
            },
    {
        let tok = self.consume(TokenKind::Digits, missing)?;
        match parse_count(tok.text.as_str()) {
            Some(q) => Ok(q),
            None => Err(Fault::NumberInvalid),
        }
    }

    /// The quantity rule: a multiplier, or a number in groups.
    pub fn quantity(&mut self) -> (r: Result<i64, Fault>)
        requires
            old(self).wf(),
        ensures
            final(self).wf(),
            final(self).tokens == old(self).tokens,
            final(self).current == quantity_at(old(self).toks(), old(self).current as int).next,
            match r {
                Ok(q) => quantity_at(old(self).toks(), old(self).current as int).out == Ok::<
                    int,
                    Fault,
                >(q as int) && 0 <= q,
                Err(f) => quantity_at(old(self).toks(), old(self).current as int).out == Err::<
                    int,
                    Fault,
                >(f),
            },
    {
        let ghost toks = self.toks();
        let ghost start = self.current as int;
        if self.match_kind(TokenKind::LiteralX) {
            self.match_kind(TokenKind::Space);
            return self.count(Fault::CountMissing);
        }
        let first = self.count(Fault::NumberMissing)?;
        let mut groups: Vec<i64> = Vec::new();
        groups.push(first);
        proof {
            assert(group_values(groups@) == seq![first as int]);
        }
        while self.check(TokenKind::Comma)
            invariant
                self.wf(),
                self.tokens == old(self).tokens,
                toks == self.toks(),
                toks == old(self).toks(),
                start == old(self).current,
                !holds(toks, start, TokenKind::LiteralX),
                holds(toks, start, TokenKind::Digits),
                count_of(toks[start].text) == Some(first as int),
                no_negative(group_values(groups@)),
                groups_from(toks, start + 1, seq![first as int]) == groups_from(
                    toks,
                    self.current as int,
                    group_values(groups@),
                ),
            decreases self.tokens.len() - self.current,
        {
            self.advance();
            let ghost before = group_values(groups@);
            let g = self.count(Fault::GroupMissing)?;
            groups.push(g);
            proof {
                assert(group_values(groups@) == before.push(g as int));
            }
        }
        // Each group stands for three more digits than the one after it.
        match grouped_sum(&groups) {
            None => Err(Fault::QuantityTooLarge),
            Some(total) => {
                proof {
                    lemma_grouped_value_grows(group_values(groups@), 0);
                }
                self.match_kind(TokenKind::Space);
                self.match_kind(TokenKind::LiteralX);
                Ok(total)
            },
        }
    }
}

/// Whether `name` stands for a fitting slot with nothing in it.
fn is_empty_slot(name: &String) -> (r: bool)
    ensures
        r == empty_slot(name@),
{
    reads(name, "Empty High slot") || reads(name, "Empty Med slot") || reads(
        name,
        "Empty Low slot",
    )
}

impl Parser {
    /// The bracket shape, with the cursor after the `[`.
    fn bracketed(&mut self) -> (r: Result<Vec<Item>, Fault>)
        requires
            old(self).wf(),
        ensures
            final(self).wf(),
            final(self).tokens == old(self).tokens,
            final(self).current == bracket_at(old(self).toks(), old(self).current as int).next,
            match r {
                Ok(items) => bracket_at(old(self).toks(), old(self).current as int).out == Ok::<
                    Seq<ItemView>,
                    Fault,
                >(items.deep_view()),
                Err(f) => bracket_at(old(self).toks(), old(self).current as int).out == Err::<
                    Seq<ItemView>,
                    Fault,
                >(f),
            },
    {
        let name = self.full_name()?;
        if is_empty_slot(&name) {
            let none: Vec<Item> = Vec::new();
            assert(none.deep_view() =~= Seq::<ItemView>::empty());
            return Ok(none);
        }
        self.consume(TokenKind::Comma, Fault::CommaMissing)?;
        self.match_kind(TokenKind::Space);
        // The name of the ship itself may hold brackets of its own. With
        // the comma read the item is known, and the rest is left unread.
        Ok(single(name, 1))
    }

    /// The quantity of a plain line, with the cursor on the token after
    /// the name.
    fn amount(&mut self) -> (r: Result<i64, Fault>)
        requires
            old(self).wf(),
        ensures
            final(self).wf(),
            final(self).tokens == old(self).tokens,
            final(self).current == amount_at(old(self).toks(), old(self).current as int).next,
            match r {
                Ok(q) => amount_at(old(self).toks(), old(self).current as int).out == Ok::<
                    int,
                    Fault,
                >(q as int) && 0 <= q,
                Err(f) => amount_at(old(self).toks(), old(self).current as int).out == Err::<
                    int,
                    Fault,
                >(f),
            },
    {
        if self.match_kind(TokenKind::Space) {
            return self.quantity();
        }
        if self.match_kind(TokenKind::Tab) {
            if self.check(TokenKind::Digits) {
                return self.quantity();
            }
            self.full_name()?;
            self.consume(TokenKind::Tab, Fault::SecondTabMissing)?;
            self.full_name()?;
            self.consume(TokenKind::Tab, Fault::ThirdTabMissing)?;
            return self.quantity();
        }
        if self.check(TokenKind::LiteralX) || self.check(TokenKind::Digits) {
            return self.quantity();
        }
        Err(Fault::UnexpectedToken)
    }

    /// The line rule; `nested` says that the line is the charge of a module.
    fn item_rule(&mut self, nested: bool) -> (r: Result<Vec<Item>, ParseError>)
        requires
            old(self).wf(),
        ensures
            final(self).wf(),
            final(self).tokens == old(self).tokens,
            final(self).current == item_at(old(self).toks(), old(self).current as int, nested).next,
            match r {
                Ok(items) => item_at(old(self).toks(), old(self).current as int, nested).out
                    == Ok::<Seq<ItemView>, ParseError>(items.deep_view()),
                Err(e) => item_at(old(self).toks(), old(self).current as int, nested).out == Err::<
                    Seq<ItemView>,
                    ParseError,
                >(e),
            },
        decreases
                (if nested {
                    0nat
                } else {
                    1nat
                }),
    {
        if self.match_kind(TokenKind::LeftBracket) {
            return match self.bracketed() {
                Ok(items) => Ok(items),
                Err(f) => Err(locate(nested, f)),
            };
        }
        if !self.check(TokenKind::Word) && !self.check(TokenKind::Digits) {
            return Err(locate(nested, Fault::InvalidStart));
        }
        let name = match self.full_name() {
            Ok(name) => name,
            Err(f) => {
                return Err(locate(nested, f));
            },
        };
        if self.at_end() {
            return Ok(single(name, 1));
        }
        // A comma after a name opens the charge that is loaded into the
        // module.
        if self.check(TokenKind::Comma) {
            if nested {
                return Err(ParseError::Charge(Fault::ChargeHasCharge));
            }
            self.advance();
            if !self.match_kind(TokenKind::Space) {
                return Err(ParseError::Item(Fault::ChargeSpaceMissing));
            }
            let charge = self.item_rule(true)?;
            if charge.len() != 1 {
                return Err(ParseError::Item(Fault::ChargeEmptySlot));
            }
            if !self.at_end() {
                return Err(ParseError::Item(Fault::ChargeNotLast));
            }
            let mut items = single(name, 1);
            items.push(charge[0].clone());
            assert(items.deep_view() =~= one(name@, 1) + charge.deep_view());
            return Ok(items);
        }
        match self.amount() {
            Ok(quantity) => Ok(single(name, quantity)),
            Err(f) => Err(locate(nested, f)),
        }
    }

    /// The line rule: the items that the line stands for, in order. An
    /// empty fitting slot is no item, a module with its charge is two.
    pub fn item(&mut self) -> (r: Result<Vec<Item>, ParseError>)
        requires
            old(self).wf(),
        ensures
            final(self).wf(),
            final(self).tokens == old(self).tokens,
            final(self).current == item_at(old(self).toks(), old(self).current as int, false).next,
            match r {
                Ok(items) => item_at(old(self).toks(), old(self).current as int, false).out
                    == Ok::<Seq<ItemView>, ParseError>(items.deep_view()),
                Err(e) => item_at(old(self).toks(), old(self).current as int, false).out == Err::<
                    Seq<ItemView>,
                    ParseError,
                >(e),
            },
    {
        self.item_rule(false)
    }
}

/// `fault` as the error of a line, or of the charge inside a line.
fn locate(nested: bool, fault: Fault) -> (e: ParseError)
    ensures
        e == located(nested, fault),
{
    if nested {
        ParseError::Charge(fault)
    } else {
        ParseError::Item(fault)
    }
}

} // verus!
