//! The grammar of one line, as functions of a token list and a position:
//! the rule that gathers a name, the rule that reads a quantity, and the rule
//! that tells the shapes of a line apart.

use vstd::prelude::*;
use crate::chars::trim;
use crate::error::{Fault, ParseError};
use crate::item::ItemView;
use crate::number::count_of;
use crate::token::{TokenKind, TokenView};

verus! {

/// A token list that the grammar can walk: it ends with `EndOfInput`.
pub open spec fn terminated(tokens: Seq<TokenView>) -> bool {
    tokens.len() > 0 && tokens.last().kind == TokenKind::EndOfInput
}

/// The token at `pos` is of `kind`, and `kind` is not the end of input.
pub open spec fn holds(tokens: Seq<TokenView>, pos: int, kind: TokenKind) -> bool {
    tokens[pos].kind == kind && kind != TokenKind::EndOfInput
}

/// The position after an optional token of `kind` at `pos`.
pub open spec fn skip(tokens: Seq<TokenView>, pos: int, kind: TokenKind) -> int {
    if holds(tokens, pos, kind) {
        pos + 1
    } else {
        pos
    }
}

/// What a rule made of the tokens from some position on: its result, and
/// the position at which it left the cursor.
pub struct Step<T> {
    pub out: Result<T, Fault>,
    pub next: int,
}

/// What the line rule made of a line.
pub struct Parsed {
    pub out: Result<Seq<ItemView>, ParseError>,
    pub next: int,
}

/// A failed step.
pub open spec fn refuse<T>(fault: Fault, next: int) -> Step<T> {
    Step { out: Err(fault), next }
}

/// The run of tokens that makes a name, from `pos` on, with `acc` gathered
/// so far: where the run ends and the text it gathers.
///
/// Words and digits add their text and a space adds one blank. The word
/// `/OFFLINE` adds nothing. Digits that close the line are left to the
/// quantity. A space that closes the line is taken without adding a blank,
/// and a space before the word `x` is left where it is.
pub open spec fn name_run(tokens: Seq<TokenView>, pos: int, acc: Seq<char>) -> (int, Seq<char>)
    decreases tokens.len() - pos,
{
    if pos < 0 || pos + 1 >= tokens.len() {
        (pos, acc)
    } else {
        let t = tokens[pos];
        let after = tokens[pos + 1];
        match t.kind {
            TokenKind::Digits => if after.kind == TokenKind::EndOfInput {
                (pos, acc)
            } else {
                name_run(tokens, pos + 1, acc + t.text)
            },
            TokenKind::Word => if t.text == "/OFFLINE"@ {
                name_run(tokens, pos + 1, acc)
            } else {
                name_run(tokens, pos + 1, acc + t.text)
            },
            TokenKind::Space => if after.kind == TokenKind::EndOfInput {
                (pos + 1, acc)
            } else if after.kind == TokenKind::Word && after.text == "x"@ {
                (pos, acc)
            } else {
                name_run(tokens, pos + 1, acc.push(' '))
            },
            _ => (pos, acc),
        }
    }
}

/// A gathered name, trimmed and without one trailing `*`.
pub open spec fn clean_name(raw: Seq<char>) -> Seq<char> {
    let t = trim(raw);
    if t.len() > 0 && t.last() == '*' {
        t.drop_last()
    } else {
        t
    }
}

/// The name rule at `pos`.
pub open spec fn full_name_at(tokens: Seq<TokenView>, pos: int) -> Step<Seq<char>> {
    let run = name_run(tokens, pos, Seq::empty());
    let name = clean_name(run.1);
    if name.len() == 0 {
        refuse(Fault::EmptyName, run.0)
    } else {
        Step { out: Ok(name), next: run.0 }
    }
}

/// 1000 to the power `k`.
pub open spec fn thousand_pow(k: nat) -> int
    decreases k,
{
    if k == 0 {
        1
    } else {
        1000 * thousand_pow((k - 1) as nat)
    }
}

/// The value of a number written in groups: each group is one digit in base
/// 1000, the first group the most significant.
pub open spec fn grouped_value(groups: Seq<int>) -> int
    decreases groups.len(),
{
    if groups.len() == 0 {
        0
    } else {
        groups[0] * thousand_pow((groups.len() - 1) as nat) + grouped_value(groups.drop_first())
    }
}

/// The groups that follow the first one: as long as a comma stands at
/// `pos`, digits must follow it and count as one more group.
pub open spec fn groups_from(tokens: Seq<TokenView>, pos: int, acc: Seq<int>) -> Step<Seq<int>>
    decreases tokens.len() - pos,
{
    if 0 <= pos && pos + 1 < tokens.len() && holds(tokens, pos, TokenKind::Comma) {
        if !holds(tokens, pos + 1, TokenKind::Digits) {
            refuse(Fault::GroupMissing, pos + 1)
        } else {
            match count_of(tokens[pos + 1].text) {
                None => refuse(Fault::NumberInvalid, pos + 2),
                Some(g) => groups_from(tokens, pos + 2, acc.push(g)),
            }
        }
    } else {
        Step { out: Ok(acc), next: pos }
    }
}

/// The quantity rule at `pos`: a multiplier (`x`, an optional space, digits),
/// or a number in one or more groups with an optional space and an optional
/// `x` after it.
pub open spec fn quantity_at(tokens: Seq<TokenView>, pos: int) -> Step<int> {
    if holds(tokens, pos, TokenKind::LiteralX) {
        let p = skip(tokens, pos + 1, TokenKind::Space);
        if !holds(tokens, p, TokenKind::Digits) {
            refuse(Fault::CountMissing, p)
        } else {
            match count_of(tokens[p].text) {
                None => refuse(Fault::NumberInvalid, p + 1),
                Some(q) => Step { out: Ok(q), next: p + 1 },
            }
        }
    } else if !holds(tokens, pos, TokenKind::Digits) {
        refuse(Fault::NumberMissing, pos)
    } else {
        match count_of(tokens[pos].text) {
            None => refuse(Fault::NumberInvalid, pos + 1),
            Some(g) => {
                let rest = groups_from(tokens, pos + 1, seq![g]);
                match rest.out {
                    Err(f) => refuse(f, rest.next),
                    Ok(groups) => if grouped_value(groups) > i64::MAX {
                        refuse(Fault::QuantityTooLarge, rest.next)
                    } else {
                        Step {
                            out: Ok(grouped_value(groups)),
                            next: skip(
                                tokens,
                                skip(tokens, rest.next, TokenKind::Space),
                                TokenKind::LiteralX,
                            ),
                        }
                    },
                }
            },
        }
    }
}

/// One item.
pub open spec fn one(name: Seq<char>, quantity: int) -> Seq<ItemView> {
    seq![ItemView { name, quantity }]
}

/// The names that stand for a fitting slot with nothing in it.
pub open spec fn empty_slot(name: Seq<char>) -> bool {
    name == "Empty High slot"@ || name == "Empty Med slot"@ || name == "Empty Low slot"@
}

/// The bracket shape, from the token after `[` on: a name, which alone is
/// kept, then a comma and an optional space. What follows is not looked at.
/// An empty slot is no item.
pub open spec fn bracket_at(tokens: Seq<TokenView>, pos: int) -> Step<Seq<ItemView>> {
    let n = full_name_at(tokens, pos);
    match n.out {
        Err(f) => refuse(f, n.next),
        Ok(name) => if empty_slot(name) {
            Step { out: Ok(Seq::empty()), next: n.next }
        } else if !holds(tokens, n.next, TokenKind::Comma) {
            refuse(Fault::CommaMissing, n.next)
        } else {
            Step { out: Ok(one(name, 1)), next: skip(tokens, n.next + 1, TokenKind::Space) }
        },
    }
}

/// The quantity of a plain line whose name ends at `pos` before a token
/// that is neither the end of the line nor a comma.
///
/// After a space a quantity follows. After a tab either digits open the
/// quantity, or the row is wide: two more names, each closed by a tab, and
/// then the quantity. An `x` or digits open the quantity themselves, and no
/// other token may follow a name.
pub open spec fn amount_at(tokens: Seq<TokenView>, pos: int) -> Step<int> {
    let k = tokens[pos].kind;
    if k == TokenKind::Space {
        quantity_at(tokens, pos + 1)
    } else if k == TokenKind::Tab {
        if holds(tokens, pos + 1, TokenKind::Digits) {
            quantity_at(tokens, pos + 1)
        } else {
            let second = full_name_at(tokens, pos + 1);
            match second.out {
                Err(f) => refuse(f, second.next),
                Ok(_) => if !holds(tokens, second.next, TokenKind::Tab) {
                    refuse(Fault::SecondTabMissing, second.next)
                } else {
                    let third = full_name_at(tokens, second.next + 1);
                    match third.out {
                        Err(f) => refuse(f, third.next),
                        Ok(_) => if !holds(tokens, third.next, TokenKind::Tab) {
                            refuse(Fault::ThirdTabMissing, third.next)
                        } else {
                            quantity_at(tokens, third.next + 1)
                        },
                    }
                },
            }
        }
    } else if k == TokenKind::LiteralX || k == TokenKind::Digits {
        quantity_at(tokens, pos)
    } else {
        refuse(Fault::UnexpectedToken, pos)
    }
}

/// A fault as the error of a line, or of the charge inside a line.
pub open spec fn located(nested: bool, fault: Fault) -> ParseError {
    if nested {
        ParseError::Charge(fault)
    } else {
        ParseError::Item(fault)
    }
}

/// The line rule at `pos`. `nested` says that the line is the charge of a
/// module, which may not have a charge in turn.
///
/// A `[` opens the bracket shape. A word or digits open a plain line: a
/// name, and then the end of the line (one of it), a comma (a module and
/// its charge, one of each), or a quantity. The charge must be exactly one
/// item and must close the line.
pub open spec fn item_at(tokens: Seq<TokenView>, pos: int, nested: bool) -> Parsed
    decreases
            (if nested {
                0nat
            } else {
                1nat
            }),
{
    let k = tokens[pos].kind;
    if k == TokenKind::LeftBracket {
        let b = bracket_at(tokens, pos + 1);
        match b.out {
            Err(f) => Parsed { out: Err(located(nested, f)), next: b.next },
            Ok(items) => Parsed { out: Ok(items), next: b.next },
        }
    } else if k == TokenKind::Word || k == TokenKind::Digits {
        let n = full_name_at(tokens, pos);
        match n.out {
            Err(f) => Parsed { out: Err(located(nested, f)), next: n.next },
            Ok(name) => {
                let after = tokens[n.next].kind;
                if after == TokenKind::EndOfInput {
                    Parsed { out: Ok(one(name, 1)), next: n.next }
                } else if after == TokenKind::Comma {
                    if nested {
                        Parsed {
                            out: Err(ParseError::Charge(Fault::ChargeHasCharge)),
                            next: n.next,
                        }
                    } else if !holds(tokens, n.next + 1, TokenKind::Space) {
                        Parsed {
                            out: Err(ParseError::Item(Fault::ChargeSpaceMissing)),
                            next: n.next + 1,
                        }
                    } else {
                        let c = item_at(tokens, n.next + 2, true);
                        match c.out {
                            Err(e) => Parsed { out: Err(e), next: c.next },
                            Ok(items) => if items.len() != 1 {
                                Parsed {
                                    out: Err(ParseError::Item(Fault::ChargeEmptySlot)),
                                    next: c.next,
                                }
                            } else if tokens[c.next].kind != TokenKind::EndOfInput {
                                Parsed {
                                    out: Err(ParseError::Item(Fault::ChargeNotLast)),
                                    next: c.next,
                                }
                            } else {
                                Parsed { out: Ok(one(name, 1) + items), next: c.next }
                            },
                        }
                    }
                } else {
                    let q = amount_at(tokens, n.next);
                    match q.out {
                        Err(f) => Parsed { out: Err(located(nested, f)), next: q.next },
                        Ok(quantity) => Parsed { out: Ok(one(name, quantity)), next: q.next },
                    }
                }
            },
        }
    } else {
        Parsed { out: Err(located(nested, Fault::InvalidStart)), next: pos }
    }
}

/// What a line of tokens yields: the line rule from the first token on.
pub open spec fn line_items(tokens: Seq<TokenView>) -> Result<Seq<ItemView>, ParseError> {
    item_at(tokens, 0, false).out
}

/// Adding a group at the end multiplies what stood before by 1000.
pub proof fn lemma_grouped_value_push(groups: Seq<int>, g: int)
    ensures
        grouped_value(groups.push(g)) == grouped_value(groups) * 1000 + g,
    decreases groups.len(),
{
    let all = groups.push(g);
    assert(grouped_value(all) == all[0] * thousand_pow((all.len() - 1) as nat) + grouped_value(
        all.drop_first(),
    ));
    if groups.len() == 0 {
        assert(all.drop_first() == Seq::<int>::empty());
        assert(grouped_value(all.drop_first()) == 0);
        assert(thousand_pow(0) == 1);
        assert(all[0] == g);
        assert(grouped_value(groups) == 0);
    } else {
        let tail = groups.drop_first();
        assert(all.drop_first() == tail.push(g));
        lemma_grouped_value_push(tail, g);
        let p = thousand_pow((groups.len() - 1) as nat);
        let head = groups[0];
        let rest = grouped_value(tail);
        assert(thousand_pow(groups.len() as nat) == 1000 * p);
        assert(all[0] == head);
        assert(grouped_value(groups) == head * p + rest);
        assert(grouped_value(all) == head * (1000 * p) + (rest * 1000 + g));
        assert(head * (1000 * p) + (rest * 1000 + g) == (head * p + rest) * 1000 + g)
            by (nonlinear_arith);
    }
}

/// Every group counts for zero or more.
pub open spec fn no_negative(groups: Seq<int>) -> bool {
    forall|i: int| 0 <= i < groups.len() ==> 0 <= #[trigger] groups[i]
}

/// With no negative group, the first `k` groups write no negative number.
pub proof fn lemma_grouped_value_positive(groups: Seq<int>, k: int)
    requires
        no_negative(groups),
        0 <= k <= groups.len(),
    ensures
        0 <= grouped_value(groups.take(k)),
    decreases k,
{
    if k == 0 {
        assert(groups.take(0) == Seq::<int>::empty());
    } else {
        lemma_grouped_value_positive(groups, k - 1);
        assert(groups.take(k) == groups.take(k - 1).push(groups[k - 1]));
        lemma_grouped_value_push(groups.take(k - 1), groups[k - 1]);
    }
}

/// With no negative group, the first `k` groups never write more than all
/// of them.
pub proof fn lemma_grouped_value_grows(groups: Seq<int>, k: int)
    requires
        no_negative(groups),
        0 <= k <= groups.len(),
    ensures
        0 <= grouped_value(groups.take(k)) <= grouped_value(groups),
    decreases groups.len() - k,
{
    lemma_grouped_value_positive(groups, k);
    if k == groups.len() {
        assert(groups.take(k) == groups);
    } else {
        lemma_grouped_value_grows(groups, k + 1);
        assert(groups.take(k + 1) == groups.take(k).push(groups[k]));
        lemma_grouped_value_push(groups.take(k), groups[k]);
    }
}

/// The groups that the grouped form gathers are no negative numbers, if
/// those gathered before are none.
pub proof fn lemma_groups_not_negative(tokens: Seq<TokenView>, pos: int, acc: Seq<int>)
    requires
        no_negative(acc),
    ensures
        groups_from(tokens, pos, acc).out matches Ok(groups) ==> no_negative(groups)
            && groups.len() >= acc.len(),
    decreases tokens.len() - pos,
{
    if 0 <= pos && pos + 1 < tokens.len() && holds(tokens, pos, TokenKind::Comma) && holds(
        tokens,
        pos + 1,
        TokenKind::Digits,
    ) {
        match count_of(tokens[pos + 1].text) {
            None => {},
            Some(g) => {
                lemma_groups_not_negative(tokens, pos + 2, acc.push(g));
            },
        }
    }
}

/// A quantity is never negative and fits 64 bits.
pub proof fn lemma_quantity_range(tokens: Seq<TokenView>, pos: int)
    ensures
        quantity_at(tokens, pos).out matches Ok(q) ==> 0 <= q <= i64::MAX,
{
    if !holds(tokens, pos, TokenKind::LiteralX) && holds(tokens, pos, TokenKind::Digits) {
        match count_of(tokens[pos].text) {
            None => {},
            Some(g) => {
                lemma_groups_not_negative(tokens, pos + 1, seq![g]);
                match groups_from(tokens, pos + 1, seq![g]).out {
                    Err(_) => {},
                    Ok(groups) => {
                        lemma_grouped_value_positive(groups, groups.len() as int);
                        assert(groups.take(groups.len() as int) == groups);
                    },
                }
            },
        }
    }
}

/// Every item has a name.
pub open spec fn named(items: Seq<ItemView>) -> bool {
    forall|i: int| 0 <= i < items.len() ==> (#[trigger] items[i]).name.len() > 0
}

/// Every item has a quantity that is not negative and fits 64 bits.
pub open spec fn counted(items: Seq<ItemView>) -> bool {
    forall|i: int| 0 <= i < items.len() ==> 0 <= (#[trigger] items[i]).quantity <= i64::MAX
}

/// What a line yields: two items at most, and one at most where the line
/// is a charge; each with a name, and with a quantity that is not negative.
pub proof fn lemma_items_shape(tokens: Seq<TokenView>, pos: int, nested: bool)
    ensures
        item_at(tokens, pos, nested).out matches Ok(items) ==> named(items) && counted(items)
            && items.len() <= (if nested {
            1int
        } else {
            2int
        }),
    decreases
            (if nested {
                0nat
            } else {
                1nat
            }),
{
    let k = tokens[pos].kind;
    if k == TokenKind::Word || k == TokenKind::Digits {
        let n = full_name_at(tokens, pos);
        if n.out is Ok {
            let after = tokens[n.next].kind;
            if after == TokenKind::Comma {
                if !nested && holds(tokens, n.next + 1, TokenKind::Space) {
                    lemma_items_shape(tokens, n.next + 2, true);
                }
            } else if after != TokenKind::EndOfInput {
                lemma_amount_range(tokens, n.next);
            }
        }
    }
}

/// The quantity after a name is never negative and fits 64 bits.
pub proof fn lemma_amount_range(tokens: Seq<TokenView>, pos: int)
    ensures
        amount_at(tokens, pos).out matches Ok(q) ==> 0 <= q <= i64::MAX,
{
    let k = tokens[pos].kind;
    lemma_quantity_range(tokens, pos);
    lemma_quantity_range(tokens, pos + 1);
    if k == TokenKind::Tab && !holds(tokens, pos + 1, TokenKind::Digits) {
        let second = full_name_at(tokens, pos + 1);
        let third = full_name_at(tokens, second.next + 1);
        lemma_quantity_range(tokens, third.next + 1);
    }
}

} // verus!
