//! What can go wrong, and how each failure reads.

use vstd::prelude::*;
use vstd::string::StringExecFns;
use crate::number::{decimal, push_decimal};

verus! {

/// A character that the tokenizer has no class for, and where it stands.
#[derive(Debug, PartialEq, Eq, Clone, Copy, Structural)]
pub struct LexError {
    /// Offset of the character in its line, counted in characters from 0.
    pub pos: usize,
    /// The character itself; a line feed is reported apart from the others.
    pub found: char,
}

/// How a lexical error reads.
pub open spec fn lex_error_text(e: LexError) -> Seq<char> {
    if e.found == '\n' {
        "unsupported newline at offset "@ + decimal(e.pos as nat)
    } else {
        ("unsupported character at offset "@ + decimal(e.pos as nat) + ": "@).push(e.found)
    }
}

impl LexError {
    /// The error as text.
    pub fn message(&self) -> (r: String)
        ensures
            r@ == lex_error_text(*self),
    {
        if self.found == '\n' {
            let mut r = String::from_str("unsupported newline at offset ");
            push_decimal(&mut r, self.pos as u64);
            r
        } else {
            let mut r = String::from_str("unsupported character at offset ");
            push_decimal(&mut r, self.pos as u64);
            r.append(": ");
            r.push(self.found);
            r
        }
    }
}

/// The reason for which a grammar rule gave up.
#[derive(Debug, PartialEq, Eq, Clone, Copy, Structural)]
pub enum Fault {
    /// Nothing is left of a name once it is trimmed and cleaned.
    EmptyName,
    /// No digits follow the `x` of a multiplier.
    CountMissing,
    /// A quantity is due and the token is neither `x` nor digits.
    NumberMissing,
    /// No digits follow the comma of a grouped number.
    GroupMissing,
    /// A run of digits is empty, is no run of digits, or exceeds 64 bits.
    NumberInvalid,
    /// The groups of a number add up to more than 64 bits hold.
    QuantityTooLarge,
    /// A line begins with a token that no line can begin with.
    InvalidStart,
    /// No comma follows the name after a `[`.
    CommaMissing,
    /// No space follows the comma between a module and its charge.
    ChargeSpaceMissing,
    /// The charge is an empty fitting slot.
    ChargeEmptySlot,
    /// The charge is followed by a charge of its own.
    ChargeHasCharge,
    /// The line goes on after the charge.
    ChargeNotLast,
    /// A wide row lacks the tab after its second field.
    SecondTabMissing,
    /// A wide row lacks the tab after its third field.
    ThirdTabMissing,
    /// The token after a name neither ends the line nor opens a quantity.
    UnexpectedToken,
}

/// A line that the grammar rejects: the reason, and whether it arose in the
/// line itself or in the charge that the line loads into a module.
#[derive(Debug, PartialEq, Eq, Clone, Copy, Structural)]
pub enum ParseError {
    Item(Fault),
    Charge(Fault),
}

/// How a fault reads.
pub open spec fn fault_text(f: Fault) -> Seq<char> {
    match f {
        Fault::EmptyName => "empty name"@,
        Fault::CountMissing => "quantities must have a number after x (optional space in between)"@,
        Fault::NumberMissing => "quantities must be a number"@,
        Fault::GroupMissing => "numbers followed by comma must also be followed by numbers"@,
        Fault::NumberInvalid => "failed integer parse"@,
        Fault::QuantityTooLarge => "quantity too large"@,
        Fault::InvalidStart => "invalid starting token"@,
        Fault::CommaMissing => "bracketed name must be followed by a comma"@,
        Fault::ChargeSpaceMissing => "a loaded charge should be preceded by a comma followed by a space"@,
        Fault::ChargeEmptySlot => "a loaded charge cannot be an empty slot"@,
        Fault::ChargeHasCharge => "a loaded charge cannot have a loaded charge"@,
        Fault::ChargeNotLast => "a module with a loaded charge must end after the charge"@,
        Fault::SecondTabMissing => "contents view is expected to be name-tab-name-tab-tab-quantity, second tab is missing"@,
        Fault::ThirdTabMissing => "contents view is expected to be name-tab-name-tab-tab-quantity, third tab is missing"@,
        Fault::UnexpectedToken => "unexpected token following name"@,
    }
}

/// How a rejected line reads.
pub open spec fn parse_error_text(e: ParseError) -> Seq<char> {
    match e {
        ParseError::Item(f) => fault_text(f),
        ParseError::Charge(f) => "failed to match sub-item for loaded charge: "@ + fault_text(f),
    }
}

impl Fault {
    /// The fault as text.
    pub fn message(&self) -> (r: String)
        ensures
            r@ == fault_text(*self),
    {
        match self {
            Fault::EmptyName => String::from_str("empty name"),
            Fault::CountMissing => String::from_str(
                "quantities must have a number after x (optional space in between)",
            ),
            Fault::NumberMissing => String::from_str("quantities must be a number"),
            Fault::GroupMissing => String::from_str(
                "numbers followed by comma must also be followed by numbers",
            ),
            Fault::NumberInvalid => String::from_str("failed integer parse"),
            Fault::QuantityTooLarge => String::from_str("quantity too large"),
            Fault::InvalidStart => String::from_str("invalid starting token"),
            Fault::CommaMissing => String::from_str("bracketed name must be followed by a comma"),
            Fault::ChargeSpaceMissing => String::from_str(
                "a loaded charge should be preceded by a comma followed by a space",
            ),
            Fault::ChargeEmptySlot => String::from_str("a loaded charge cannot be an empty slot"),
            Fault::ChargeHasCharge => String::from_str(
                "a loaded charge cannot have a loaded charge",
            ),
            Fault::ChargeNotLast => String::from_str(
                "a module with a loaded charge must end after the charge",
            ),
            Fault::SecondTabMissing => String::from_str(
                "contents view is expected to be name-tab-name-tab-tab-quantity, second tab is missing",
            ),
            Fault::ThirdTabMissing => String::from_str(
                "contents view is expected to be name-tab-name-tab-tab-quantity, third tab is missing",
            ),
            Fault::UnexpectedToken => String::from_str("unexpected token following name"),
        }
    }
}

impl ParseError {
    /// The error as text.
    pub fn message(&self) -> (r: String)
        ensures
            r@ == parse_error_text(*self),
    {
        match self {
            ParseError::Item(f) => f.message(),
            ParseError::Charge(f) => {
                let mut r = String::from_str("failed to match sub-item for loaded charge: ");
                let inner = f.message();
                r.append(inner.as_str());
                r
            },
        }
    }
}

} // verus!
