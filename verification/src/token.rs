//! Tokens: the typed pieces that one line of text is cut into.

use vstd::prelude::*;
use vstd::string::StringExecFns;

verus! {

/// What a token is.
#[derive(Debug, PartialEq, Eq, Clone, Copy, Structural)]
pub enum TokenKind {
    /// The letter `x` standing alone, which marks a multiplier.
    LiteralX,
    /// `[`
    LeftBracket,
    /// `]`
    RightBracket,
    Tab,
    /// Fields are mostly separated by tabs, but not always.
    Space,
    Comma,
    /// A fragment of a name.
    Word,
    /// A run of decimal digits.
    Digits,
    EndOfInput,
}

/// A token as contracts see it.
pub struct TokenView {
    pub kind: TokenKind,
    pub text: Seq<char>,
}

/// One token. `text` is the matched piece of the line for `Word` and
/// `Digits`, and empty for every other kind.
#[derive(Debug, PartialEq)]
pub struct Token {
    pub kind: TokenKind,
    pub text: String,
}

impl View for Token {
    type V = TokenView;

    open spec fn view(&self) -> TokenView {
        TokenView { kind: self.kind, text: self.text@ }
    }
}

impl DeepView for Token {
    type V = TokenView;

    open spec fn deep_view(&self) -> TokenView {
        self@
    }
}

impl Clone for Token {
    fn clone(&self) -> (r: Self)
        ensures
            r@ == self@,
    {
        Token { kind: self.kind, text: self.text.clone() }
    }
}

/// The view of a token of `kind` that carries no text.
pub open spec fn bare(kind: TokenKind) -> TokenView {
    TokenView { kind, text: Seq::empty() }
}

/// The multiplier mark.
pub fn x() -> (t: Token)
    ensures
        t@ == bare(TokenKind::LiteralX),
{
    Token { kind: TokenKind::LiteralX, text: String::new() }
}

/// The token for `]`.
pub fn squarebracketright() -> (t: Token)
    ensures
        t@ == bare(TokenKind::RightBracket),
{
    Token { kind: TokenKind::RightBracket, text: String::new() }
}

/// The token for `[`.
pub fn squarebracketleft() -> (t: Token)
    ensures
        t@ == bare(TokenKind::LeftBracket),
{
    Token { kind: TokenKind::LeftBracket, text: String::new() }
}

/// The token for a tab.
pub fn tab() -> (t: Token)
    ensures
        t@ == bare(TokenKind::Tab),
{
    Token { kind: TokenKind::Tab, text: String::new() }
}

/// The token for a space.
pub fn space() -> (t: Token)
    ensures
        t@ == bare(TokenKind::Space),
{
    Token { kind: TokenKind::Space, text: String::new() }
}

/// The token for a comma.
pub fn comma() -> (t: Token)
    ensures
        t@ == bare(TokenKind::Comma),
{
    Token { kind: TokenKind::Comma, text: String::new() }
}

/// The word that reads `s`.
pub fn string(s: String) -> (t: Token)
    ensures
        t@ == (TokenView { kind: TokenKind::Word, text: s@ }),
{
    Token { kind: TokenKind::Word, text: s }
}

/// The run of digits that reads `s`.
pub fn number(s: String) -> (t: Token)
    ensures
        t@ == (TokenView { kind: TokenKind::Digits, text: s@ }),
{
    Token { kind: TokenKind::Digits, text: s }
}

/// The end of input.
pub fn eof() -> (t: Token)
    ensures
        t@ == bare(TokenKind::EndOfInput),
{
    Token { kind: TokenKind::EndOfInput, text: String::new() }
}

/// How a token reads in a diagnostic.
pub open spec fn token_label(t: TokenView) -> Seq<char> {
    match t.kind {
        TokenKind::LiteralX => " X "@,
        TokenKind::LeftBracket => " [ "@,
        TokenKind::RightBracket => " ] "@,
        TokenKind::Tab => " TAB "@,
        TokenKind::Space => " SPC "@,
        TokenKind::Comma => " CMA "@,
        TokenKind::Word => " '"@ + t.text + "' "@,
        TokenKind::Digits => " n"@ + t.text + " "@,
        TokenKind::EndOfInput => " EOF"@,
    }
}

impl Token {
    /// The token as it reads in a diagnostic.
    pub fn describe(&self) -> (r: String)
        ensures
            r@ == token_label(self@),
    {
        match self.kind {
            TokenKind::LiteralX => String::from_str(" X "),
            TokenKind::LeftBracket => String::from_str(" [ "),
            TokenKind::RightBracket => String::from_str(" ] "),
            TokenKind::Tab => String::from_str(" TAB "),
            TokenKind::Space => String::from_str(" SPC "),
            TokenKind::Comma => String::from_str(" CMA "),
            TokenKind::Word => {
                let mut r = String::from_str(" '");
                r.append(self.text.as_str());
                r.append("' ");
                r
            },
            TokenKind::Digits => {
                let mut r = String::from_str(" n");
                r.append(self.text.as_str());
                r.append(" ");
                r
            },
            TokenKind::EndOfInput => String::from_str(" EOF"),
        }
    }
}

} // verus!
