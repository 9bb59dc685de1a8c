//! The tokenizer: one forward scan that cuts a line into tokens and
//! collects every character it has no class for.

use vstd::prelude::*;
use crate::chars::{
    digit_char, is_digit, is_namechar, is_word_start, name_char, string_of, to_chars,
    word_start_char,
};
use crate::error::LexError;
use crate::grammar::terminated;
use crate::token::{
    bare, comma, eof, number, space, squarebracketleft, squarebracketright, string, tab, x, Token,
    TokenKind, TokenView,
};

verus! {

/// Where the run of digits that holds `pos` ends: the first position from
/// `pos` on that holds no digit.
pub open spec fn digits_end(src: Seq<char>, pos: int) -> int
    decreases src.len() - pos,
{
    if 0 <= pos < src.len() && digit_char(src[pos]) {
        digits_end(src, pos + 1)
    } else {
        pos
    }
}

/// Where the run of name characters that holds `pos` ends.
pub open spec fn word_end(src: Seq<char>, pos: int) -> int
    decreases src.len() - pos,
{
    if 0 <= pos < src.len() && name_char(src[pos]) {
        word_end(src, pos + 1)
    } else {
        pos
    }
}

/// A run of digits is as long as it can be: digits throughout, and then
/// the end of the line or a character that is no digit.
pub proof fn lemma_digits_end(src: Seq<char>, pos: int)
    requires
        0 <= pos <= src.len(),
    ensures
        pos <= digits_end(src, pos) <= src.len(),
        forall|i: int| pos <= i < digits_end(src, pos) ==> digit_char(#[trigger] src[i]),
        digits_end(src, pos) < src.len() ==> !digit_char(src[digits_end(src, pos)]),
    decreases src.len() - pos,
{
    if pos < src.len() && digit_char(src[pos]) {
        lemma_digits_end(src, pos + 1);
    }
}

/// A run of name characters is as long as it can be.
pub proof fn lemma_word_end(src: Seq<char>, pos: int)
    requires
        0 <= pos <= src.len(),
    ensures
        pos <= word_end(src, pos) <= src.len(),
        forall|i: int| pos <= i < word_end(src, pos) ==> name_char(#[trigger] src[i]),
        word_end(src, pos) < src.len() ==> !name_char(src[word_end(src, pos)]),
    decreases src.len() - pos,
{
    if pos < src.len() && name_char(src[pos]) {
        lemma_word_end(src, pos + 1);
    }
}

/// What the scan makes of the characters from one position on: where it
/// goes on, and the token or the error that it adds, if any.
pub struct Lexeme {
    pub next: int,
    pub tokens: Seq<TokenView>,
    pub errors: Seq<LexError>,
}

/// The error that reports the character of `src` at `pos`.
pub open spec fn bad_char(src: Seq<char>, pos: int) -> LexError {
    LexError { pos: pos as usize, found: src[pos] }
}

/// A lexeme that is one token.
pub open spec fn token_lexeme(kind: TokenKind, text: Seq<char>, next: int) -> Lexeme {
    Lexeme { next, tokens: seq![TokenView { kind, text }], errors: Seq::empty() }
}

/// The lexeme that begins at `pos`, for `0 <= pos < src.len()`.
///
/// An `x` is a multiplier mark unless a word opener follows it, in which
/// case it opens a word. Brackets, tab, space and comma are tokens of one
/// character. A digit opens a run of digits. A word opener opens a word,
/// which runs on through name characters, digits among them. Any other
/// character is an error, and the scan goes on after it.
pub open spec fn lexeme_at(src: Seq<char>, pos: int) -> Lexeme {
    let c = src[pos];
    if c == 'x' && !(pos + 1 < src.len() && word_start_char(src[pos + 1])) {
        token_lexeme(TokenKind::LiteralX, Seq::empty(), pos + 1)
    } else if c == '[' {
        token_lexeme(TokenKind::LeftBracket, Seq::empty(), pos + 1)
    } else if c == ']' {
        token_lexeme(TokenKind::RightBracket, Seq::empty(), pos + 1)
    } else if c == '\t' {
        token_lexeme(TokenKind::Tab, Seq::empty(), pos + 1)
    } else if c == ' ' {
        token_lexeme(TokenKind::Space, Seq::empty(), pos + 1)
    } else if c == ',' {
        token_lexeme(TokenKind::Comma, Seq::empty(), pos + 1)
    } else if digit_char(c) {
        token_lexeme(
            TokenKind::Digits,
            src.subrange(pos, digits_end(src, pos + 1)),
            digits_end(src, pos + 1),
        )
    } else if word_start_char(c) {
        token_lexeme(
            TokenKind::Word,
            src.subrange(pos, word_end(src, pos + 1)),
            word_end(src, pos + 1),
        )
    } else {
        Lexeme { next: pos + 1, tokens: Seq::empty(), errors: seq![bad_char(src, pos)] }
    }
}

/// The tokens and the errors of a scan.
pub struct Scan {
    pub tokens: Seq<TokenView>,
    pub errors: Seq<LexError>,
}

/// The scan of `src` from `pos` on: lexeme after lexeme, and `EndOfInput`
/// at the end.
pub open spec fn scan(src: Seq<char>, pos: int) -> Scan
    decreases src.len() - pos,
{
    if pos < 0 || pos >= src.len() {
        Scan { tokens: seq![bare(TokenKind::EndOfInput)], errors: Seq::empty() }
    } else {
        proof {
            lemma_digits_end(src, pos + 1);
            lemma_word_end(src, pos + 1);
        }
        let first = lexeme_at(src, pos);
        let rest = scan(src, first.next);
        Scan { tokens: first.tokens + rest.tokens, errors: first.errors + rest.errors }
    }
}

/// What tokenizing a line gives: its tokens, or, where there is any, every
/// lexical error in it.
pub open spec fn lex_line(src: Seq<char>) -> Result<Seq<TokenView>, Seq<LexError>> {
    let all = scan(src, 0);
    if all.errors.len() > 0 {
        Err(all.errors)
    } else {
        Ok(all.tokens)
    }
}

/// The tokens of a scan always end with `EndOfInput`.
pub proof fn lemma_scan_terminated(src: Seq<char>, pos: int)
    ensures
        terminated(scan(src, pos).tokens),
    decreases src.len() - pos,
{
    if 0 <= pos < src.len() {
        lemma_digits_end(src, pos + 1);
        lemma_word_end(src, pos + 1);
        lemma_scan_terminated(src, lexeme_at(src, pos).next);
    }
}

/// The state of a scan: the line, what was found so far, where the
/// lexeme at hand begins and which character is next.
pub struct Scanner {
    pub source: Vec<char>,
    pub tokens: Vec<Token>,
    pub errors: Vec<LexError>,
    pub lexeme_start: usize,
    pub next: usize,
}

impl Scanner {
    /// The scanner stands inside its line.
    pub open spec fn wf(&self) -> bool {
        self.lexeme_start <= self.next <= self.source.len()
    }

    /// `self` is `before` moved on to `next`, with `tokens` and `errors`
    /// added.
    pub open spec fn extends(
        &self,
        before: Scanner,
        next: int,
        tokens: Seq<TokenView>,
        errors: Seq<LexError>,
    ) -> bool {
        &&& self.source == before.source
        &&& self.next == next
        &&& self.tokens.deep_view() == before.tokens.deep_view() + tokens
        &&& self.errors@ == before.errors@ + errors
    }

    /// A scanner at the start of `source`.
    pub fn new(source: Vec<char>) -> (s: Scanner)
        ensures
            s.wf(),
            s.source == source,
            s.tokens@.len() == 0,
            s.errors@.len() == 0,
            s.next == 0,
    {
        Scanner { source, tokens: Vec::new(), errors: Vec::new(), lexeme_start: 0, next: 0 }
    }

    /// Scans the rest of the line and closes the tokens with `EndOfInput`.
    pub fn scan_tokens(&mut self)
        requires
            old(self).wf(),
        ensures
            final(self).wf(),
            final(self).extends(
                *old(self),
                old(self).source.len() as int,
                scan(old(self).source@, old(self).next as int).tokens,
                scan(old(self).source@, old(self).next as int).errors,
            ),
    {
        let ghost src = self.source@;
        let ghost all = scan(src, self.next as int);
        proof {
            assert(self.tokens.deep_view() + Seq::<TokenView>::empty()
                == self.tokens.deep_view());
            assert(self.errors@ + Seq::<LexError>::empty() == self.errors@);
        }
        let ghost mut tokens: Seq<TokenView> = Seq::empty();
        let ghost mut errors: Seq<LexError> = Seq::empty();
        while !self.at_end()
            invariant
                self.wf(),
                self.source == old(self).source,
                src == self.source@,
                self.tokens.deep_view() == old(self).tokens.deep_view() + tokens,
                self.errors@ == old(self).errors@ + errors,
                all.tokens == tokens + scan(src, self.next as int).tokens,
                all.errors == errors + scan(src, self.next as int).errors,
            decreases self.source.len() - self.next,
        {
            let ghost step = lexeme_at(src, self.next as int);
            let ghost rest = scan(src, step.next);
            self.lexeme_start = self.next;
            self.scan_token();
            proof {
                assert(tokens + (step.tokens + rest.tokens) == (tokens + step.tokens)
                    + rest.tokens);
                assert(errors + (step.errors + rest.errors) == (errors + step.errors)
                    + rest.errors);
                assert(old(self).tokens.deep_view() + tokens + step.tokens == old(
                    self,
                ).tokens.deep_view() + (tokens + step.tokens));
                assert(old(self).errors@ + errors + step.errors == old(self).errors@ + (errors
                    + step.errors));
                tokens = tokens + step.tokens;
                errors = errors + step.errors;
            }
        }
        let ghost scanned = self.tokens.deep_view();
        self.tokens.push(eof());
        proof {
            assert(self.tokens.deep_view() == scanned.push(bare(TokenKind::EndOfInput)));
            assert(scan(src, self.next as int).tokens == seq![bare(TokenKind::EndOfInput)]);
            assert(tokens + seq![bare(TokenKind::EndOfInput)] == tokens.push(
                bare(TokenKind::EndOfInput),
            ));
            assert(old(self).tokens.deep_view() + tokens.push(bare(TokenKind::EndOfInput)) == (
            old(self).tokens.deep_view() + tokens).push(bare(TokenKind::EndOfInput)));
            assert(errors + Seq::<LexError>::empty() == errors);
        }
    }

    /// Whether the whole line is scanned.
    pub fn at_end(&self) -> (r: bool)
        ensures
            r == (self.next >= self.source.len()),
    {
        self.next >= self.source.len()
    }

    /// Takes the next character.
    pub fn advance(&mut self) -> (c: char)
        requires
            old(self).wf(),
            old(self).next < old(self).source.len(),
        ensures
            final(self).wf(),
            c == old(self).source@[old(self).next as int],
            final(self).extends(*old(self), old(self).next + 1, Seq::empty(), Seq::empty()),
            final(self).tokens == old(self).tokens,
            final(self).errors == old(self).errors,
            final(self).lexeme_start == old(self).lexeme_start,
    {
        let c = self.source[self.next];
        self.next += 1;
        proof {
            assert(self.tokens.deep_view() + Seq::<TokenView>::empty()
                == self.tokens.deep_view());
            assert(self.errors@ + Seq::<LexError>::empty() == self.errors@);
        }
        c
    }

    /// Takes the next character if it is `expected`, and says whether it
    /// was.
    pub fn match_char(&mut self, expected: char) -> (r: bool)
        requires
            old(self).wf(),
        ensures
            final(self).wf(),
            r == (old(self).next < old(self).source.len() && old(self).source@[old(
                self,
            ).next as int] == expected),
            final(self).extends(
                *old(self),
                if r {
                    old(self).next + 1
                } else {
                    old(self).next as int
                },
                Seq::empty(),
                Seq::empty(),
            ),
            final(self).lexeme_start == old(self).lexeme_start,
    {
        proof {
            assert(self.tokens.deep_view() + Seq::<TokenView>::empty()
                == self.tokens.deep_view());
            assert(self.errors@ + Seq::<LexError>::empty() == self.errors@);
        }
        if self.at_end() {
            return false;
        }
        if self.source[self.next] != expected {
            return false;
        }
        self.next += 1;
        true
    }

    /// The text that a token of `kind` carries when it spans the lexeme at
    /// hand: the lexeme for words and digits, nothing for the others.
    pub open spec fn lexeme_text(&self, kind: TokenKind) -> Seq<char> {
        if kind == TokenKind::Word || kind == TokenKind::Digits {
            self.source@.subrange(self.lexeme_start as int, self.next as int)
        } else {
            Seq::empty()
        }
    }

    /// Adds a token of `kind` for the lexeme at hand.
    pub fn add_token(&mut self, kind: TokenKind)
        requires
            old(self).wf(),
        ensures
            final(self).wf(),
            final(self).extends(
                *old(self),
                old(self).next as int,
                seq![TokenView { kind, text: old(self).lexeme_text(kind) }],
                Seq::empty(),
            ),
            final(self).lexeme_start == old(self).lexeme_start,
    {
        proof {
            assert(self.errors@ + Seq::<LexError>::empty() == self.errors@);
        }
        let ghost before = self.tokens.deep_view();
        match kind {
            TokenKind::LiteralX => self.tokens.push(x()),
            TokenKind::RightBracket => self.tokens.push(squarebracketright()),
            TokenKind::LeftBracket => self.tokens.push(squarebracketleft()),
            TokenKind::Tab => self.tokens.push(tab()),
            TokenKind::Space => self.tokens.push(space()),
            TokenKind::Comma => self.tokens.push(comma()),
            TokenKind::Word => {
                let text = string_of(&self.source, self.lexeme_start, self.next);
                self.tokens.push(string(text))
            },
            TokenKind::Digits => {
                let text = string_of(&self.source, self.lexeme_start, self.next);
                self.tokens.push(number(text))
            },
            TokenKind::EndOfInput => self.tokens.push(eof()),
        }
        proof {
            let t = TokenView { kind, text: old(self).lexeme_text(kind) };
            assert(self.tokens.deep_view() == before.push(t));
            assert(before.push(t) == before + seq![t]);
        }
    }

    /// The next character, or `_` at the end of the line.
    pub fn peek(&self) -> (c: char)
        requires
            self.wf(),
        ensures
            c == if self.next < self.source.len() {
                self.source@[self.next as int]
            } else {
                '_'
            },
    {
        if self.at_end() {
            return '_';
        }
        self.source[self.next]
    }

    /// Scans one lexeme.
    pub fn scan_token(&mut self)
        requires
            old(self).wf(),
            old(self).lexeme_start == old(self).next,
            old(self).next < old(self).source.len(),
        ensures
            final(self).wf(),
            old(self).next < final(self).next,
            final(self).extends(
                *old(self),
                lexeme_at(old(self).source@, old(self).next as int).next,
                lexeme_at(old(self).source@, old(self).next as int).tokens,
                lexeme_at(old(self).source@, old(self).next as int).errors,
            ),
    {
        let ghost src = self.source@;
        let ghost pos = self.next as int;
        proof {
            lemma_digits_end(src, pos + 1);
            lemma_word_end(src, pos + 1);
        }
        let c = self.advance();
        if c == 'x' {
            // An x that a word opener follows is the first letter of a word.
            let after = self.peek();
            if is_word_start(&after) {
                self.string()
            } else {
                self.add_token(TokenKind::LiteralX)
            }
        } else if c == '[' {
            self.add_token(TokenKind::LeftBracket)
        } else if c == ']' {
            self.add_token(TokenKind::RightBracket)
        } else if c == '\t' {
            self.add_token(TokenKind::Tab)
        } else if c == ' ' {
            self.add_token(TokenKind::Space)
        } else if c == ',' {
            self.add_token(TokenKind::Comma)
        } else if is_digit(&c) {
            self.number()
        } else if is_namechar(&c) {
            self.string()
        } else {
            self.errors.push(LexError { pos: self.lexeme_start, found: c });
            proof {
                assert(self.tokens.deep_view() + Seq::<TokenView>::empty()
                    == self.tokens.deep_view());
                let e = LexError { pos: pos as usize, found: c };
                assert(old(self).errors@.push(e) == old(self).errors@ + seq![e]);
            }
        }
    }

    /// Takes the rest of a run of digits and adds it as a token.
    pub fn number(&mut self)
        requires
            old(self).wf(),
        ensures
            final(self).wf(),
            final(self).lexeme_start == old(self).lexeme_start,
            final(self).extends(
                *old(self),
                digits_end(old(self).source@, old(self).next as int),
                seq![
                    TokenView {
                        kind: TokenKind::Digits,
                        text: old(self).source@.subrange(
                            old(self).lexeme_start as int,
                            digits_end(old(self).source@, old(self).next as int),
                        ),
                    },
                ],
                Seq::empty(),
            ),
    {
        while is_digit(&self.peek())
            invariant
                self.wf(),
                self.source == old(self).source,
                self.tokens == old(self).tokens,
                self.errors == old(self).errors,
                self.lexeme_start == old(self).lexeme_start,
                digits_end(self.source@, self.next as int) == digits_end(
                    old(self).source@,
                    old(self).next as int,
                ),
            decreases self.source.len() - self.next,
        {
            self.advance();
        }
        self.add_token(TokenKind::Digits);
    }

    /// Takes the rest of a run of name characters and adds it as a token.
    pub fn string(&mut self)
        requires
            old(self).wf(),
        ensures
            final(self).wf(),
            final(self).lexeme_start == old(self).lexeme_start,
            final(self).extends(
                *old(self),
                word_end(old(self).source@, old(self).next as int),
                seq![
                    TokenView {
                        kind: TokenKind::Word,
                        text: old(self).source@.subrange(
                            old(self).lexeme_start as int,
                            word_end(old(self).source@, old(self).next as int),
                        ),
                    },
                ],
                Seq::empty(),
            ),
    {
        while is_namechar(&self.peek())
            invariant
                self.wf(),
                self.source == old(self).source,
                self.tokens == old(self).tokens,
                self.errors == old(self).errors,
                self.lexeme_start == old(self).lexeme_start,
                word_end(self.source@, self.next as int) == word_end(
                    old(self).source@,
                    old(self).next as int,
                ),
            decreases self.source.len() - self.next,
        {
            self.advance();
        }
        self.add_token(TokenKind::Word);
    }
}

/// Tokenizes the characters of one line.
pub fn lex_chars(line: Vec<char>) -> (r: Result<Vec<Token>, Vec<LexError>>)
    ensures
        match r {
            Ok(tokens) => lex_line(line@) == Ok::<Seq<TokenView>, Seq<LexError>>(
                tokens.deep_view(),
            ) && terminated(tokens.deep_view()),
            Err(errors) => lex_line(line@) == Err::<Seq<TokenView>, Seq<LexError>>(errors@)
                && errors@.len() > 0,
        },
{
    let mut scanner = Scanner::new(line);
    proof {
        assert(scanner.tokens.deep_view() == Seq::<TokenView>::empty());
        assert(scanner.errors@ == Seq::<LexError>::empty());
        lemma_scan_terminated(line@, 0);
    }
    scanner.scan_tokens();
    proof {
        assert(Seq::<TokenView>::empty() + scan(line@, 0).tokens == scan(line@, 0).tokens);
        assert(Seq::<LexError>::empty() + scan(line@, 0).errors == scan(line@, 0).errors);
    }
    if scanner.errors.len() > 0 {
        return Err(scanner.errors);
    }
    Ok(scanner.tokens)
}

/// Tokenizes one line.
pub fn lex(s: &str) -> (r: Result<Vec<Token>, Vec<LexError>>)
    ensures
        match r {
            Ok(tokens) => lex_line(s@) == Ok::<Seq<TokenView>, Seq<LexError>>(
                tokens.deep_view(),
            ) && terminated(tokens.deep_view()),
            Err(errors) => lex_line(s@) == Err::<Seq<TokenView>, Seq<LexError>>(errors@)
                && errors@.len() > 0,
        },
{
    lex_chars(to_chars(s))
}

/// A character that the tokenizer has a class for.
pub open spec fn recognized(c: char) -> bool {
    c == '[' || c == ']' || c == '\t' || c == ' ' || c == ',' || digit_char(c)
        || word_start_char(c)
}

/// A run of digits that starts at or before a character that is no digit
/// ends at or before it.
proof fn lemma_digits_end_stops(src: Seq<char>, from: int, pos: int)
    requires
        0 <= from <= pos < src.len(),
        !digit_char(src[pos]),
    ensures
        digits_end(src, from) <= pos,
    decreases pos - from,
{
    if from < pos && digit_char(src[from]) {
        lemma_digits_end_stops(src, from + 1, pos);
    }
}

/// A word that starts at or before a character that is no name character
/// ends at or before it.
proof fn lemma_word_end_stops(src: Seq<char>, from: int, pos: int)
    requires
        0 <= from <= pos < src.len(),
        !name_char(src[pos]),
    ensures
        word_end(src, from) <= pos,
    decreases pos - from,
{
    if from < pos && name_char(src[from]) {
        lemma_word_end_stops(src, from + 1, pos);
    }
}

/// A scan that starts at or before a character without a class reports
/// that character with its offset.
pub proof fn lemma_scan_reports(src: Seq<char>, from: int, pos: int)
    requires
        0 <= from <= pos < src.len(),
        !recognized(src[pos]),
    ensures
        scan(src, from).errors.contains(bad_char(src, pos)),
    decreases pos - from,
{
    let first = lexeme_at(src, from);
    let rest = scan(src, first.next);
    let e = bad_char(src, pos);
    lemma_digits_end(src, from + 1);
    lemma_word_end(src, from + 1);
    if from == pos {
        assert(first.errors.len() == 1);
        assert(first.errors[0] == e);
        assert((first.errors + rest.errors)[0] == e);
    } else {
        lemma_digits_end_stops(src, from + 1, pos);
        lemma_word_end_stops(src, from + 1, pos);
        lemma_scan_reports(src, first.next, pos);
        let i = choose|i: int| 0 <= i < rest.errors.len() && rest.errors[i] == e;
        assert((first.errors + rest.errors)[first.errors.len() + i] == e);
    }
}

/// A scan of characters that all have a class reports nothing.
pub proof fn lemma_scan_accepts(src: Seq<char>, from: int)
    requires
        forall|i: int| 0 <= i < src.len() ==> recognized(#[trigger] src[i]),
    ensures
        scan(src, from).errors.len() == 0,
    decreases src.len() - from,
{
    if 0 <= from < src.len() {
        lemma_digits_end(src, from + 1);
        lemma_word_end(src, from + 1);
        assert(recognized(src[from]));
        lemma_scan_accepts(src, lexeme_at(src, from).next);
    }
}

/// `e` reports a character without a class at or after `from`.
pub open spec fn reports_bad_char(src: Seq<char>, from: int, e: LexError) -> bool {
    exists|pos: int|
        from <= pos < src.len() && !recognized(src[pos]) && e == #[trigger] bad_char(src, pos)
}

/// A scan reports nothing but characters without a class.
pub proof fn lemma_scan_reports_no_other(src: Seq<char>, from: int)
    ensures
        forall|k: int|
            0 <= k < scan(src, from).errors.len() ==> reports_bad_char(
                src,
                from,
                #[trigger] scan(src, from).errors[k],
            ),
    decreases src.len() - from,
{
    if 0 <= from < src.len() {
        lemma_digits_end(src, from + 1);
        lemma_word_end(src, from + 1);
        let first = lexeme_at(src, from);
        let rest = scan(src, first.next);
        let all = scan(src, from).errors;
        lemma_scan_reports_no_other(src, first.next);
        assert(all == first.errors + rest.errors);
        assert forall|k: int| 0 <= k < all.len() implies reports_bad_char(
            src,
            from,
            #[trigger] all[k],
        ) by {
            if k < first.errors.len() {
                assert(all[k] == bad_char(src, from));
                assert(!recognized(src[from]));
            } else {
                let j = k - first.errors.len();
                assert(all[k] == rest.errors[j]);
                assert(reports_bad_char(src, first.next, rest.errors[j]));
                let pos = choose|pos: int|
                    first.next <= pos < src.len() && !recognized(src[pos]) && rest.errors[j]
                        == #[trigger] bad_char(src, pos);
                assert(all[k] == bad_char(src, pos));
            }
        }
    }
}

/// A line has tokens exactly when every character of it has a class. A
/// character without one, a line feed among them, is reported with its
/// offset in the line.
pub proof fn lemma_lex_refuses_unrecognized(src: Seq<char>)
    ensures
        lex_line(src) is Ok <==> forall|i: int| 0 <= i < src.len() ==> recognized(#[trigger] src[i]),
        forall|pos: int|
            0 <= pos < src.len() && !recognized(#[trigger] src[pos]) ==> lex_line(src) is Err
                && lex_line(src)->Err_0.contains(bad_char(src, pos)),
{
    if forall|i: int| 0 <= i < src.len() ==> recognized(#[trigger] src[i]) {
        lemma_scan_accepts(src, 0);
    }
    assert forall|pos: int| 0 <= pos < src.len() && !recognized(#[trigger] src[pos]) implies lex_line(
        src,
    ) is Err && lex_line(src)->Err_0.contains(bad_char(src, pos)) by {
        lemma_scan_reports(src, 0, pos);
    }
}

/// A token has the text that its kind allows: a word opener and then
/// name characters for a word, one digit or more for digits, and nothing
/// for the others.
pub open spec fn well_shaped(t: TokenView) -> bool {
    match t.kind {
        TokenKind::Word => t.text.len() > 0 && word_start_char(t.text[0]) && forall|i: int|
            0 <= i < t.text.len() ==> name_char(#[trigger] t.text[i]),
        TokenKind::Digits => t.text.len() > 0 && forall|i: int|
            0 <= i < t.text.len() ==> digit_char(#[trigger] t.text[i]),
        _ => t.text.len() == 0,
    }
}

/// The characters that a token stands for.
pub open spec fn spelling(t: TokenView) -> Seq<char> {
    match t.kind {
        TokenKind::LiteralX => seq!['x'],
        TokenKind::LeftBracket => seq!['['],
        TokenKind::RightBracket => seq![']'],
        TokenKind::Tab => seq!['\t'],
        TokenKind::Space => seq![' '],
        TokenKind::Comma => seq![','],
        TokenKind::Word => t.text,
        TokenKind::Digits => t.text,
        TokenKind::EndOfInput => Seq::empty(),
    }
}

/// The characters that a list of tokens stands for.
pub open spec fn spelled(tokens: Seq<TokenView>) -> Seq<char>
    decreases tokens.len(),
{
    if tokens.len() == 0 {
        Seq::empty()
    } else {
        spelling(tokens[0]) + spelled(tokens.drop_first())
    }
}

/// Every token of a scan is well shaped, and `EndOfInput` is the last
/// token and no other.
pub proof fn lemma_scan_shapes(src: Seq<char>, pos: int)
    ensures
        forall|k: int| 0 <= k < scan(src, pos).tokens.len() ==> well_shaped(#[trigger] scan(src, pos).tokens[k]),
        forall|k: int|
            0 <= k < scan(src, pos).tokens.len() ==> ((#[trigger] scan(src, pos).tokens[k]).kind
                == TokenKind::EndOfInput <==> k == scan(src, pos).tokens.len() - 1),
    decreases src.len() - pos,
{
    if 0 <= pos < src.len() {
        lemma_digits_end(src, pos + 1);
        lemma_word_end(src, pos + 1);
        let first = lexeme_at(src, pos);
        let rest = scan(src, first.next);
        lemma_scan_shapes(src, first.next);
        lemma_scan_terminated(src, first.next);
        let all = scan(src, pos).tokens;
        assert(all == first.tokens + rest.tokens);
        if first.tokens.len() == 1 {
            let t = first.tokens[0];
            assert(well_shaped(t)) by {
                if t.kind == TokenKind::Word {
                    assert(t.text == src.subrange(pos, word_end(src, pos + 1)));
                    assert(t.text[0] == src[pos]);
                    assert forall|i: int| 0 <= i < t.text.len() implies name_char(
                        #[trigger] t.text[i],
                    ) by {
                        assert(t.text[i] == src[pos + i]);
                    }
                } else if t.kind == TokenKind::Digits {
                    assert(t.text == src.subrange(pos, digits_end(src, pos + 1)));
                    assert forall|i: int| 0 <= i < t.text.len() implies digit_char(
                        #[trigger] t.text[i],
                    ) by {
                        assert(t.text[i] == src[pos + i]);
                    }
                }
            }
            assert(t.kind != TokenKind::EndOfInput);
        }
        assert forall|k: int| 0 <= k < all.len() implies well_shaped(#[trigger] all[k]) && (
        all[k].kind == TokenKind::EndOfInput <==> k == all.len() - 1) by {
            if k >= first.tokens.len() {
                assert(all[k] == rest.tokens[k - first.tokens.len()]);
            } else {
                assert(all[k] == first.tokens[k]);
            }
        }
    }
}

/// Where a scan reports nothing, its tokens spell what was scanned,
/// character for character.
pub proof fn lemma_tokens_spell_line(src: Seq<char>, pos: int)
    requires
        0 <= pos <= src.len(),
        scan(src, pos).errors.len() == 0,
    ensures
        spelled(scan(src, pos).tokens) == src.subrange(pos, src.len() as int),
    decreases src.len() - pos,
{
    let all = scan(src, pos).tokens;
    if pos < src.len() {
        lemma_digits_end(src, pos + 1);
        lemma_word_end(src, pos + 1);
        let first = lexeme_at(src, pos);
        let rest = scan(src, first.next);
        assert(first.errors.len() == 0 && rest.errors.len() == 0) by {
            assert((first.errors + rest.errors).len() == 0);
        }
        lemma_tokens_spell_line(src, first.next);
        assert(all == first.tokens + rest.tokens);
        assert(first.tokens.len() == 1);
        assert(all[0] == first.tokens[0]);
        assert(all.drop_first() == rest.tokens);
        assert(spelling(first.tokens[0]) == src.subrange(pos, first.next));
        assert(src.subrange(pos, first.next) + src.subrange(first.next, src.len() as int)
            == src.subrange(pos, src.len() as int));
    } else {
        assert(all.drop_first() == Seq::<TokenView>::empty());
        assert(spelled(all.drop_first()) == Seq::<char>::empty());
        assert(spelling(all[0]) + Seq::<char>::empty() == src.subrange(pos, src.len() as int));
    }
}

} // verus!
