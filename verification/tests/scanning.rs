use eve_item_parser::chars::{
    is_blank, is_digit, is_namechar, is_word_start, push_chars, string_of, to_chars, trim_bounds,
};
use eve_item_parser::lexer::lex_chars;
use eve_item_parser::number::{parse_count, push_decimal, push_signed_decimal};
use eve_item_parser::parser::grouped_sum;
use eve_item_parser::{eof, number, space, string, x, LexError, Scanner, TokenKind};

fn scanner_on(line: &str) -> Scanner {
    Scanner::new(line.chars().collect())
}

#[test]
fn character_classes() {
    for c in ['0', '5', '9'] {
        assert!(is_digit(&c));
        assert!(is_namechar(&c));
        assert!(!is_word_start(&c));
    }
    for c in ['A', 'Z', 'a', 'z', 'x', '-', '*', '\'', '/', '.'] {
        assert!(!is_digit(&c));
        assert!(is_namechar(&c));
        assert!(is_word_start(&c));
    }
    for c in ['_', '!', ' ', '\t', ',', '[', ']', '\n', '@', '`', '{', ':', '+', '\u{e9}'] {
        assert!(!is_digit(&c));
        assert!(!is_namechar(&c));
        assert!(!is_word_start(&c));
    }
}

#[test]
fn white_space() {
    for c in [' ', '\t', '\n', '\r', '\u{b}', '\u{c}', '\u{85}', '\u{a0}', '\u{1680}', '\u{2000}',
        '\u{200a}', '\u{2028}', '\u{2029}', '\u{202f}', '\u{205f}', '\u{3000}']
    {
        assert!(is_blank(&c));
        assert!(c.is_whitespace());
    }
    for c in ['a', '0', '_', '\u{8}', '\u{e}', '\u{200b}', '\u{feff}', '\u{180e}'] {
        assert!(!is_blank(&c));
        assert!(!c.is_whitespace());
    }
}

#[test]
fn characters_and_strings() {
    assert_eq!(to_chars("a\u{e9}z"), vec!['a', '\u{e9}', 'z']);
    assert_eq!(to_chars(""), Vec::<char>::new());
    let chars = vec!['P', 'a', 'l', 'a', 'd', 'i', 'n'];
    assert_eq!(string_of(&chars, 0, 7), "Paladin");
    assert_eq!(string_of(&chars, 2, 5), "lad");
    assert_eq!(string_of(&chars, 3, 3), "");
    let mut out = vec!['a'];
    push_chars(&mut out, "bc");
    assert_eq!(out, vec!['a', 'b', 'c']);
}

#[test]
fn trimming() {
    let chars: Vec<char> = " \t Pal adin \u{a0}\n".chars().collect();
    assert_eq!(trim_bounds(&chars, 0, chars.len()), (3, 11));
    assert_eq!(trim_bounds(&chars, 4, 7), (4, 6));
    let blank: Vec<char> = "  \t ".chars().collect();
    let bounds = trim_bounds(&blank, 0, blank.len());
    assert_eq!(bounds.0, bounds.1);
    assert_eq!(trim_bounds(&blank, 2, 2), (2, 2));
}

#[test]
fn decimal_notation() {
    let mut out = String::from("n=");
    push_decimal(&mut out, 0);
    assert_eq!(out, "n=0");
    let mut out = String::new();
    push_decimal(&mut out, 3200189);
    assert_eq!(out, "3200189");
    let mut out = String::new();
    push_decimal(&mut out, u64::MAX);
    assert_eq!(out, "18446744073709551615");
    let mut out = String::new();
    push_signed_decimal(&mut out, -42);
    push_signed_decimal(&mut out, 10);
    assert_eq!(out, "-4210");
}

#[test]
fn counts() {
    assert_eq!(parse_count("0"), Some(0));
    assert_eq!(parse_count("3200"), Some(3200));
    assert_eq!(parse_count("000123"), Some(123));
    assert_eq!(parse_count("9223372036854775807"), Some(i64::MAX));
    assert_eq!(parse_count("9223372036854775808"), None);
    assert_eq!(parse_count("92233720368547758070"), None);
    assert_eq!(parse_count(""), None);
    assert_eq!(parse_count("12a"), None);
    assert_eq!(parse_count("+12"), None);
    assert_eq!(parse_count("-12"), None);
    assert_eq!(parse_count("1 2"), None);
    assert_eq!(parse_count("\u{664}"), None);
}

#[test]
fn grouped_sums() {
    assert_eq!(grouped_sum(&vec![]), Some(0));
    assert_eq!(grouped_sum(&vec![26]), Some(26));
    assert_eq!(grouped_sum(&vec![3, 200]), Some(3200));
    assert_eq!(grouped_sum(&vec![3, 200, 189]), Some(3200189));
    assert_eq!(grouped_sum(&vec![12, 3]), Some(12003));
    assert_eq!(grouped_sum(&vec![1, 2345]), Some(3345));
    assert_eq!(grouped_sum(&vec![9223372036854775, 807]), Some(i64::MAX));
    assert_eq!(grouped_sum(&vec![9223372036854775, 808]), None);
    assert_eq!(grouped_sum(&vec![i64::MAX, 0]), None);
}

#[test]
fn scanner_steps() {
    let mut s = scanner_on("ab 12x");
    assert!(!s.at_end());
    assert_eq!(s.peek(), 'a');
    assert!(!s.match_char('b'));
    assert!(s.match_char('a'));
    assert_eq!(s.next, 1);
    s.string();
    assert_eq!(s.next, 2);
    assert_eq!(s.tokens, vec![string(String::from("ab"))]);

    s.lexeme_start = s.next;
    assert_eq!(s.advance(), ' ');
    s.add_token(TokenKind::Space);
    assert_eq!(s.tokens, vec![string(String::from("ab")), space()]);

    s.lexeme_start = s.next;
    s.number();
    assert_eq!(s.next, 5);
    s.lexeme_start = s.next;
    s.scan_token();
    assert!(s.at_end());
    assert_eq!(s.peek(), '_');
    assert!(!s.match_char('_'));
    assert_eq!(
        s.tokens,
        vec![string(String::from("ab")), space(), number(String::from("12")), x()]
    );
    assert!(s.errors.is_empty());
}

#[test]
fn scanner_goes_on_after_an_error() {
    let mut s = scanner_on("a?b");
    s.scan_tokens();
    assert_eq!(s.tokens, vec![string(String::from("a")), string(String::from("b")), eof()]);
    assert_eq!(s.errors, vec![LexError { pos: 1, found: '?' }]);
    assert_eq!(s.next, 3);
}

#[test]
fn scanner_adds_to_what_it_holds() {
    let mut s = scanner_on("x,y");
    s.next = 1;
    s.lexeme_start = 1;
    s.tokens.push(space());
    s.scan_tokens();
    assert_eq!(
        s.tokens,
        vec![space(), eve_item_parser::comma(), string(String::from("y")), eof()]
    );
}

#[test]
fn characters_of_a_line() {
    assert_eq!(lex_chars(vec!['x', '1']).unwrap(), vec![x(), number(String::from("1")), eof()]);
    assert_eq!(lex_chars(vec!['\n']).unwrap_err(), vec![LexError { pos: 0, found: '\n' }]);
}
