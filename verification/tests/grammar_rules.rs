use eve_item_parser::{
    comma, eof, lex, number, parse, parse_line, parse_lines, space, string, tab, x, Fault, Item,
    LexError, LineError, LineFault, ParseError, Parser, Token,
};

fn item(name: &str, quantity: i64) -> Item {
    Item { name: String::from(name), quantity }
}

fn fault_of(line: &str) -> ParseError {
    match parse_line(line.chars().collect()) {
        Err(LineFault::Parse(e)) => e,
        other => panic!("expected a grammar error, got {:?}", other),
    }
}

fn parser_on(tokens: Vec<Token>) -> Parser {
    Parser::new(tokens)
}

#[test]
fn lone_x_is_a_multiplier_mark() {
    assert_eq!(lex("x").unwrap(), vec![x(), eof()]);
    assert_eq!(lex("x2").unwrap(), vec![x(), number(String::from("2")), eof()]);
    assert_eq!(lex("x 2").unwrap(), vec![x(), space(), number(String::from("2")), eof()]);
    assert_eq!(lex("x,").unwrap(), vec![x(), comma(), eof()]);
}

#[test]
fn x_before_a_word_opener_opens_a_word() {
    assert_eq!(lex("xenon").unwrap(), vec![string(String::from("xenon")), eof()]);
    assert_eq!(lex("x-ray").unwrap(), vec![string(String::from("x-ray")), eof()]);
    assert_eq!(lex("xx").unwrap(), vec![string(String::from("xx")), eof()]);
    assert_eq!(lex("x.5").unwrap(), vec![string(String::from("x.5")), eof()]);
    assert_eq!(
        parse("Large xenon Tank x3").unwrap(),
        vec![item("Large xenon Tank", 3)]
    );
}

#[test]
fn x_inside_a_word_stays_in_the_word() {
    assert_eq!(lex("Ibex").unwrap(), vec![string(String::from("Ibex")), eof()]);
    assert_eq!(lex("Ix2").unwrap(), vec![string(String::from("Ix2")), eof()]);
}

#[test]
fn digits_inside_a_word_stay_in_the_word() {
    assert_eq!(lex("Y-T8").unwrap(), vec![string(String::from("Y-T8")), eof()]);
    assert_eq!(lex("NN-602").unwrap(), vec![string(String::from("NN-602")), eof()]);
    assert_eq!(
        lex("5MN").unwrap(),
        vec![number(String::from("5")), string(String::from("MN")), eof()]
    );
}

#[test]
fn empty_line_is_only_the_end() {
    assert_eq!(lex("").unwrap(), vec![eof()]);
}

#[test]
fn every_lexical_error_of_a_line_is_reported() {
    assert_eq!(
        lex("a!b\nc\u{e9}").unwrap_err(),
        vec![
            LexError { pos: 1, found: '!' },
            LexError { pos: 3, found: '\n' },
            LexError { pos: 5, found: '\u{e9}' },
        ]
    );
}

#[test]
fn lexical_error_messages() {
    assert_eq!(
        LexError { pos: 12, found: '!' }.message(),
        "unsupported character at offset 12: !"
    );
    assert_eq!(LexError { pos: 0, found: '\n' }.message(), "unsupported newline at offset 0");
}

#[test]
fn name_rule_gathers_and_cleans() {
    let mut p = parser_on(vec![
        string(String::from("Joe's")),
        space(),
        string(String::from("Paladin*")),
        tab(),
        eof(),
    ]);
    assert_eq!(p.full_name().unwrap(), "Joe's Paladin");
    assert_eq!(p.current, 3);
}

#[test]
fn name_rule_strips_one_star_only() {
    assert_eq!(parse("Paladin**").unwrap(), vec![item("Paladin*", 1)]);
    assert_eq!(parse("Pal*adin").unwrap(), vec![item("Pal*adin", 1)]);
}

#[test]
fn name_rule_drops_the_offline_mark_without_a_blank() {
    assert_eq!(parse("Armor /OFFLINE Burst").unwrap(), vec![item("Armor  Burst", 1)]);
    assert_eq!(parse("/OFFLINE Burst").unwrap(), vec![item("Burst", 1)]);
}

#[test]
fn name_rule_leaves_closing_digits_to_the_quantity() {
    let mut p = parser_on(vec![
        string(String::from("Booster")),
        space(),
        number(String::from("3200")),
        eof(),
    ]);
    assert_eq!(p.full_name().unwrap(), "Booster");
    assert_eq!(p.current, 2);
}

#[test]
fn name_rule_takes_a_closing_space() {
    let mut p = parser_on(vec![string(String::from("Paladin")), space(), eof()]);
    assert_eq!(p.full_name().unwrap(), "Paladin");
    assert_eq!(p.current, 2);
    assert!(p.at_end());
}

#[test]
fn name_rule_stops_before_a_space_and_the_word_x() {
    let mut p = parser_on(vec![
        string(String::from("Paladin")),
        space(),
        string(String::from("x")),
        number(String::from("2")),
        eof(),
    ]);
    assert_eq!(p.full_name().unwrap(), "Paladin");
    assert_eq!(p.current, 1);
    let mut q = parser_on(vec![
        string(String::from("Paladin")),
        space(),
        string(String::from("x")),
        number(String::from("2")),
        eof(),
    ]);
    assert_eq!(q.item().unwrap_err(), ParseError::Item(Fault::NumberMissing));
}

#[test]
fn name_rule_fails_on_nothing() {
    let mut p = parser_on(vec![tab(), eof()]);
    assert_eq!(p.full_name().unwrap_err(), Fault::EmptyName);
    assert_eq!(p.current, 0);
}

#[test]
fn quantity_multiplier_form() {
    let mut p = parser_on(vec![x(), space(), number(String::from("12")), tab(), eof()]);
    assert_eq!(p.quantity().unwrap(), 12);
    assert_eq!(p.current, 3);
    assert_eq!(parse("Paladin x 7").unwrap(), vec![item("Paladin", 7)]);
}

#[test]
fn quantity_grouped_form() {
    let mut p = parser_on(vec![
        number(String::from("1")),
        comma(),
        number(String::from("234")),
        comma(),
        number(String::from("567")),
        space(),
        x(),
        tab(),
        eof(),
    ]);
    assert_eq!(p.quantity().unwrap(), 1234567);
    assert_eq!(p.current, 7);
}

#[test]
fn quantity_groups_are_summed_as_written() {
    assert_eq!(parse("Paladin\t12,3").unwrap(), vec![item("Paladin", 12003)]);
    assert_eq!(parse("Paladin\t1,2345").unwrap(), vec![item("Paladin", 3345)]);
    assert_eq!(parse("Paladin\t0,0,7").unwrap(), vec![item("Paladin", 7)]);
    assert_eq!(parse("Paladin\t007").unwrap(), vec![item("Paladin", 7)]);
}

#[test]
fn quantity_at_the_edge_of_64_bits() {
    assert_eq!(
        parse("Paladin 9223372036854775807").unwrap(),
        vec![item("Paladin", 9223372036854775807)]
    );
    assert_eq!(
        parse("Paladin\t9,223,372,036,854,775,807").unwrap(),
        vec![item("Paladin", 9223372036854775807)]
    );
    assert_eq!(fault_of("Paladin 9223372036854775808"), ParseError::Item(Fault::NumberInvalid));
    assert_eq!(
        fault_of("Paladin\t9,223,372,036,854,775,808"),
        ParseError::Item(Fault::QuantityTooLarge)
    );
}

#[test]
fn quantity_zero() {
    assert_eq!(parse("Paladin 0").unwrap(), vec![item("Paladin", 0)]);
    assert_eq!(parse("Paladin x0").unwrap(), vec![item("Paladin", 0)]);
}

#[test]
fn quantity_of_a_digits_token_that_holds_no_digits() {
    let mut p = parser_on(vec![number(String::from("-5")), eof()]);
    assert_eq!(p.quantity().unwrap_err(), Fault::NumberInvalid);
    let mut q = parser_on(vec![number(String::new()), eof()]);
    assert_eq!(q.quantity().unwrap_err(), Fault::NumberInvalid);
}

#[test]
fn fault_empty_name() {
    assert_eq!(fault_of("/OFFLINE"), ParseError::Item(Fault::EmptyName));
    assert_eq!(fault_of("*"), ParseError::Item(Fault::EmptyName));
    assert_eq!(fault_of("5"), ParseError::Item(Fault::EmptyName));
    assert_eq!(fault_of("[]"), ParseError::Item(Fault::EmptyName));
    assert_eq!(fault_of("a\t\tb"), ParseError::Item(Fault::EmptyName));
}

#[test]
fn fault_count_missing() {
    assert_eq!(fault_of("Paladin x"), ParseError::Item(Fault::CountMissing));
    assert_eq!(fault_of("Paladin x x2"), ParseError::Item(Fault::CountMissing));
}

#[test]
fn fault_number_missing() {
    assert_eq!(fault_of("a\tb\tc\td"), ParseError::Item(Fault::NumberMissing));
}

#[test]
fn fault_group_missing() {
    assert_eq!(fault_of("Paladin\t3,"), ParseError::Item(Fault::GroupMissing));
    assert_eq!(fault_of("Paladin\t3,x"), ParseError::Item(Fault::GroupMissing));
}

#[test]
fn fault_number_invalid() {
    assert_eq!(fault_of("Paladin x99999999999999999999"), ParseError::Item(Fault::NumberInvalid));
    assert_eq!(
        fault_of("Paladin\t1,99999999999999999999"),
        ParseError::Item(Fault::NumberInvalid)
    );
}

#[test]
fn fault_quantity_too_large() {
    assert_eq!(
        fault_of("Paladin\t9223372036854775807,000"),
        ParseError::Item(Fault::QuantityTooLarge)
    );
}

#[test]
fn fault_invalid_start() {
    assert_eq!(fault_of("]"), ParseError::Item(Fault::InvalidStart));
    assert_eq!(fault_of(","), ParseError::Item(Fault::InvalidStart));
    assert_eq!(fault_of("x2 Paladin"), ParseError::Item(Fault::InvalidStart));
}

#[test]
fn fault_comma_missing() {
    assert_eq!(fault_of("[Paladin]"), ParseError::Item(Fault::CommaMissing));
    assert_eq!(fault_of("[Empty Rig slot]"), ParseError::Item(Fault::CommaMissing));
}

#[test]
fn fault_charge_space_missing() {
    assert_eq!(fault_of("Module,Charge"), ParseError::Item(Fault::ChargeSpaceMissing));
    assert_eq!(fault_of("Paladin 3,"), ParseError::Item(Fault::ChargeSpaceMissing));
}

#[test]
fn fault_charge_empty_slot() {
    assert_eq!(fault_of("Module, [Empty High slot]"), ParseError::Item(Fault::ChargeEmptySlot));
}

#[test]
fn fault_charge_has_charge() {
    assert_eq!(fault_of("A, B, C"), ParseError::Charge(Fault::ChargeHasCharge));
}

#[test]
fn fault_charge_not_last() {
    assert_eq!(fault_of("A, B\t2\tAmmo"), ParseError::Item(Fault::ChargeNotLast));
    assert_eq!(fault_of("A, [B, C]"), ParseError::Item(Fault::ChargeNotLast));
}

#[test]
fn fault_inside_the_charge() {
    assert_eq!(fault_of("A, ]"), ParseError::Charge(Fault::InvalidStart));
    assert_eq!(fault_of("A, B x"), ParseError::Charge(Fault::CountMissing));
    assert_eq!(fault_of("A, [B]"), ParseError::Charge(Fault::CommaMissing));
}

#[test]
fn fault_second_tab_missing() {
    assert_eq!(fault_of("a\tb"), ParseError::Item(Fault::SecondTabMissing));
}

#[test]
fn fault_third_tab_missing() {
    assert_eq!(fault_of("a\tb\tc"), ParseError::Item(Fault::ThirdTabMissing));
}

#[test]
fn fault_unexpected_token() {
    assert_eq!(fault_of("Paladin]"), ParseError::Item(Fault::UnexpectedToken));
    assert_eq!(fault_of("Paladin[2]"), ParseError::Item(Fault::UnexpectedToken));
}

#[test]
fn charge_may_have_a_quantity() {
    assert_eq!(parse("Launcher, Rocket x20").unwrap(), vec![item("Launcher", 1), item("Rocket", 20)]);
    assert_eq!(parse("Launcher, [Rocket,").unwrap(), vec![item("Launcher", 1), item("Rocket", 1)]);
}

#[test]
fn bracket_needs_no_closing() {
    assert_eq!(parse("[Paladin, Joe").unwrap(), vec![item("Paladin", 1)]);
    assert_eq!(parse("[Paladin,").unwrap(), vec![item("Paladin", 1)]);
}

#[test]
fn what_follows_a_quantity_is_not_read() {
    assert_eq!(parse("Paladin\t2\t]]]").unwrap(), vec![item("Paladin", 2)]);
    assert_eq!(parse("Paladin x2 and more").unwrap(), vec![item("Paladin", 2)]);
}

#[test]
fn wide_row() {
    assert_eq!(
        parse("Tritanium\tMineral\tCargo Hold\t1,000 x").unwrap(),
        vec![item("Tritanium", 1000)]
    );
}

#[test]
fn blank_lines_change_nothing() {
    let plain = parse("Paladin 2").unwrap();
    assert_eq!(parse("\n \t\nPaladin 2").unwrap(), plain);
    assert_eq!(parse("Paladin 2\n\n   \n").unwrap(), plain);
    assert_eq!(parse("\r\n\u{a0}\nPaladin 2\r\n\n").unwrap(), plain);
    assert_eq!(plain, vec![item("Paladin", 2)]);
    assert_eq!(parse("\n\n]").unwrap_err(), parse("]").unwrap_err());
}

#[test]
fn nothing_but_blank_lines() {
    assert_eq!(parse("").unwrap(), vec![]);
    assert_eq!(parse(" \n\t\n\n").unwrap(), vec![]);
}

#[test]
fn lines_keep_their_order() {
    assert_eq!(
        parse("Golem x3\nLauncher, Rocket\n[Empty Low slot]\n[Paladin, P]\nHarpy").unwrap(),
        vec![
            item("Golem", 3),
            item("Launcher", 1),
            item("Rocket", 1),
            item("Paladin", 1),
            item("Harpy", 1),
        ]
    );
}

#[test]
fn one_bad_line_fails_the_text() {
    assert_eq!(
        parse_lines("Paladin\n\n]\nGolem x3\nHarpy $ 2 ~\n").unwrap_err(),
        vec![
            LineError { line: 1, fault: LineFault::Parse(ParseError::Item(Fault::InvalidStart)) },
            LineError {
                line: 3,
                fault: LineFault::Lex(vec![
                    LexError { pos: 6, found: '$' },
                    LexError { pos: 10, found: '~' },
                ]),
            },
        ]
    );
    assert_eq!(
        parse("Paladin\n\n]\nGolem x3\nHarpy $ 2 ~\n").unwrap_err(),
        "line 1: invalid starting token\nline 3: unsupported character at offset 6: $; unsupported character at offset 10: ~"
    );
}

#[test]
fn carriage_return_inside_a_line_is_no_token() {
    assert_eq!(
        parse_lines("Pala\rdin").unwrap_err(),
        vec![LineError { line: 0, fault: LineFault::Lex(vec![LexError { pos: 4, found: '\r' }]) }]
    );
}

#[test]
fn fault_messages() {
    assert_eq!(Fault::EmptyName.message(), "empty name");
    assert_eq!(Fault::InvalidStart.message(), "invalid starting token");
    assert_eq!(Fault::UnexpectedToken.message(), "unexpected token following name");
    assert_eq!(
        ParseError::Charge(Fault::NumberMissing).message(),
        "failed to match sub-item for loaded charge: quantities must be a number"
    );
    assert_eq!(
        ParseError::Item(Fault::CommaMissing).message(),
        "bracketed name must be followed by a comma"
    );
}

#[test]
fn cursor_moves() {
    let mut p = parser_on(vec![string(String::from("a")), space(), eof()]);
    assert!(p.check(eve_item_parser::TokenKind::Word));
    assert!(p.check2(eve_item_parser::TokenKind::Space));
    assert!(!p.match_kind(eve_item_parser::TokenKind::Space));
    assert!(p.match_kind(eve_item_parser::TokenKind::Word));
    assert_eq!(*p.previous(), string(String::from("a")));
    assert_eq!(*p.peek(), space());
    assert_eq!(*p.peek2(), eof());
    assert_eq!(
        p.consume(eve_item_parser::TokenKind::Tab, Fault::SecondTabMissing).unwrap_err(),
        Fault::SecondTabMissing
    );
    assert_eq!(p.current, 1);
    assert_eq!(*p.advance(), space());
    assert!(p.at_end());
    assert!(!p.check(eve_item_parser::TokenKind::EndOfInput));
    assert_eq!(*p.advance(), space());
    assert_eq!(p.current, 2);
}

#[test]
fn token_labels() {
    assert_eq!(x().describe(), " X ");
    assert_eq!(tab().describe(), " TAB ");
    assert_eq!(space().describe(), " SPC ");
    assert_eq!(comma().describe(), " CMA ");
    assert_eq!(eof().describe(), " EOF");
    assert_eq!(string(String::from("Joe's")).describe(), " 'Joe's' ");
    assert_eq!(number(String::from("26")).describe(), " n26 ");
}
