use eve_item_parser::{
    comma, eof, lex, number, parse, parse_with_id, space, squarebracketleft, squarebracketright,
    string, tab, x, Item, ItemWithId, TypeRow, TypeTable,
};

fn reference_table() -> TypeTable {
    let rows = vec![
        TypeRow { type_id: 9678, name: String::from("'Vehemence' Compact Large EMP Smartbomb") },
        TypeRow { type_id: 28659, name: String::from("Paladin") },
        TypeRow { type_id: 43552, name: String::from("Armor Command Burst II") },
    ];
    TypeTable::from_rows(&rows).unwrap()
}

#[test]
fn comma_number() {
    assert_eq!(
        parse(" Republic Fleet EMP S	3,200	Projectile Ammo	Charge	Cargo Hold").unwrap(),
        vec!(Item { name: String::from("Republic Fleet EMP S"), quantity: 3200 })
    );
}

#[test]
fn comma_number_long() {
    assert_eq!(
        parse(" Republic Fleet EMP S	3,200,189	Projectile Ammo	Charge	Cargo Hold").unwrap(),
        vec!(Item { name: String::from("Republic Fleet EMP S"), quantity: 3200189 })
    );
}

#[test]
fn intermediate_empty() {
    assert_eq!(
        parse(
            "Paladin

Harpy x1


Golem x3
"
        )
        .unwrap(),
        vec!(
            Item { name: String::from("Paladin"), quantity: 1 },
            Item { name: String::from("Harpy"), quantity: 1 },
            Item { name: String::from("Golem"), quantity: 3 },
        )
    );
}

#[test]
fn mixed_character_module() {
    assert_eq!(
        parse("5MN Y-T8 Compact Microwarpdrive").unwrap(),
        vec!(Item { name: String::from("5MN Y-T8 Compact Microwarpdrive"), quantity: 1 },)
    );
}

#[test]
fn cap_booster() {
    assert_eq!(
        parse("Navy Cap Booster 3200 x9").unwrap(),
        vec!(Item { name: String::from("Navy Cap Booster 3200"), quantity: 9 },)
    );
}

#[test]
fn bracketed_name_with_subbrackets() {
    assert_eq!(
        parse("[Paladin, [ABC] Pala]").unwrap(),
        vec!(Item { name: String::from("Paladin"), quantity: 1 },)
    );
}

#[test]
fn empty_med_slot() {
    assert_eq!(parse("[Empty Med slot]").unwrap(), vec!());
}

#[test]
fn empty_low_slot() {
    assert_eq!(parse("[Empty Low slot]").unwrap(), vec!());
}

#[test]
fn empty_high_slot() {
    assert_eq!(parse("[Empty High slot]").unwrap(), vec!());
}

#[test]
fn name_only() {
    assert_eq!(lex("Paladin").unwrap(), vec![string(String::from("Paladin")), eof(),]);
    assert_eq!(
        parse("Paladin").unwrap(),
        vec![Item { name: String::from("Paladin"), quantity: 1 }]
    );
    assert_eq!(
        parse_with_id("Paladin", &reference_table()).unwrap(),
        vec![ItemWithId { name: String::from("Paladin"), type_id: 28659, quantity: 1 }]
    );
}

// Multibuy takes this form, and jEveAssets writes it on
// "Copy+ -> EVE MultiBuy".
#[test]
fn name_space_quantity() {
    assert_eq!(
        lex("Paladin 2").unwrap(),
        vec![string(String::from("Paladin")), space(), number(String::from("2")), eof(),]
    );
    assert_eq!(
        parse("Paladin 2").unwrap(),
        vec![Item { name: String::from("Paladin"), quantity: 2 }]
    );
}

#[test]
fn name_star_space_quantity() {
    assert_eq!(
        lex("Paladin* 2").unwrap(),
        vec![string(String::from("Paladin*")), space(), number(String::from("2")), eof(),]
    );
    assert_eq!(
        parse("Paladin* 2").unwrap(),
        vec![Item { name: String::from("Paladin"), quantity: 2 }]
    );
}

#[test]
fn name_space_x_quantity() {
    assert_eq!(
        lex("Paladin x2").unwrap(),
        vec![string(String::from("Paladin")), space(), x(), number(String::from("2")), eof(),]
    );
    assert_eq!(
        parse("Paladin x2").unwrap(),
        vec![Item { name: String::from("Paladin"), quantity: 2 }]
    );
}

#[test]
fn name_tab_quantity() {
    assert_eq!(
        lex("Paladin	2").unwrap(),
        vec![string(String::from("Paladin")), tab(), number(String::from("2")), eof(),]
    );
    assert_eq!(
        parse("Paladin	2").unwrap(),
        vec![Item { name: String::from("Paladin"), quantity: 2 }]
    );
}

#[test]
fn name_star_tab_quantity() {
    assert_eq!(
        lex("Paladin*	2").unwrap(),
        vec![string(String::from("Paladin*")), tab(), number(String::from("2")), eof(),]
    );
    assert_eq!(
        parse("Paladin*	2").unwrap(),
        vec![Item { name: String::from("Paladin"), quantity: 2 }]
    );
}

#[test]
fn ship_fit_name() {
    assert_eq!(
        lex("[Paladin, Joe's Paladin]").unwrap(),
        vec![
            squarebracketleft(),
            string(String::from("Paladin")),
            comma(),
            space(),
            string(String::from("Joe's")),
            space(),
            string(String::from("Paladin")),
            squarebracketright(),
            eof(),
        ]
    );
    assert_eq!(
        parse("[Paladin, Joe's Paladin]").unwrap(),
        vec![Item { name: String::from("Paladin"), quantity: 1 }]
    );
}

#[test]
fn view_contents() {
    assert_eq!(
        lex("Burned Logic Circuit	Salvaged Materials	Cargo Hold	26").unwrap(),
        vec![
            string(String::from("Burned")),
            space(),
            string(String::from("Logic")),
            space(),
            string(String::from("Circuit")),
            tab(),
            string(String::from("Salvaged")),
            space(),
            string(String::from("Materials")),
            tab(),
            string(String::from("Cargo")),
            space(),
            string(String::from("Hold")),
            tab(),
            number(String::from("26")),
            eof(),
        ]
    );
    assert_eq!(
        parse("Burned Logic Circuit	Salvaged Materials	Cargo Hold	26").unwrap(),
        vec![Item { name: String::from("Burned Logic Circuit"), quantity: 26 }]
    );
}

#[test]
fn contract() {
    assert_eq!(
        lex("Capital Transverse Bulkhead I	1	Rig Armor	Module	Rig Slot").unwrap(),
        vec![
            string(String::from("Capital")),
            space(),
            string(String::from("Transverse")),
            space(),
            string(String::from("Bulkhead")),
            space(),
            string(String::from("I")),
            tab(),
            number(String::from("1")),
            tab(),
            string(String::from("Rig")),
            space(),
            string(String::from("Armor")),
            tab(),
            string(String::from("Module")),
            tab(),
            string(String::from("Rig")),
            space(),
            string(String::from("Slot")),
            eof(),
        ]
    );
    assert_eq!(
        parse("Capital Transverse Bulkhead I	2	Rig Armor	Module	Rig Slot").unwrap(),
        vec![Item { name: String::from("Capital Transverse Bulkhead I"), quantity: 2 }]
    );
}

#[test]
fn contract_no_details() {
    assert_eq!(
        lex("Cybernetic Subprocessor - Basic	1	Cyber Learning	Implant	").unwrap(),
        vec![
            string(String::from("Cybernetic")),
            space(),
            string(String::from("Subprocessor")),
            space(),
            string(String::from("-")),
            space(),
            string(String::from("Basic")),
            tab(),
            number(String::from("1")),
            tab(),
            string(String::from("Cyber")),
            space(),
            string(String::from("Learning")),
            tab(),
            string(String::from("Implant")),
            tab(),
            eof(),
        ]
    );
    assert_eq!(
        parse("Cybernetic Subprocessor - Basic	2	Cyber Learning	Implant	").unwrap(),
        vec![Item { name: String::from("Cybernetic Subprocessor - Basic"), quantity: 2 }]
    );
}

#[test]
fn module_with_charge() {
    assert_eq!(
        lex("Shield Command Burst II, Shield Harmonizing Charge").unwrap(),
        vec![
            string(String::from("Shield")),
            space(),
            string(String::from("Command")),
            space(),
            string(String::from("Burst")),
            space(),
            string(String::from("II")),
            comma(),
            space(),
            string(String::from("Shield")),
            space(),
            string(String::from("Harmonizing")),
            space(),
            string(String::from("Charge")),
            eof(),
        ]
    );
    assert_eq!(
        parse("Shield Command Burst II, Shield Harmonizing Charge").unwrap(),
        vec![
            Item { name: String::from("Shield Command Burst II"), quantity: 1 },
            Item { name: String::from("Shield Harmonizing Charge"), quantity: 1 }
        ]
    );
}

#[test]
fn module_with_quotes() {
    assert_eq!(
        lex("'Vehemence' Compact Large EMP Smartbomb x4").unwrap(),
        vec![
            string(String::from("'Vehemence'")),
            space(),
            string(String::from("Compact")),
            space(),
            string(String::from("Large")),
            space(),
            string(String::from("EMP")),
            space(),
            string(String::from("Smartbomb")),
            space(),
            x(),
            number(String::from("4")),
            eof(),
        ]
    );

    assert_eq!(
        parse_with_id("'Vehemence' Compact Large EMP Smartbomb x4", &reference_table()).unwrap(),
        vec![ItemWithId {
            name: String::from("'Vehemence' Compact Large EMP Smartbomb"),
            type_id: 9678,
            quantity: 4,
        }]
    );
}

#[test]
fn defunct_offline_syntax() {
    assert_eq!(
        lex("Armor Command Burst II /OFFLINE").unwrap(),
        vec![
            string(String::from("Armor")),
            space(),
            string(String::from("Command")),
            space(),
            string(String::from("Burst")),
            space(),
            string(String::from("II")),
            space(),
            string(String::from("/OFFLINE")),
            eof(),
        ]
    );
    assert_eq!(
        parse_with_id("Armor Command Burst II /OFFLINE", &reference_table()).unwrap(),
        vec![ItemWithId {
            name: String::from("Armor Command Burst II"),
            type_id: 43552,
            quantity: 1,
        }]
    )
}

#[test]
fn module_with_period() {
    assert_eq!(
        lex("Eifyr and Co. 'Rogue' Navigation NN-602 x1").unwrap(),
        vec![
            string(String::from("Eifyr")),
            space(),
            string(String::from("and")),
            space(),
            string(String::from("Co.")),
            space(),
            string(String::from("'Rogue'")),
            space(),
            string(String::from("Navigation")),
            space(),
            string(String::from("NN-602")),
            space(),
            x(),
            number(String::from("1")),
            eof(),
        ]
    );

    assert_eq!(
        parse_with_id("'Vehemence' Compact Large EMP Smartbomb x4", &reference_table()).unwrap(),
        vec![ItemWithId {
            name: String::from("'Vehemence' Compact Large EMP Smartbomb"),
            type_id: 9678,
            quantity: 4,
        }]
    );
}
