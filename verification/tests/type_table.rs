use eve_item_parser::{
    attach_ids, format_x, lookup_id, lookup_type_name, parse_with_id, Item, ItemWithId, TypeRow,
    TypeTable,
};

fn row(type_id: u64, name: &str) -> TypeRow {
    TypeRow { type_id, name: String::from(name) }
}

fn small_table() -> TypeTable {
    TypeTable::from_rows(&vec![
        row(34, "Tritanium"),
        row(28659, "Paladin"),
        row(600, "Paladin"),
        row(35, "Pyerite"),
        row(28700, "Paladin"),
        row(28661, "Golem"),
    ])
    .unwrap()
}

#[test]
fn highest_id_of_a_name_wins() {
    let table = small_table();
    assert_eq!(lookup_type_name(&table, String::from("Paladin")), Some(28700));
    assert_eq!(lookup_type_name(&table, String::from("Tritanium")), Some(34));
    assert_eq!(lookup_type_name(&table, String::from("paladin")), None);
    assert_eq!(table.len(), 4);
}

#[test]
fn only_the_winning_id_leads_back() {
    let table = small_table();
    assert_eq!(lookup_id(&table, 28700), Some(String::from("Paladin")));
    assert_eq!(lookup_id(&table, 28659), None);
    assert_eq!(lookup_id(&table, 600), None);
    assert_eq!(lookup_id(&table, 35), Some(String::from("Pyerite")));
    assert_eq!(lookup_id(&table, 1), None);
}

#[test]
fn name_to_id_and_back() {
    let table = small_table();
    for name in ["Tritanium", "Paladin", "Pyerite", "Golem"] {
        let id = lookup_type_name(&table, String::from(name)).unwrap();
        assert_eq!(lookup_id(&table, id), Some(String::from(name)));
    }
}

#[test]
fn two_names_cannot_share_an_id() {
    assert!(TypeTable::from_rows(&vec![row(7, "A"), row(7, "B")]).is_none());
    assert!(TypeTable::from_rows(&vec![row(7, "A"), row(7, "B"), row(9, "A")]).is_some());
    assert!(TypeTable::from_rows(&vec![row(7, "A"), row(7, "A")]).is_some());
}

#[test]
fn empty_table() {
    let table = TypeTable::from_rows(&vec![]).unwrap();
    assert_eq!(table.len(), 0);
    assert_eq!(lookup_id(&table, 0), None);
    assert_eq!(lookup_type_name(&table, String::new()), None);
}

#[test]
fn items_get_their_ids() {
    let table = small_table();
    assert_eq!(
        parse_with_id("Paladin x2\nTritanium\t1,000", &table).unwrap(),
        vec![
            ItemWithId { name: String::from("Paladin"), type_id: 28700, quantity: 2 },
            ItemWithId { name: String::from("Tritanium"), type_id: 34, quantity: 1000 },
        ]
    );
}

#[test]
fn first_unknown_name_fails_the_join() {
    let table = small_table();
    assert_eq!(
        parse_with_id("Paladin\nHarpy\nMerlin", &table).unwrap_err(),
        "failed to look up Harpy"
    );
    let items = vec![
        Item { name: String::from("Golem"), quantity: 1 },
        Item { name: String::from("Merlin"), quantity: 1 },
        Item { name: String::from("Harpy"), quantity: 1 },
    ];
    assert_eq!(attach_ids(&items, &table).unwrap_err(), "Merlin");
}

#[test]
fn a_text_that_does_not_parse_fails_the_join_as_it_fails_parsing() {
    let table = small_table();
    assert_eq!(
        parse_with_id("Paladin\nHarpy x", &table).unwrap_err(),
        "line 1: quantities must have a number after x (optional space in between)"
    );
}

#[test]
fn multibuy_lines() {
    assert_eq!(
        format_x(vec![
            ItemWithId { name: String::from("Paladin"), type_id: 28659, quantity: 2 },
            ItemWithId { name: String::from("Navy Cap Booster 3200"), type_id: 1, quantity: 1200 },
        ]),
        "Paladin x2\nNavy Cap Booster 3200 x1200\n"
    );
    assert_eq!(format_x(vec![]), "");
}

#[test]
fn quantities_are_written_with_their_sign() {
    assert_eq!(
        format_x(vec![
            ItemWithId { name: String::from("A"), type_id: 1, quantity: -5 },
            ItemWithId { name: String::from("B"), type_id: 2, quantity: i64::MIN },
            ItemWithId { name: String::from("C"), type_id: 3, quantity: i64::MAX },
            ItemWithId { name: String::from("D"), type_id: 4, quantity: 0 },
        ]),
        "A x-5\nB x-9223372036854775808\nC x9223372036854775807\nD x0\n"
    );
}

#[test]
fn items_as_text() {
    assert_eq!(Item { name: String::from("Paladin"), quantity: 2 }.to_text(), "(Paladin, 2)");
    assert_eq!(
        ItemWithId { name: String::from("Paladin"), type_id: 28659, quantity: 10 }.to_text(),
        "(28659, Paladin, 10)"
    );
    assert_eq!(
        ItemWithId { name: String::new(), type_id: u64::MAX, quantity: 0 }.to_text(),
        "(18446744073709551615, , 0)"
    );
}
