use msegen::args::{ArgsRegular, Color};
use msegen::card::{Card, CardType, CardTypeKind, Layout, MseGame, Rarity, TypeLine};
use msegen::document::{Data, DataFile};

fn pairs(file: &DataFile) -> Vec<(String, String)> {
    file.items
        .iter()
        .map(|(key, value)| match value {
            Data::Flat(text) => (key.clone(), text.clone()),
            Data::Subfile(_) => (key.clone(), "<file>".to_string()),
        })
        .collect()
}

fn nested<'a>(file: &'a DataFile, index: usize, key: &str) -> &'a DataFile {
    assert_eq!(file.items[index].0, key);
    match &file.items[index].1 {
        Data::Subfile(inner) => inner,
        Data::Flat(_) => panic!("the entry {} is flat", key),
    }
}

fn owned(wanted: &[(&str, &str)]) -> Vec<(String, String)> {
    wanted.iter().map(|(key, text)| (key.to_string(), text.to_string())).collect()
}

fn card(name: &str) -> Card {
    Card {
        name: name.to_string(),
        alt: false,
        layout: Layout::Normal,
        mana_cost: None,
        type_line: TypeLine {
            text: "Scheme".to_string(),
            supertypes: vec![],
            card_types: vec![CardType { name: "Scheme".to_string(), kind: CardTypeKind::Other }],
            subtypes: vec![],
        },
        rarity: Rarity::Common,
        abilities: vec![],
        loyalty: None,
        pt: None,
        stability: None,
        vanguard_modifiers: None,
        leveler: false,
    }
}

#[test]
fn magic_set_before_its_first_card() {
    let args = ArgsRegular::default();
    let file = DataFile::new(&args, 2);
    assert_eq!(
        pairs(&file),
        owned(&[
            ("mse version", "0.3.8"),
            ("game", "magic"),
            ("stylesheet", "m15-altered"),
            ("set info", "<file>"),
            ("styling", "<file>"),
        ])
    );
    assert!(file.images.is_empty());
    assert_eq!(
        pairs(nested(&file, 3, "set info")),
        owned(&[
            ("title", "MTG JSON card import"),
            ("copyright", "NOT FOR SALE"),
            (
                "description",
                "These cards were automatically imported from MTG JSON using json-to-mse."
            ),
            ("set code", "PROXY"),
            ("set language", "EN"),
            ("mark errors", "no"),
            ("automatic reminder text", ""),
            ("automatic card numbers", "no"),
            ("mana cost sorting", "unsorted"),
        ])
    );
    let styling = nested(&file, 4, "styling");
    assert_eq!(pairs(styling), owned(&[("magic-m15-altered", "<file>")]));
    assert!(nested(styling, 0, "magic-m15-altered").items.is_empty());
}

#[test]
fn one_card_is_spoken_of_as_one() {
    let args = ArgsRegular::default();
    let one = "This card was automatically imported from MTG JSON using json-to-mse.";
    let many = "These cards were automatically imported from MTG JSON using json-to-mse.";
    assert_eq!(pairs(nested(&DataFile::new(&args, 1), 3, "set info"))[2].1, one);
    assert_eq!(pairs(nested(&DataFile::new(&args, 0), 3, "set info"))[2].1, many);
    assert_eq!(pairs(nested(&DataFile::new(&args, 2), 3, "set info"))[2].1, many);
}

#[test]
fn settings_show_in_the_set_info() {
    let mut args = ArgsRegular::default();
    args.copyright = "(c) nobody".to_string();
    args.set_code = "TST".to_string();
    args.auto_card_numbers = true;
    args.border_color = Color { r: 255, g: 0, b: 16, opaque: true };
    let file = DataFile::new(&args, 1);
    let info = pairs(nested(&file, 3, "set info"));
    assert_eq!(info[1], ("copyright".to_string(), "(c) nobody".to_string()));
    assert_eq!(info[3], ("set code".to_string(), "TST".to_string()));
    assert_eq!(info[7], ("automatic card numbers".to_string(), "yes".to_string()));
    assert_eq!(info.len(), 10);
    assert_eq!(info[9], ("border color".to_string(), "rgb(255, 0, 16)".to_string()));
}

#[test]
fn black_border_is_not_named() {
    let mut args = ArgsRegular::default();
    assert_eq!(pairs(nested(&DataFile::new(&args, 1), 3, "set info")).len(), 9);
    args.border_color = Color { r: 0, g: 0, b: 0, opaque: false };
    let info = pairs(nested(&DataFile::new(&args, 1), 3, "set info"));
    assert_eq!(info[9], ("border color".to_string(), "rgb(0, 0, 0)".to_string()));
    args.border_color = Color { r: 0, g: 0, b: 1, opaque: true };
    let info = pairs(nested(&DataFile::new(&args, 1), 3, "set info"));
    assert_eq!(info[9], ("border color".to_string(), "rgb(0, 0, 1)".to_string()));
}

#[test]
fn schemes_and_vanguards_have_their_game_and_title() {
    let args = ArgsRegular::default();
    let file = DataFile::new_schemes(&args, 3);
    assert_eq!(pairs(&file)[1], ("game".to_string(), "archenemy".to_string()));
    assert_eq!(pairs(&file)[2], ("stylesheet".to_string(), "standard".to_string()));
    assert_eq!(
        pairs(nested(&file, 3, "set info"))[0].1,
        "MTG JSON card import: Archenemy schemes"
    );
    let file = DataFile::new_vanguards(&args, 3);
    assert_eq!(pairs(&file)[1], ("game".to_string(), "vanguard".to_string()));
    assert_eq!(pairs(&file)[2], ("stylesheet".to_string(), "standard".to_string()));
    assert_eq!(
        pairs(nested(&file, 3, "set info"))[0].1,
        "MTG JSON card import: Vanguard avatars"
    );
}

#[test]
fn new_inner_takes_any_game_and_title() {
    let args = ArgsRegular::default();
    let file = DataFile::new_inner(&args, 1, "planechase", "Planes");
    assert_eq!(pairs(&file)[1], ("game".to_string(), "planechase".to_string()));
    assert_eq!(pairs(&file)[2], ("stylesheet".to_string(), "standard".to_string()));
    assert_eq!(pairs(nested(&file, 3, "set info"))[0].1, "Planes");
}

#[test]
fn add_card_appends_an_entry_card() {
    let args = ArgsRegular::default();
    let mut file = DataFile::new(&args, 2);
    assert!(file.add_card(&card("First"), MseGame::Magic, &args).is_ok());
    assert!(file.add_card(&card("Second"), MseGame::Magic, &args).is_ok());
    assert_eq!(file.items.len(), 7);
    assert_eq!(
        pairs(nested(&file, 5, "card")),
        owned(&[
            ("name", "First"),
            ("super type", "<word-list-type>Scheme</word-list-type>"),
            ("sub type", ""),
            ("rarity", "common"),
        ])
    );
    assert_eq!(pairs(nested(&file, 6, "card"))[0].1, "Second");
}

#[test]
fn set_of_cards_keeps_their_order() {
    let args = ArgsRegular::default();
    let cards = vec![card("b"), card("a"), card("b")];
    let file = DataFile::from_cards(&args, &cards, MseGame::Archenemy);
    assert_eq!(pairs(&file)[1].1, "archenemy");
    assert_eq!(file.items.len(), 8);
    let names: Vec<String> =
        (5..8).map(|i| pairs(nested(&file, i, "card"))[0].1.clone()).collect();
    assert_eq!(names, vec!["b", "a", "b"]);
    assert_eq!(
        pairs(nested(&file, 5, "card")),
        owned(&[("name", "b"), ("type", "Scheme"), ("rarity", "common")])
    );
    let file = DataFile::from_cards(&args, &vec![card("v")], MseGame::Vanguard);
    assert_eq!(pairs(&file)[1].1, "vanguard");
    assert_eq!(
        pairs(nested(&file, 3, "set info"))[2].1,
        "This card was automatically imported from MTG JSON using json-to-mse."
    );
    let file = DataFile::from_cards(&args, &vec![], MseGame::Magic);
    assert_eq!(file.items.len(), 5);
}

#[test]
fn whole_set_as_text() {
    let args = ArgsRegular::default();
    let file = DataFile::from_cards(&args, &vec![card("Only")], MseGame::Archenemy);
    let mut text = String::new();
    file.write_inner(&mut text, 0);
    assert_eq!(
        text,
        "mse version: 0.3.8\r\n\
         game: archenemy\r\n\
         stylesheet: standard\r\n\
         set info\r\n\
         \ttitle: MTG JSON card import: Archenemy schemes\r\n\
         \tcopyright: NOT FOR SALE\r\n\
         \tdescription: This card was automatically imported from MTG JSON using json-to-mse.\r\n\
         \tset code: PROXY\r\n\
         \tset language: EN\r\n\
         \tmark errors: no\r\n\
         \tautomatic reminder text: \r\n\
         \tautomatic card numbers: no\r\n\
         \tmana cost sorting: unsorted\r\n\
         styling\r\n\
         \tmagic-m15-altered\r\n\
         card\r\n\
         \tname: Only\r\n\
         \ttype: Scheme\r\n\
         \trarity: common\r\n"
    );
}
