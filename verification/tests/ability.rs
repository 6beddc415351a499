use msegen::ability::{ability_lines, Ability};

fn keyword(name: &str) -> Ability {
    Ability::Keyword(name.to_string())
}

fn other(text: &str) -> Ability {
    Ability::Other(text.to_string())
}

fn level(min: u64, max: Option<u64>, power: u64, toughness: u64, abilities: Vec<Ability>) -> Ability {
    Ability::Level { min, max, power, toughness, abilities }
}

#[test]
fn two_keywords_and_a_text_are_two_lines() {
    let lines = ability_lines(&vec![keyword("Flying"), keyword("Trample"), other("Whenever...")]);
    assert_eq!(lines, vec!["Flying, Trample", "Whenever..."]);
}

#[test]
fn keywords_share_a_line_before_other_text() {
    let lines = ability_lines(&vec![keyword("flying"), keyword("trample"), other("Whenever...")]);
    assert_eq!(lines, vec!["Flying, trample", "Whenever..."]);
}

#[test]
fn keywords_at_the_end_are_not_lost() {
    let lines = ability_lines(&vec![other("Draw a card."), keyword("haste"), keyword("vigilance")]);
    assert_eq!(lines, vec!["Draw a card.", "Haste, vigilance"]);
    assert_eq!(ability_lines(&vec![keyword("reach")]), vec!["Reach"]);
}

#[test]
fn keywords_apart_have_lines_apart() {
    let lines = ability_lines(&vec![
        keyword("flying"),
        other("Tap: Draw."),
        keyword("haste"),
        keyword("menace"),
        other("Last."),
        keyword("reach"),
    ]);
    assert_eq!(lines, vec!["Flying", "Tap: Draw.", "Haste, menace", "Last.", "Reach"]);
}

#[test]
fn no_abilities_no_lines() {
    assert!(ability_lines(&Vec::new()).is_empty());
}

#[test]
fn level_without_abilities_is_one_line() {
    assert_eq!(ability_lines(&vec![level(3, Some(6), 4, 4, vec![])]), vec!["{LEVEL 3-6} 4/4"]);
    assert_eq!(ability_lines(&vec![level(3, None, 4, 4, vec![])]), vec!["{LEVEL 3+} 4/4"]);
}

#[test]
fn level_with_abilities_frames_their_lines() {
    let lines = ability_lines(&vec![
        keyword("level up"),
        level(1, Some(4), 2, 3, vec![keyword("flying"), keyword("lifelink")]),
        level(5, None, 10, 12, vec![other("Text."), keyword("haste")]),
    ]);
    assert_eq!(
        lines,
        vec![
            "Level up",
            "{LEVEL 1-4}",
            "Flying, lifelink",
            "2/3",
            "{LEVEL 5+}",
            "Text.",
            "Haste",
            "10/12",
        ]
    );
}

#[test]
fn level_inside_a_level() {
    let lines = ability_lines(&vec![level(
        1,
        None,
        0,
        1,
        vec![level(2, Some(2), 5, 5, vec![]), keyword("flash")],
    )]);
    assert_eq!(lines, vec!["{LEVEL 1+}", "{LEVEL 2-2} 5/5", "Flash", "0/1"]);
}

#[test]
fn modes_stand_behind_bullets() {
    let lines = ability_lines(&vec![
        keyword("flash"),
        Ability::Modal {
            choose: "Choose one —".to_string(),
            modes: vec!["Draw a card.".to_string(), "Gain 3 life.".to_string()],
        },
        Ability::Modal { choose: "Choose none.".to_string(), modes: vec![] },
    ]);
    assert_eq!(
        lines,
        vec!["Flash", "Choose one —", "• Draw a card.", "• Gain 3 life.", "Choose none."]
    );
}

#[test]
fn chapter_is_its_text() {
    let lines = ability_lines(&vec![
        keyword("flying"),
        Ability::Chapter { text: "I, II — Create a token.".to_string() },
    ]);
    assert_eq!(lines, vec!["Flying", "I, II — Create a token."]);
}

#[test]
fn text_of_other_abilities_is_kept_as_it_is() {
    let lines = ability_lines(&vec![other(""), other("two\nlines"), other("flying")]);
    assert_eq!(lines, vec!["", "two\nlines", "flying"]);
}
