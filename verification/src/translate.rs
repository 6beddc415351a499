//! One card as the entries of a set file.
use crate::ability::{ability_lines, rule_lines, Ability};
use crate::card::{is_aftermath, Card, CardTypeKind, Layout, MseGame, Rarity, SubtypeKind, TypeLine};
use crate::document::{Data, DataFile, Document, Entry};
use crate::mana::{cost_text, cost_to_mse};
use crate::text::{
    join_lines, join_spaced, joined, push_text, same_text, texts, to_uppercase_first,
};
use vstd::prelude::*;
use vstd::string::StringExecFns;

verus! {

/// The key of a field: its name, followed by ` 2` on the other face of a card.
pub open spec fn field_key(name: Seq<char>, alt: bool) -> Seq<char> {
    if alt {
        name + " 2"@
    } else {
        name
    }
}

/// A text field of a face.
pub open spec fn field(name: Seq<char>, alt: bool, text: Seq<char>) -> (Seq<char>, Entry) {
    (field_key(name, alt), Entry::Text(text))
}

/// The word between an opening and a closing tag of the given name.
pub open spec fn tagged(tag: Seq<char>, word: Seq<char>) -> Seq<char> {
    "<"@ + tag + ">"@ + word + "</"@ + tag + ">"@
}

/// The word list that the subtypes of a card type belong to.
pub open spec fn subtype_list(kind: SubtypeKind) -> Seq<char> {
    match kind {
        SubtypeKind::Artifact => "word-list-artifact"@,
        SubtypeKind::Enchantment => "word-list-enchantment"@,
        SubtypeKind::Land => "word-list-land"@,
        SubtypeKind::Planeswalker => "word-list-planeswalker"@,
        SubtypeKind::Spell => "word-list-spell"@,
        SubtypeKind::Creature => "word-list-race"@,
        SubtypeKind::Planar => "word-list-plane"@,
    }
}

/// The supertypes and then the card types of the type line, each in its tag.
pub open spec fn type_words(line: TypeLine) -> Seq<Seq<char>> {
    Seq::new(
        line.supertypes@.len() + line.card_types@.len(),
        |i: int|
            if i < line.supertypes@.len() {
                tagged("word-list-type"@, line.supertypes@[i]@)
            } else {
                tagged("word-list-type"@, line.card_types@[i - line.supertypes@.len()].name@)
            },
    )
}

/// The subtypes of the type line, each in the tag of its word list.
pub open spec fn subtype_words(line: TypeLine) -> Seq<Seq<char>> {
    Seq::new(
        line.subtypes@.len(),
        |i: int| tagged(subtype_list(line.subtypes@[i].kind), line.subtypes@[i].name@),
    )
}

/// The name of a rarity in the editor.
pub open spec fn rarity_name(rarity: Rarity) -> Seq<char> {
    match rarity {
        Rarity::Land => "basic land"@,
        Rarity::Common => "common"@,
        Rarity::Uncommon => "uncommon"@,
        Rarity::Rare => "rare"@,
        Rarity::Mythic => "mythic rare"@,
        Rarity::Special => "special"@,
    }
}

/// The name of the face.
pub open spec fn name_fields(card: Card) -> Seq<(Seq<char>, Entry)> {
    seq![field("name"@, card.alt, card.name@)]
}

/// The mana cost, where the face has one.
pub open spec fn cost_fields(card: Card) -> Seq<(Seq<char>, Entry)> {
    match card.mana_cost {
        Some(cost) => seq![field("casting cost"@, card.alt, cost_text(cost.symbols@))],
        None => Seq::empty(),
    }
}

/// The type line: as one text for Archenemy; else the supertypes and card
/// types in one field and the subtypes in another.
pub open spec fn type_fields(card: Card, game: MseGame) -> Seq<(Seq<char>, Entry)> {
    if game == MseGame::Archenemy {
        seq![field("type"@, card.alt, card.type_line.text@)]
    } else {
        seq![
            field(
                if game == MseGame::Vanguard {
                    "type"@
                } else {
                    "super type"@
                },
                card.alt,
                joined(type_words(card.type_line), " "@),
            ),
            field("sub type"@, card.alt, joined(subtype_words(card.type_line), " "@)),
        ]
    }
}

/// The rarity, but for Vanguard.
pub open spec fn rarity_fields(card: Card, game: MseGame) -> Seq<(Seq<char>, Entry)> {
    if game == MseGame::Vanguard {
        Seq::empty()
    } else {
        seq![field("rarity"@, card.alt, rarity_name(card.rarity))]
    }
}

/// The rule text, where the face has an ability: its display lines with a
/// line feed between each two.
pub open spec fn text_fields(card: Card) -> Seq<(Seq<char>, Entry)> {
    if card.abilities@.len() == 0 {
        Seq::empty()
    } else {
        seq![field("rule text"@, card.alt, joined(rule_lines(card.abilities@), "\n"@))]
    }
}

/// The numbers in the corner of the face. For Magic: the loyalty of a
/// planeswalker; else power and toughness, else the stability as power, else
/// the hand and life modifiers as power and toughness. For Vanguard: the hand
/// and life modifiers. For Archenemy: nothing.
pub open spec fn stat_fields(card: Card, game: MseGame) -> Seq<(Seq<char>, Entry)> {
    match game {
        MseGame::Magic => if card.type_line.has_kind(CardTypeKind::Planeswalker) {
            match card.loyalty {
                Some(loyalty) => seq![field("loyalty"@, card.alt, loyalty@)],
                None => Seq::empty(),
            }
        } else {
            match card.pt {
                Some(pt) => seq![
                    field("power"@, card.alt, pt.0@),
                    field("toughness"@, card.alt, pt.1@),
                ],
                None => match card.stability {
                    Some(stability) => seq![field("power"@, card.alt, stability@)],
                    None => match card.vanguard_modifiers {
                        Some(modifiers) => seq![
                            field("power"@, card.alt, modifiers.0@),
                            field("toughness"@, card.alt, modifiers.1@),
                        ],
                        None => Seq::empty(),
                    },
                },
            }
        },
        MseGame::Archenemy => Seq::empty(),
        MseGame::Vanguard => match card.vanguard_modifiers {
            Some(modifiers) => seq![
                field("handmod"@, card.alt, modifiers.0@),
                field("lifemod"@, card.alt, modifiers.1@),
            ],
            None => Seq::empty(),
        },
    }
}

/// The fields of the face itself, in the order of the editor.
pub open spec fn face_fields(card: Card, game: MseGame) -> Seq<(Seq<char>, Entry)> {
    name_fields(card) + cost_fields(card) + type_fields(card, game) + rarity_fields(card, game)
        + text_fields(card) + stat_fields(card, game)
}

/// The stylesheet that a card asks for, if any. Only a first face in a Magic
/// set asks for one: by its card types and levels where the layout is normal,
/// else by its layout.
pub open spec fn stylesheet_of(card: Card, game: MseGame) -> Option<Seq<char>> {
    if card.alt || game != MseGame::Magic {
        None
    } else {
        match card.layout {
            Layout::Normal => if card.type_line.has_kind(CardTypeKind::Plane)
                || card.type_line.has_kind(CardTypeKind::Phenomenon) {
                Some("m15-mainframe-planes"@)
            } else if card.type_line.has_kind(CardTypeKind::Planeswalker) {
                Some("m15-mainframe-planeswalker"@)
            } else if card.leveler {
                Some("m15-leveler"@)
            } else if card.type_line.has_kind(CardTypeKind::Conspiracy) {
                Some("m15-ttk-conspiracy"@)
            } else {
                None
            },
            Layout::Split { right } => if right.carries_aftermath() {
                Some("m15-aftermath"@)
            } else {
                Some("m15-split-fusable"@)
            },
            Layout::Flip { .. } => Some("m15-flip"@),
            Layout::DoubleFaced { .. } => Some("m15-mainframe-dfc"@),
            Layout::Meld { .. } => Some("m15-mainframe-dfc"@),
            Layout::Adventure => None,
        }
    }
}

/// The stylesheet field, where the card asks for a stylesheet.
pub open spec fn stylesheet_fields(card: Card, game: MseGame) -> Seq<(Seq<char>, Entry)> {
    match stylesheet_of(card, game) {
        Some(name) => seq![("stylesheet"@, Entry::Text(name))],
        None => Seq::empty(),
    }
}

/// The document of a card: the fields of the face, then, for a first face in
/// a Magic set, the document of its other face, then the stylesheet.
pub open spec fn card_document(card: Card, game: MseGame) -> Document
    decreases card,
{
    let other = if card.alt || game != MseGame::Magic {
        Document::empty()
    } else {
        match card.layout {
            Layout::Normal => Document::empty(),
            Layout::Split { right } => card_document(*right, game),
            Layout::Flip { flipped } => card_document(*flipped, game),
            Layout::DoubleFaced { back } => card_document(*back, game),
            Layout::Meld { back } => card_document(*back, game),
            Layout::Adventure => Document::empty(),
        }
    };
    Document {
        entries: face_fields(card, game) + other.entries + stylesheet_fields(card, game),
        images: other.images,
    }
}

/// Appends a text field of a face.
fn push_alt(result: &mut DataFile, name: &str, alt: bool, text: String)
    ensures
        final(result)@.entries == old(result)@.entries.push(field(name@, alt, text@)),
        final(result)@.images == old(result)@.images,
{
    if alt {
        let mut key = String::from_str(name);
        key.append(" 2");
        result.push(key.as_str(), Data::Flat(text));
    } else {
        result.push(name, Data::Flat(text));
    }
}

/// The word between an opening and a closing tag of the given name.
fn tag_word(tag: &str, word: &str) -> (res: String)
    ensures
        res@ == tagged(tag@, word@),
{
    let mut out = String::from_str("<");
    out.append(tag);
    out.append(">");
    out.append(word);
    out.append("</");
    out.append(tag);
    out.append(">");
    out
}

/// The name of the word list of a kind of subtype.
fn subtype_list_name(kind: SubtypeKind) -> (res: &'static str)
    ensures
        res@ == subtype_list(kind),
{
    match kind {
        SubtypeKind::Artifact => "word-list-artifact",
        SubtypeKind::Enchantment => "word-list-enchantment",
        SubtypeKind::Land => "word-list-land",
        SubtypeKind::Planeswalker => "word-list-planeswalker",
        SubtypeKind::Spell => "word-list-spell",
        SubtypeKind::Creature => "word-list-race",
        SubtypeKind::Planar => "word-list-plane",
    }
}

/// Appends the type fields of a face.
fn push_type_fields(result: &mut DataFile, card: &Card, game: MseGame)
    ensures
        final(result)@.entries == old(result)@.entries + type_fields(*card, game),
        final(result)@.images == old(result)@.images,
{
    let line = &card.type_line;
    if game == MseGame::Archenemy {
        push_alt(result, "type", card.alt, line.text.clone());
        assert(result@.entries =~= old(result)@.entries + type_fields(*card, game));
    } else {
        let mut words: Vec<String> = Vec::new();
        let mut i: usize = 0;
        assert(texts(words@) =~= type_words(*line).take(0));
        while i < line.supertypes.len()
            invariant
                i <= line.supertypes.len(),
                texts(words@) == type_words(*line).take(i as int),
            decreases line.supertypes.len() - i,
        {
            push_text(&mut words, tag_word("word-list-type", line.supertypes[i].as_str()));
            i += 1;
            assert(texts(words@) =~= type_words(*line).take(i as int));
        }
        let mut k: usize = 0;
        while k < line.card_types.len()
            invariant
                k <= line.card_types.len(),
                texts(words@) == type_words(*line).take(line.supertypes@.len() + k),
            decreases line.card_types.len() - k,
        {
            push_text(&mut words, tag_word("word-list-type", line.card_types[k].name.as_str()));
            k += 1;
            assert(texts(words@) =~= type_words(*line).take(line.supertypes@.len() + k));
        }
        assert(texts(words@) =~= type_words(*line));
        let mut subs: Vec<String> = Vec::new();
        let mut j: usize = 0;
        assert(texts(subs@) =~= subtype_words(*line).take(0));
        while j < line.subtypes.len()
            invariant
                j <= line.subtypes.len(),
                texts(subs@) == subtype_words(*line).take(j as int),
            decreases line.subtypes.len() - j,
        {
            let list = subtype_list_name(line.subtypes[j].kind);
            push_text(&mut subs, tag_word(list, line.subtypes[j].name.as_str()));
            j += 1;
            assert(texts(subs@) =~= subtype_words(*line).take(j as int));
        }
        assert(texts(subs@) =~= subtype_words(*line));
        let name = if game == MseGame::Vanguard {
            "type"
        } else {
            "super type"
        };
        push_alt(result, name, card.alt, join_spaced(&words, " "));
        push_alt(result, "sub type", card.alt, join_spaced(&subs, " "));
        assert(result@.entries =~= old(result)@.entries + type_fields(*card, game));
    }
}

/// The name of a rarity in the editor.
fn rarity_text(rarity: Rarity) -> (res: &'static str)
    ensures
        res@ == rarity_name(rarity),
{
    match rarity {
        Rarity::Land => "basic land",
        Rarity::Common => "common",
        Rarity::Uncommon => "uncommon",
        Rarity::Rare => "rare",
        Rarity::Mythic => "mythic rare",
        Rarity::Special => "special",
    }
}

/// Appends the numbers in the corner of a face.
fn push_stat_fields(result: &mut DataFile, card: &Card, game: MseGame)
    ensures
        final(result)@.entries == old(result)@.entries + stat_fields(*card, game),
        final(result)@.images == old(result)@.images,
{
    let alt = card.alt;
    match game {
        MseGame::Magic => {
            if card.type_line.is(CardTypeKind::Planeswalker) {
                if let Some(loyalty) = &card.loyalty {
                    push_alt(result, "loyalty", alt, loyalty.clone());
                }
            } else {
                if let Some(pt) = &card.pt {
                    push_alt(result, "power", alt, pt.0.clone());
                    push_alt(result, "toughness", alt, pt.1.clone());
                } else if let Some(stability) = &card.stability {
                    push_alt(result, "power", alt, stability.clone());
                } else if let Some(modifiers) = &card.vanguard_modifiers {
                    push_alt(result, "power", alt, modifiers.0.clone());
                    push_alt(result, "toughness", alt, modifiers.1.clone());
                }
            }
        },
        MseGame::Archenemy => {},
        MseGame::Vanguard => {
            if let Some(modifiers) = &card.vanguard_modifiers {
                push_alt(result, "handmod", alt, modifiers.0.clone());
                push_alt(result, "lifemod", alt, modifiers.1.clone());
            }
        },
    }
    assert(result@.entries =~= old(result)@.entries + stat_fields(*card, game));
}

impl Card {
    /// Whether one of the abilities of this face is the keyword aftermath.
    pub fn has_aftermath(&self) -> (res: bool)
        ensures
            res == self.carries_aftermath(),
    {
        let mut i: usize = 0;
        while i < self.abilities.len()
            invariant
                i <= self.abilities.len(),
                forall|k: int| 0 <= k < i ==> !is_aftermath(#[trigger] self.abilities@[k]),
            decreases self.abilities.len() - i,
        {
            if let Ability::Keyword(name) = &self.abilities[i] {
                if same_text(to_uppercase_first(name.as_str()).as_str(), "Aftermath") {
                    assert(is_aftermath(self.abilities@[i as int]));
                    return true;
                }
            }
            i += 1;
        }
        false
    }
}

/// The stylesheet that a card asks for, if any.
pub fn stylesheet(card: &Card, game: MseGame) -> (res: Option<&'static str>)
    ensures
        match res {
            Some(name) => stylesheet_of(*card, game) == Some(name@),
            None => stylesheet_of(*card, game).is_none(),
        },
{
    if card.alt {
        return None;
    }
    match game {
        MseGame::Magic => match &card.layout {
            Layout::Normal => {
                if card.type_line.is(CardTypeKind::Plane) || card.type_line.is(
                    CardTypeKind::Phenomenon,
                ) {
                    Some("m15-mainframe-planes")
                } else if card.type_line.is(CardTypeKind::Planeswalker) {
                    Some("m15-mainframe-planeswalker")
                } else if card.leveler {
                    Some("m15-leveler")
                } else if card.type_line.is(CardTypeKind::Conspiracy) {
                    Some("m15-ttk-conspiracy")
                } else {
                    None
                }
            },
            Layout::Split { right } => if right.has_aftermath() {
                Some("m15-aftermath")
            } else {
                Some("m15-split-fusable")
            },
            Layout::Flip { .. } => Some("m15-flip"),
            Layout::DoubleFaced { .. } => Some("m15-mainframe-dfc"),
            Layout::Meld { .. } => Some("m15-mainframe-dfc"),
            Layout::Adventure => None,
        },
        MseGame::Archenemy => None,
        MseGame::Vanguard => None,
    }
}

impl DataFile {
    /// The file of one card.
    pub fn from_card(card: &Card, mse_game: MseGame) -> (res: DataFile)
        ensures
            res@ == card_document(*card, mse_game),
        decreases card,
    {
        let alt = card.alt;
        let mut result = DataFile::empty();
        // name
        push_alt(&mut result, "name", alt, card.name.clone());
        assert(result@.entries =~= name_fields(*card));
        // mana cost
        if let Some(mana_cost) = &card.mana_cost {
            push_alt(&mut result, "casting cost", alt, cost_to_mse(mana_cost));
        }
        assert(result@.entries =~= name_fields(*card) + cost_fields(*card));
        // type line
        push_type_fields(&mut result, card, mse_game);
        // rarity
        if mse_game != MseGame::Vanguard {
            push_alt(&mut result, "rarity", alt, rarity_text(card.rarity).to_owned());
        }
        assert(result@.entries =~= name_fields(*card) + cost_fields(*card) + type_fields(
            *card,
            mse_game,
        ) + rarity_fields(*card, mse_game));
        // text
        if card.abilities.len() > 0 {
            let lines = ability_lines(&card.abilities);
            push_alt(&mut result, "rule text", alt, join_lines(&lines, "\n"));
        }
        assert(result@.entries =~= name_fields(*card) + cost_fields(*card) + type_fields(
            *card,
            mse_game,
        ) + rarity_fields(*card, mse_game) + text_fields(*card));
        // P/T, loyalty/stability, hand/life modifier
        push_stat_fields(&mut result, card, mse_game);
        assert(result@.entries =~= face_fields(*card, mse_game));
        assert(result@.images =~= Seq::empty());
        // the other face
        if !alt && mse_game == MseGame::Magic {
            match &card.layout {
                Layout::Normal => {},
                Layout::Split { right } => {
                    result.merge(DataFile::from_card(right, mse_game));
                },
                Layout::Flip { flipped } => {
                    result.merge(DataFile::from_card(flipped, mse_game));
                },
                Layout::DoubleFaced { back } => {
                    result.merge(DataFile::from_card(back, mse_game));
                },
                Layout::Meld { back } => {
                    result.merge(DataFile::from_card(back, mse_game));
                },
                Layout::Adventure => {},
            }
        }
        let ghost merged = result@;
        // stylesheet
        if let Some(name) = stylesheet(card, mse_game) {
            result.push("stylesheet", Data::Flat(name.to_owned()));
        }
        assert(result@.entries =~= merged.entries + stylesheet_fields(*card, mse_game));
        assert(result@ =~= card_document(*card, mse_game));
        result
    }
}

/// The names of the fields of a face.
pub open spec fn is_field_name(name: Seq<char>) -> bool {
    name == "name"@ || name == "casting cost"@ || name == "type"@ || name == "super type"@ || name
        == "sub type"@ || name == "rarity"@ || name == "rule text"@ || name == "loyalty"@ || name
        == "power"@ || name == "toughness"@ || name == "handmod"@ || name == "lifemod"@
}

/// Whether the key is the name of a field followed by ` 2`.
pub open spec fn is_alt_key(key: Seq<char>) -> bool {
    exists|name: Seq<char>| is_field_name(name) && key == #[trigger] field_key(name, true)
}

/// No name of a field ends as the key of an other face does.
pub proof fn lemma_field_names_plain(name: Seq<char>)
    requires
        is_field_name(name),
    ensures
        !is_alt_key(name),
        name.len() >= 4,
        name.last() != '2',
{
    reveal_strlit("name");
    reveal_strlit("casting cost");
    reveal_strlit("type");
    reveal_strlit("super type");
    reveal_strlit("sub type");
    reveal_strlit("rarity");
    reveal_strlit("rule text");
    reveal_strlit("loyalty");
    reveal_strlit("power");
    reveal_strlit("toughness");
    reveal_strlit("handmod");
    reveal_strlit("lifemod");
    reveal_strlit(" 2");
    assert(name.last() != '2');
    assert forall|other: Seq<char>| is_field_name(other) implies name != #[trigger] field_key(
        other,
        true,
    ) by {
        assert(field_key(other, true).last() == '2');
    }
}

/// Every key among the fields of a face is the name of a field: followed by
/// ` 2` on an other face, as it is on a first face.
pub proof fn lemma_face_field_keys(card: Card, game: MseGame, i: int)
    requires
        0 <= i < face_fields(card, game).len(),
    ensures
        exists|name: Seq<char>|
            is_field_name(name) && face_fields(card, game)[i].0 == #[trigger] field_key(
                name,
                card.alt,
            ),
{
    let key = face_fields(card, game)[i].0;
    let a = card.alt;
    assert(key == field_key("name"@, a) || key == field_key("casting cost"@, a) || key
        == field_key("type"@, a) || key == field_key("super type"@, a) || key == field_key(
        "sub type"@,
        a,
    ) || key == field_key("rarity"@, a) || key == field_key("rule text"@, a) || key == field_key(
        "loyalty"@,
        a,
    ) || key == field_key("power"@, a) || key == field_key("toughness"@, a) || key == field_key(
        "handmod"@,
        a,
    ) || key == field_key("lifemod"@, a));
}

/// The document of an other face holds the fields of that face and nothing
/// else, and each of its keys is the name of a field followed by ` 2`, never
/// the name alone.
pub proof fn lemma_other_face_keys(card: Card, game: MseGame, i: int)
    requires
        card.alt,
        0 <= i < card_document(card, game).entries.len(),
    ensures
        card_document(card, game).entries == face_fields(card, game),
        is_alt_key(card_document(card, game).entries[i].0),
        !is_field_name(card_document(card, game).entries[i].0),
{
    assert(card_document(card, game).entries =~= face_fields(card, game));
    lemma_face_field_keys(card, game, i);
    let key = face_fields(card, game)[i].0;
    if is_field_name(key) {
        lemma_field_names_plain(key);
    }
}

/// Among the fields of a first face no key is that of an other face.
pub proof fn lemma_first_face_keys(card: Card, game: MseGame, i: int)
    requires
        !card.alt,
        0 <= i < face_fields(card, game).len(),
    ensures
        is_field_name(face_fields(card, game)[i].0),
        !is_alt_key(face_fields(card, game)[i].0),
{
    lemma_face_field_keys(card, game, i);
    lemma_field_names_plain(face_fields(card, game)[i].0);
}

/// A split card in a Magic set asks for the aftermath stylesheet where its
/// right face carries aftermath, and for the fusable split stylesheet where it
/// does not; the two are not the same.
pub proof fn lemma_split_stylesheet(card: Card)
    requires
        !card.alt,
        card.layout is Split,
    ensures
        card.layout->right.carries_aftermath() ==> stylesheet_of(card, MseGame::Magic) == Some(
            "m15-aftermath"@,
        ),
        !card.layout->right.carries_aftermath() ==> stylesheet_of(card, MseGame::Magic) == Some(
            "m15-split-fusable"@,
        ),
        "m15-aftermath"@ != "m15-split-fusable"@,
{
    reveal_strlit("m15-aftermath");
    reveal_strlit("m15-split-fusable");
    assert("m15-aftermath"@.len() != "m15-split-fusable"@.len());
}

/// The document of a card of one face in a Magic set that is no planeswalker
/// and has power and toughness: name, mana cost if there is one, types,
/// subtypes, rarity, rule text if there is an ability, power, toughness and
/// the stylesheet if one is asked for; no loyalty.
pub proof fn lemma_plain_card(card: Card, i: int)
    requires
        !card.alt,
        card.layout is Normal,
        !card.type_line.has_kind(CardTypeKind::Planeswalker),
        card.pt is Some,
        0 <= i < card_document(card, MseGame::Magic).entries.len(),
    ensures
        card_document(card, MseGame::Magic).entries == seq![field("name"@, false, card.name@)]
            + cost_fields(card) + seq![
            field("super type"@, false, joined(type_words(card.type_line), " "@)),
            field("sub type"@, false, joined(subtype_words(card.type_line), " "@)),
            field("rarity"@, false, rarity_name(card.rarity)),
        ] + text_fields(card) + seq![
            field("power"@, false, card.pt.unwrap().0@),
            field("toughness"@, false, card.pt.unwrap().1@),
        ] + stylesheet_fields(card, MseGame::Magic),
        card_document(card, MseGame::Magic).images.len() == 0,
        card_document(card, MseGame::Magic).entries[i].0 != "loyalty"@,
{
    let game = MseGame::Magic;
    let doc = card_document(card, game);
    assert(doc.entries =~= face_fields(card, game) + stylesheet_fields(card, game));
    assert(doc.entries =~= seq![field("name"@, false, card.name@)] + cost_fields(card) + seq![
        field("super type"@, false, joined(type_words(card.type_line), " "@)),
        field("sub type"@, false, joined(subtype_words(card.type_line), " "@)),
        field("rarity"@, false, rarity_name(card.rarity)),
    ] + text_fields(card) + seq![
        field("power"@, false, card.pt.unwrap().0@),
        field("toughness"@, false, card.pt.unwrap().1@),
    ] + stylesheet_fields(card, game));
    reveal_strlit("name");
    reveal_strlit("casting cost");
    reveal_strlit("super type");
    reveal_strlit("sub type");
    reveal_strlit("rarity");
    reveal_strlit("rule text");
    reveal_strlit("loyalty");
    reveal_strlit("power");
    reveal_strlit("toughness");
    reveal_strlit("stylesheet");
    let key = doc.entries[i].0;
    assert(key == "name"@ || key == "casting cost"@ || key == "super type"@ || key == "sub type"@
        || key == "rarity"@ || key == "rule text"@ || key == "power"@ || key == "toughness"@ || key
        == "stylesheet"@);
}

} // verus!
