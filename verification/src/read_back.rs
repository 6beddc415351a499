//! Every set file that is built from cards can be read back from its text.
use crate::args::Settings;
use crate::card::{Card, Layout, MseGame};
use crate::document::{Document, Entry};
use crate::encoding::encoding;
use crate::reading::{lemma_round_trip, parsed, readable, readable_entry, readable_key};
use crate::set_file::{
    border_info, card_entries, game_name, game_title, set_document, set_header, set_info,
};
use crate::translate::{
    card_document, face_fields, field_key, is_field_name, lemma_face_field_keys,
    stylesheet_fields,
};
use vstd::prelude::*;

verus! {

/// A text without line feed, colon or tab at its front is a key that can be
/// read back.
proof fn lemma_plain_key(key: Seq<char>)
    requires
        forall|i: int| 0 <= i < key.len() ==> key[i] != '\n' && key[i] != ':' && key[i] != '\t',
    ensures
        readable_key(key),
{
}

/// The key of a field can be read back, on a first face and on an other face.
pub proof fn lemma_field_key_readable(name: Seq<char>, alt: bool)
    requires
        is_field_name(name),
    ensures
        readable_key(field_key(name, alt)),
{
    reveal_strlit("name");
    reveal_strlit("casting cost");
    reveal_strlit("type");
    reveal_strlit("super type");
    reveal_strlit("sub type");
    reveal_strlit("rarity");
    reveal_strlit("rule text");
    reveal_strlit("loyalty");
    reveal_strlit("power");
    reveal_strlit("toughness");
    reveal_strlit("handmod");
    reveal_strlit("lifemod");
    reveal_strlit(" 2");
    lemma_plain_key(name);
    lemma_plain_key(" 2"@);
    let key = field_key(name, alt);
    assert forall|i: int| 0 <= i < key.len() implies key[i] != '\n' && key[i] != ':' && key[i]
        != '\t' by {
        if i >= name.len() {
            assert(key[i] == " 2"@[i - name.len()]);
        }
    }
    lemma_plain_key(key);
}

/// The document of a card can be read back from its text form, and holds no
/// images.
pub proof fn lemma_card_document_readable(card: Card, game: MseGame)
    ensures
        readable(card_document(card, game).entries),
        card_document(card, game).images.len() == 0,
    decreases card,
{
    let doc = card_document(card, game);
    let own = face_fields(card, game);
    let sheet = stylesheet_fields(card, game);
    let other = if card.alt || game != MseGame::Magic {
        Document::empty()
    } else {
        match card.layout {
            Layout::Normal => Document::empty(),
            Layout::Split { right } => card_document(*right, game),
            Layout::Flip { flipped } => card_document(*flipped, game),
            Layout::DoubleFaced { back } => card_document(*back, game),
            Layout::Meld { back } => card_document(*back, game),
            Layout::Adventure => Document::empty(),
        }
    };
    if !(card.alt || game != MseGame::Magic) {
        match card.layout {
            Layout::Split { right } => lemma_card_document_readable(*right, game),
            Layout::Flip { flipped } => lemma_card_document_readable(*flipped, game),
            Layout::DoubleFaced { back } => lemma_card_document_readable(*back, game),
            Layout::Meld { back } => lemma_card_document_readable(*back, game),
            _ => {},
        }
    }
    assert(doc.entries == own + other.entries + sheet);
    reveal_strlit("stylesheet");
    lemma_plain_key("stylesheet"@);
    assert forall|i: int| 0 <= i < doc.entries.len() implies readable_entry(
        (#[trigger] doc.entries[i]).0,
        doc.entries[i].1,
    ) by {
        if i < own.len() {
            lemma_face_field_keys(card, game, i);
            let name = choose|name: Seq<char>|
                is_field_name(name) && own[i].0 == #[trigger] field_key(name, card.alt);
            lemma_field_key_readable(name, card.alt);
            assert(doc.entries[i] == own[i]);
            assert(own[i].1 is Text);
        } else if i < own.len() + other.entries.len() {
            assert(doc.entries[i] == other.entries[i - own.len()]);
        } else {
            assert(doc.entries[i] == sheet[i - own.len() - other.entries.len()]);
        }
    }
}

/// A whole set file can be read back from its text form: reading gives the
/// entries of the set and of each card, whatever the settings and the cards
/// hold.
pub proof fn lemma_set_document_read_back(args: Settings, cards: Seq<Card>, game: MseGame)
    ensures
        readable(set_document(args, cards, game).entries),
        parsed(encoding(set_document(args, cards, game), 0)) == Some(
            set_document(args, cards, game).entries,
        ),
{
    let doc = set_document(args, cards, game);
    let header = set_header(args, cards.len(), game_name(game), game_title(game)).entries;
    let info = set_info(args, cards.len(), game_title(game));
    reveal_strlit("mse version");
    reveal_strlit("game");
    reveal_strlit("stylesheet");
    reveal_strlit("set info");
    reveal_strlit("styling");
    reveal_strlit("magic-m15-altered");
    reveal_strlit("title");
    reveal_strlit("copyright");
    reveal_strlit("description");
    reveal_strlit("set code");
    reveal_strlit("set language");
    reveal_strlit("mark errors");
    reveal_strlit("automatic reminder text");
    reveal_strlit("automatic card numbers");
    reveal_strlit("mana cost sorting");
    reveal_strlit("border color");
    reveal_strlit("card");
    lemma_plain_key("mse version"@);
    lemma_plain_key("game"@);
    lemma_plain_key("stylesheet"@);
    lemma_plain_key("set info"@);
    lemma_plain_key("styling"@);
    lemma_plain_key("magic-m15-altered"@);
    lemma_plain_key("title"@);
    lemma_plain_key("copyright"@);
    lemma_plain_key("description"@);
    lemma_plain_key("set code"@);
    lemma_plain_key("set language"@);
    lemma_plain_key("mark errors"@);
    lemma_plain_key("automatic reminder text"@);
    lemma_plain_key("automatic card numbers"@);
    lemma_plain_key("mana cost sorting"@);
    lemma_plain_key("border color"@);
    lemma_plain_key("card"@);
    let border = border_info(args.border_color);
    assert forall|i: int| 0 <= i < info.len() implies readable_entry(
        (#[trigger] info[i]).0,
        info[i].1,
    ) by {
        if i >= 9 {
            assert(info[i] == border[i - 9]);
        }
    }
    assert(readable(info));
    let altered: Seq<(Seq<char>, Entry)> = Seq::empty();
    assert(readable(altered));
    let styling = header[4].1->Tree_0.entries;
    assert forall|i: int| 0 <= i < styling.len() implies readable_entry(
        (#[trigger] styling[i]).0,
        styling[i].1,
    ) by {
        assert(styling[i].1->Tree_0.entries =~= altered);
    }
    assert(readable(styling));
    assert forall|i: int| 0 <= i < header.len() implies readable_entry(
        (#[trigger] header[i]).0,
        header[i].1,
    ) by {}
    let cds = card_entries(cards, game);
    assert forall|i: int| 0 <= i < doc.entries.len() implies readable_entry(
        (#[trigger] doc.entries[i]).0,
        doc.entries[i].1,
    ) by {
        if i < header.len() {
            assert(doc.entries[i] == header[i]);
        } else {
            let k = i - header.len();
            assert(doc.entries[i] == cds[k]);
            lemma_card_document_readable(cards[k], game);
        }
    }
    lemma_round_trip(doc);
}

} // verus!
