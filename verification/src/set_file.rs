//! A whole set file: what is said of the set, then one entry for each card.
use crate::args::{ArgsRegular, Color, Error, Settings};
use crate::card::{Card, MseGame};
use crate::document::{Data, DataFile, Document, Entry};
use crate::text::{decimal, decimal_string, same_text};
use crate::translate::card_document;
use vstd::prelude::*;
use vstd::string::StringExecFns;

verus! {

/// A text entry.
pub open spec fn text(key: Seq<char>, value: Seq<char>) -> (Seq<char>, Entry) {
    (key, Entry::Text(value))
}

/// A nested document without images.
pub open spec fn tree(key: Seq<char>, entries: Seq<(Seq<char>, Entry)>) -> (Seq<char>, Entry) {
    (key, Entry::Tree(Document { entries, images: Seq::empty() }))
}

/// The sentence that says where the cards came from.
pub open spec fn description(num_cards: nat) -> Seq<char> {
    let subject = if num_cards == 1 {
        "This card was"@
    } else {
        "These cards were"@
    };
    subject + " automatically imported from MTG JSON using json-to-mse."@
}

/// A color in the notation of the editor.
pub open spec fn rgb(color: Color) -> Seq<char> {
    "rgb("@ + decimal(color.r as nat) + ", "@ + decimal(color.g as nat) + ", "@ + decimal(
        color.b as nat,
    ) + ")"@
}

/// The border color, unless it is black.
pub open spec fn border_info(color: Color) -> Seq<(Seq<char>, Entry)> {
    if color.is_black() {
        Seq::empty()
    } else {
        seq![text("border color"@, rgb(color))]
    }
}

/// What is said of the set as a whole. The border color is named only where
/// it is not black.
pub open spec fn set_info(args: Settings, num_cards: nat, title: Seq<char>) -> Seq<
    (Seq<char>, Entry),
> {
    seq![
        text("title"@, title),
        text("copyright"@, args.copyright),
        text("description"@, description(num_cards)),
        text("set code"@, args.set_code),
        text("set language"@, "EN"@),
        text("mark errors"@, "no"@),
        text("automatic reminder text"@, Seq::empty()),
        text(
            "automatic card numbers"@,
            if args.auto_card_numbers {
                "yes"@
            } else {
                "no"@
            },
        ),
        text("mana cost sorting"@, "unsorted"@),
    ] + border_info(args.border_color)
}

/// A set file before its first card.
pub open spec fn set_header(
    args: Settings,
    num_cards: nat,
    game: Seq<char>,
    title: Seq<char>,
) -> Document {
    Document {
        entries: seq![
            text("mse version"@, "0.3.8"@),
            text("game"@, game),
            text(
                "stylesheet"@,
                if game == "magic"@ {
                    "m15-altered"@
                } else {
                    "standard"@
                },
            ),
            tree("set info"@, set_info(args, num_cards, title)),
            tree("styling"@, seq![tree("magic-m15-altered"@, Seq::empty())]),
        ],
        images: Seq::empty(),
    }
}

/// A text value.
fn flat(value: &str) -> (res: Data)
    ensures
        res@ == Entry::Text(value@),
{
    Data::Flat(value.to_owned())
}

/// A color in the notation of the editor.
fn rgb_text(color: Color) -> (res: String)
    ensures
        res@ == rgb(color),
{
    let mut out = String::from_str("rgb(");
    out.append(decimal_string(color.r as u64).as_str());
    out.append(", ");
    out.append(decimal_string(color.g as u64).as_str());
    out.append(", ");
    out.append(decimal_string(color.b as u64).as_str());
    out.append(")");
    out
}

impl DataFile {
    /// A set file of the given game and title before its first card.
    pub fn new_inner(args: &ArgsRegular, num_cards: usize, game: &str, title: &str) -> (res:
        DataFile)
        ensures
            res@ == set_header(args@, num_cards as nat, game@, title@),
    {
        let mut info = DataFile::empty();
        info.push("title", flat(title));
        info.push("copyright", Data::Flat(args.copyright.clone()));
        let mut description = String::from_str(
            if num_cards == 1 {
                "This card was"
            } else {
                "These cards were"
            },
        );
        description.append(" automatically imported from MTG JSON using json-to-mse.");
        info.push("description", Data::Flat(description));
        info.push("set code", Data::Flat(args.set_code.clone()));
        info.push("set language", flat("EN"));
        info.push("mark errors", flat("no"));
        info.push("automatic reminder text", Data::Flat(String::new()));
        info.push(
            "automatic card numbers",
            flat(
                if args.auto_card_numbers {
                    "yes"
                } else {
                    "no"
                },
            ),
        );
        info.push("mana cost sorting", flat("unsorted"));
        let color = args.border_color;
        if !(color.r == 0 && color.g == 0 && color.b == 0 && color.opaque) {
            info.push("border color", Data::Flat(rgb_text(color)));
        }
        assert(info@.entries =~= set_info(args@, num_cards as nat, title@));
        assert(info@.images =~= Seq::empty());
        let altered = DataFile::empty();
        let mut styling = DataFile::empty();
        styling.push("magic-m15-altered", Data::Subfile(altered));
        assert(styling@.entries =~= seq![tree("magic-m15-altered"@, Seq::empty())]);
        let mut res = DataFile::empty();
        res.push("mse version", flat("0.3.8"));
        res.push("game", flat(game));
        res.push(
            "stylesheet",
            flat(
                if same_text(game, "magic") {
                    "m15-altered"
                } else {
                    "standard"
                },
            ),
        );
        res.push("set info", Data::Subfile(info));
        res.push("styling", Data::Subfile(styling));
        assert(res@.entries =~= set_header(args@, num_cards as nat, game@, title@).entries);
        res
    }

    /// A set file for Magic cards before its first card.
    pub fn new(args: &ArgsRegular, num_cards: usize) -> (res: DataFile)
        ensures
            res@ == set_header(args@, num_cards as nat, "magic"@, "MTG JSON card import"@),
    {
        DataFile::new_inner(args, num_cards, "magic", "MTG JSON card import")
    }

    /// A set file for Archenemy schemes before its first card.
    pub fn new_schemes(args: &ArgsRegular, num_cards: usize) -> (res: DataFile)
        ensures
            res@ == set_header(
                args@,
                num_cards as nat,
                "archenemy"@,
                "MTG JSON card import: Archenemy schemes"@,
            ),
    {
        DataFile::new_inner(args, num_cards, "archenemy", "MTG JSON card import: Archenemy schemes")
    }

    /// A set file for Vanguard avatars before its first card.
    pub fn new_vanguards(args: &ArgsRegular, num_cards: usize) -> (res: DataFile)
        ensures
            res@ == set_header(
                args@,
                num_cards as nat,
                "vanguard"@,
                "MTG JSON card import: Vanguard avatars"@,
            ),
    {
        DataFile::new_inner(args, num_cards, "vanguard", "MTG JSON card import: Vanguard avatars")
    }

    /// Appends one card, as an entry `card` that holds its document. The
    /// settings do not change what is appended.
    pub fn add_card(&mut self, card: &Card, mse_game: MseGame, _args: &ArgsRegular) -> (res: Result<
        (),
        Error,
    >)
        ensures
            res is Ok,
            final(self)@ == old(self)@.push("card"@, Entry::Tree(card_document(*card, mse_game))),
    {
        self.push("card", Data::Subfile(DataFile::from_card(card, mse_game)));
        Ok(())
    }
}

/// The name of a game in the editor.
pub open spec fn game_name(game: MseGame) -> Seq<char> {
    match game {
        MseGame::Magic => "magic"@,
        MseGame::Archenemy => "archenemy"@,
        MseGame::Vanguard => "vanguard"@,
    }
}

/// The title of a set of a game.
pub open spec fn game_title(game: MseGame) -> Seq<char> {
    match game {
        MseGame::Magic => "MTG JSON card import"@,
        MseGame::Archenemy => "MTG JSON card import: Archenemy schemes"@,
        MseGame::Vanguard => "MTG JSON card import: Vanguard avatars"@,
    }
}

/// One entry `card` for each card, in the order of the cards.
pub open spec fn card_entries(cards: Seq<Card>, game: MseGame) -> Seq<(Seq<char>, Entry)> {
    Seq::new(cards.len(), |i: int| ("card"@, Entry::Tree(card_document(cards[i], game))))
}

/// A whole set file: what is said of the set, then the cards.
pub open spec fn set_document(args: Settings, cards: Seq<Card>, game: MseGame) -> Document {
    Document {
        entries: set_header(args, cards.len(), game_name(game), game_title(game)).entries
            + card_entries(cards, game),
        images: Seq::empty(),
    }
}

impl DataFile {
    /// The set file of the cards, in their order, for the given game.
    pub fn from_cards(args: &ArgsRegular, cards: &Vec<Card>, mse_game: MseGame) -> (res: DataFile)
        ensures
            res@ == set_document(args@, cards@, mse_game),
    {
        let mut res = match mse_game {
            MseGame::Magic => DataFile::new(args, cards.len()),
            MseGame::Archenemy => DataFile::new_schemes(args, cards.len()),
            MseGame::Vanguard => DataFile::new_vanguards(args, cards.len()),
        };
        let ghost header = res@;
        let mut i: usize = 0;
        assert(res@.entries =~= header.entries + card_entries(cards@, mse_game).take(0));
        while i < cards.len()
            invariant
                i <= cards.len(),
                res@.images == header.images,
                res@.entries == header.entries + card_entries(cards@, mse_game).take(i as int),
            decreases cards.len() - i,
        {
            let _ = res.add_card(&cards[i], mse_game, args);
            i += 1;
            assert(res@.entries =~= header.entries + card_entries(cards@, mse_game).take(
                i as int,
            ));
        }
        assert(card_entries(cards@, mse_game).take(i as int) =~= card_entries(cards@, mse_game));
        res
    }
}

} // verus!
