//! Cards as the translation reads them.
use crate::ability::Ability;
use crate::mana::ManaCost;
use crate::text::capitalized;
use vstd::prelude::*;

verus! {

/// The game that a set file is made for.
#[derive(Debug, Clone, Copy, PartialEq, Eq, Structural)]
pub enum MseGame {
    Magic,
    Archenemy,
    Vanguard,
}

/// How often a card was printed.
#[derive(Debug, Clone, Copy, PartialEq, Eq, Structural)]
pub enum Rarity {
    Land,
    Common,
    Uncommon,
    Rare,
    Mythic,
    Special,
}

/// The card types that decide a field or a stylesheet; `Other` for the rest.
#[derive(Debug, Clone, Copy, PartialEq, Eq, Structural)]
pub enum CardTypeKind {
    Conspiracy,
    Phenomenon,
    Plane,
    Planeswalker,
    Other,
}

/// One card type of a type line.
#[derive(Debug)]
pub struct CardType {
    pub name: String,
    pub kind: CardTypeKind,
}

/// The card type that a subtype belongs to.
#[derive(Debug, Clone, Copy, PartialEq, Eq, Structural)]
pub enum SubtypeKind {
    Artifact,
    Enchantment,
    Land,
    Planeswalker,
    Spell,
    Creature,
    Planar,
}

/// One subtype of a type line.
#[derive(Debug)]
pub struct Subtype {
    pub name: String,
    pub kind: SubtypeKind,
}

/// A type line: its text as printed, and its parts in order.
#[derive(Debug)]
pub struct TypeLine {
    pub text: String,
    pub supertypes: Vec<String>,
    pub card_types: Vec<CardType>,
    pub subtypes: Vec<Subtype>,
}

/// How the faces of a card are laid out, with the other face where there is one.
#[derive(Debug)]
pub enum Layout {
    Normal,
    Split { right: Box<Card> },
    Flip { flipped: Box<Card> },
    DoubleFaced { back: Box<Card> },
    Meld { back: Box<Card> },
    Adventure,
}

/// One face of a card.
#[derive(Debug)]
pub struct Card {
    pub name: String,
    /// Whether this face is the other face of a card, not its first.
    pub alt: bool,
    pub layout: Layout,
    pub mana_cost: Option<ManaCost>,
    pub type_line: TypeLine,
    pub rarity: Rarity,
    pub abilities: Vec<Ability>,
    pub loyalty: Option<String>,
    pub pt: Option<(String, String)>,
    pub stability: Option<String>,
    pub vanguard_modifiers: Option<(String, String)>,
    /// Whether the card levels up.
    pub leveler: bool,
}

impl TypeLine {
    /// Whether one of the card types is of the given kind.
    pub open spec fn has_kind(&self, kind: CardTypeKind) -> bool {
        exists|i: int| 0 <= i < self.card_types@.len() && self.card_types@[i].kind == kind
    }

    /// Whether one of the card types is of the given kind.
    pub fn is(&self, kind: CardTypeKind) -> (res: bool)
        ensures
            res == self.has_kind(kind),
    {
        let mut i: usize = 0;
        while i < self.card_types.len()
            invariant
                i <= self.card_types.len(),
                forall|k: int| 0 <= k < i ==> self.card_types@[k].kind != kind,
            decreases self.card_types.len() - i,
        {
            if self.card_types[i].kind == kind {
                return true;
            }
            i += 1;
        }
        false
    }
}

/// Whether the ability is the keyword aftermath, with a small or a capital
/// first letter.
pub open spec fn is_aftermath(ability: Ability) -> bool {
    ability matches Ability::Keyword(name) && capitalized(name@) == "Aftermath"@
}

impl Card {
    /// Whether one of the abilities of this face is the keyword aftermath.
    pub open spec fn carries_aftermath(&self) -> bool {
        exists|i: int| 0 <= i < self.abilities@.len() && is_aftermath(#[trigger] self.abilities@[i])
    }
}

} // verus!
