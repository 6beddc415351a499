//! Mana costs in the notation of the editor: one token for each symbol.
use crate::text::{decimal, decimal_string};
use vstd::prelude::*;
use vstd::string::StringExecFns;

verus! {

/// One symbol of a mana cost.
#[derive(Debug, Clone, Copy, PartialEq, Eq)]
pub enum ManaSymbol {
    Variable,
    Generic(u64),
    Snow,
    Colorless,
    TwobridWhite,
    TwobridBlue,
    TwobridBlack,
    TwobridRed,
    TwobridGreen,
    HybridWhiteBlue,
    HybridBlueBlack,
    HybridBlackRed,
    HybridRedGreen,
    HybridGreenWhite,
    HybridWhiteBlack,
    HybridBlueRed,
    HybridBlackGreen,
    HybridRedWhite,
    HybridGreenBlue,
    PhyrexianWhite,
    PhyrexianBlue,
    PhyrexianBlack,
    PhyrexianRed,
    PhyrexianGreen,
    White,
    Blue,
    Black,
    Red,
    Green,
}

/// A mana cost: its symbols in the order in which the card prints them.
#[derive(Debug)]
pub struct ManaCost {
    pub symbols: Vec<ManaSymbol>,
}

/// The token of one symbol.
pub open spec fn symbol_token(symbol: ManaSymbol) -> Seq<char> {
    match symbol {
        ManaSymbol::Variable => "X"@,
        ManaSymbol::Generic(n) => decimal(n as nat),
        ManaSymbol::Snow => "S"@,
        ManaSymbol::Colorless => "C"@,
        ManaSymbol::TwobridWhite => "2/W"@,
        ManaSymbol::TwobridBlue => "2/U"@,
        ManaSymbol::TwobridBlack => "2/B"@,
        ManaSymbol::TwobridRed => "2/R"@,
        ManaSymbol::TwobridGreen => "2/G"@,
        ManaSymbol::HybridWhiteBlue => "W/U"@,
        ManaSymbol::HybridBlueBlack => "U/B"@,
        ManaSymbol::HybridBlackRed => "B/R"@,
        ManaSymbol::HybridRedGreen => "R/G"@,
        ManaSymbol::HybridGreenWhite => "G/W"@,
        ManaSymbol::HybridWhiteBlack => "W/B"@,
        ManaSymbol::HybridBlueRed => "U/R"@,
        ManaSymbol::HybridBlackGreen => "B/G"@,
        ManaSymbol::HybridRedWhite => "R/W"@,
        ManaSymbol::HybridGreenBlue => "G/U"@,
        ManaSymbol::PhyrexianWhite => "H/W"@,
        ManaSymbol::PhyrexianBlue => "H/U"@,
        ManaSymbol::PhyrexianBlack => "H/B"@,
        ManaSymbol::PhyrexianRed => "H/R"@,
        ManaSymbol::PhyrexianGreen => "H/G"@,
        ManaSymbol::White => "W"@,
        ManaSymbol::Blue => "U"@,
        ManaSymbol::Black => "B"@,
        ManaSymbol::Red => "R"@,
        ManaSymbol::Green => "G"@,
    }
}

/// The tokens of the symbols, in their order, with nothing between them.
pub open spec fn cost_text(symbols: Seq<ManaSymbol>) -> Seq<char>
    decreases symbols.len(),
{
    if symbols.len() == 0 {
        Seq::empty()
    } else {
        cost_text(symbols.drop_last()) + symbol_token(symbols.last())
    }
}

/// The token of one symbol.
pub fn symbol_to_mse(symbol: ManaSymbol) -> (res: String)
    ensures
        res@ == symbol_token(symbol),
{
    match symbol {
        ManaSymbol::Variable => String::from_str("X"),
        ManaSymbol::Generic(n) => decimal_string(n),
        ManaSymbol::Snow => String::from_str("S"),
        ManaSymbol::Colorless => String::from_str("C"),
        ManaSymbol::TwobridWhite => String::from_str("2/W"),
        ManaSymbol::TwobridBlue => String::from_str("2/U"),
        ManaSymbol::TwobridBlack => String::from_str("2/B"),
        ManaSymbol::TwobridRed => String::from_str("2/R"),
        ManaSymbol::TwobridGreen => String::from_str("2/G"),
        ManaSymbol::HybridWhiteBlue => String::from_str("W/U"),
        ManaSymbol::HybridBlueBlack => String::from_str("U/B"),
        ManaSymbol::HybridBlackRed => String::from_str("B/R"),
        ManaSymbol::HybridRedGreen => String::from_str("R/G"),
        ManaSymbol::HybridGreenWhite => String::from_str("G/W"),
        ManaSymbol::HybridWhiteBlack => String::from_str("W/B"),
        ManaSymbol::HybridBlueRed => String::from_str("U/R"),
        ManaSymbol::HybridBlackGreen => String::from_str("B/G"),
        ManaSymbol::HybridRedWhite => String::from_str("R/W"),
        ManaSymbol::HybridGreenBlue => String::from_str("G/U"),
        ManaSymbol::PhyrexianWhite => String::from_str("H/W"),
        ManaSymbol::PhyrexianBlue => String::from_str("H/U"),
        ManaSymbol::PhyrexianBlack => String::from_str("H/B"),
        ManaSymbol::PhyrexianRed => String::from_str("H/R"),
        ManaSymbol::PhyrexianGreen => String::from_str("H/G"),
        ManaSymbol::White => String::from_str("W"),
        ManaSymbol::Blue => String::from_str("U"),
        ManaSymbol::Black => String::from_str("B"),
        ManaSymbol::Red => String::from_str("R"),
        ManaSymbol::Green => String::from_str("G"),
    }
}

/// The cost in the notation of the editor.
pub fn cost_to_mse(cost: &ManaCost) -> (res: String)
    ensures
        res@ == cost_text(cost.symbols@),
{
    let mut out = String::new();
    let mut i: usize = 0;
    while i < cost.symbols.len()
        invariant
            i <= cost.symbols.len(),
            out@ == cost_text(cost.symbols@.take(i as int)),
        decreases cost.symbols.len() - i,
    {
        let token = symbol_to_mse(cost.symbols[i]);
        out.append(token.as_str());
        proof {
            assert(cost.symbols@.take(i + 1).drop_last() =~= cost.symbols@.take(i as int));
        }
        i += 1;
    }
    assert(cost.symbols@.take(i as int) =~= cost.symbols@);
    out
}

/// The text of a cost goes symbol by symbol: that of two costs in a row is
/// the text of the first followed by the text of the second.
pub proof fn lemma_cost_text_concat(a: Seq<ManaSymbol>, b: Seq<ManaSymbol>)
    ensures
        cost_text(a + b) == cost_text(a) + cost_text(b),
    decreases b.len(),
{
    if b.len() == 0 {
        assert(a + b =~= a);
        assert(cost_text(a) + cost_text(b) =~= cost_text(a));
    } else {
        lemma_cost_text_concat(a, b.drop_last());
        assert((a + b).drop_last() =~= a + b.drop_last());
        assert(cost_text(a + b) =~= cost_text(a) + cost_text(b));
    }
}

} // verus!
