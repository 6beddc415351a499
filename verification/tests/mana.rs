use msegen::mana::{cost_to_mse, ManaCost, ManaSymbol};

#[test]
fn cost_of_three_symbols() {
    let cost = ManaCost {
        symbols: vec![ManaSymbol::Generic(2), ManaSymbol::White, ManaSymbol::HybridWhiteBlue],
    };
    assert_eq!(cost_to_mse(&cost), "2WW/U");
}

#[test]
fn cost_of_no_symbols() {
    let cost = ManaCost { symbols: vec![] };
    assert_eq!(cost_to_mse(&cost), "");
}

#[test]
fn cost_keeps_the_order() {
    let white_blue = ManaCost { symbols: vec![ManaSymbol::White, ManaSymbol::Blue] };
    let blue_white = ManaCost { symbols: vec![ManaSymbol::Blue, ManaSymbol::White] };
    assert_eq!(cost_to_mse(&white_blue), "WU");
    assert_eq!(cost_to_mse(&blue_white), "UW");
    assert_ne!(cost_to_mse(&white_blue), cost_to_mse(&blue_white));
}
