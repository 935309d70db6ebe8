use card_deck::playing_card::{pcard_deck, pcard_deck_builder, PCard, ParseErr, Suit};

#[test]
pub fn test_pcard_from_str() {
    assert_eq!(PCard::from_str("10S").unwrap(), PCard::s(10));
    assert_eq!(PCard::from_str("1S").unwrap(), PCard::s(1), "1 spades");
    assert_eq!(PCard::from_str("5H").unwrap(), PCard::h(5), "5 hearts");
    assert_eq!(PCard::from_str("Jk").unwrap(), PCard::jk(1));
    assert_eq!(PCard::from_str("JS").unwrap(), PCard::s(11));
    assert_eq!(PCard::from_str("JH").unwrap(), PCard::h('j'));
}

#[test]
fn test_from_str_errors() {
    assert_eq!(PCard::from_str(""), Err(ParseErr::TooShort));
    assert_eq!(PCard::from_str("5"), Err(ParseErr::TooShort));
    assert_eq!(PCard::from_str("10"), Err(ParseErr::TooShort));
    assert_eq!(PCard::from_str("5X"), Err(ParseErr::BadParse));
    assert_eq!(PCard::from_str("10X"), Err(ParseErr::BadParse));
}

#[test]
fn test_to_text() {
    assert_eq!(PCard::s(1).to_text(), "AS");
    assert_eq!(PCard::h(5).to_text(), "5H");
    assert_eq!(PCard::s(10).to_text(), "10S");
    assert_eq!(PCard::c('j').to_text(), "JC");
    assert_eq!(PCard::d('q').to_text(), "QD");
    assert_eq!(PCard::h('k').to_text(), "KH");
    assert_eq!(PCard::jk(0).to_text(), "Jk");
    assert_eq!(PCard::jk(1).to_text(), "Jk");
}

#[test]
fn test_text_round_trip() {
    for suit_index in 0..4 {
        let suit = Suit::from_usize(suit_index).unwrap();
        for num in 1..14u8 {
            let card = PCard::new(suit, num);
            assert_eq!(PCard::from_str(&card.to_text()), Ok(card));
        }
    }
    assert_eq!(PCard::from_str(&PCard::jk(0).to_text()), Ok(PCard::jk(1)));
}

#[test]
fn test_suit_conversions() {
    assert_eq!(Suit::from_usize(0), Some(Suit::Spades));
    assert_eq!(Suit::from_usize(1), Some(Suit::Clubs));
    assert_eq!(Suit::from_usize(2), Some(Suit::Hearts));
    assert_eq!(Suit::from_usize(3), Some(Suit::Diamonds));
    assert_eq!(Suit::from_usize(4), Some(Suit::Joker));
    assert_eq!(Suit::from_usize(5), None);

    assert_eq!(Suit::from_char('s'), Some(Suit::Spades));
    assert_eq!(Suit::from_char('C'), Some(Suit::Clubs));
    assert_eq!(Suit::from_char('h'), Some(Suit::Hearts));
    assert_eq!(Suit::from_char('D'), Some(Suit::Diamonds));
    assert_eq!(Suit::from_char('j'), Some(Suit::Joker));
    assert_eq!(Suit::from_char('x'), None);

    assert_eq!(Suit::Spades.as_char(), 'S');
    assert_eq!(Suit::Joker.as_char(), 'J');
}

#[test]
fn test_short_constructors() {
    assert_eq!(PCard::s(11), PCard::s('J'));
    assert_eq!(PCard::c('a'), PCard::c(1));
    assert_eq!(PCard::h('t'), PCard::h(10));
    assert_eq!(PCard::d('3'), PCard::d(3));
    assert_eq!(PCard::jk(0).suit, Suit::Joker);
}

#[test]
fn test_pcard_deck_builder_unshuffled() {
    let mut dk = pcard_deck_builder(true).pre_shuffle(false).done();
    assert_eq!(dk.draw_1(), Some(PCard::s(1)));
    assert_eq!(dk.len(), 53);
}

#[test]
fn test_pcard_deck_sizes() {
    let dk = pcard_deck(false);
    assert_eq!(dk.len(), 52);
    let mut dk = pcard_deck(true);
    assert_eq!(dk.len(), 54);
    let all = dk.draw_all();
    let jokers = all.iter().filter(|c| c.suit == Suit::Joker).count();
    assert_eq!(jokers, 2);
    let spades = all.iter().filter(|c| c.suit == Suit::Spades).count();
    assert_eq!(spades, 13);
}
