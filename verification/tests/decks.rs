use praeses_blackjack::blackjack::card_value;
use praeses_blackjack::cards::{
    create_multideck, shuffle_deck, standard_deck, Card, Rank, Suit, STANDARD_DECK_COUNT,
};

#[test]
fn standard_deck_holds_each_card_once() {
    let deck = standard_deck();
    assert_eq!(deck.len(), STANDARD_DECK_COUNT);
    for i in 0..deck.len() {
        for j in 0..i {
            assert!(deck[i] != deck[j]);
        }
    }
}

#[test]
fn multideck_repeats_the_standard_deck() {
    let deck = create_multideck(2);
    assert_eq!(deck.len(), STANDARD_DECK_COUNT * 2);
    let single = standard_deck();
    assert_eq!(&deck[..52], &single[..]);
    assert_eq!(&deck[52..], &single[..]);
}

#[test]
fn shuffle_keeps_the_same_cards() {
    let mut deck = standard_deck();
    shuffle_deck(&mut deck);
    assert_eq!(deck.len(), STANDARD_DECK_COUNT);
    // The shuffle is a permutation: every card of the standard deck is
    // still there exactly once.
    for wanted in standard_deck() {
        assert_eq!(deck.iter().filter(|c| **c == wanted).count(), 1);
    }
}

#[test]
fn card_values_follow_rank() {
    assert_eq!(card_value(&Card { rank: Rank::Ace, suit: Suit::Club }), 1);
    assert_eq!(card_value(&Card { rank: Rank::Two, suit: Suit::Heart }), 2);
    assert_eq!(card_value(&Card { rank: Rank::Nine, suit: Suit::Spade }), 9);
    assert_eq!(card_value(&Card { rank: Rank::Ten, suit: Suit::Diamond }), 10);
    assert_eq!(card_value(&Card { rank: Rank::Jack, suit: Suit::Club }), 10);
    assert_eq!(card_value(&Card { rank: Rank::Queen, suit: Suit::Heart }), 10);
    assert_eq!(card_value(&Card { rank: Rank::King, suit: Suit::Spade }), 10);
}

#[test]
fn rank_and_suit_symbols() {
    assert_eq!(Rank::Ace.simple_abbreviation(), "A");
    assert_eq!(Rank::Ten.simple_abbreviation(), "10");
    assert_eq!(Rank::King.simple_abbreviation(), "K");
    assert_eq!(Suit::Club.unicode_representation(), "\u{2663}");
    assert_eq!(Suit::Spade.unicode_representation(), "\u{2660}");
}
