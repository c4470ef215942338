use praeses_blackjack::blackjack::{get_hand_value, hand_is_bust, hand_is_natural};
use praeses_blackjack::cards::{Card, Rank, Suit};

#[test]
fn hand_value_correct() {
    assert_eq!(
        21,
        get_hand_value(&[
            Card { rank: Rank::Ace, suit: Suit::Club },
            Card { rank: Rank::King, suit: Suit::Spade }
        ])
    );
    assert_eq!(
        18,
        get_hand_value(&[
            Card { rank: Rank::Ace, suit: Suit::Club },
            Card { rank: Rank::Seven, suit: Suit::Diamond },
            Card { rank: Rank::Jack, suit: Suit::Heart }
        ])
    );
    assert_eq!(
        20,
        get_hand_value(&[
            Card { rank: Rank::Queen, suit: Suit::Heart },
            Card { rank: Rank::King, suit: Suit::Diamond }
        ])
    );
}

#[test]
fn detects_naturals() {
    assert_eq!(
        true,
        hand_is_natural(&[
            Card { rank: Rank::Ace, suit: Suit::Club },
            Card { rank: Rank::King, suit: Suit::Spade }
        ])
    );
    assert_eq!(
        false,
        hand_is_natural(&[
            Card { rank: Rank::Ace, suit: Suit::Club },
            Card { rank: Rank::Seven, suit: Suit::Diamond },
            Card { rank: Rank::Three, suit: Suit::Heart }
        ])
    );
    assert_eq!(
        false,
        hand_is_natural(&[
            Card { rank: Rank::Queen, suit: Suit::Heart },
            Card { rank: Rank::King, suit: Suit::Diamond }
        ])
    );
}

#[test]
fn detects_busts() {
    assert_eq!(
        false,
        hand_is_bust(&[
            Card { rank: Rank::Ace, suit: Suit::Club },
            Card { rank: Rank::King, suit: Suit::Spade }
        ])
    );
    assert_eq!(
        false,
        hand_is_bust(&[
            Card { rank: Rank::Ace, suit: Suit::Club },
            Card { rank: Rank::Seven, suit: Suit::Diamond },
            Card { rank: Rank::Four, suit: Suit::Heart }
        ])
    );
    assert_eq!(
        true,
        hand_is_bust(&[
            Card { rank: Rank::Ace, suit: Suit::Club },
            Card { rank: Rank::King, suit: Suit::Diamond },
            Card { rank: Rank::Nine, suit: Suit::Heart },
            Card { rank: Rank::Seven, suit: Suit::Heart }
        ])
    );
    assert_eq!(
        false,
        hand_is_bust(&[
            Card { rank: Rank::Queen, suit: Suit::Heart },
            Card { rank: Rank::King, suit: Suit::Diamond }
        ])
    );
    assert_eq!(
        false,
        hand_is_bust(&[
            Card { rank: Rank::Two, suit: Suit::Heart },
            Card { rank: Rank::Two, suit: Suit::Diamond }
        ])
    );
    assert_eq!(
        true,
        hand_is_bust(&[
            Card { rank: Rank::Queen, suit: Suit::Heart },
            Card { rank: Rank::King, suit: Suit::Diamond },
            Card { rank: Rank::Nine, suit: Suit::Club },
            Card { rank: Rank::Ten, suit: Suit::Diamond }
        ])
    );
}

#[test]
fn two_aces_make_a_soft_twelve() {
    let hand = [
        Card { rank: Rank::Ace, suit: Suit::Club },
        Card { rank: Rank::Ace, suit: Suit::Spade },
    ];
    assert_eq!(12, get_hand_value(&hand));
    assert!(!hand_is_natural(&hand));
}

#[test]
fn twenty_one_with_three_cards_is_no_natural() {
    let hand = [
        Card { rank: Rank::Seven, suit: Suit::Club },
        Card { rank: Rank::Seven, suit: Suit::Spade },
        Card { rank: Rank::Seven, suit: Suit::Heart },
    ];
    assert_eq!(21, get_hand_value(&hand));
    assert!(!hand_is_natural(&hand));
    assert!(!hand_is_bust(&hand));
}
