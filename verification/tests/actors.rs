use praeses_blackjack::blackjack::actors::players::{AutoPlayer, HumanPlayer};
use praeses_blackjack::blackjack::actors::dealers::StandardDealer;
use praeses_blackjack::blackjack::actors::Action;
use praeses_blackjack::cards::{Card, Rank, Suit};

/// A card of the given Blackjack point value, when the suit does not matter.
fn create_card_from_value(value: u32) -> Card {
    let rank = match value {
        1 => Rank::Ace,
        2 => Rank::Two,
        3 => Rank::Three,
        4 => Rank::Four,
        5 => Rank::Five,
        6 => Rank::Six,
        7 => Rank::Seven,
        8 => Rank::Eight,
        9 => Rank::Nine,
        10 => Rank::Ten,
        _ => panic!("Tried to make a card of an invalid value in tests."),
    };
    Card { rank, suit: Suit::Spade }
}

fn check_dealer_action_from_cards(card_values: (u32, u32), action: Action) {
    let mut dealer = StandardDealer::new();
    dealer.recieve_card(create_card_from_value(card_values.0));
    dealer.recieve_card(create_card_from_value(card_values.1));
    assert_eq!(dealer.decide_action(), action);
}

fn check_bot_action_from_cards(card_values: (u32, u32), upcard: u32, action: Action) {
    let upcard = create_card_from_value(upcard);
    let mut player = AutoPlayer::new(0);
    player.recieve_card(create_card_from_value(card_values.0));
    player.recieve_card(create_card_from_value(card_values.1));
    assert_eq!(player.decide_action(&upcard), action);
}

/// Checks that given input is parsed properly.
#[test]
fn actors_parses_action_from_string() {
    assert_eq!(Action::parse_from_string("hit").unwrap(), Action::Hit);
    assert_eq!(Action::parse_from_string("h").unwrap(), Action::Hit);
    assert_eq!(Action::parse_from_string(" hit").unwrap(), Action::Hit);
    assert_eq!(Action::parse_from_string("hit ").unwrap(), Action::Hit);
    assert_eq!(Action::parse_from_string("Hit").unwrap(), Action::Hit);
    assert_eq!(Action::parse_from_string("HIT").unwrap(), Action::Hit);

    assert_eq!(Action::parse_from_string("stand").unwrap(), Action::Stand);
    assert_eq!(Action::parse_from_string("s").unwrap(), Action::Stand);
    assert_eq!(Action::parse_from_string(" stand").unwrap(), Action::Stand);
    assert_eq!(Action::parse_from_string("stand ").unwrap(), Action::Stand);
    assert_eq!(Action::parse_from_string("Stand").unwrap(), Action::Stand);
    assert_eq!(Action::parse_from_string("STAND").unwrap(), Action::Stand);

    assert!(Action::parse_from_string("shmit").is_err());
    assert!(Action::parse_from_string("stund").is_err());
    assert!(Action::parse_from_string("hoot").is_err());
    assert!(Action::parse_from_string("ham").is_err());
    assert!(Action::parse_from_string("praeses").is_err());
    assert!(Action::parse_from_string("blake").is_err());
}

/// Making sure the dealer can add a card to their hand.
#[test]
fn standard_dealer_adds_card_to_hand() {
    let mut dealer = StandardDealer::new();
    assert_eq!(0, dealer.get_hand_slice().len());
    dealer.recieve_card(Card { rank: Rank::Ace, suit: Suit::Spade });
    assert_eq!(1, dealer.get_hand_slice().len());
}

/// Check that the dealer's actions follow blackjack rules.
#[test]
fn standard_dealer_acts_properly() {
    // Dealer has to stand at 17.
    check_dealer_action_from_cards((7, 10), Action::Stand);

    // Dealer should also stand at a soft 18.
    check_dealer_action_from_cards((7, 1), Action::Stand);

    // Dealer should hit at 12.
    check_dealer_action_from_cards((4, 8), Action::Hit);

    // Dealer should also hit at a soft 13.
    check_dealer_action_from_cards((1, 2), Action::Hit);
}

#[test]
fn bot_player_adds_card_to_hand() {
    let mut player = AutoPlayer::new_default();
    assert_eq!(0, player.get_hand_slice().len());
    player.recieve_card(Card { rank: Rank::Ace, suit: Suit::Spade });
    assert_eq!(1, player.get_hand_slice().len());
}

#[test]
fn auto_player_bot_acts_properly() {
    // If you have an ace, stand at value of 18 or more.
    check_bot_action_from_cards((1, 7), 1, Action::Stand);

    // If you have an ace, hit at a value of 17 or less.
    check_bot_action_from_cards((1, 6), 1, Action::Hit);

    // If the dealer's card is good, stand at 17 or more.
    check_bot_action_from_cards((10, 7), 10, Action::Stand);

    // If the dealer's card is good, hit at 16 or less.
    check_bot_action_from_cards((10, 6), 10, Action::Hit);

    // If the dealer's card is bad, stand at 12 or more.
    check_bot_action_from_cards((10, 2), 4, Action::Stand);

    // If the dealer's card is bad, hit at 11 or less.
    check_bot_action_from_cards((8, 3), 4, Action::Hit);

    // If the dealer's card is fair, stand at 13 or more.
    check_bot_action_from_cards((10, 3), 2, Action::Stand);

    // If the dealer's card is fair, hit at 12 or less.
    check_bot_action_from_cards((10, 2), 2, Action::Hit);
}

#[test]
fn human_player_adds_card_to_hand() {
    let mut player = HumanPlayer::new_default();
    assert_eq!(0, player.get_hand_slice().len());
    player.recieve_card(Card { rank: Rank::Ace, suit: Suit::Spade });
    assert_eq!(1, player.get_hand_slice().len());
}

#[test]
fn human_player_bets_within_funds() {
    let mut player = HumanPlayer::new("Avery".to_string(), 100);
    assert_eq!(player.money, Some(100));

    // A bet above the player's funds is refused.
    assert!(!player.place_bet(200));
    assert_eq!(player.money, Some(100));
    assert_eq!(player.bet, None);

    // A bet of zero means sitting the round out.
    assert!(player.place_bet(0));
    assert_eq!(player.money, Some(100));
    assert_eq!(player.bet, None);

    // An accepted bet is taken out of the money at once.
    assert!(player.place_bet(30));
    assert_eq!(player.money, Some(70));
    assert_eq!(player.bet, Some(30));
}

/// The same parser, reached the way a round reaches it: via the action
/// prompt loop's inputs.
#[test]
fn player_parses_action_from_string() {
    assert_eq!(Action::parse_from_string("hit").unwrap(), Action::Hit);
    assert_eq!(Action::parse_from_string("h").unwrap(), Action::Hit);
    assert_eq!(Action::parse_from_string(" hit").unwrap(), Action::Hit);
    assert_eq!(Action::parse_from_string("hit ").unwrap(), Action::Hit);
    assert_eq!(Action::parse_from_string("Hit").unwrap(), Action::Hit);
    assert_eq!(Action::parse_from_string("HIT").unwrap(), Action::Hit);

    assert_eq!(Action::parse_from_string("stand").unwrap(), Action::Stand);
    assert_eq!(Action::parse_from_string("s").unwrap(), Action::Stand);
    assert_eq!(Action::parse_from_string(" stand").unwrap(), Action::Stand);
    assert_eq!(Action::parse_from_string("stand ").unwrap(), Action::Stand);
    assert_eq!(Action::parse_from_string("Stand").unwrap(), Action::Stand);
    assert_eq!(Action::parse_from_string("STAND").unwrap(), Action::Stand);

    assert!(Action::parse_from_string("shmit").is_err());
    assert!(Action::parse_from_string("stund").is_err());
    assert!(Action::parse_from_string("hoot").is_err());
    assert!(Action::parse_from_string("ham").is_err());
    assert!(Action::parse_from_string("praeses").is_err());
    assert!(Action::parse_from_string("blake").is_err());
}

#[test]
fn dealer_acts_properly() {
    check_dealer_action_from_cards((7, 10), Action::Stand);
    check_dealer_action_from_cards((10, 10), Action::Stand);
    check_dealer_action_from_cards((7, 1), Action::Stand);
    check_dealer_action_from_cards((4, 8), Action::Hit);
    check_dealer_action_from_cards((9, 7), Action::Hit);
}

#[test]
fn player_bot_acts_properly() {
    // With an ace, the default upcard in these checks is an ace too.
    check_bot_action_from_cards((1, 7), 1, Action::Stand);
    check_bot_action_from_cards((1, 6), 1, Action::Hit);
    check_bot_action_from_cards((10, 7), 10, Action::Stand);
    check_bot_action_from_cards((10, 6), 10, Action::Hit);
    check_bot_action_from_cards((10, 2), 4, Action::Stand);
    check_bot_action_from_cards((8, 3), 4, Action::Hit);
    check_bot_action_from_cards((10, 3), 2, Action::Stand);
    check_bot_action_from_cards((10, 2), 2, Action::Hit);
}
