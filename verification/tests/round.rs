use praeses_blackjack::blackjack::actors::dealers::StandardDealer;
use praeses_blackjack::blackjack::actors::players::{AutoPlayer, HumanPlayer, Participant};
use praeses_blackjack::blackjack::actors::Action;
use praeses_blackjack::blackjack::{
    get_reshuffle_number, settle_round, GameOptions, IntermediateRoundResult, PayoutRatio,
    PlayerRoundResult, ReadyGame, RoundError,
};
use praeses_blackjack::cards::{Card, Deck, Rank, Suit};

fn card(rank: Rank) -> Card {
    Card { rank, suit: Suit::Club }
}

fn human(name: &str, buyin: u32) -> Participant {
    Participant::Human(HumanPlayer::new(name.to_string(), buyin))
}

/// A round where the dealer is dealt a natural ends at once: the player
/// with a natural of their own stands off, the other loses, and the dealer
/// never takes a turn.
#[test]
fn dealer_natural_ends_round_immediately() {
    // Cards leave the deck from the end: the first player draws an ace and
    // a king (a natural), the second a five and a nine, the dealer an ace
    // and a queen (a natural).
    let deck: Deck = vec![
        card(Rank::Queen),
        card(Rank::Nine),
        card(Rank::King),
        card(Rank::Ace),
        card(Rank::Five),
        card(Rank::Ace),
    ];
    let ready = ReadyGame {
        players: vec![human("First", 0), human("Second", 0)],
        dealer: StandardDealer::new(),
        deck,
    };
    let round = ready.deal_hands();
    match round.play_round() {
        Ok(IntermediateRoundResult::Finished { results, dealer, leftover_deck }) => {
            assert_eq!(results.len(), 2);
            assert_eq!(results[0].1, PlayerRoundResult::Standoff);
            assert_eq!(results[1].1, PlayerRoundResult::Lose);
            // The dealer never drew: the round ended before its turn.
            assert_eq!(dealer.hand.len(), 2);
            assert_eq!(leftover_deck.len(), 0);
        },
        _ => panic!("the round should have finished without input"),
    }
}

/// A round that runs to showdown: the human stands on 19, the dealer draws
/// to 18 and the human wins.
#[test]
fn showdown_compares_values() {
    // First player: ten + nine (19). Dealer: five + ten (15), must hit,
    // draws a three (18), stands. The player wins 19 against 18.
    let deck: Deck = vec![
        card(Rank::Three),
        card(Rank::Ten),
        card(Rank::Nine),
        card(Rank::Five),
        card(Rank::Ten),
    ];
    let ready = ReadyGame {
        players: vec![human("Player", 0)],
        dealer: StandardDealer::new(),
        deck,
    };
    let round = ready.deal_hands();
    let paused = match round.play_round() {
        Ok(IntermediateRoundResult::Unfinished(g)) => g,
        _ => panic!("the round should pause for the human's decision"),
    };
    assert!(paused.awaiting_action);
    assert_eq!(paused.next_player, 0);
    match paused.resume_with_action(Action::Stand) {
        Ok(IntermediateRoundResult::Finished { results, dealer, .. }) => {
            assert_eq!(results.len(), 1);
            assert_eq!(results[0].1, PlayerRoundResult::Win);
            assert_eq!(dealer.hand.len(), 3);
        },
        _ => panic!("the round should finish after the player stands"),
    }
}

/// A hit that finds the deck empty is a fatal condition, reported as an
/// error instead of an outcome.
#[test]
fn empty_deck_on_dealer_hit_is_fatal() {
    // The player stands on 19; the dealer holds 15, must hit, and the
    // deck has nothing left.
    let deck: Deck = vec![
        card(Rank::Ten),
        card(Rank::Nine),
        card(Rank::Five),
        card(Rank::Ten),
    ];
    let ready = ReadyGame {
        players: vec![human("Player", 0)],
        dealer: StandardDealer::new(),
        deck,
    };
    let round = ready.deal_hands();
    let paused = match round.play_round() {
        Ok(IntermediateRoundResult::Unfinished(g)) => g,
        _ => panic!("the round should pause for the human's decision"),
    };
    match paused.resume_with_action(Action::Stand) {
        Err(e) => assert_eq!(e, RoundError::DeckExhausted),
        Ok(_) => panic!("the dealer's forced hit should have exhausted the deck"),
    }
}

/// Settlement of a $10 bet at a 3:2 payout: a natural credits $25, a
/// standoff returns exactly the $10 bet, and a loss credits nothing; the
/// bet is cleared either way.
#[test]
fn settlement_pays_by_outcome() {
    let ratio = PayoutRatio { numerator: 3, denominator: 2 };

    let mut natural_winner = HumanPlayer::new("Nat".to_string(), 100);
    assert!(natural_winner.place_bet(10));
    assert_eq!(natural_winner.money, Some(90));
    let mut p = Participant::Human(natural_winner);
    p.handle_round_result(PlayerRoundResult::Natural, &ratio);
    match &p {
        Participant::Human(h) => {
            // $10 bet back plus floor(1.5 * $10) = $25 credited.
            assert_eq!(h.money, Some(115));
            assert_eq!(h.bet, None);
        },
        _ => unreachable!(),
    }

    let mut standoff = HumanPlayer::new("Tie".to_string(), 100);
    assert!(standoff.place_bet(10));
    let mut p = Participant::Human(standoff);
    p.handle_round_result(PlayerRoundResult::Standoff, &ratio);
    match &p {
        Participant::Human(h) => {
            // Exactly the original bet comes back.
            assert_eq!(h.money, Some(100));
            assert_eq!(h.bet, None);
        },
        _ => unreachable!(),
    }

    let mut loser = HumanPlayer::new("Low".to_string(), 100);
    assert!(loser.place_bet(10));
    let mut p = Participant::Human(loser);
    p.handle_round_result(PlayerRoundResult::Lose, &ratio);
    match &p {
        Participant::Human(h) => {
            // The bet is forfeit; nothing is credited.
            assert_eq!(h.money, Some(90));
            assert_eq!(h.bet, None);
        },
        _ => unreachable!(),
    }

    let mut winner = HumanPlayer::new("Win".to_string(), 100);
    assert!(winner.place_bet(10));
    let mut p = Participant::Human(winner);
    p.handle_round_result(PlayerRoundResult::Win, &ratio);
    match &p {
        Participant::Human(h) => {
            // Twice the bet comes back.
            assert_eq!(h.money, Some(110));
            assert_eq!(h.bet, None);
        },
        _ => unreachable!(),
    }
}

/// settle_round empties every hand, resolves every bet and hands the
/// players back in table order.
#[test]
fn settle_round_clears_hands_and_bets() {
    let ratio = PayoutRatio { numerator: 3, denominator: 2 };
    let mut better = HumanPlayer::new("Bea".to_string(), 50);
    assert!(better.place_bet(20));
    better.recieve_card(card(Rank::Ace));
    better.recieve_card(card(Rank::King));
    let results = vec![(Participant::Human(better), PlayerRoundResult::Natural)];
    let settled = settle_round(results, &ratio);
    assert_eq!(settled.len(), 1);
    match &settled[0] {
        Participant::Human(h) => {
            assert_eq!(h.hand.len(), 0);
            assert_eq!(h.bet, None);
            // $30 kept after betting, then $20 back plus floor(1.5 * $20).
            assert_eq!(h.money, Some(80));
        },
        _ => unreachable!(),
    }
}

/// Six decks put the reshuffle threshold at max(40, 6 * 52 / 5) = 62: a
/// leftover deck of 60 cards is replaced, one of 63 cards is kept.
#[test]
fn reshuffle_threshold_at_six_decks() {
    assert_eq!(get_reshuffle_number(6), 62);
    assert_eq!(get_reshuffle_number(1), 40);

    let options = GameOptions {
        num_players: 1,
        bot_player: false,
        num_decks: 6,
        betting_buyin: 0,
        payout_ratio: PayoutRatio { numerator: 3, denominator: 2 },
    };

    let short_deck: Deck = (0..60).map(|_| card(Rank::Two)).collect();
    let game = ReadyGame::from_previous_round(vec![human("Player", 0)], short_deck, &options);
    assert_eq!(game.deck.len(), 6 * 52);

    let deep_deck: Deck = (0..63).map(|_| card(Rank::Two)).collect();
    let game = ReadyGame::from_previous_round(vec![human("Player", 0)], deep_deck, &options);
    assert_eq!(game.deck.len(), 63);
}

/// A broke player is bought back in before the next round; a non-betting
/// player and a player still holding money are left alone.
#[test]
fn buy_in_only_when_broke() {
    let options = GameOptions {
        num_players: 3,
        bot_player: false,
        num_decks: 1,
        betting_buyin: 500,
        payout_ratio: PayoutRatio { numerator: 3, denominator: 2 },
    };
    let broke = Participant::Human(HumanPlayer {
        name: "Broke".to_string(),
        hand: Vec::new(),
        money: Some(0),
        bet: None,
    });
    let flush = Participant::Human(HumanPlayer {
        name: "Flush".to_string(),
        hand: Vec::new(),
        money: Some(7),
        bet: None,
    });
    let watcher = Participant::Human(HumanPlayer {
        name: "Watcher".to_string(),
        hand: Vec::new(),
        money: None,
        bet: None,
    });
    let deck: Deck = (0..52).map(|_| card(Rank::Two)).collect();
    let game = ReadyGame::from_previous_round(vec![broke, flush, watcher], deck, &options);
    let monies: Vec<Option<u32>> = game
        .players
        .iter()
        .map(|p| match p {
            Participant::Human(h) => h.money,
            Participant::Bot(b) => b.money,
        })
        .collect();
    assert_eq!(monies, vec![Some(500), Some(7), None]);
}

/// A bot's whole turn runs inside the engine: dealt a hard 12 against a
/// dealer nine it draws until its policy says stand, and the round runs to
/// showdown without ever pausing.
#[test]
fn bot_plays_to_policy_through_round() {
    // Bot: ten + two (12), dealer: ten + nine (19). Against a nine upcard
    // the bot hits below 17: it draws a five (17) and stands; the dealer
    // stands on 19 and the bot loses 17 to 19.
    let deck: Deck = vec![
        card(Rank::Five),
        card(Rank::Nine),
        card(Rank::Two),
        card(Rank::Ten),
        card(Rank::Ten),
    ];
    let ready = ReadyGame {
        players: vec![Participant::Bot(AutoPlayer::new(0))],
        dealer: StandardDealer::new(),
        deck,
    };
    let round = ready.deal_hands();
    match round.play_round() {
        Ok(IntermediateRoundResult::Finished { results, dealer, leftover_deck }) => {
            assert_eq!(results.len(), 1);
            assert_eq!(results[0].1, PlayerRoundResult::Lose);
            match &results[0].0 {
                Participant::Bot(b) => assert_eq!(b.hand.len(), 3),
                _ => unreachable!(),
            }
            assert_eq!(dealer.hand.len(), 2);
            assert_eq!(leftover_deck.len(), 0);
        },
        _ => panic!("a bot-only round should finish without input"),
    }
}
