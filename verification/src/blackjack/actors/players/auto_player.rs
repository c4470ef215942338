//! The bot: a player whose decisions follow a fixed basic-strategy table.

use crate::blackjack;
use crate::blackjack::actors::Action;
use crate::cards::{Card, Hand, Rank};
use vstd::prelude::*;

verus! {

/// The hand value at which the bot stands when its hand is hard, chosen by
/// the dealer's visible upcard: 17 against a good upcard (ace, seven and
/// up), 12 against a poor one (four to six), 13 against a fair one (two or
/// three).
pub open spec fn bot_stand_threshold(upcard: Card) -> nat {
    match upcard.rank {
        Rank::Ace
        | Rank::Seven
        | Rank::Eight
        | Rank::Nine
        | Rank::Ten
        | Rank::Jack
        | Rank::Queen
        | Rank::King => 17,
        Rank::Four | Rank::Five | Rank::Six => 12,
        Rank::Two | Rank::Three => 13,
    }
}

/// The bot's whole policy: with a soft hand it stands from 18 up, with a
/// hard hand it stands from the threshold picked by the dealer's upcard.
pub open spec fn bot_policy(h: Seq<Card>, upcard: Card) -> Action {
    if blackjack::soft_hand(h) {
        if blackjack::hand_value(h) >= 18 {
            Action::Stand
        } else {
            Action::Hit
        }
    } else {
        if blackjack::hand_value(h) >= bot_stand_threshold(upcard) {
            Action::Stand
        } else {
            Action::Hit
        }
    }
}

/// With a soft hand (an ace still counted as 11), the bot stands at 18 or
/// more and hits at 17 or less, whatever the dealer shows.
pub proof fn lemma_bot_policy_soft(h: Seq<Card>, upcard: Card)
    requires
        blackjack::soft_hand(h),
    ensures
        blackjack::hand_value(h) >= 18 ==> bot_policy(h, upcard) == Action::Stand,
        blackjack::hand_value(h) <= 17 ==> bot_policy(h, upcard) == Action::Hit,
{
}

/// Without an ace the hand is hard, and the bot stands exactly from the
/// threshold picked by the dealer's upcard: 17 against an ace, a seven or
/// above, 12 against a four, five or six, 13 against a two or three.
pub proof fn lemma_bot_policy_hard(h: Seq<Card>, upcard: Card)
    requires
        !blackjack::hand_has_ace(h),
    ensures
        blackjack::hand_value(h) >= bot_stand_threshold(upcard) ==> bot_policy(h, upcard)
            == Action::Stand,
        blackjack::hand_value(h) < bot_stand_threshold(upcard) ==> bot_policy(h, upcard)
            == Action::Hit,
{
}

/// A bot player: it plays the fixed policy above and never bets.
pub struct AutoPlayer {
    pub hand: Hand,
    pub money: Option<u32>,
    pub bet: Option<u32>,
}

impl AutoPlayer {
    /// A bot with an empty hand and no bet; a buy-in of zero means the bot
    /// holds no money at all.
    pub fn new(buy_in: u32) -> (p: AutoPlayer)
        ensures
            p.hand@.len() == 0,
            p.money == if buy_in > 0 {
                Some(buy_in)
            } else {
                None::<u32>
            },
            p.bet is None,
    {
        let money = if buy_in > 0 {
            Some(buy_in)
        } else {
            None
        };
        AutoPlayer { hand: Vec::new(), money, bet: None }
    }

    /// A bot with an empty hand and no money, enough to decide actions.
    pub fn new_default() -> (p: AutoPlayer)
        ensures
            p.hand@.len() == 0,
            p.money is None,
            p.bet is None,
    {
        AutoPlayer { hand: Vec::new(), money: None, bet: None }
    }

    /// Appends a dealt card to the bot's hand.
    pub fn recieve_card(&mut self, card: Card)
        ensures
            final(self).hand@ == old(self).hand@.push(card),
            final(self).money == old(self).money,
            final(self).bet == old(self).bet,
    {
        self.hand.push(card);
    }

    /// The bot's cards, read-only.
    pub fn get_hand_slice(&self) -> (r: &[Card])
        ensures
            r@ == self.hand@,
    {
        self.hand.as_slice()
    }

    /// The bot does not bet, so there is nothing to put aside.
    pub fn set_bet(&mut self)
        ensures
            *final(self) == *old(self),
    {
    }

    /// What the bot does with its current hand against the dealer's visible
    /// upcard, following the fixed policy.
    pub fn decide_action(&self, dealer_upcard: &Card) -> (a: Action)
        requires
            10 * self.hand@.len() <= u32::MAX,
        ensures
            a == bot_policy(self.hand@, *dealer_upcard),
    {
        let raw_value = blackjack::get_raw_hand_value(self.hand.as_slice());
        if blackjack::is_soft_hand(raw_value, self.hand.as_slice()) {
            if blackjack::get_hand_value(self.hand.as_slice()) >= 18 {
                return Action::Stand;
            } else {
                return Action::Hit;
            }
        }
        let stop_at: u32 = match dealer_upcard.rank {
            Rank::Ace
            | Rank::Seven
            | Rank::Eight
            | Rank::Nine
            | Rank::Ten
            | Rank::Jack
            | Rank::Queen
            | Rank::King => 17,
            Rank::Four | Rank::Five | Rank::Six => 12,
            Rank::Two | Rank::Three => 13,
        };
        if blackjack::get_hand_value(self.hand.as_slice()) >= stop_at {
            Action::Stand
        } else {
            Action::Hit
        }
    }
}

} // verus!
