//! The dealer: a fixed drawing policy and no betting.

use crate::blackjack;
use crate::blackjack::actors::Action;
use crate::blackjack::RoundError;
use crate::cards::{Card, Deck};
use vstd::prelude::*;

verus! {

/// The dealer's fixed drawing policy: stand at a hand value of 17 or more,
/// hit below that. This threshold is what makes the game standard Blackjack.
pub open spec fn dealer_policy(h: Seq<Card>) -> Action {
    if blackjack::hand_value(h) >= 17 {
        Action::Stand
    } else {
        Action::Hit
    }
}

/// A hand worth 17 or more makes the dealer stand; a hand worth less makes
/// it hit. A soft 18 stands and a soft 13 hits, since the policy goes by the
/// hand's value with any soft ace already counted as 11.
pub proof fn lemma_dealer_policy_thresholds(h: Seq<Card>)
    ensures
        blackjack::hand_value(h) >= 17 ==> dealer_policy(h) == Action::Stand,
        blackjack::hand_value(h) < 17 ==> dealer_policy(h) == Action::Hit,
{
}

/// The dealer of a round. Its first card stays hidden from the players
/// until showdown; only the rest of the hand is shown during the round.
pub struct StandardDealer {
    pub hand: Vec<Card>,
}

impl StandardDealer {
    /// A dealer with an empty hand.
    pub fn new() -> (d: StandardDealer)
        ensures
            d.hand@.len() == 0,
    {
        StandardDealer { hand: Vec::new() }
    }

    /// Appends a dealt card to the dealer's hand.
    pub fn recieve_card(&mut self, card: Card)
        ensures
            final(self).hand@ == old(self).hand@.push(card),
    {
        self.hand.push(card);
    }

    /// Empties the dealer's hand at the end of a round.
    pub fn discard_hand(&mut self)
        ensures
            final(self).hand@.len() == 0,
    {
        self.hand.clear();
    }

    /// The dealer's cards, read-only.
    pub fn get_hand_slice(&self) -> (r: &[Card])
        ensures
            r@ == self.hand@,
    {
        self.hand.as_slice()
    }

    /// What the dealer does with its current hand, following the fixed
    /// policy: stand at 17 or more, hit below.
    pub fn decide_action(&self) -> (a: Action)
        requires
            10 * self.hand@.len() <= u32::MAX,
        ensures
            a == dealer_policy(self.hand@),
    {
        if blackjack::get_hand_value(self.hand.as_slice()) >= 17 {
            Action::Stand
        } else {
            Action::Hit
        }
    }

    /// Applies one action: a hit draws the top card of the deck into the
    /// dealer's hand, a stand changes nothing. Returns whether the turn is
    /// over, or an error when a hit finds the deck empty.
    pub fn handle_dealer_action(&mut self, action: Action, deck: &mut Deck) -> (r: Result<
        bool,
        RoundError,
    >)
        ensures
            match r {
                Ok(turn_over) => if action == Action::Hit {
                    &&& !turn_over
                    &&& old(deck)@.len() > 0
                    &&& final(self).hand@ == old(self).hand@.push(old(deck)@.last())
                    &&& final(deck)@ == old(deck)@.drop_last()
                } else {
                    &&& turn_over
                    &&& final(self).hand@ == old(self).hand@
                    &&& final(deck)@ == old(deck)@
                },
                Err(e) => {
                    &&& e == RoundError::DeckExhausted
                    &&& action == Action::Hit
                    &&& old(deck)@.len() == 0
                    &&& final(self).hand@ == old(self).hand@
                    &&& final(deck)@ == old(deck)@
                },
            },
    {
        match action {
            Action::Hit => match deck.pop() {
                Some(card) => {
                    self.recieve_card(card);
                    Ok(false)
                },
                None => Err(RoundError::DeckExhausted),
            },
            Action::Stand => Ok(true),
        }
    }

    /// Decides one action by the fixed policy and applies it.
    pub fn take_turn(&mut self, deck: &mut Deck) -> (r: Result<bool, RoundError>)
        requires
            10 * old(self).hand@.len() <= u32::MAX,
        ensures
            match r {
                Ok(turn_over) => if dealer_policy(old(self).hand@) == Action::Hit {
                    &&& !turn_over
                    &&& old(deck)@.len() > 0
                    &&& final(self).hand@ == old(self).hand@.push(old(deck)@.last())
                    &&& final(deck)@ == old(deck)@.drop_last()
                } else {
                    &&& turn_over
                    &&& final(self).hand@ == old(self).hand@
                    &&& final(deck)@ == old(deck)@
                },
                Err(e) => {
                    &&& e == RoundError::DeckExhausted
                    &&& dealer_policy(old(self).hand@) == Action::Hit
                    &&& old(deck)@.len() == 0
                    &&& final(self).hand@ == old(self).hand@
                    &&& final(deck)@ == old(deck)@
                },
            },
    {
        let action = self.decide_action();
        self.handle_dealer_action(action, deck)
    }
}

} // verus!
