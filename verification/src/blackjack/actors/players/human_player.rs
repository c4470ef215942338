//! A player controlled by a person. Decisions and bet amounts come from an
//! outside input collaborator; this module holds the player's state and the
//! rules a bet must satisfy.

use crate::cards::{Card, Hand};
use vstd::prelude::*;

verus! {

/// A human player: a name, a hand, and a purse.
pub struct HumanPlayer {
    pub name: String,
    pub hand: Hand,
    pub money: Option<u32>,
    pub bet: Option<u32>,
}

impl HumanPlayer {
    /// A player with the given name, an empty hand and no bet; a buy-in of
    /// zero means the player does not take part in betting.
    pub fn new(name: String, buyin: u32) -> (p: HumanPlayer)
        ensures
            p.name@ == name@,
            p.hand@.len() == 0,
            p.money == if buyin > 0 {
                Some(buyin)
            } else {
                None::<u32>
            },
            p.bet is None,
    {
        let money = if buyin > 0 {
            Some(buyin)
        } else {
            None
        };
        HumanPlayer { name, hand: Vec::new(), money, bet: None }
    }

    /// A player named "Player" with an empty hand and no money.
    pub fn new_default() -> (p: HumanPlayer)
        ensures
            p.name@ == "Player"@,
            p.hand@.len() == 0,
            p.money is None,
            p.bet is None,
    {
        HumanPlayer { name: "Player".to_owned(), hand: Vec::new(), money: None, bet: None }
    }

    /// Appends a dealt card to the player's hand.
    pub fn recieve_card(&mut self, card: Card)
        ensures
            final(self).hand@ == old(self).hand@.push(card),
            final(self).name@ == old(self).name@,
            final(self).money == old(self).money,
            final(self).bet == old(self).bet,
    {
        self.hand.push(card);
    }

    /// The player's cards, read-only.
    pub fn get_hand_slice(&self) -> (r: &[Card])
        ensures
            r@ == self.hand@,
    {
        self.hand.as_slice()
    }

    /// Puts `amount` aside as the round's bet. A bet of zero means the
    /// player sits the round out, and a bet above the player's money is
    /// refused so the caller can ask again; an accepted bet is taken out of
    /// the money at once. A player without money cannot bet at all.
    pub fn place_bet(&mut self, amount: u32) -> (accepted: bool)
        ensures
            final(self).name@ == old(self).name@,
            final(self).hand@ == old(self).hand@,
            match old(self).money {
                None => {
                    &&& accepted
                    &&& final(self).money == old(self).money
                    &&& final(self).bet == old(self).bet
                },
                Some(funds) => {
                    if amount == 0 {
                        &&& accepted
                        &&& final(self).money == old(self).money
                        &&& final(self).bet == old(self).bet
                    } else if amount <= funds {
                        &&& accepted
                        &&& final(self).money == Some((funds - amount) as u32)
                        &&& final(self).bet == Some(amount)
                    } else {
                        &&& !accepted
                        &&& final(self).money == old(self).money
                        &&& final(self).bet == old(self).bet
                    }
                },
            },
    {
        match self.money {
            None => true,
            Some(funds) => {
                if amount == 0 {
                    true
                } else if amount <= funds {
                    self.bet = Some(amount);
                    self.money = Some(funds - amount);
                    true
                } else {
                    false
                }
            },
        }
    }
}

} // verus!
