//! Players at the table: the human players, the bot, and the bookkeeping
//! of their money and bets that both kinds share.

pub mod auto_player;
pub mod human_player;

pub use auto_player::AutoPlayer;
pub use human_player::HumanPlayer;

use crate::blackjack::{payout_winnings, PayoutRatio, PlayerRoundResult};
use crate::cards::Card;
use vstd::prelude::*;

verus! {

/// One seat at the table: a human player or the bot. The set of player
/// kinds is closed; each kind carries its own hand and purse.
pub enum Participant {
    Human(HumanPlayer),
    Bot(AutoPlayer),
}

impl Participant {
    /// The player's current hand.
    pub open spec fn hand_seq(self) -> Seq<Card> {
        match self {
            Participant::Human(p) => p.hand@,
            Participant::Bot(p) => p.hand@,
        }
    }

    /// The player's money: `None` means the player does not bet at all.
    pub open spec fn money_of(self) -> Option<u32> {
        match self {
            Participant::Human(p) => p.money,
            Participant::Bot(p) => p.money,
        }
    }

    /// The player's bet for the current round, if any.
    pub open spec fn bet_of(self) -> Option<u32> {
        match self {
            Participant::Human(p) => p.bet,
            Participant::Bot(p) => p.bet,
        }
    }

    /// Whether this seat is played by the bot.
    pub open spec fn is_bot(self) -> bool {
        match self {
            Participant::Human(_) => false,
            Participant::Bot(_) => true,
        }
    }

    /// The player's name as it is shown at the table.
    pub open spec fn name_of(self) -> Seq<char> {
        match self {
            Participant::Human(p) => p.name@,
            Participant::Bot(_) => "Bot"@,
        }
    }

    /// The two values are the same player with the same purse; only the
    /// hand may differ.
    pub open spec fn same_player(self, other: Participant) -> bool {
        &&& self.is_bot() == other.is_bot()
        &&& self.name_of() == other.name_of()
        &&& self.money_of() == other.money_of()
        &&& self.bet_of() == other.bet_of()
    }

    /// A bet is only ever placed out of money, so a player with a bet has
    /// a purse.
    pub open spec fn purse_ok(self) -> bool {
        self.bet_of() is Some ==> self.money_of() is Some
    }

    /// Whether this seat is played by the bot, as executable code.
    pub fn is_bot_player(&self) -> (r: bool)
        ensures
            r == self.is_bot(),
    {
        match self {
            Participant::Human(_) => false,
            Participant::Bot(_) => true,
        }
    }

    /// Appends a dealt card to the player's hand.
    pub fn recieve_card(&mut self, card: Card)
        ensures
            final(self).hand_seq() == old(self).hand_seq().push(card),
            final(self).same_player(*old(self)),
    {
        match self {
            Participant::Human(p) => p.hand.push(card),
            Participant::Bot(p) => p.hand.push(card),
        }
    }

    /// Empties the player's hand at the end of a round.
    pub fn discard_hand(&mut self)
        ensures
            final(self).hand_seq().len() == 0,
            final(self).same_player(*old(self)),
    {
        match self {
            Participant::Human(p) => p.hand.clear(),
            Participant::Bot(p) => p.hand.clear(),
        }
    }

    /// The player's cards, read-only.
    pub fn get_hand_slice(&self) -> (r: &[Card])
        ensures
            r@ == self.hand_seq(),
    {
        match self {
            Participant::Human(p) => p.hand.as_slice(),
            Participant::Bot(p) => p.hand.as_slice(),
        }
    }

    /// Tops the player's money back up to the buy-in, but only when the
    /// player is broke: money that is `None` (a non-betting player) or
    /// positive stays as it is.
    pub fn buy_in_if_broke(&mut self, buy_in_amount: u32)
        ensures
            final(self).money_of() == if old(self).money_of() == Some(0u32) {
                Some(buy_in_amount)
            } else {
                old(self).money_of()
            },
            final(self).bet_of() == old(self).bet_of(),
            final(self).hand_seq() == old(self).hand_seq(),
            final(self).is_bot() == old(self).is_bot(),
            final(self).name_of() == old(self).name_of(),
    {
        match self {
            Participant::Human(p) => buy_in(&mut p.money, buy_in_amount),
            Participant::Bot(p) => buy_in(&mut p.money, buy_in_amount),
        }
    }

    /// Settles the player's bet for the round's outcome: the winnings for
    /// the outcome are credited to the money and the bet is cleared. A
    /// player without a bet is left untouched.
    pub fn handle_round_result(&mut self, result: PlayerRoundResult, ratio: &PayoutRatio)
        requires
            ratio.denominator > 0,
            old(self).purse_ok(),
            old(self).bet_of() is Some ==> old(self).money_of()->Some_0 + payout_winnings(
                result,
                old(self).bet_of()->Some_0 as nat,
                *ratio,
            ) <= u32::MAX,
        ensures
            old(self).bet_of() is None ==> final(self).money_of() == old(self).money_of()
                && final(self).bet_of() is None,
            old(self).bet_of() is Some ==> final(self).money_of() == Some(
                (old(self).money_of()->Some_0 + payout_winnings(
                    result,
                    old(self).bet_of()->Some_0 as nat,
                    *ratio,
                )) as u32,
            ) && final(self).bet_of() is None,
            final(self).hand_seq() == old(self).hand_seq(),
            final(self).is_bot() == old(self).is_bot(),
            final(self).name_of() == old(self).name_of(),
            final(self).purse_ok(),
    {
        match self {
            Participant::Human(p) => settle_purse(&mut p.money, &mut p.bet, result, ratio),
            Participant::Bot(p) => settle_purse(&mut p.money, &mut p.bet, result, ratio),
        }
    }
}

/// Tops money up to `amount` exactly when it is `Some(0)`.
fn buy_in(money: &mut Option<u32>, amount: u32)
    ensures
        *final(money) == if *old(money) == Some(0u32) {
            Some(amount)
        } else {
            *old(money)
        },
{
    match *money {
        Some(m) => {
            if m == 0 {
                *money = Some(amount);
            }
        },
        None => {},
    }
}

/// Credits the winnings for `result` to `money` and clears `bet`. With no
/// bet placed, nothing changes; the bet itself was already taken out of the
/// money when it was placed, so a standoff crediting the bet back restores
/// the purse exactly.
fn settle_purse(
    money: &mut Option<u32>,
    bet: &mut Option<u32>,
    result: PlayerRoundResult,
    ratio: &PayoutRatio,
)
    requires
        ratio.denominator > 0,
        *old(bet) is Some ==> *old(money) is Some,
        *old(bet) is Some ==> old(money)->Some_0 + payout_winnings(
            result,
            old(bet)->Some_0 as nat,
            *ratio,
        ) <= u32::MAX,
    ensures
        *old(bet) is None ==> *final(money) == *old(money) && *final(bet) == *old(bet),
        *old(bet) is Some ==> *final(money) == Some(
            (old(money)->Some_0 + payout_winnings(result, old(bet)->Some_0 as nat, *ratio)) as u32,
        ) && *final(bet) is None,
{
    match *bet {
        None => {},
        Some(b) => {
            let m = money.unwrap();
            let winnings: u64 = match result {
                PlayerRoundResult::Natural => {
                    let num = ratio.numerator as u64;
                    let stake = b as u64;
                    proof {
                        assert(num * stake <= 0xFFFF_FFFFu64 * 0xFFFF_FFFFu64) by (nonlinear_arith)
                            requires
                                num <= 0xFFFF_FFFFu64,
                                stake <= 0xFFFF_FFFFu64,
                        ;
                    }
                    let bonus = (num * stake) / (ratio.denominator as u64);
                    proof {
                        vstd::arithmetic::div_mod::lemma_div_nonincreasing(
                            (num * stake) as int,
                            ratio.denominator as int,
                        );
                    }
                    stake + bonus
                },
                PlayerRoundResult::Win => 2 * (b as u64),
                PlayerRoundResult::Standoff => b as u64,
                PlayerRoundResult::Lose => 0,
            };
            proof {
                assert(winnings == payout_winnings(result, b as nat, *ratio));
            }
            *money = Some(m + winnings as u32);
            *bet = None;
        },
    }
}

} // verus!
