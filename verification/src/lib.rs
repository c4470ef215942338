//! A verified Blackjack round engine: cards and decks, hand valuation,
//! the dealer's and the bot's decision policies, the round state machine,
//! and payout settlement.

pub mod blackjack;
pub mod cards;
