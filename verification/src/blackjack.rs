//! Blackjack round logic: hand valuation, the round state machine, and
//! payout settlement.

pub mod actors;

use crate::blackjack::actors::dealers::StandardDealer;
use crate::blackjack::actors::players::auto_player::bot_policy;
use crate::blackjack::actors::players::{AutoPlayer, HumanPlayer, Participant};
use crate::blackjack::actors::Action;
use crate::cards;
use crate::cards::{Card, Deck, Rank};
use vstd::multiset::Multiset;
use vstd::prelude::*;

verus! {

/// The result of a round for one player.
#[derive(Debug, Copy, Clone, PartialEq, Eq, Structural)]
pub enum PlayerRoundResult {
    /// A natural (Blackjack): 21 in the first two cards, against a dealer
    /// without one.
    Natural,
    /// More than the dealer at showdown, or the dealer went bust.
    Win,
    /// Bust, or less than the dealer at showdown.
    Lose,
    /// Exactly the dealer's value at showdown, or a natural against the
    /// dealer's natural.
    Standoff,
}

/// A fatal condition that ends a round without a result.
#[derive(Debug, Copy, Clone, PartialEq, Eq, Structural)]
pub enum RoundError {
    /// A draw was required but the deck had no cards left: the round cannot
    /// continue, the table was configured with too few decks.
    DeckExhausted,
}

/// The house payout for a natural, as an exact ratio: 3:2 is written as
/// numerator 3 and denominator 2. A winning natural pays the bet back plus
/// the bet times this ratio, rounded down.
#[derive(Debug, Copy, Clone, PartialEq, Eq, Structural)]
pub struct PayoutRatio {
    pub numerator: u32,
    pub denominator: u32,
}

/// What a player's bet earns back for a given outcome: a natural returns the
/// bet plus the ratio of the bet rounded down, a win returns twice the bet,
/// a standoff returns exactly the bet, and a loss returns nothing.
pub open spec fn payout_winnings(result: PlayerRoundResult, bet: nat, ratio: PayoutRatio) -> nat {
    match result {
        PlayerRoundResult::Natural => (bet + (ratio.numerator as nat * bet) as int / (
        ratio.denominator as int)) as nat,
        PlayerRoundResult::Win => 2 * bet,
        PlayerRoundResult::Standoff => bet,
        PlayerRoundResult::Lose => 0,
    }
}

/// The number of points a card is worth before any ace is upgraded:
/// an ace counts 1, the face cards count 10, every other rank counts
/// its face value.
pub open spec fn card_points(c: Card) -> nat {
    match c.rank {
        Rank::Ace => 1,
        Rank::Two => 2,
        Rank::Three => 3,
        Rank::Four => 4,
        Rank::Five => 5,
        Rank::Six => 6,
        Rank::Seven => 7,
        Rank::Eight => 8,
        Rank::Nine => 9,
        Rank::Ten => 10,
        Rank::Jack => 10,
        Rank::Queen => 10,
        Rank::King => 10,
    }
}

/// The sum of a hand's card points, with every ace counted as 1.
pub open spec fn raw_hand_value(h: Seq<Card>) -> nat
    decreases h.len(),
{
    if h.len() == 0 {
        0
    } else {
        raw_hand_value(h.drop_last()) + card_points(h.last())
    }
}

/// Whether the hand holds at least one ace.
pub open spec fn hand_has_ace(h: Seq<Card>) -> bool {
    exists|i: int| 0 <= i < h.len() && h[i].rank == Rank::Ace
}

/// A hand is soft when one of its aces can still be counted as 11
/// without busting.
pub open spec fn soft_hand(h: Seq<Card>) -> bool {
    raw_hand_value(h) <= 11 && hand_has_ace(h)
}

/// The Blackjack value of a hand: the raw value, plus 10 when the hand is
/// soft (one ace promoted from 1 to 11).
pub open spec fn hand_value(h: Seq<Card>) -> nat {
    if soft_hand(h) {
        raw_hand_value(h) + 10
    } else {
        raw_hand_value(h)
    }
}

/// A natural: exactly two cards worth 21 together.
pub open spec fn natural_hand(h: Seq<Card>) -> bool {
    hand_value(h) == 21 && h.len() == 2
}

/// A bust: a hand worth more than 21.
pub open spec fn bust_hand(h: Seq<Card>) -> bool {
    hand_value(h) > 21
}

/// Every card is worth between 1 and 10 points, so a hand's raw value is
/// bounded by its length on both sides.
pub proof fn lemma_raw_value_bounds(h: Seq<Card>)
    ensures
        h.len() <= raw_hand_value(h) <= 10 * h.len(),
    decreases h.len(),
{
    if h.len() > 0 {
        lemma_raw_value_bounds(h.drop_last());
    }
}

/// The value function is total over finite hands, and busting is exactly
/// the value exceeding 21: a hand that is not bust is worth at most 21.
pub proof fn lemma_bust_iff_value_over_21(h: Seq<Card>)
    ensures
        bust_hand(h) <==> hand_value(h) > 21,
        !bust_hand(h) <==> hand_value(h) <= 21,
{
}

/// The numeric value of a card in Blackjack. An ace counts 1 here; it is
/// promoted to 11 by `get_hand_value` when the whole hand allows it.
pub fn card_value(card: &Card) -> (v: u32)
    ensures
        v == card_points(*card),
{
    match card.rank {
        Rank::Ace => 1,
        Rank::Two => 2,
        Rank::Three => 3,
        Rank::Four => 4,
        Rank::Five => 5,
        Rank::Six => 6,
        Rank::Seven => 7,
        Rank::Eight => 8,
        Rank::Nine => 9,
        Rank::Ten => 10,
        Rank::Jack => 10,
        Rank::Queen => 10,
        Rank::King => 10,
    }
}

/// The raw value of a hand: the sum of its card points, aces counted as 1.
pub fn get_raw_hand_value(hand: &[Card]) -> (v: u32)
    requires
        10 * hand@.len() <= u32::MAX,
    ensures
        v == raw_hand_value(hand@),
{
    let mut total: u32 = 0;
    let mut i: usize = 0;
    proof {
        lemma_raw_value_bounds(hand@);
    }
    while i < hand.len()
        invariant
            i <= hand@.len(),
            10 * hand@.len() <= u32::MAX,
            total == raw_hand_value(hand@.take(i as int)),
            total <= 10 * i,
        decreases hand@.len() - i,
    {
        proof {
            lemma_raw_value_bounds(hand@.take(i as int));
            assert(hand@.take(i as int + 1).drop_last() =~= hand@.take(i as int));
            assert(hand@.take(i as int + 1).last() == hand@[i as int]);
        }
        total = total + card_value(&hand[i]);
        i = i + 1;
    }
    proof {
        assert(hand@.take(hand@.len() as int) =~= hand@);
    }
    total
}

/// True when the hand has an ace that can still be counted as 11, given the
/// hand's raw value.
pub fn is_soft_hand(raw_value: u32, hand: &[Card]) -> (soft: bool)
    ensures
        soft == (raw_value <= 11 && hand_has_ace(hand@)),
{
    if raw_value > 11 {
        return false;
    }
    let mut i: usize = 0;
    while i < hand.len()
        invariant
            i <= hand@.len(),
            raw_value <= 11,
            forall|k: int| 0 <= k < i ==> hand@[k].rank != Rank::Ace,
        decreases hand@.len() - i,
    {
        if hand[i].rank == Rank::Ace {
            proof {
                assert(hand_has_ace(hand@)) by {
                    assert(hand@[i as int].rank == Rank::Ace);
                }
            }
            return true;
        }
        i = i + 1;
    }
    false
}

/// The value of a hand, with one ace counted as 11 when that does not bust
/// the hand.
pub fn get_hand_value(hand: &[Card]) -> (v: u32)
    requires
        10 * hand@.len() <= u32::MAX,
    ensures
        v == hand_value(hand@),
{
    let raw_value = get_raw_hand_value(hand);
    if is_soft_hand(raw_value, hand) {
        raw_value + 10
    } else {
        raw_value
    }
}

/// True exactly when the hand is a natural: two cards worth 21 together.
pub fn hand_is_natural(hand: &[Card]) -> (b: bool)
    requires
        10 * hand@.len() <= u32::MAX,
    ensures
        b == natural_hand(hand@),
{
    get_hand_value(hand) == 21 && hand.len() == 2
}

/// True exactly when the hand is bust: worth more than 21.
pub fn hand_is_bust(hand: &[Card]) -> (b: bool)
    requires
        10 * hand@.len() <= u32::MAX,
    ensures
        b == bust_hand(hand@),
{
    get_hand_value(hand) > 21
}

/// The deck length at or below which the carried-over deck is discarded and
/// a fresh shuffled multi-deck is built: at least 40 cards, and at least a
/// fifth of the full multi-deck.
pub open spec fn reshuffle_threshold(num_decks: nat) -> nat {
    if num_decks * 52 / 5 > 40 {
        num_decks * 52 / 5
    } else {
        40
    }
}

/// The deck length at or below which the deck must be replaced by a fresh
/// shuffled multi-deck before the next round, like the cut card in a casino
/// shoe. `num_decks` is the same count that the deck was built with.
pub fn get_reshuffle_number(num_decks: u32) -> (n: u32)
    requires
        52 * num_decks <= u32::MAX,
    ensures
        n == reshuffle_threshold(num_decks as nat),
{
    let fifth_of_shoe = num_decks * 52 / 5;
    if fifth_of_shoe > 40 {
        fifth_of_shoe
    } else {
        40
    }
}

/// One player of a finished round, paired with the round's outcome for them.
pub type PlayerResult = (Participant, PlayerRoundResult);

/// The outcomes of a finished round, one per player, in table order.
pub type RoundResult = Vec<PlayerResult>;

/// The outcome for a player when the dealer was dealt a natural: a natural
/// of their own ties, anything else loses.
pub open spec fn dealer_natural_outcome(h: Seq<Card>) -> PlayerRoundResult {
    if natural_hand(h) {
        PlayerRoundResult::Standoff
    } else {
        PlayerRoundResult::Lose
    }
}

/// The outcome for a player when every player is bust or natural and the
/// dealer therefore never plays: a natural is paid as one, anything else
/// is bust and loses.
pub open spec fn all_finished_outcome(h: Seq<Card>) -> PlayerRoundResult {
    if natural_hand(h) {
        PlayerRoundResult::Natural
    } else {
        PlayerRoundResult::Lose
    }
}

/// The outcome for a player when the dealer goes bust: every standing hand
/// wins, every bust hand still loses.
pub open spec fn dealer_bust_outcome(h: Seq<Card>) -> PlayerRoundResult {
    if bust_hand(h) {
        PlayerRoundResult::Lose
    } else {
        PlayerRoundResult::Win
    }
}

/// The outcome for a player at showdown, against a dealer that stood
/// without busting: a natural wins outright, a bust loses, and otherwise
/// the hand values are compared.
pub open spec fn showdown_outcome(player_hand: Seq<Card>, dealer_hand: Seq<Card>) -> PlayerRoundResult {
    if natural_hand(player_hand) {
        PlayerRoundResult::Win
    } else if bust_hand(player_hand) {
        PlayerRoundResult::Lose
    } else if hand_value(player_hand) > hand_value(dealer_hand) {
        PlayerRoundResult::Win
    } else if hand_value(player_hand) < hand_value(dealer_hand) {
        PlayerRoundResult::Lose
    } else {
        PlayerRoundResult::Standoff
    }
}

/// Every hand in the round's results is a natural.
pub open spec fn all_results_natural(results: Seq<PlayerResult>) -> bool {
    forall|j: int| 0 <= j < results.len() ==> natural_hand((#[trigger] results[j]).0.hand_seq())
}

/// Every hand in the round's results is bust or natural: nobody is left to
/// play against the dealer.
pub open spec fn all_results_finished(results: Seq<PlayerResult>) -> bool {
    forall|j: int|
        0 <= j < results.len() ==> bust_hand((#[trigger] results[j]).0.hand_seq()) || natural_hand(
            results[j].0.hand_seq(),
        )
}

/// The single invariant of a finished round: given the final hands and the
/// dealer's final hand, each player's outcome is the one demanded by the
/// round's exit point. It is kept opaque so that callers handle it as one
/// fact; the stage functions that establish it reveal it locally. The exits are mutually exclusive: a dealer natural
/// ends the round at once; then a table of naturals wins outright; then a
/// table with no live hand is settled without a dealer turn; then a dealer
/// bust pays every standing hand; and otherwise the values are compared at
/// showdown.
#[verifier::opaque]
pub open spec fn round_outcomes_correct(
    results: Seq<PlayerResult>,
    dealer_hand: Seq<Card>,
) -> bool {
    if natural_hand(dealer_hand) {
        forall|j: int|
            0 <= j < results.len() ==> (#[trigger] results[j]).1 == dealer_natural_outcome(
                results[j].0.hand_seq(),
            )
    } else if all_results_natural(results) {
        forall|j: int| 0 <= j < results.len() ==> (#[trigger] results[j]).1 == PlayerRoundResult::Win
    } else if all_results_finished(results) {
        forall|j: int|
            0 <= j < results.len() ==> (#[trigger] results[j]).1 == all_finished_outcome(
                results[j].0.hand_seq(),
            )
    } else if bust_hand(dealer_hand) {
        forall|j: int|
            0 <= j < results.len() ==> (#[trigger] results[j]).1 == dealer_bust_outcome(
                results[j].0.hand_seq(),
            )
    } else {
        forall|j: int|
            0 <= j < results.len() ==> (#[trigger] results[j]).1 == showdown_outcome(
                results[j].0.hand_seq(),
                dealer_hand,
            )
    }
}

/// A player's money once an outcome is settled: the winnings for the
/// outcome are credited, and a player without a bet is untouched.
pub open spec fn settled_money(
    p: Participant,
    result: PlayerRoundResult,
    ratio: PayoutRatio,
) -> Option<u32> {
    match p.bet_of() {
        None => p.money_of(),
        Some(b) => Some(
            (p.money_of()->Some_0 + payout_winnings(result, b as nat, ratio)) as u32,
        ),
    }
}

/// Options for running a game of blackjack.
pub struct GameOptions {
    /// How many human players are at the table.
    pub num_players: u32,
    /// Whether a bot player joins the table.
    pub bot_player: bool,
    /// How many standard decks the shoe is built from (six is the most
    /// common, for a 312 card shoe).
    pub num_decks: u32,
    /// The money each betting player starts with, and is topped back up to
    /// when broke. Zero disables betting for newly created players.
    pub betting_buyin: u32,
    /// The house payout ratio for a natural, usually 3:2 or 6:5.
    pub payout_ratio: PayoutRatio,
}

/// The part of a round the state machine stands before: checking for dealt
/// naturals, playing the players' turns in table order, or playing the
/// dealer's hand (showdown follows immediately when the dealer stands).
#[derive(Debug, Copy, Clone, PartialEq, Eq, Structural)]
pub enum RoundPhase {
    NaturalCheck,
    PlayerTurns,
    DealerTurn,
}

/// A table between rounds: players with empty hands, a dealer, and a deck,
/// ready to deal.
pub struct ReadyGame {
    pub players: Vec<Participant>,
    pub dealer: StandardDealer,
    pub deck: Deck,
}

/// A round in progress. `next_player` is the seat whose turn is being
/// played; `awaiting_action` says the round is paused for that (human)
/// player's decision.
pub struct InProgressGame {
    pub players: Vec<Participant>,
    pub dealer: StandardDealer,
    pub deck: Deck,
    pub phase: RoundPhase,
    pub next_player: usize,
    pub awaiting_action: bool,
}

/// A seat whose turn is over: the player was dealt a natural and never
/// acted, went bust, or stopped drawing. The dealer's visible upcard is
/// what a stopping bot decided against, so a bot only stops where its
/// policy says stand; a human stops at will, through the pause/resume
/// protocol.
pub open spec fn seat_turn_settled(p: Participant, upcard: Card) -> bool {
    ||| natural_hand(p.hand_seq())
    ||| bust_hand(p.hand_seq())
    ||| (p.is_bot() ==> bot_policy(p.hand_seq(), upcard) == Action::Stand)
}

impl InProgressGame {
    /// Every hand was dealt its two opening cards and stays small enough
    /// for its value to be computed: a hand only grows while it is not
    /// bust, so it never exceeds 22 cards.
    pub open spec fn hands_ok(self) -> bool {
        &&& forall|j: int|
            0 <= j < self.players@.len() ==> 2 <= (#[trigger] self.players@[j]).hand_seq().len()
                <= 22
        &&& 2 <= self.dealer.hand@.len() <= 22
    }

    /// Every bet at the table was placed out of money.
    pub open spec fn purses_ok(self) -> bool {
        forall|j: int| 0 <= j < self.players@.len() ==> (#[trigger] self.players@[j]).purse_ok()
    }

    /// Some player was not dealt a natural.
    pub open spec fn some_player_not_natural(self) -> bool {
        exists|j: int|
            0 <= j < self.players@.len() && !natural_hand(
                (#[trigger] self.players@[j]).hand_seq(),
            )
    }

    /// Some player's hand is neither natural nor bust: a live hand the
    /// dealer must play against.
    pub open spec fn some_player_live(self) -> bool {
        exists|j: int|
            0 <= j < self.players@.len() && !natural_hand((#[trigger] self.players@[j]).hand_seq())
                && !bust_hand(self.players@[j].hand_seq())
    }

    /// Every card of the round, wherever it lies: still in the deck, in a
    /// player's hand, or in the dealer's. Drawing moves cards around but
    /// never changes this count.
    pub open spec fn cards_in_play(self) -> nat {
        self.deck@.len() + total_hand_len(self.players@) + self.dealer.hand@.len()
    }

    /// Every card of the round, wherever it lies, counted with multiplicity:
    /// a draw moves one card from the deck into a hand and never invents,
    /// duplicates or discards one, so this multiset never changes.
    pub open spec fn cards_in_play_multiset(self) -> Multiset<Card> {
        self.deck@.to_multiset().add(hands_multiset(self.players@)).add(
            self.dealer.hand@.to_multiset(),
        )
    }

    /// The round holds enough cards that no draw can ever find the deck
    /// empty: a hand only draws while it is at most 21 cards, so 22 cards
    /// per seat (the dealer included) always suffice.
    pub open spec fn ample_deck(self) -> bool {
        self.cards_in_play() >= 22 * (self.players@.len() + 1)
    }

    /// What holds of a round at every pause: the hands are dealt and small,
    /// the purses are consistent, and the phase invariants of the state
    /// machine hold. Past the natural check the dealer has no natural and
    /// some player has none either; the dealer only plays against a live
    /// hand; and a pause for input always points at a human player whose
    /// hand is still live.
    pub open spec fn wf(self) -> bool {
        &&& self.hands_ok()
        &&& self.purses_ok()
        &&& self.next_player <= self.players@.len()
        &&& (self.phase != RoundPhase::NaturalCheck ==> !natural_hand(self.dealer.hand@)
            && self.some_player_not_natural())
        &&& (self.phase == RoundPhase::DealerTurn ==> self.some_player_live())
        &&& (self.phase == RoundPhase::PlayerTurns ==> forall|j: int|
            0 <= j < self.next_player ==> seat_turn_settled(
                #[trigger] self.players@[j],
                self.dealer.hand@[1],
            ))
        &&& (self.phase == RoundPhase::DealerTurn ==> forall|j: int|
            0 <= j < self.players@.len() ==> seat_turn_settled(
                #[trigger] self.players@[j],
                self.dealer.hand@[1],
            ))
        &&& (self.awaiting_action ==> {
            &&& self.phase == RoundPhase::PlayerTurns
            &&& self.next_player < self.players@.len()
            &&& !self.players@[self.next_player as int].is_bot()
            &&& !natural_hand(self.players@[self.next_player as int].hand_seq())
            &&& !bust_hand(self.players@[self.next_player as int].hand_seq())
        })
    }
}

/// What a round produces when driven forward: either every player's
/// outcome, or the round paused for a human decision.
pub enum IntermediateRoundResult {
    Finished { results: RoundResult, dealer: StandardDealer, leftover_deck: Deck },
    Unfinished(InProgressGame),
}

/// `after` is what is left of `before` once some cards were drawn from the
/// top (the end).
pub open spec fn drawn_from(after: Seq<Card>, before: Seq<Card>) -> bool {
    &&& after.len() <= before.len()
    &&& after == before.take(after.len() as int)
}

/// The players in `after` are the players in `before`, seat for seat, with
/// the same purses; their hands may have grown by drawn cards.
pub open spec fn preserves_players(before: Seq<Participant>, after: Seq<Participant>) -> bool {
    &&& after.len() == before.len()
    &&& forall|j: int|
        0 <= j < before.len() ==> (#[trigger] after[j]).same_player(before[j])
            && before[j].hand_seq().is_prefix_of(after[j].hand_seq())
}

/// The round's results list the players of `before`, seat for seat, with
/// the same purses; their hands may have grown by drawn cards.
pub open spec fn results_preserve_players(
    before: Seq<Participant>,
    results: Seq<PlayerResult>,
) -> bool {
    &&& results.len() == before.len()
    &&& forall|j: int|
        0 <= j < before.len() ==> (#[trigger] results[j]).0.same_player(before[j])
            && before[j].hand_seq().is_prefix_of(results[j].0.hand_seq())
}

/// The `k`-th card drawn from the top of deck `d`, counting from 0; the
/// top of the deck is its end.
pub open spec fn drawn_card(d: Seq<Card>, k: int) -> Card {
    d[d.len() - 1 - k]
}

/// The number of cards the players hold between them.
pub open spec fn total_hand_len(ps: Seq<Participant>) -> nat
    decreases ps.len(),
{
    if ps.len() == 0 {
        0
    } else {
        total_hand_len(ps.drop_last()) + ps.last().hand_seq().len()
    }
}

/// Replacing one player changes the held total by the difference of the two
/// hands.
proof fn lemma_total_hand_len_update(ps: Seq<Participant>, idx: int, p: Participant)
    requires
        0 <= idx < ps.len(),
    ensures
        total_hand_len(ps.update(idx, p)) + ps[idx].hand_seq().len() == total_hand_len(ps)
            + p.hand_seq().len(),
    decreases ps.len(),
{
    if idx == ps.len() - 1 {
        assert(ps.update(idx, p).drop_last() =~= ps.drop_last());
    } else {
        assert(ps.update(idx, p).drop_last() =~= ps.drop_last().update(idx, p));
        lemma_total_hand_len_update(ps.drop_last(), idx, p);
    }
}

/// With every hand at most 22 cards, the held total is at most 22 per
/// player.
proof fn lemma_total_hand_len_bound(ps: Seq<Participant>)
    requires
        forall|j: int| 0 <= j < ps.len() ==> (#[trigger] ps[j]).hand_seq().len() <= 22,
    ensures
        total_hand_len(ps) <= 22 * ps.len(),
    decreases ps.len(),
{
    if ps.len() > 0 {
        lemma_total_hand_len_bound(ps.drop_last());
    }
}

/// As above, but one player known to hold at most 21 cards tightens the
/// bound by one.
proof fn lemma_total_hand_len_bound_except(ps: Seq<Participant>, idx: int)
    requires
        0 <= idx < ps.len(),
        forall|j: int| 0 <= j < ps.len() ==> (#[trigger] ps[j]).hand_seq().len() <= 22,
        ps[idx].hand_seq().len() <= 21,
    ensures
        total_hand_len(ps) <= 22 * ps.len() - 1,
    decreases ps.len(),
{
    if idx == ps.len() - 1 {
        lemma_total_hand_len_bound(ps.drop_last());
    } else {
        lemma_total_hand_len_bound_except(ps.drop_last(), idx);
    }
}

/// With every hand holding exactly two cards, the held total is exactly two
/// per player.
proof fn lemma_total_hand_len_dealt(ps: Seq<Participant>)
    requires
        forall|j: int| 0 <= j < ps.len() ==> (#[trigger] ps[j]).hand_seq().len() == 2,
    ensures
        total_hand_len(ps) == 2 * ps.len(),
    decreases ps.len(),
{
    if ps.len() > 0 {
        lemma_total_hand_len_dealt(ps.drop_last());
    }
}

/// All cards the players hold between them, as a multiset.
pub open spec fn hands_multiset(ps: Seq<Participant>) -> Multiset<Card>
    decreases ps.len(),
{
    if ps.len() == 0 {
        Multiset::empty()
    } else {
        hands_multiset(ps.drop_last()).add(ps.last().hand_seq().to_multiset())
    }
}

/// Replacing one player exchanges exactly that player's cards in the held
/// multiset.
proof fn lemma_hands_multiset_update(ps: Seq<Participant>, idx: int, p: Participant)
    requires
        0 <= idx < ps.len(),
    ensures
        hands_multiset(ps.update(idx, p)).add(ps[idx].hand_seq().to_multiset())
            =~= hands_multiset(ps).add(p.hand_seq().to_multiset()),
    decreases ps.len(),
{
    if idx == ps.len() - 1 {
        assert(ps.update(idx, p).drop_last() =~= ps.drop_last());
        assert(hands_multiset(ps.update(idx, p)) == hands_multiset(ps.drop_last()).add(
            p.hand_seq().to_multiset(),
        ));
        assert(hands_multiset(ps) == hands_multiset(ps.drop_last()).add(
            ps[idx].hand_seq().to_multiset(),
        ));
        assert forall|c: Card|
            hands_multiset(ps.update(idx, p)).add(ps[idx].hand_seq().to_multiset()).count(c)
                == hands_multiset(ps).add(p.hand_seq().to_multiset()).count(c) by {}
    } else {
        assert(ps.update(idx, p).drop_last() =~= ps.drop_last().update(idx, p));
        lemma_hands_multiset_update(ps.drop_last(), idx, p);
        assert(hands_multiset(ps.update(idx, p)) == hands_multiset(
            ps.drop_last().update(idx, p),
        ).add(ps.last().hand_seq().to_multiset()));
        assert(hands_multiset(ps) == hands_multiset(ps.drop_last()).add(
            ps.last().hand_seq().to_multiset(),
        ));
        assert(ps.drop_last()[idx] == ps[idx]);
        assert forall|c: Card|
            hands_multiset(ps.update(idx, p)).add(ps[idx].hand_seq().to_multiset()).count(c)
                == hands_multiset(ps).add(p.hand_seq().to_multiset()).count(c) by {
            assert(hands_multiset(ps.drop_last().update(idx, p)).add(
                ps.drop_last()[idx].hand_seq().to_multiset(),
            ).count(c) == hands_multiset(ps.drop_last()).add(p.hand_seq().to_multiset()).count(c));
        }
    }
}

/// All cards the players listed in a round's results hold between them, as
/// a multiset.
pub open spec fn results_hands_multiset(rs: Seq<PlayerResult>) -> Multiset<Card>
    decreases rs.len(),
{
    if rs.len() == 0 {
        Multiset::empty()
    } else {
        results_hands_multiset(rs.drop_last()).add(rs.last().0.hand_seq().to_multiset())
    }
}

/// Results that hand every player back unchanged hold exactly the cards
/// the players held, card for card.
proof fn lemma_results_hands_multiset_eq(ps: Seq<Participant>, rs: Seq<PlayerResult>)
    requires
        rs.len() == ps.len(),
        forall|j: int| 0 <= j < rs.len() ==> (#[trigger] rs[j]).0 == ps[j],
    ensures
        results_hands_multiset(rs) == hands_multiset(ps),
    decreases rs.len(),
{
    if rs.len() > 0 {
        lemma_results_hands_multiset_eq(ps.drop_last(), rs.drop_last());
    }
}

/// The number of cards the players listed in a round's results hold
/// between them.
pub open spec fn total_result_hand_len(rs: Seq<PlayerResult>) -> nat
    decreases rs.len(),
{
    if rs.len() == 0 {
        0
    } else {
        total_result_hand_len(rs.drop_last()) + rs.last().0.hand_seq().len()
    }
}

/// Results that hand every player back unchanged hold exactly the cards
/// the players held.
proof fn lemma_total_result_hand_len_eq(ps: Seq<Participant>, rs: Seq<PlayerResult>)
    requires
        rs.len() == ps.len(),
        forall|j: int| 0 <= j < rs.len() ==> (#[trigger] rs[j]).0 == ps[j],
    ensures
        total_result_hand_len(rs) == total_hand_len(ps),
    decreases rs.len(),
{
    if rs.len() > 0 {
        lemma_total_result_hand_len_eq(ps.drop_last(), rs.drop_last());
    }
}

/// Every hand is a prefix of itself.
proof fn lemma_prefix_refl(h: Seq<Card>)
    ensures
        h.is_prefix_of(h),
{
    assert(h.subrange(0, h.len() as int) =~= h);
}

/// A prefix of a hand stays a prefix when the hand grows by one card.
proof fn lemma_prefix_push(a: Seq<Card>, b: Seq<Card>, c: Card)
    requires
        a.is_prefix_of(b),
    ensures
        a.is_prefix_of(b.push(c)),
{
    assert(b.push(c).subrange(0, a.len() as int) =~= b.subrange(0, a.len() as int));
}

/// A hand that was dealt at least two cards and only ever grew is still
/// exactly the dealt hand whenever it is a natural, since a natural has
/// exactly two cards.
proof fn lemma_natural_prefix_unchanged(before: Seq<Card>, after: Seq<Card>)
    requires
        before.is_prefix_of(after),
        before.len() >= 2,
        natural_hand(after),
    ensures
        before == after,
{
    assert(before =~= after);
}

/// One draw moves exactly the deck's top card into the hitting player's
/// hand: every seat keeps its identity and purse, every hand keeps what it
/// had, the held total grows by one, and the cards in play are the same
/// multiset as before the draw.
proof fn lemma_player_hit_step(
    base: Seq<Participant>,
    before: Seq<Participant>,
    after: Seq<Participant>,
    deck_before: Seq<Card>,
    deck_after: Seq<Card>,
    idx: int,
    card: Card,
)
    requires
        preserves_players(base, before),
        0 <= idx < before.len(),
        after == before.update(idx, after[idx]),
        after[idx].same_player(before[idx]),
        after[idx].hand_seq() == before[idx].hand_seq().push(card),
        deck_before.len() > 0,
        card == deck_before.last(),
        deck_after == deck_before.drop_last(),
    ensures
        preserves_players(base, after),
        total_hand_len(after) == total_hand_len(before) + 1,
        deck_after.to_multiset().add(hands_multiset(after)) =~= deck_before.to_multiset().add(
            hands_multiset(before),
        ),
{
    assert forall|j: int| 0 <= j < base.len() implies (#[trigger] after[j]).same_player(base[j])
        && base[j].hand_seq().is_prefix_of(after[j].hand_seq()) by {
        if j == idx {
            lemma_prefix_push(base[j].hand_seq(), before[j].hand_seq(), card);
        }
    }
    lemma_total_hand_len_update(before, idx, after[idx]);
    lemma_hands_multiset_update(before, idx, after[idx]);
    assert(deck_before =~= deck_after.push(card));
    vstd::seq_lib::to_multiset_build(deck_after, card);
    vstd::seq_lib::to_multiset_build(before[idx].hand_seq(), card);
    assert forall|c: Card|
        deck_after.to_multiset().add(hands_multiset(after)).count(c)
            == deck_before.to_multiset().add(hands_multiset(before)).count(c) by {
        assert(hands_multiset(after).add(before[idx].hand_seq().to_multiset()).count(c)
            == hands_multiset(before).add(after[idx].hand_seq().to_multiset()).count(c));
    }
}

/// Every sequence of players preserves itself.
proof fn lemma_preserves_players_refl(ps: Seq<Participant>)
    ensures
        preserves_players(ps, ps),
{
    assert forall|j: int| 0 <= j < ps.len() implies (#[trigger] ps[j]).same_player(ps[j]) && ps[
        j
    ].hand_seq().is_prefix_of(ps[j].hand_seq()) by {
        assert(ps[j].hand_seq().subrange(0, ps[j].hand_seq().len() as int) =~= ps[j].hand_seq());
    }
}

/// Preservation of players composes across the phases of a round.
proof fn lemma_preserves_players_trans(a: Seq<Participant>, b: Seq<Participant>, c: Seq<Participant>)
    requires
        preserves_players(a, b),
        preserves_players(b, c),
    ensures
        preserves_players(a, c),
{
    assert forall|j: int| 0 <= j < a.len() implies (#[trigger] c[j]).same_player(a[j]) && a[
        j
    ].hand_seq().is_prefix_of(c[j].hand_seq()) by {
        let x = a[j].hand_seq();
        let y = b[j].hand_seq();
        let z = c[j].hand_seq();
        assert forall|i: int| 0 <= i < x.len() implies z[i] == x[i] by {
            assert(x[i] == y.subrange(0, x.len() as int)[i]);
            assert(y[i] == z.subrange(0, y.len() as int)[i]);
        }
        assert(x =~= z.subrange(0, x.len() as int));
    }
}

/// A round's results preserve the players it began with when the results
/// hand back, unchanged, players that themselves preserve the originals.
proof fn lemma_results_preserve_from_eq(
    before: Seq<Participant>,
    mid: Seq<Participant>,
    results: Seq<PlayerResult>,
)
    requires
        preserves_players(before, mid),
        results.len() == mid.len(),
        forall|j: int| 0 <= j < results.len() ==> (#[trigger] results[j]).0 == mid[j],
    ensures
        results_preserve_players(before, results),
{
}

/// What is left of a deck after drawing is itself left of any earlier deck.
proof fn lemma_drawn_from_trans(a: Seq<Card>, b: Seq<Card>, c: Seq<Card>)
    requires
        drawn_from(a, b),
        drawn_from(b, c),
    ensures
        drawn_from(a, c),
{
    assert(a =~= c.take(a.len() as int));
}

/// A deck is what is left of itself with nothing drawn.
proof fn lemma_drawn_from_refl(d: Seq<Card>)
    ensures
        drawn_from(d, d),
{
    assert(d =~= d.take(d.len() as int));
}

/// The first `count` cards drawn from the top of deck `d`, in draw order.
pub open spec fn drawn_cards(d: Seq<Card>, count: int) -> Seq<Card> {
    Seq::new(count as nat, |i: int| drawn_card(d, i))
}

/// Removes and returns the top card of the deck.
fn draw_top(deck: &mut Deck) -> (c: Card)
    requires
        old(deck)@.len() > 0,
    ensures
        c == old(deck)@.last(),
        final(deck)@ == old(deck)@.drop_last(),
{
    deck.pop().unwrap()
}

/// The seat index of the first human player: the bot, when present, sits
/// first.
pub open spec fn seat_offset(bot_player: bool) -> int {
    if bot_player {
        1
    } else {
        0
    }
}

impl ReadyGame {
    /// Between rounds every hand is empty and every bet was placed out of
    /// money.
    pub open spec fn wf(self) -> bool {
        &&& forall|j: int|
            0 <= j < self.players@.len() ==> (#[trigger] self.players@[j]).hand_seq().len() == 0
                && self.players@[j].purse_ok()
        &&& self.dealer.hand@.len() == 0
    }

    /// Seats the configured players (the bot first, then the human players
    /// with the given names) and builds a fresh shuffled deck.
    pub fn new(options: &GameOptions, names: Vec<String>) -> (game: ReadyGame)
        requires
            names@.len() == options.num_players,
            52 * options.num_decks <= usize::MAX,
        ensures
            game.wf(),
            game.players@.len() == options.num_players + if options.bot_player {
                1int
            } else {
                0int
            },
            options.bot_player ==> game.players@[0].is_bot(),
            forall|j: int|
                0 <= j < names@.len() ==> {
                    &&& !(#[trigger] game.players@[j + seat_offset(options.bot_player)]).is_bot()
                    &&& game.players@[j + seat_offset(options.bot_player)].name_of() == names@[j]@
                },
            forall|j: int|
                0 <= j < game.players@.len() ==> (#[trigger] game.players@[j]).money_of() == (
                if options.betting_buyin > 0 {
                    Some(options.betting_buyin)
                } else {
                    None::<u32>
                }) && game.players@[j].bet_of() is None,
            game.deck@.len() == 52 * options.num_decks,
            game.deck@.to_multiset() == cards::multideck(options.num_decks as nat).to_multiset(),
    {
        let ghost given_names = names@;
        let mut names = names;
        let mut players: Vec<Participant> = Vec::new();
        if options.bot_player {
            players.push(Participant::Bot(AutoPlayer::new(options.betting_buyin)));
        }
        let ghost offset = players@.len() as int;
        while names.len() > 0
            invariant
                offset == seat_offset(options.bot_player),
                players@.len() - offset + names@.len() == given_names.len(),
                offset <= players@.len(),
                names@ == given_names.skip(players@.len() - offset),
                options.bot_player ==> players@[0].is_bot() && players@[0].hand_seq().len() == 0
                    && players@[0].money_of() == (if options.betting_buyin > 0 {
                    Some(options.betting_buyin)
                } else {
                    None::<u32>
                }) && players@[0].bet_of() is None,
                forall|j: int|
                    0 <= j < players@.len() - offset ==> {
                        &&& !(#[trigger] players@[offset + j]).is_bot()
                        &&& players@[offset + j].name_of() == given_names[j]@
                        &&& players@[offset + j].hand_seq().len() == 0
                        &&& players@[offset + j].money_of() == (if options.betting_buyin > 0 {
                            Some(options.betting_buyin)
                        } else {
                            None::<u32>
                        })
                        &&& players@[offset + j].bet_of() is None
                    },
            decreases names@.len(),
        {
            proof {
                assert(names@[0] == given_names[players@.len() - offset]);
            }
            let name = names.remove(0);
            players.push(Participant::Human(HumanPlayer::new(name, options.betting_buyin)));
            proof {
                assert(names@ =~= given_names.skip(players@.len() - offset));
            }
        }
        let mut deck = cards::create_multideck(options.num_decks);
        cards::shuffle_deck(&mut deck);
        let game = ReadyGame { players, dealer: StandardDealer::new(), deck };
        proof {
            assert forall|j: int| 0 <= j < game.players@.len() implies (#[trigger] game.players@[
                j
            ]).hand_seq().len() == 0 && game.players@[j].purse_ok() && game.players@[j].money_of()
                == (if options.betting_buyin > 0 {
                Some(options.betting_buyin)
            } else {
                None::<u32>
            }) && game.players@[j].bet_of() is None by {
                if !(options.bot_player && j == 0) {
                    assert(game.players@[offset + (j - offset)].name_of() == given_names[j
                        - offset]@);
                }
            }
            assert forall|j: int| 0 <= j < given_names.len() implies !(#[trigger] game.players@[
                j + seat_offset(options.bot_player)
            ]).is_bot() && game.players@[j + seat_offset(options.bot_player)].name_of()
                == given_names[j]@ by {
                assert(!game.players@[offset + j].is_bot());
                assert(game.players@[offset + j].name_of() == given_names[j]@);
            }
        }
        game
    }

    /// Readies the table for the next round with the players of the last
    /// one: every broke player is bought back in, and the carried-over deck
    /// is kept when it is still above the reshuffle threshold, else replaced
    /// by a fresh shuffled multi-deck.
    pub fn from_previous_round(
        players: Vec<Participant>,
        leftover_deck: Deck,
        options: &GameOptions,
    ) -> (game: ReadyGame)
        requires
            forall|j: int|
                0 <= j < players@.len() ==> (#[trigger] players@[j]).hand_seq().len() == 0
                    && players@[j].purse_ok(),
            52 * options.num_decks <= usize::MAX,
            52 * options.num_decks <= u32::MAX,
        ensures
            game.wf(),
            game.players@.len() == players@.len(),
            forall|j: int|
                0 <= j < players@.len() ==> {
                    &&& (#[trigger] game.players@[j]).is_bot() == players@[j].is_bot()
                    &&& game.players@[j].name_of() == players@[j].name_of()
                    &&& game.players@[j].bet_of() == players@[j].bet_of()
                    &&& game.players@[j].hand_seq().len() == 0
                    &&& game.players@[j].money_of() == (if players@[j].money_of() == Some(0u32) {
                        Some(options.betting_buyin)
                    } else {
                        players@[j].money_of()
                    })
                },
            game.dealer.hand@.len() == 0,
            leftover_deck@.len() > reshuffle_threshold(options.num_decks as nat) ==> game.deck
                == leftover_deck,
            leftover_deck@.len() <= reshuffle_threshold(options.num_decks as nat) ==> {
                &&& game.deck@.len() == 52 * options.num_decks
                &&& game.deck@.to_multiset() == cards::multideck(
                    options.num_decks as nat,
                ).to_multiset()
            },
    {
        let ghost orig = players@;
        let mut ready_players = players;
        let mut idx: usize = 0;
        while idx < ready_players.len()
            invariant
                idx <= orig.len(),
                ready_players@.len() == orig.len(),
                forall|j: int|
                    idx <= j < orig.len() ==> (#[trigger] ready_players@[j]) == orig[j],
                forall|j: int|
                    0 <= j < orig.len() ==> (#[trigger] orig[j]).hand_seq().len() == 0
                        && orig[j].purse_ok(),
                forall|j: int|
                    0 <= j < idx ==> {
                        &&& (#[trigger] ready_players@[j]).is_bot() == orig[j].is_bot()
                        &&& ready_players@[j].name_of() == orig[j].name_of()
                        &&& ready_players@[j].bet_of() == orig[j].bet_of()
                        &&& ready_players@[j].hand_seq().len() == 0
                        &&& ready_players@[j].purse_ok()
                        &&& ready_players@[j].money_of() == (if orig[j].money_of() == Some(0u32) {
                            Some(options.betting_buyin)
                        } else {
                            orig[j].money_of()
                        })
                    },
            decreases orig.len() - idx,
        {
            ready_players[idx].buy_in_if_broke(options.betting_buyin);
            idx = idx + 1;
        }
        let deck: Deck;
        if leftover_deck.len() > get_reshuffle_number(options.num_decks) as usize {
            deck = leftover_deck;
        } else {
            let mut fresh = cards::create_multideck(options.num_decks);
            cards::shuffle_deck(&mut fresh);
            deck = fresh;
        }
        ReadyGame { players: ready_players, dealer: StandardDealer::new(), deck }
    }

    /// Deals the opening hands: in each of two passes every player receives
    /// the top card in table order and the dealer receives one after them.
    /// Consumes the ready table and produces the round to be played.
    pub fn deal_hands(self) -> (game: InProgressGame)
        requires
            self.wf(),
            self.deck@.len() >= 2 * (self.players@.len() + 1),
        ensures
            game.wf(),
            game.phase == RoundPhase::NaturalCheck,
            game.next_player == 0,
            !game.awaiting_action,
            game.players@.len() == self.players@.len(),
            forall|j: int|
                0 <= j < self.players@.len() ==> (#[trigger] game.players@[j]).same_player(
                    self.players@[j],
                ),
            forall|j: int|
                0 <= j < self.players@.len() ==> (#[trigger] game.players@[j]).hand_seq()
                    == seq![
                    drawn_card(self.deck@, j),
                    drawn_card(self.deck@, self.players@.len() + 1 + j),
                ],
            game.dealer.hand@ == seq![
                drawn_card(self.deck@, self.players@.len() as int),
                drawn_card(self.deck@, 2 * (self.players@.len() as int) + 1),
            ],
            game.deck@ == self.deck@.take(self.deck@.len() - 2 * (self.players@.len() + 1)),
            drawn_from(game.deck@, self.deck@),
            game.cards_in_play() == self.deck@.len(),
    {
        let ghost d = self.deck@;
        let ghost n = self.players@.len() as int;
        let ReadyGame { mut players, mut dealer, mut deck } = self;
        let mut pass: usize = 0;
        while pass < 2
            invariant
                pass <= 2,
                players@.len() == n,
                d.len() >= 2 * (n + 1),
                deck@ == d.take(d.len() - pass * (n + 1)),
                forall|j: int|
                    0 <= j < n ==> (#[trigger] players@[j]).same_player(self.players@[j]),
                pass == 0 ==> forall|j: int|
                    0 <= j < n ==> (#[trigger] players@[j]).hand_seq() == Seq::<Card>::empty(),
                pass == 0 ==> dealer.hand@ == Seq::<Card>::empty(),
                pass == 1 ==> forall|j: int|
                    0 <= j < n ==> (#[trigger] players@[j]).hand_seq() == seq![drawn_card(d, j)],
                pass == 1 ==> dealer.hand@ == seq![drawn_card(d, n)],
                pass == 2 ==> forall|j: int|
                    0 <= j < n ==> (#[trigger] players@[j]).hand_seq() == seq![
                        drawn_card(d, j),
                        drawn_card(d, n + 1 + j),
                    ],
                pass == 2 ==> dealer.hand@ == seq![drawn_card(d, n), drawn_card(d, 2 * n + 1)],
            decreases 2 - pass,
        {
            let ghost hands_before = players@;
            let ghost dealer_before = dealer.hand@;
            let mut idx: usize = 0;
            while idx < players.len()
                invariant
                    idx <= n,
                    players@.len() == n,
                    pass < 2,
                    d.len() >= 2 * (n + 1),
                    deck@ == d.take(d.len() - pass * (n + 1) - idx),
                    dealer.hand@ == dealer_before,
                    forall|j: int|
                        0 <= j < n ==> (#[trigger] players@[j]).same_player(self.players@[j]),
                    forall|j: int|
                        idx <= j < n ==> (#[trigger] players@[j]).hand_seq() == hands_before[
                            j
                        ].hand_seq(),
                    forall|j: int|
                        0 <= j < idx ==> (#[trigger] players@[j]).hand_seq() == hands_before[
                            j
                        ].hand_seq().push(drawn_card(d, pass * (n + 1) + j)),
                decreases n - idx,
            {
                proof {
                    assert(deck@.len() == d.len() - pass * (n + 1) - idx);
                    assert(deck@.last() == d[d.len() - pass * (n + 1) - idx - 1]);
                }
                let card = draw_top(&mut deck);
                players[idx].recieve_card(card);
                idx = idx + 1;
                proof {
                    assert(deck@ =~= d.take(d.len() - pass * (n + 1) - idx));
                }
            }
            let card = draw_top(&mut deck);
            dealer.recieve_card(card);
            pass = pass + 1;
            proof {
                assert(deck@ =~= d.take(d.len() - pass * (n + 1)));
                if pass == 1 {
                    assert forall|j: int| 0 <= j < n implies (#[trigger] players@[j]).hand_seq()
                        == seq![drawn_card(d, j)] by {
                        assert(players@[j].hand_seq() =~= seq![drawn_card(d, j)]);
                    }
                    assert(dealer.hand@ =~= seq![drawn_card(d, n)]);
                } else {
                    assert forall|j: int| 0 <= j < n implies (#[trigger] players@[j]).hand_seq()
                        == seq![drawn_card(d, j), drawn_card(d, n + 1 + j)] by {
                        assert(players@[j].hand_seq() =~= seq![
                            drawn_card(d, j),
                            drawn_card(d, n + 1 + j),
                        ]);
                    }
                    assert(dealer.hand@ =~= seq![drawn_card(d, n), drawn_card(d, 2 * n + 1)]);
                }
            }
        }
        proof {
            assert(deck@ =~= d.take(d.len() - 2 * (n + 1)));
        }
        let game = InProgressGame {
            players,
            dealer,
            deck,
            phase: RoundPhase::NaturalCheck,
            next_player: 0,
            awaiting_action: false,
        };
        proof {
            assert forall|j: int| 0 <= j < n implies (#[trigger] game.players@[j]).hand_seq().len()
                == 2 by {}
            lemma_total_hand_len_dealt(game.players@);
        }
        game
    }
}

/// The exit point a round ends through; each one fixes how a player's final
/// hand maps to an outcome.
#[derive(Debug, Copy, Clone, PartialEq, Eq, Structural)]
enum RoundExit {
    DealerNatural,
    AllNatural,
    AllFinished,
    DealerBust,
    Showdown,
}

/// The outcome a given exit point assigns to a player's final hand.
spec fn exit_outcome(
    exit: RoundExit,
    player_hand: Seq<Card>,
    dealer_hand: Seq<Card>,
) -> PlayerRoundResult {
    match exit {
        RoundExit::DealerNatural => dealer_natural_outcome(player_hand),
        RoundExit::AllNatural => PlayerRoundResult::Win,
        RoundExit::AllFinished => all_finished_outcome(player_hand),
        RoundExit::DealerBust => dealer_bust_outcome(player_hand),
        RoundExit::Showdown => showdown_outcome(player_hand, dealer_hand),
    }
}

/// Pairs every player with the outcome the given exit point assigns to
/// their final hand, in table order.
fn collect_results(players: Vec<Participant>, exit: RoundExit, dealer_hand: &[Card]) -> (results:
    Vec<PlayerResult>)
    requires
        forall|j: int|
            0 <= j < players@.len() ==> (#[trigger] players@[j]).hand_seq().len() <= 22,
        10 * dealer_hand@.len() <= u32::MAX,
    ensures
        results@.len() == players@.len(),
        forall|j: int| 0 <= j < players@.len() ==> (#[trigger] results@[j]).0 == players@[j],
        forall|j: int|
            0 <= j < players@.len() ==> (#[trigger] results@[j]).1 == exit_outcome(
                exit,
                players@[j].hand_seq(),
                dealer_hand@,
            ),
{
    let ghost orig = players@;
    let mut rest = players;
    let mut results: Vec<PlayerResult> = Vec::new();
    while rest.len() > 0
        invariant
            results@.len() + rest@.len() == orig.len(),
            rest@ == orig.skip(results@.len() as int),
            forall|j: int| 0 <= j < orig.len() ==> (#[trigger] orig[j]).hand_seq().len() <= 22,
            10 * dealer_hand@.len() <= u32::MAX,
            forall|j: int| 0 <= j < results@.len() ==> (#[trigger] results@[j]).0 == orig[j],
            forall|j: int|
                0 <= j < results@.len() ==> (#[trigger] results@[j]).1 == exit_outcome(
                    exit,
                    orig[j].hand_seq(),
                    dealer_hand@,
                ),
        decreases rest@.len(),
    {
        proof {
            assert(rest@[0] == orig[results@.len() as int]);
        }
        let player = rest.remove(0);
        let outcome = match exit {
            RoundExit::DealerNatural => if hand_is_natural(player.get_hand_slice()) {
                PlayerRoundResult::Standoff
            } else {
                PlayerRoundResult::Lose
            },
            RoundExit::AllNatural => PlayerRoundResult::Win,
            RoundExit::AllFinished => if hand_is_natural(player.get_hand_slice()) {
                PlayerRoundResult::Natural
            } else {
                PlayerRoundResult::Lose
            },
            RoundExit::DealerBust => if hand_is_bust(player.get_hand_slice()) {
                PlayerRoundResult::Lose
            } else {
                PlayerRoundResult::Win
            },
            RoundExit::Showdown => {
                if hand_is_natural(player.get_hand_slice()) {
                    PlayerRoundResult::Win
                } else if hand_is_bust(player.get_hand_slice()) {
                    PlayerRoundResult::Lose
                } else {
                    let player_value = get_hand_value(player.get_hand_slice());
                    let dealer_value = get_hand_value(dealer_hand);
                    if player_value > dealer_value {
                        PlayerRoundResult::Win
                    } else if player_value < dealer_value {
                        PlayerRoundResult::Lose
                    } else {
                        PlayerRoundResult::Standoff
                    }
                }
            },
        };
        results.push((player, outcome));
        proof {
            assert(rest@ =~= orig.skip(results@.len() as int));
        }
    }
    results
}

impl InProgressGame {
    /// Ends the round at once when a natural was dealt: a dealer natural
    /// settles every player immediately (a natural of their own ties, any
    /// other hand loses), and a table where every player holds a natural
    /// wins outright, since the dealer cannot tie it. Otherwise the round
    /// goes on to the players' turns.
    pub fn handle_naturals(self) -> (r: IntermediateRoundResult)
        requires
            self.wf(),
            self.phase == RoundPhase::NaturalCheck,
            !self.awaiting_action,
        ensures
            match r {
                IntermediateRoundResult::Finished { results, dealer, leftover_deck } => {
                    &&& dealer == self.dealer
                    &&& leftover_deck == self.deck
                    &&& results@.len() == self.players@.len()
                    &&& forall|j: int|
                        0 <= j < results@.len() ==> (#[trigger] results@[j]).0 == self.players@[j]
                    &&& (natural_hand(self.dealer.hand@) ==> forall|j: int|
                        0 <= j < results@.len() ==> (#[trigger] results@[j]).1
                            == dealer_natural_outcome(self.players@[j].hand_seq()))
                    &&& (!natural_hand(self.dealer.hand@) ==> all_results_natural(results@)
                        && forall|j: int|
                        0 <= j < results@.len() ==> (#[trigger] results@[j]).1
                            == PlayerRoundResult::Win)
                    &&& round_outcomes_correct(results@, dealer.hand@)
                    &&& leftover_deck@.len() + total_result_hand_len(results@) + dealer.hand@.len()
                        == self.cards_in_play()
                    &&& leftover_deck@.to_multiset().add(results_hands_multiset(results@)).add(
                        dealer.hand@.to_multiset(),
                    ) == self.cards_in_play_multiset()
                },
                IntermediateRoundResult::Unfinished(g) => {
                    &&& g.players == self.players
                    &&& g.dealer == self.dealer
                    &&& g.deck == self.deck
                    &&& g.phase == RoundPhase::PlayerTurns
                    &&& g.next_player == 0
                    &&& !g.awaiting_action
                    &&& !natural_hand(self.dealer.hand@)
                    &&& g.wf()
                    &&& g.cards_in_play() == self.cards_in_play()
                    &&& g.cards_in_play_multiset() == self.cards_in_play_multiset()
                },
            },
    {
        proof {
            reveal(round_outcomes_correct);
        }
        let dealer_is_natural = hand_is_natural(self.dealer.get_hand_slice());
        let InProgressGame { players, dealer, deck, .. } = self;
        if dealer_is_natural {
            let ghost ps = players@;
            let results = collect_results(players, RoundExit::DealerNatural, dealer.get_hand_slice());
            proof {
                lemma_total_result_hand_len_eq(ps, results@);
                lemma_results_hands_multiset_eq(ps, results@);
            }
            return IntermediateRoundResult::Finished { results, dealer, leftover_deck: deck };
        }
        let mut all_natural = true;
        let mut i: usize = 0;
        while i < players.len()
            invariant
                i <= players@.len(),
                forall|j: int|
                    0 <= j < players@.len() ==> (#[trigger] players@[j]).hand_seq().len() <= 22,
                all_natural == (forall|j: int|
                    0 <= j < i ==> natural_hand((#[trigger] players@[j]).hand_seq())),
            decreases players@.len() - i,
        {
            if !hand_is_natural(players[i].get_hand_slice()) {
                all_natural = false;
            }
            i = i + 1;
        }
        if all_natural {
            let ghost ps = players@;
            let results = collect_results(players, RoundExit::AllNatural, dealer.get_hand_slice());
            proof {
                assert(all_results_natural(results@));
                lemma_total_result_hand_len_eq(ps, results@);
                lemma_results_hands_multiset_eq(ps, results@);
            }
            return IntermediateRoundResult::Finished { results, dealer, leftover_deck: deck };
        }
        IntermediateRoundResult::Unfinished(
            InProgressGame {
                players,
                dealer,
                deck,
                phase: RoundPhase::PlayerTurns,
                next_player: 0,
                awaiting_action: false,
            },
        )
    }

    /// Settles the round without a dealer turn when every player's hand is
    /// already bust or natural: no live hand is left to play against, so
    /// the naturals are paid as naturals and everyone else has bust and
    /// loses. With at least one live hand, the round goes on to the
    /// dealer's turn.
    pub fn check_if_all_players_finished(self) -> (r: IntermediateRoundResult)
        requires
            self.wf(),
            self.phase == RoundPhase::PlayerTurns,
            self.next_player == self.players@.len(),
            !self.awaiting_action,
        ensures
            r matches IntermediateRoundResult::Finished { results, dealer, leftover_deck } ==> {
                &&& dealer == self.dealer
                &&& leftover_deck == self.deck
                &&& results@.len() == self.players@.len()
                &&& forall|j: int|
                    0 <= j < results@.len() ==> (#[trigger] results@[j]).0 == self.players@[j]
            },
            r matches IntermediateRoundResult::Finished { results, dealer, leftover_deck } ==> {
                &&& all_results_finished(results@)
                &&& forall|j: int|
                    0 <= j < results@.len() ==> (#[trigger] results@[j]).1
                        == all_finished_outcome(self.players@[j].hand_seq())
                &&& round_outcomes_correct(results@, dealer.hand@)
            },
            r matches IntermediateRoundResult::Finished { results, dealer, leftover_deck }
                ==> leftover_deck@.len() + total_result_hand_len(results@) + dealer.hand@.len()
                == self.cards_in_play() && leftover_deck@.to_multiset().add(
                results_hands_multiset(results@),
            ).add(dealer.hand@.to_multiset()) == self.cards_in_play_multiset(),
            r matches IntermediateRoundResult::Unfinished(g) ==> {
                &&& g.players == self.players
                &&& g.dealer == self.dealer
                &&& g.deck == self.deck
                &&& g.phase == RoundPhase::DealerTurn
                &&& g.next_player == self.next_player
                &&& !g.awaiting_action
                &&& g.some_player_live()
                &&& g.wf()
                &&& g.cards_in_play() == self.cards_in_play()
                &&& g.cards_in_play_multiset() == self.cards_in_play_multiset()
            },
    {
        proof {
            reveal(round_outcomes_correct);
        }
        let InProgressGame { players, dealer, deck, next_player, .. } = self;
        let mut all_done = true;
        let ghost mut live: int = 0;
        let mut i: usize = 0;
        while i < players.len()
            invariant
                i <= players@.len(),
                forall|j: int|
                    0 <= j < players@.len() ==> (#[trigger] players@[j]).hand_seq().len() <= 22,
                all_done ==> forall|j: int|
                    0 <= j < i ==> bust_hand((#[trigger] players@[j]).hand_seq()) || natural_hand(
                        players@[j].hand_seq(),
                    ),
                !all_done ==> 0 <= live < i && !natural_hand(players@[live].hand_seq())
                    && !bust_hand(players@[live].hand_seq()),
            decreases players@.len() - i,
        {
            if !hand_is_bust(players[i].get_hand_slice()) && !hand_is_natural(
                players[i].get_hand_slice(),
            ) {
                all_done = false;
                proof {
                    live = i as int;
                }
            }
            i = i + 1;
        }
        if all_done {
            let ghost ps = players@;
            let results = collect_results(players, RoundExit::AllFinished, dealer.get_hand_slice());
            proof {
                assert(all_results_finished(results@));
                let w = choose|j: int|
                    0 <= j < ps.len() && !natural_hand((#[trigger] ps[j]).hand_seq());
                assert(results@[w].0 == ps[w]);
                assert(!all_results_natural(results@));
                lemma_total_result_hand_len_eq(ps, results@);
                lemma_results_hands_multiset_eq(ps, results@);
            }
            return IntermediateRoundResult::Finished { results, dealer, leftover_deck: deck };
        }
        let next = InProgressGame {
            players,
            dealer,
            deck,
            phase: RoundPhase::DealerTurn,
            next_player,
            awaiting_action: false,
        };
        proof {
            assert(next.players@ == self.players@);
            assert(next.some_player_live()) by {
                assert(!natural_hand(next.players@[live].hand_seq()) && !bust_hand(
                    next.players@[live].hand_seq(),
                ));
            }
            assert(next.some_player_not_natural()) by {
                assert(!natural_hand(next.players@[live].hand_seq()));
            }
            assert(next.hands_ok()) by {
                assert forall|j: int| 0 <= j < next.players@.len() implies 2 <= (
                #[trigger] next.players@[j]).hand_seq().len() <= 22 by {
                    assert(next.players@[j] == self.players@[j]);
                }
            }
            assert(next.purses_ok()) by {
                assert forall|j: int| 0 <= j < next.players@.len() implies (
                #[trigger] next.players@[j]).purse_ok() by {
                    assert(next.players@[j] == self.players@[j]);
                }
            }
            assert(next.wf());
        }
        IntermediateRoundResult::Unfinished(next)
    }

    /// Plays the dealer's hand to its end by the fixed policy: hit below
    /// 17, stand at 17 or more. The dealer's final hand is exactly its
    /// dealt hand followed by the cards popped from the top of the deck,
    /// in draw order. A dealer bust ends the round at once, with a win for
    /// every standing player and a loss for every bust one; otherwise the
    /// round goes on to showdown. Fails only when a hit finds the deck
    /// empty.
    pub fn dealer_turn(self) -> (r: Result<IntermediateRoundResult, RoundError>)
        requires
            self.wf(),
            self.phase == RoundPhase::DealerTurn,
            !self.awaiting_action,
        ensures
            r matches Ok(IntermediateRoundResult::Finished { results, dealer, leftover_deck })
                ==> {
                &&& results@.len() == self.players@.len()
                &&& forall|j: int|
                    0 <= j < results@.len() ==> (#[trigger] results@[j]).0 == self.players@[j]
                &&& forall|j: int|
                    0 <= j < results@.len() ==> (#[trigger] results@[j]).1 == dealer_bust_outcome(
                        self.players@[j].hand_seq(),
                    )
            },
            r matches Ok(IntermediateRoundResult::Finished { results, dealer, leftover_deck })
                ==> {
                &&& bust_hand(dealer.hand@)
                &&& self.dealer.hand@.is_prefix_of(dealer.hand@)
                &&& dealer.hand@ == self.dealer.hand@ + drawn_cards(
                    self.deck@,
                    self.deck@.len() - leftover_deck@.len(),
                )
                &&& drawn_from(leftover_deck@, self.deck@)
                &&& round_outcomes_correct(results@, dealer.hand@)
                &&& leftover_deck@.len() + total_result_hand_len(results@) + dealer.hand@.len()
                    == self.cards_in_play()
                &&& leftover_deck@.to_multiset().add(results_hands_multiset(results@)).add(
                    dealer.hand@.to_multiset(),
                ) == self.cards_in_play_multiset()
            },
            r matches Ok(IntermediateRoundResult::Unfinished(g)) ==> {
                &&& g.players == self.players
                &&& self.dealer.hand@.is_prefix_of(g.dealer.hand@)
                &&& g.dealer.hand@ == self.dealer.hand@ + drawn_cards(
                    self.deck@,
                    self.deck@.len() - g.deck@.len(),
                )
                &&& g.phase == RoundPhase::DealerTurn
                &&& g.next_player == self.next_player
                &&& !g.awaiting_action
                &&& drawn_from(g.deck@, self.deck@)
                &&& !bust_hand(g.dealer.hand@)
                &&& hand_value(g.dealer.hand@) >= 17
                &&& g.wf()
                &&& g.cards_in_play() == self.cards_in_play()
                &&& g.cards_in_play_multiset() == self.cards_in_play_multiset()
            },
            r matches Err(e) ==> e == RoundError::DeckExhausted && !self.ample_deck(),
    {
        proof {
            reveal(round_outcomes_correct);
        }
        let ghost d0 = self.deck@;
        let InProgressGame { players, mut dealer, mut deck, next_player, .. } = self;
        let mut dealer_busted = false;
        proof {
            lemma_drawn_from_refl(deck@);
            lemma_prefix_refl(dealer.hand@);
            assert(dealer.hand@ =~= self.dealer.hand@ + drawn_cards(d0, 0));
        }
        loop
            invariant_except_break
                self.wf(),
                d0 == self.deck@,
                !dealer_busted,
                2 <= dealer.hand@.len() <= 22,
                !natural_hand(dealer.hand@),
                drawn_from(deck@, d0),
                deck@.len() + dealer.hand@.len() == d0.len() + self.dealer.hand@.len(),
                self.dealer.hand@.is_prefix_of(dealer.hand@),
                dealer.hand@ == self.dealer.hand@ + drawn_cards(d0, d0.len() - deck@.len()),
                deck@.to_multiset().add(dealer.hand@.to_multiset()) == d0.to_multiset().add(
                    self.dealer.hand@.to_multiset(),
                ),
            ensures
                2 <= dealer.hand@.len() <= 22,
                !natural_hand(dealer.hand@),
                drawn_from(deck@, d0),
                deck@.len() + dealer.hand@.len() == d0.len() + self.dealer.hand@.len(),
                self.dealer.hand@.is_prefix_of(dealer.hand@),
                dealer.hand@ == self.dealer.hand@ + drawn_cards(d0, d0.len() - deck@.len()),
                deck@.to_multiset().add(dealer.hand@.to_multiset()) == d0.to_multiset().add(
                    self.dealer.hand@.to_multiset(),
                ),
                dealer_busted ==> bust_hand(dealer.hand@),
                !dealer_busted ==> !bust_hand(dealer.hand@) && hand_value(dealer.hand@) >= 17,
            decreases deck@.len(),
        {
            if hand_is_bust(dealer.get_hand_slice()) {
                dealer_busted = true;
                break;
            }
            let ghost hand_before = dealer.hand@;
            let ghost deck_before = deck@;
            match dealer.take_turn(&mut deck) {
                Ok(turn_over) => {
                    if turn_over {
                        break;
                    }
                    proof {
                        lemma_raw_value_bounds(hand_before);
                        lemma_prefix_push(self.dealer.hand@, hand_before, deck_before.last());
                        assert(deck@ =~= d0.take(deck@.len() as int));
                        assert(deck_before.last() == drawn_card(d0, d0.len() - deck_before.len()));
                        assert(dealer.hand@ =~= self.dealer.hand@ + drawn_cards(
                            d0,
                            d0.len() - deck@.len(),
                        ));
                        assert(deck_before =~= deck@.push(deck_before.last()));
                        vstd::seq_lib::to_multiset_build(deck@, deck_before.last());
                        vstd::seq_lib::to_multiset_build(hand_before, deck_before.last());
                        assert forall|c: Card|
                            deck@.to_multiset().add(dealer.hand@.to_multiset()).count(c)
                                == d0.to_multiset().add(self.dealer.hand@.to_multiset()).count(
                                c,
                            ) by {}
                    }
                },
                Err(e) => {
                    proof {
                        lemma_raw_value_bounds(hand_before);
                        lemma_total_hand_len_bound(self.players@);
                    }
                    return Err(e);
                },
            }
        }
        if dealer_busted {
            let ghost ps = players@;
            let results = collect_results(players, RoundExit::DealerBust, dealer.get_hand_slice());
            proof {
                let w = choose|j: int|
                    0 <= j < ps.len() && !natural_hand((#[trigger] ps[j]).hand_seq());
                assert(results@[w].0 == ps[w]);
                assert(!all_results_natural(results@));
                let v = choose|j: int|
                    0 <= j < ps.len() && !natural_hand((#[trigger] ps[j]).hand_seq())
                        && !bust_hand(ps[j].hand_seq());
                assert(results@[v].0 == ps[v]);
                assert(!all_results_finished(results@));
                lemma_total_result_hand_len_eq(ps, results@);
                lemma_results_hands_multiset_eq(ps, results@);
                assert forall|c: Card|
                    deck@.to_multiset().add(results_hands_multiset(results@)).add(
                        dealer.hand@.to_multiset(),
                    ).count(c) == self.cards_in_play_multiset().count(c) by {
                    assert(deck@.to_multiset().add(dealer.hand@.to_multiset()).count(c)
                        == d0.to_multiset().add(self.dealer.hand@.to_multiset()).count(c));
                }
                assert(deck@.to_multiset().add(results_hands_multiset(results@)).add(
                    dealer.hand@.to_multiset(),
                ) =~= self.cards_in_play_multiset());
            }
            return Ok(IntermediateRoundResult::Finished { results, dealer, leftover_deck: deck });
        }
        let stood = InProgressGame {
            players,
            dealer,
            deck,
            phase: RoundPhase::DealerTurn,
            next_player,
            awaiting_action: false,
        };
        proof {
            assert(stood.players@ == self.players@);
            assert(stood.some_player_live()) by {
                let v = choose|j: int|
                    0 <= j < self.players@.len() && !natural_hand(
                        (#[trigger] self.players@[j]).hand_seq(),
                    ) && !bust_hand(self.players@[j].hand_seq());
                assert(!natural_hand(stood.players@[v].hand_seq()) && !bust_hand(
                    stood.players@[v].hand_seq(),
                ));
            }
            assert(stood.some_player_not_natural()) by {
                let w = choose|j: int|
                    0 <= j < self.players@.len() && !natural_hand(
                        (#[trigger] self.players@[j]).hand_seq(),
                    );
                assert(!natural_hand(stood.players@[w].hand_seq()));
            }
            assert(stood.hands_ok()) by {
                assert forall|j: int| 0 <= j < stood.players@.len() implies 2 <= (
                #[trigger] stood.players@[j]).hand_seq().len() <= 22 by {
                    assert(stood.players@[j] == self.players@[j]);
                }
            }
            assert(stood.purses_ok()) by {
                assert forall|j: int| 0 <= j < stood.players@.len() implies (
                #[trigger] stood.players@[j]).purse_ok() by {
                    assert(stood.players@[j] == self.players@[j]);
                }
            }
            assert(stood.wf());
            assert forall|c: Card|
                stood.cards_in_play_multiset().count(c) == self.cards_in_play_multiset().count(
                    c,
                ) by {
                assert(deck@.to_multiset().add(dealer.hand@.to_multiset()).count(c)
                    == d0.to_multiset().add(self.dealer.hand@.to_multiset()).count(c));
            }
            assert(stood.cards_in_play_multiset() =~= self.cards_in_play_multiset());
        }
        Ok(IntermediateRoundResult::Unfinished(stood))
    }

    /// The showdown, reached only when the dealer stood without busting:
    /// a natural wins outright, a bust loses, and every other hand is
    /// compared against the dealer's value, winning above it, losing below
    /// it and standing off at exactly its value.
    pub fn complete_round(self) -> (r: (RoundResult, StandardDealer, Deck))
        requires
            self.wf(),
            self.phase == RoundPhase::DealerTurn,
            !self.awaiting_action,
            !bust_hand(self.dealer.hand@),
        ensures
            r.1 == self.dealer,
            r.2 == self.deck,
            r.0@.len() == self.players@.len(),
            forall|j: int| 0 <= j < r.0@.len() ==> (#[trigger] r.0@[j]).0 == self.players@[j],
            forall|j: int|
                0 <= j < r.0@.len() ==> (#[trigger] r.0@[j]).1 == showdown_outcome(
                    self.players@[j].hand_seq(),
                    self.dealer.hand@,
                ),
            round_outcomes_correct(r.0@, self.dealer.hand@),
            r.2@.len() + total_result_hand_len(r.0@) + r.1.hand@.len() == self.cards_in_play(),
            r.2@.to_multiset().add(results_hands_multiset(r.0@)).add(r.1.hand@.to_multiset())
                == self.cards_in_play_multiset(),
    {
        proof {
            reveal(round_outcomes_correct);
        }
        let InProgressGame { players, dealer, deck, .. } = self;
        let ghost ps = players@;
        let results = collect_results(players, RoundExit::Showdown, dealer.get_hand_slice());
        proof {
            let w = choose|j: int|
                0 <= j < ps.len() && !natural_hand((#[trigger] ps[j]).hand_seq());
            assert(results@[w].0 == ps[w]);
            assert(!all_results_natural(results@));
            let v = choose|j: int|
                0 <= j < ps.len() && !natural_hand((#[trigger] ps[j]).hand_seq()) && !bust_hand(
                    ps[j].hand_seq(),
                );
            assert(results@[v].0 == ps[v]);
            assert(!all_results_finished(results@));
            lemma_total_result_hand_len_eq(ps, results@);
            lemma_results_hands_multiset_eq(ps, results@);
        }
        (results, dealer, deck)
    }

    /// Plays the players' turns in table order, from the seat the round
    /// stands at. A player dealt a natural skips their turn untouched; any
    /// other player draws from the top of the deck until they stand or
    /// bust. The bot's choices follow its fixed policy against the
    /// dealer's upcard; reaching a human player's choice pauses the round.
    /// The cards in play are conserved as a multiset: every card a hand
    /// gains is one the deck lost.
    fn advance_player_turns(self) -> (r: Result<PlayerTurnsStep, RoundError>)
        requires
            self.wf(),
            self.phase == RoundPhase::PlayerTurns,
            !self.awaiting_action,
        ensures
            match r {
                Ok(PlayerTurnsStep::Paused(g)) => {
                    &&& g.wf()
                    &&& g.awaiting_action
                    &&& g.phase == RoundPhase::PlayerTurns
                    &&& preserves_players(self.players@, g.players@)
                    &&& g.dealer == self.dealer
                    &&& drawn_from(g.deck@, self.deck@)
                    &&& g.cards_in_play() == self.cards_in_play()
                    &&& g.cards_in_play_multiset() == self.cards_in_play_multiset()
                },
                Ok(PlayerTurnsStep::PlayersDone(g)) => {
                    &&& g.wf()
                    &&& !g.awaiting_action
                    &&& g.phase == RoundPhase::PlayerTurns
                    &&& g.next_player == g.players@.len()
                    &&& preserves_players(self.players@, g.players@)
                    &&& g.dealer == self.dealer
                    &&& drawn_from(g.deck@, self.deck@)
                    &&& g.cards_in_play() == self.cards_in_play()
                    &&& g.cards_in_play_multiset() == self.cards_in_play_multiset()
                    &&& forall|j: int|
                        0 <= j < g.players@.len() ==> seat_turn_settled(
                            #[trigger] g.players@[j],
                            self.dealer.hand@[1],
                        )
                    &&& forall|j: int|
                        0 <= j < g.players@.len() ==> (natural_hand(
                            (#[trigger] g.players@[j]).hand_seq(),
                        ) ==> g.players@[j].hand_seq() == self.players@[j].hand_seq())
                },
                Err(e) => e == RoundError::DeckExhausted && !self.ample_deck(),
            },
    {
        let mut game = self;
        proof {
            lemma_preserves_players_refl(game.players@);
            lemma_drawn_from_refl(game.deck@);
        }
        loop
            invariant
                self.wf(),
                game.wf(),
                game.phase == RoundPhase::PlayerTurns,
                !game.awaiting_action,
                preserves_players(self.players@, game.players@),
                game.dealer == self.dealer,
                drawn_from(game.deck@, self.deck@),
                game.cards_in_play() == self.cards_in_play(),
                game.deck@.to_multiset().add(hands_multiset(game.players@))
                    == self.deck@.to_multiset().add(hands_multiset(self.players@)),
            decreases game.players@.len() - game.next_player, game.deck@.len(),
        {
            if game.next_player >= game.players.len() {
                proof {
                    assert forall|j: int|
                        0 <= j < game.players@.len() && natural_hand(
                            (#[trigger] game.players@[j]).hand_seq(),
                        ) implies game.players@[j].hand_seq() == self.players@[j].hand_seq() by {
                        assert(2 <= self.players@[j].hand_seq().len());
                        lemma_natural_prefix_unchanged(
                            self.players@[j].hand_seq(),
                            game.players@[j].hand_seq(),
                        );
                    }
                }
                return Ok(PlayerTurnsStep::PlayersDone(game));
            }
            let idx = game.next_player;
            if hand_is_natural(game.players[idx].get_hand_slice()) {
                game.next_player = idx + 1;
                continue;
            }
            if hand_is_bust(game.players[idx].get_hand_slice()) {
                game.next_player = idx + 1;
                continue;
            }
            let upcard = game.dealer.hand[1];
            let decision: Option<Action> = match &game.players[idx] {
                Participant::Bot(b) => Some(b.decide_action(&upcard)),
                Participant::Human(_) => None,
            };
            match decision {
                None => {
                    game.awaiting_action = true;
                    return Ok(PlayerTurnsStep::Paused(game));
                },
                Some(Action::Stand) => {
                    game.next_player = idx + 1;
                },
                Some(Action::Hit) => {
                    if game.deck.len() == 0 {
                        proof {
                            lemma_raw_value_bounds(game.players@[idx as int].hand_seq());
                            lemma_total_hand_len_bound_except(game.players@, idx as int);
                        }
                        return Err(RoundError::DeckExhausted);
                    }
                    let ghost players_before = game.players@;
                    let ghost deck_before = game.deck@;
                    proof {
                        lemma_raw_value_bounds(game.players@[idx as int].hand_seq());
                    }
                    let card = draw_top(&mut game.deck);
                    game.players[idx].recieve_card(card);
                    proof {
                        lemma_player_hit_step(
                            self.players@,
                            players_before,
                            game.players@,
                            deck_before,
                            game.deck@,
                            idx as int,
                            card,
                        );
                        assert(game.deck@ =~= self.deck@.take(game.deck@.len() as int));
                        assert(game.some_player_not_natural()) by {
                            assert(!natural_hand(game.players@[idx as int].hand_seq()));
                        }
                    }
                },
            }
        }
    }

    /// Drives the round forward as far as it can go without outside input:
    /// the natural check, every bot's and every settled player's turn, the
    /// dealer's turn and the showdown. It stops either with the round's
    /// results, or paused at a human player's pending decision, to be
    /// resumed with `resume_with_action`. A dealt dealer natural ends the
    /// round at once, with nothing drawn and nobody asked to act; in every
    /// other round each settled seat is natural and untouched, bust, or
    /// done drawing — a bot only where its policy says stand against the
    /// dealer's upcard. The cards in play are conserved as a multiset:
    /// whatever left the deck is in the returned hands, card for card.
    /// Fails only when a draw finds the deck empty.
    pub fn play_round(self) -> (r: Result<IntermediateRoundResult, RoundError>)
        requires
            self.wf(),
            !self.awaiting_action,
        ensures
            r matches Ok(IntermediateRoundResult::Unfinished(g)) ==> {
                &&& g.wf()
                &&& g.awaiting_action
                &&& g.phase == RoundPhase::PlayerTurns
                &&& preserves_players(self.players@, g.players@)
                &&& g.dealer == self.dealer
                &&& drawn_from(g.deck@, self.deck@)
                &&& g.cards_in_play() == self.cards_in_play()
                &&& g.cards_in_play_multiset() == self.cards_in_play_multiset()
            },
            r matches Ok(IntermediateRoundResult::Finished { results, dealer, leftover_deck })
                ==> {
                &&& results_preserve_players(self.players@, results@)
                &&& self.dealer.hand@.is_prefix_of(dealer.hand@)
                &&& drawn_from(leftover_deck@, self.deck@)
                &&& round_outcomes_correct(results@, dealer.hand@)
                &&& leftover_deck@.len() + total_result_hand_len(results@) + dealer.hand@.len()
                    == self.cards_in_play()
                &&& leftover_deck@.to_multiset().add(results_hands_multiset(results@)).add(
                    dealer.hand@.to_multiset(),
                ) == self.cards_in_play_multiset()
            },
            natural_hand(self.dealer.hand@) ==> (r matches Ok(
                IntermediateRoundResult::Finished { results, dealer, leftover_deck },
            ) && {
                &&& dealer == self.dealer
                &&& leftover_deck == self.deck
                &&& results@.len() == self.players@.len()
                &&& forall|j: int|
                    0 <= j < results@.len() ==> (#[trigger] results@[j]).0 == self.players@[j]
                &&& forall|j: int|
                    0 <= j < results@.len() ==> (#[trigger] results@[j]).1
                        == dealer_natural_outcome(self.players@[j].hand_seq())
            }),
            r matches Ok(IntermediateRoundResult::Finished { results, dealer, leftover_deck })
                ==> !natural_hand(self.dealer.hand@) ==> {
                &&& forall|j: int|
                    0 <= j < results@.len() ==> seat_turn_settled(
                        (#[trigger] results@[j]).0,
                        self.dealer.hand@[1],
                    )
                &&& forall|j: int|
                    0 <= j < results@.len() ==> (natural_hand(
                        (#[trigger] results@[j]).0.hand_seq(),
                    ) ==> results@[j].0.hand_seq() == self.players@[j].hand_seq())
            },
            r matches Err(e) ==> e == RoundError::DeckExhausted && !self.ample_deck(),
    {
        let mut game = self;
        if game.phase == RoundPhase::NaturalCheck {
            match game.handle_naturals() {
                IntermediateRoundResult::Finished { results, dealer, leftover_deck } => {
                    proof {
                        lemma_preserves_players_refl(self.players@);
                        lemma_results_preserve_from_eq(self.players@, self.players@, results@);
                        lemma_drawn_from_refl(leftover_deck@);
                    }
                    return Ok(
                        IntermediateRoundResult::Finished { results, dealer, leftover_deck },
                    );
                },
                IntermediateRoundResult::Unfinished(g) => {
                    game = g;
                },
            }
        }
        if game.phase == RoundPhase::PlayerTurns {
            match game.advance_player_turns() {
                Err(e) => {
                    return Err(e);
                },
                Ok(PlayerTurnsStep::Paused(g)) => {
                    return Ok(IntermediateRoundResult::Unfinished(g));
                },
                Ok(PlayerTurnsStep::PlayersDone(g)) => {
                    match g.check_if_all_players_finished() {
                        IntermediateRoundResult::Finished { results, dealer, leftover_deck } => {
                            proof {
                                lemma_results_preserve_from_eq(
                                    self.players@,
                                    g.players@,
                                    results@,
                                );
                            }
                            return Ok(
                                IntermediateRoundResult::Finished {
                                    results,
                                    dealer,
                                    leftover_deck,
                                },
                            );
                        },
                        IntermediateRoundResult::Unfinished(next) => {
                            game = next;
                        },
                    }
                },
            }
        }
        let ghost before_dealer = game.players@;
        let ghost deck_before_dealer = game.deck@;
        proof {
            lemma_preserves_players_refl(self.players@);
            lemma_drawn_from_refl(self.deck@);
        }
        match game.dealer_turn() {
            Err(e) => {
                return Err(e);
            },
            Ok(IntermediateRoundResult::Finished { results, dealer, leftover_deck }) => {
                proof {
                    lemma_results_preserve_from_eq(self.players@, before_dealer, results@);
                    lemma_drawn_from_trans(leftover_deck@, deck_before_dealer, self.deck@);
                }
                return Ok(IntermediateRoundResult::Finished { results, dealer, leftover_deck });
            },
            Ok(IntermediateRoundResult::Unfinished(stood)) => {
                game = stood;
            },
        }
        let showdown = game.complete_round();
        let results = showdown.0;
        let dealer = showdown.1;
        let leftover_deck = showdown.2;
        proof {
            lemma_results_preserve_from_eq(self.players@, game.players@, results@);
            lemma_drawn_from_trans(leftover_deck@, deck_before_dealer, self.deck@);
        }
        Ok(IntermediateRoundResult::Finished { results, dealer, leftover_deck })
    }

    /// Resumes a round paused at a human player's decision by applying that
    /// decision — a hit draws the top card into their hand, a stand ends
    /// their turn — and then drives the round forward again.
    pub fn resume_with_action(self, action: Action) -> (r: Result<
        IntermediateRoundResult,
        RoundError,
    >)
        requires
            self.wf(),
            self.awaiting_action,
        ensures
            r matches Ok(IntermediateRoundResult::Unfinished(g)) ==> {
                &&& g.wf()
                &&& g.awaiting_action
                &&& g.phase == RoundPhase::PlayerTurns
                &&& preserves_players(self.players@, g.players@)
                &&& g.dealer == self.dealer
                &&& drawn_from(g.deck@, self.deck@)
                &&& g.cards_in_play() == self.cards_in_play()
                &&& g.cards_in_play_multiset() == self.cards_in_play_multiset()
            },
            r matches Ok(IntermediateRoundResult::Finished { results, dealer, leftover_deck })
                ==> {
                &&& results_preserve_players(self.players@, results@)
                &&& self.dealer.hand@.is_prefix_of(dealer.hand@)
                &&& drawn_from(leftover_deck@, self.deck@)
                &&& round_outcomes_correct(results@, dealer.hand@)
                &&& leftover_deck@.len() + total_result_hand_len(results@) + dealer.hand@.len()
                    == self.cards_in_play()
                &&& leftover_deck@.to_multiset().add(results_hands_multiset(results@)).add(
                    dealer.hand@.to_multiset(),
                ) == self.cards_in_play_multiset()
            },
            natural_hand(self.dealer.hand@) ==> (r matches Ok(
                IntermediateRoundResult::Finished { results, dealer, leftover_deck },
            ) && {
                &&& dealer == self.dealer
                &&& leftover_deck == self.deck
                &&& results@.len() == self.players@.len()
                &&& forall|j: int|
                    0 <= j < results@.len() ==> (#[trigger] results@[j]).0 == self.players@[j]
                &&& forall|j: int|
                    0 <= j < results@.len() ==> (#[trigger] results@[j]).1
                        == dealer_natural_outcome(self.players@[j].hand_seq())
            }),
            r matches Ok(IntermediateRoundResult::Finished { results, dealer, leftover_deck })
                ==> !natural_hand(self.dealer.hand@) ==> {
                &&& forall|j: int|
                    0 <= j < results@.len() ==> seat_turn_settled(
                        (#[trigger] results@[j]).0,
                        self.dealer.hand@[1],
                    )
                &&& forall|j: int|
                    0 <= j < results@.len() ==> (natural_hand(
                        (#[trigger] results@[j]).0.hand_seq(),
                    ) ==> results@[j].0.hand_seq() == self.players@[j].hand_seq())
            },
            r matches Err(e) ==> e == RoundError::DeckExhausted && !self.ample_deck(),
    {
        let mut game = self;
        game.awaiting_action = false;
        let idx = game.next_player;
        proof {
            lemma_preserves_players_refl(game.players@);
            lemma_drawn_from_refl(game.deck@);
        }
        let seat_count = game.players.len();
        match action {
            Action::Stand => {
                proof {
                    assert(idx < seat_count);
                }
                game.next_player = idx + 1;
            },
            Action::Hit => {
                if game.deck.len() == 0 {
                    proof {
                        lemma_raw_value_bounds(game.players@[idx as int].hand_seq());
                        lemma_total_hand_len_bound_except(game.players@, idx as int);
                    }
                    return Err(RoundError::DeckExhausted);
                }
                let ghost players_before = game.players@;
                let ghost deck_before = game.deck@;
                proof {
                    lemma_raw_value_bounds(game.players@[idx as int].hand_seq());
                }
                let card = draw_top(&mut game.deck);
                game.players[idx].recieve_card(card);
                proof {
                    lemma_player_hit_step(
                        self.players@,
                        players_before,
                        game.players@,
                        deck_before,
                        game.deck@,
                        idx as int,
                        card,
                    );
                    assert(game.deck@ =~= self.deck@.take(game.deck@.len() as int));
                    assert(game.some_player_not_natural()) by {
                        assert(!natural_hand(game.players@[idx as int].hand_seq()));
                    }
                }
            },
        }
        let ghost mid_players = game.players@;
        let ghost mid_deck = game.deck@;
        match game.play_round() {
            Err(e) => Err(e),
            Ok(IntermediateRoundResult::Unfinished(g)) => {
                proof {
                    lemma_preserves_players_trans(self.players@, mid_players, g.players@);
                    lemma_drawn_from_trans(g.deck@, mid_deck, self.deck@);
                }
                Ok(IntermediateRoundResult::Unfinished(g))
            },
            Ok(IntermediateRoundResult::Finished { results, dealer, leftover_deck }) => {
                proof {
                    assert forall|j: int| 0 <= j < self.players@.len() implies (
                    #[trigger] results@[j]).0.same_player(self.players@[j]) && self.players@[
                        j
                    ].hand_seq().is_prefix_of(results@[j].0.hand_seq()) by {
                        let x = self.players@[j].hand_seq();
                        let y = mid_players[j].hand_seq();
                        let z = results@[j].0.hand_seq();
                        assert forall|i: int| 0 <= i < x.len() implies z[i] == x[i] by {
                            assert(x[i] == y.subrange(0, x.len() as int)[i]);
                            assert(y[i] == z.subrange(0, y.len() as int)[i]);
                        }
                        assert(x =~= z.subrange(0, x.len() as int));
                    }
                    lemma_drawn_from_trans(leftover_deck@, mid_deck, self.deck@);
                }
                Ok(IntermediateRoundResult::Finished { results, dealer, leftover_deck })
            },
        }
    }
}

/// What the players' turns end in when no input is pending: paused at a
/// human player's decision, or every turn taken.
enum PlayerTurnsStep {
    Paused(InProgressGame),
    PlayersDone(InProgressGame),
}

/// Settles a finished round: every player's hand is emptied, their bet is
/// resolved against their outcome, and the players are handed back in table
/// order, ready for the next round.
pub fn settle_round(round_results: RoundResult, payout_ratio: &PayoutRatio) -> (new_players: Vec<
    Participant,
>)
    requires
        payout_ratio.denominator > 0,
        forall|j: int|
            0 <= j < round_results@.len() ==> {
                &&& (#[trigger] round_results@[j]).0.purse_ok()
                &&& (round_results@[j].0.bet_of() is Some
                    ==> round_results@[j].0.money_of()->Some_0 + payout_winnings(
                    round_results@[j].1,
                    round_results@[j].0.bet_of()->Some_0 as nat,
                    *payout_ratio,
                ) <= u32::MAX)
            },
    ensures
        new_players@.len() == round_results@.len(),
        forall|j: int|
            0 <= j < round_results@.len() ==> {
                &&& (#[trigger] new_players@[j]).is_bot() == round_results@[j].0.is_bot()
                &&& new_players@[j].name_of() == round_results@[j].0.name_of()
                &&& new_players@[j].hand_seq().len() == 0
                &&& new_players@[j].bet_of() is None
                &&& new_players@[j].money_of() == settled_money(
                    round_results@[j].0,
                    round_results@[j].1,
                    *payout_ratio,
                )
                &&& new_players@[j].purse_ok()
            },
{
    let ghost orig = round_results@;
    let mut rest = round_results;
    let mut new_players: Vec<Participant> = Vec::new();
    while rest.len() > 0
        invariant
            payout_ratio.denominator > 0,
            new_players@.len() + rest@.len() == orig.len(),
            rest@ == orig.skip(new_players@.len() as int),
            forall|j: int|
                0 <= j < orig.len() ==> {
                    &&& (#[trigger] orig[j]).0.purse_ok()
                    &&& (orig[j].0.bet_of() is Some ==> orig[j].0.money_of()->Some_0
                        + payout_winnings(
                        orig[j].1,
                        orig[j].0.bet_of()->Some_0 as nat,
                        *payout_ratio,
                    ) <= u32::MAX)
                },
            forall|j: int|
                0 <= j < new_players@.len() ==> {
                    &&& (#[trigger] new_players@[j]).is_bot() == orig[j].0.is_bot()
                    &&& new_players@[j].name_of() == orig[j].0.name_of()
                    &&& new_players@[j].hand_seq().len() == 0
                    &&& new_players@[j].bet_of() is None
                    &&& new_players@[j].money_of() == settled_money(
                        orig[j].0,
                        orig[j].1,
                        *payout_ratio,
                    )
                    &&& new_players@[j].purse_ok()
                },
        decreases rest@.len(),
    {
        proof {
            assert(rest@[0] == orig[new_players@.len() as int]);
        }
        let pair = rest.remove(0);
        let mut player = pair.0;
        player.discard_hand();
        player.handle_round_result(pair.1, payout_ratio);
        new_players.push(player);
        proof {
            assert(rest@ =~= orig.skip(new_players@.len() as int));
        }
    }
    new_players
}

} // verus!
