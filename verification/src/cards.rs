//! Cards, decks of cards, and the construction of shuffled multi-decks.

use rand::seq::SliceRandom;
use vstd::prelude::*;

verus! {

/// The rank of a playing card.
#[derive(Copy, Clone, Debug, PartialEq, Eq, Structural)]
pub enum Rank {
    Ace,
    Two,
    Three,
    Four,
    Five,
    Six,
    Seven,
    Eight,
    Nine,
    Ten,
    Jack,
    Queen,
    King,
}

/// The suit of a playing card.
#[derive(Copy, Clone, Debug, PartialEq, Eq, Structural)]
pub enum Suit {
    Club,
    Diamond,
    Heart,
    Spade,
}

/// A playing card.
#[derive(Copy, Clone, Debug, PartialEq, Eq, Structural)]
pub struct Card {
    pub rank: Rank,
    pub suit: Suit,
}

/// The cards used for dealing; cards are drawn one at a time from the top,
/// which is the end of the vector.
pub type Deck = Vec<Card>;

/// The cards an actor holds during a round.
pub type Hand = Vec<Card>;

/// How many distinct cards a single standard deck holds.
pub const STANDARD_DECK_COUNT: usize = 52;

/// The rank at position `i` of a standard deck's fixed rank order.
pub open spec fn rank_of_index(i: int) -> Rank {
    if i == 0 {
        Rank::Ace
    } else if i == 1 {
        Rank::Two
    } else if i == 2 {
        Rank::Three
    } else if i == 3 {
        Rank::Four
    } else if i == 4 {
        Rank::Five
    } else if i == 5 {
        Rank::Six
    } else if i == 6 {
        Rank::Seven
    } else if i == 7 {
        Rank::Eight
    } else if i == 8 {
        Rank::Nine
    } else if i == 9 {
        Rank::Ten
    } else if i == 10 {
        Rank::Jack
    } else if i == 11 {
        Rank::Queen
    } else {
        Rank::King
    }
}

/// The suit at position `i` of a standard deck's fixed suit order.
pub open spec fn suit_of_index(i: int) -> Suit {
    if i == 0 {
        Suit::Club
    } else if i == 1 {
        Suit::Diamond
    } else if i == 2 {
        Suit::Heart
    } else {
        Suit::Spade
    }
}

/// The card at position `i` of a standard deck: suits in order, and within
/// each suit the thirteen ranks in order.
pub open spec fn card_of_index(i: int) -> Card {
    Card { rank: rank_of_index(i % 13), suit: suit_of_index(i / 13) }
}

/// One standard deck: each of the 52 distinct cards exactly once.
pub open spec fn full_deck() -> Seq<Card> {
    Seq::new(52, |i: int| card_of_index(i))
}

/// `n` standard decks laid end to end.
pub open spec fn multideck(n: nat) -> Seq<Card>
    decreases n,
{
    if n == 0 {
        Seq::empty()
    } else {
        multideck((n - 1) as nat) + full_deck()
    }
}

pub proof fn lemma_multideck_len(n: nat)
    ensures
        multideck(n).len() == 52 * n,
    decreases n,
{
    if n > 0 {
        lemma_multideck_len((n - 1) as nat);
    }
}

impl Rank {
    /// The rank at position `i` of the fixed rank order, as executable code.
    pub fn from_index(i: usize) -> (r: Rank)
        requires
            i < 13,
        ensures
            r == rank_of_index(i as int),
    {
        if i == 0 {
            Rank::Ace
        } else if i == 1 {
            Rank::Two
        } else if i == 2 {
            Rank::Three
        } else if i == 3 {
            Rank::Four
        } else if i == 4 {
            Rank::Five
        } else if i == 5 {
            Rank::Six
        } else if i == 6 {
            Rank::Seven
        } else if i == 7 {
            Rank::Eight
        } else if i == 8 {
            Rank::Nine
        } else if i == 9 {
            Rank::Ten
        } else if i == 10 {
            Rank::Jack
        } else if i == 11 {
            Rank::Queen
        } else {
            Rank::King
        }
    }

    /// The short text for a rank, as it is shown beside a suit symbol.
    pub fn simple_abbreviation(&self) -> (r: &'static str)
        ensures
            r@ == rank_abbreviation(*self),
    {
        match self {
            Rank::Ace => "A",
            Rank::Two => "2",
            Rank::Three => "3",
            Rank::Four => "4",
            Rank::Five => "5",
            Rank::Six => "6",
            Rank::Seven => "7",
            Rank::Eight => "8",
            Rank::Nine => "9",
            Rank::Ten => "10",
            Rank::Jack => "J",
            Rank::Queen => "Q",
            Rank::King => "K",
        }
    }
}

/// The short text for each rank.
pub open spec fn rank_abbreviation(r: Rank) -> Seq<char> {
    match r {
        Rank::Ace => "A"@,
        Rank::Two => "2"@,
        Rank::Three => "3"@,
        Rank::Four => "4"@,
        Rank::Five => "5"@,
        Rank::Six => "6"@,
        Rank::Seven => "7"@,
        Rank::Eight => "8"@,
        Rank::Nine => "9"@,
        Rank::Ten => "10"@,
        Rank::Jack => "J"@,
        Rank::Queen => "Q"@,
        Rank::King => "K"@,
    }
}

impl Suit {
    /// The suit at position `i` of the fixed suit order, as executable code.
    pub fn from_index(i: usize) -> (s: Suit)
        requires
            i < 4,
        ensures
            s == suit_of_index(i as int),
    {
        if i == 0 {
            Suit::Club
        } else if i == 1 {
            Suit::Diamond
        } else if i == 2 {
            Suit::Heart
        } else {
            Suit::Spade
        }
    }

    /// The unicode symbol for a suit.
    pub fn unicode_representation(&self) -> (r: &'static str)
        ensures
            r@ == suit_symbol(*self),
    {
        match self {
            Suit::Club => "\u{2663}",
            Suit::Diamond => "\u{2666}",
            Suit::Heart => "\u{2665}",
            Suit::Spade => "\u{2660}",
        }
    }
}

/// The unicode symbol for each suit.
pub open spec fn suit_symbol(s: Suit) -> Seq<char> {
    match s {
        Suit::Club => "\u{2663}"@,
        Suit::Diamond => "\u{2666}"@,
        Suit::Heart => "\u{2665}"@,
        Suit::Spade => "\u{2660}"@,
    }
}

/// Builds one standard deck: the 52 distinct cards, suits in order and
/// ranks in order within each suit.
pub fn standard_deck() -> (deck: Vec<Card>)
    ensures
        deck@ == full_deck(),
{
    let mut deck: Vec<Card> = Vec::new();
    let mut i: usize = 0;
    while i < 52
        invariant
            i <= 52,
            deck@.len() == i,
            forall|k: int| 0 <= k < i ==> deck@[k] == card_of_index(k),
        decreases 52 - i,
    {
        let card = Card { rank: Rank::from_index(i % 13), suit: Suit::from_index(i / 13) };
        deck.push(card);
        i = i + 1;
    }
    proof {
        assert(deck@ =~= full_deck());
    }
    deck
}

/// Builds a deck of `num_decks` standard decks laid end to end.
pub fn create_multideck(num_decks: u32) -> (deck: Vec<Card>)
    requires
        52 * num_decks <= usize::MAX,
    ensures
        deck@ == multideck(num_decks as nat),
        deck@.len() == 52 * num_decks,
{
    let base = standard_deck();
    let mut deck: Vec<Card> = Vec::new();
    let mut d: u32 = 0;
    proof {
        lemma_multideck_len(num_decks as nat);
    }
    while d < num_decks
        invariant
            d <= num_decks,
            52 * num_decks <= usize::MAX,
            base@ == full_deck(),
            deck@ == multideck(d as nat),
            deck@.len() == 52 * d,
        decreases num_decks - d,
    {
        proof {
            lemma_multideck_len((d + 1) as nat);
        }
        deck.extend_from_slice(base.as_slice());
        d = d + 1;
    }
    deck
}

/// Relies on rand's `SliceRandom::shuffle`, driven by `rand::thread_rng`:
/// a Fisher-Yates shuffle that rearranges the slice in place by swaps, so
/// whatever the generator yields, the cards after the call are a
/// permutation of the cards before it.
#[verifier::external_body]
pub fn shuffle_deck(deck: &mut Vec<Card>)
    ensures
        final(deck)@.to_multiset() == old(deck)@.to_multiset(),
        final(deck)@.len() == old(deck)@.len(),
{
    deck.as_mut_slice().shuffle(&mut rand::thread_rng());
}

} // verus!
