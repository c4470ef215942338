//! Actors in a game of Blackjack: the actions they can take, the dealer,
//! and the players.

pub mod dealers;
pub mod players;

use vstd::prelude::*;

verus! {

/// Supported player actions.
#[derive(Debug, Copy, Clone, PartialEq, Eq, Structural)]
pub enum Action {
    /// Draw one card from the deck into the hand.
    Hit,
    /// Keep the hand as it is and end the turn.
    Stand,
}

/// What `str::trim` returns for a given string: the string without its
/// leading and trailing whitespace.
pub uninterp spec fn trimmed_of(s: Seq<char>) -> Seq<char>;

/// What `str::to_lowercase` returns for a given string.
pub uninterp spec fn lower_of(s: Seq<char>) -> Seq<char>;

/// Relies on `str::trim`: the result depends on the characters alone.
#[verifier::external_body]
fn trim_str<'a>(s: &'a str) -> (r: &'a str)
    ensures
        r@ == trimmed_of(s@),
{
    s.trim()
}

/// Relies on `str::to_lowercase`: the result depends on the characters alone.
#[verifier::external_body]
fn lowercase_str(s: &str) -> (r: String)
    ensures
        r@ == lower_of(s@),
{
    s.to_lowercase()
}

/// The action named by an input string, after trimming whitespace and
/// lowercasing: `hit`/`h` and `stand`/`s` are the only valid spellings.
pub open spec fn parsed_action(input: Seq<char>) -> Option<Action> {
    let canon = lower_of(trimmed_of(input));
    if canon == "hit"@ || canon == "h"@ {
        Some(Action::Hit)
    } else if canon == "stand"@ || canon == "s"@ {
        Some(Action::Stand)
    } else {
        None
    }
}

impl Action {
    /// Reads an action from an input string, ignoring surrounding whitespace
    /// and letter case. Anything that is not a spelling of hit or stand is
    /// rejected, never defaulted.
    pub fn parse_from_string(input: &str) -> (r: Result<Action, &'static str>)
        ensures
            match parsed_action(input@) {
                Some(a) => r == Ok::<Action, &'static str>(a),
                None => r matches Err(m) && m@ == "Invalid action input"@,
            },
    {
        let canon = lowercase_str(trim_str(input));
        if canon == "hit".to_owned() || canon == "h".to_owned() {
            Ok(Action::Hit)
        } else if canon == "stand".to_owned() || canon == "s".to_owned() {
            Ok(Action::Stand)
        } else {
            Err("Invalid action input")
        }
    }
}

} // verus!
