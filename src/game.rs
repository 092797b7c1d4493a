use vstd::prelude::*;
use crate::battle::{battle, battle_result, cards_in_play, lemma_card_conservation, Outcome};
use crate::deck::Deck;

verus! {

/// Who holds more cards when a game ends.
#[derive(Debug, Clone, Copy, PartialEq, Eq, Structural)]
pub enum Standing {
    DeckOneAhead,
    DeckTwoAhead,
    /// Both decks hold the same number of cards.
    Level,
}

/// The standing given by the number of cards each deck holds.
pub open spec fn standing_of(one: nat, two: nat) -> Standing {
    if one > two {
        Standing::DeckOneAhead
    } else if one < two {
        Standing::DeckTwoAhead
    } else {
        Standing::Level
    }
}

/// A game in progress: two decks, and whether a war has stalled.
#[derive(Debug)]
pub struct Game {
    pub deck_one: Deck,
    pub deck_two: Deck,
    pub stalled: bool,
}

/// Splits a deck in two: the first half (rounded down) and the rest.
pub fn split_deck(deck: Deck) -> (r: (Deck, Deck))
    ensures
        r.0@ == deck@.take(deck@.len() as int / 2),
        r.1@ == deck@.skip(deck@.len() as int / 2),
{
    let mut first = deck.deck;
    let half = first.len() / 2;
    let second = first.split_off(half);
    proof {
        assert(first@ =~= deck@.take(deck@.len() as int / 2));
        assert(second@ =~= deck@.skip(deck@.len() as int / 2));
    }
    (Deck { deck: first }, Deck { deck: second })
}

impl Game {
    /// Deals `deck` into two halves: the first half goes to deck one, the rest to deck two.
    pub fn new(deck: Deck) -> (r: Game)
        ensures
            r.deck_one@ == deck@.take(deck@.len() as int / 2),
            r.deck_two@ == deck@.skip(deck@.len() as int / 2),
            !r.stalled,
    {
        let (deck_one, deck_two) = split_deck(deck);
        Game { deck_one, deck_two, stalled: false }
    }

    pub open spec fn over(&self) -> bool {
        self.stalled || self.deck_one@.len() == 0 || self.deck_two@.len() == 0
    }

    /// Whether the game has ended: a war stalled, or a deck is empty.
    pub fn is_over(&self) -> (r: bool)
        ensures
            r == self.over(),
    {
        self.stalled || self.deck_one.is_empty() || self.deck_two.is_empty()
    }

    /// Plays one battle, or returns `None` and changes nothing once the game is over.
    ///
    /// A decided battle keeps every card in play; a stalemate ends the game and
    /// may only take cards out of play.
    pub fn play_round(&mut self) -> (r: Option<Outcome>)
        ensures
            old(self).over() ==> r is None && *final(self) == *old(self),
            !old(self).over() ==> ({
                let (o, x, y) = battle_result(old(self).deck_one@, old(self).deck_two@);
                &&& r == Some(o)
                &&& final(self).deck_one@ == x
                &&& final(self).deck_two@ == y
                &&& final(self).stalled == (o == Outcome::Stalemate)
            }),
            final(self).deck_one@.len() + final(self).deck_two@.len() <= old(self).deck_one@.len()
                + old(self).deck_two@.len(),
            r matches Some(o) && o != Outcome::Stalemate ==> cards_in_play(
                final(self).deck_one@,
                final(self).deck_two@,
            ) == cards_in_play(old(self).deck_one@, old(self).deck_two@),
    {
        if self.is_over() {
            return None;
        }
        proof {
            lemma_card_conservation(self.deck_one@, self.deck_two@);
        }
        let o = battle(&mut self.deck_one, &mut self.deck_two);
        if o == Outcome::Stalemate {
            self.stalled = true;
        }
        Some(o)
    }

    /// Which deck holds more cards.
    pub fn standing(&self) -> (r: Standing)
        ensures
            r == standing_of(self.deck_one@.len(), self.deck_two@.len()),
    {
        let one = self.deck_one.len();
        let two = self.deck_two.len();
        if one > two {
            Standing::DeckOneAhead
        } else if one < two {
            Standing::DeckTwoAhead
        } else {
            Standing::Level
        }
    }
}

} // verus!
