use vstd::prelude::*;
use crate::card::{Card, Rank, Suit};

verus! {

/// An ordered pile of cards: drawn from the front, filled at the back.
#[derive(Debug)]
pub struct Deck {
    pub deck: Vec<Card>,
}

impl View for Deck {
    type V = Seq<Card>;

    open spec fn view(&self) -> Seq<Card> {
        self.deck@
    }
}

/// The suit of the `i`-th group of thirteen cards in a fresh deck.
pub open spec fn suit_at(i: int) -> Suit {
    if i == 0 {
        Suit::Hearts
    } else if i == 1 {
        Suit::Diamonds
    } else if i == 2 {
        Suit::Clubs
    } else {
        Suit::Spades
    }
}

/// The rank at position `j` within each suit of a fresh deck: Ace first, then Two to King.
pub open spec fn rank_at(j: int) -> Rank {
    if j == 0 {
        Rank::Ace
    } else if j == 1 {
        Rank::Two
    } else if j == 2 {
        Rank::Three
    } else if j == 3 {
        Rank::Four
    } else if j == 4 {
        Rank::Five
    } else if j == 5 {
        Rank::Six
    } else if j == 6 {
        Rank::Seven
    } else if j == 7 {
        Rank::Eight
    } else if j == 8 {
        Rank::Nine
    } else if j == 9 {
        Rank::Ten
    } else if j == 10 {
        Rank::Jack
    } else if j == 11 {
        Rank::Queen
    } else {
        Rank::King
    }
}

/// Where a suit stands among the groups of a fresh deck.
pub open spec fn suit_index(s: Suit) -> int {
    match s {
        Suit::Hearts => 0,
        Suit::Diamonds => 1,
        Suit::Clubs => 2,
        Suit::Spades => 3,
    }
}

/// Where a rank stands within a suit's group of a fresh deck.
pub open spec fn rank_index(r: Rank) -> int {
    match r {
        Rank::Ace => 0,
        Rank::Two => 1,
        Rank::Three => 2,
        Rank::Four => 3,
        Rank::Five => 4,
        Rank::Six => 5,
        Rank::Seven => 6,
        Rank::Eight => 7,
        Rank::Nine => 8,
        Rank::Ten => 9,
        Rank::Jack => 10,
        Rank::Queen => 11,
        Rank::King => 12,
    }
}

/// The 52 cards of a fresh deck, suit by suit.
pub open spec fn full_deck() -> Seq<Card> {
    Seq::new(52, |i: int| Card { suit: suit_at(i / 13), rank: rank_at(i % 13) })
}

/// `b` holds the same cards as `a`, each as many times, in any order.
pub open spec fn is_permutation(a: Seq<Card>, b: Seq<Card>) -> bool {
    a.to_multiset() == b.to_multiset()
}

fn suit_for(i: usize) -> (r: Suit)
    requires
        i < 4,
    ensures
        r == suit_at(i as int),
{
    if i == 0 {
        Suit::Hearts
    } else if i == 1 {
        Suit::Diamonds
    } else if i == 2 {
        Suit::Clubs
    } else {
        Suit::Spades
    }
}

fn rank_for(j: usize) -> (r: Rank)
    requires
        j < 13,
    ensures
        r == rank_at(j as int),
{
    if j == 0 {
        Rank::Ace
    } else if j == 1 {
        Rank::Two
    } else if j == 2 {
        Rank::Three
    } else if j == 3 {
        Rank::Four
    } else if j == 4 {
        Rank::Five
    } else if j == 5 {
        Rank::Six
    } else if j == 6 {
        Rank::Seven
    } else if j == 7 {
        Rank::Eight
    } else if j == 8 {
        Rank::Nine
    } else if j == 9 {
        Rank::Ten
    } else if j == 10 {
        Rank::Jack
    } else if j == 11 {
        Rank::Queen
    } else {
        Rank::King
    }
}

/// Relies on rand's `SliceRandom::shuffle` with the thread-local generator:
/// it reorders the slice by swaps only, so the result is a permutation of it.
#[verifier::external_body]
fn shuffle_cards(cards: &mut Vec<Card>)
    ensures
        is_permutation(final(cards)@, old(cards)@),
{
    rand::seq::SliceRandom::shuffle(cards.as_mut_slice(), &mut rand::thread_rng());
}

impl Deck {
    /// A fresh deck of 52 cards: Hearts, Diamonds, Clubs, Spades, each from Ace to King.
    pub fn new() -> (r: Deck)
        ensures
            r@ == full_deck(),
            r@.len() == 52,
            r@.no_duplicates(),
            forall|c: Card| #[trigger] r@.contains(c),
    {
        let mut next_deck: Vec<Card> = Vec::new();
        let mut s: usize = 0;
        while s < 4
            invariant
                s <= 4,
                next_deck@ == full_deck().take(13 * s as int),
            decreases 4 - s,
        {
            let suit = suit_for(s);
            let mut j: usize = 0;
            while j < 13
                invariant
                    s < 4,
                    j <= 13,
                    suit == suit_at(s as int),
                    next_deck@ == full_deck().take(13 * s as int + j as int),
                decreases 13 - j,
            {
                let ghost k: int = 13 * s as int + j as int;
                assert(k / 13 == s as int && k % 13 == j as int) by (nonlinear_arith)
                    requires
                        k == 13 * s as int + j as int,
                        j < 13,
                ;
                next_deck.push(Card::new(suit, rank_for(j)));
                assert(next_deck@ =~= full_deck().take(k + 1));
                j = j + 1;
            }
            s = s + 1;
        }
        assert(next_deck@ =~= full_deck());
        proof {
            lemma_full_deck_no_duplicates();
            assert forall|c: Card| #[trigger] next_deck@.contains(c) by {
                lemma_full_deck_complete(c);
            }
        }
        Deck { deck: next_deck }
    }

    /// Puts the cards in a random order; the cards themselves stay the same.
    pub fn shuffle(&mut self)
        ensures
            is_permutation(final(self)@, old(self)@),
    {
        shuffle_cards(&mut self.deck);
    }

    /// Takes the front card, or `None` when the deck is empty (the deck then stays as it was).
    pub fn draw(&mut self) -> (r: Option<Card>)
        ensures
            old(self)@.len() == 0 ==> r is None && final(self)@ == old(self)@,
            old(self)@.len() > 0 ==> r == Some(old(self)@[0]) && final(self)@ == old(
                self,
            )@.drop_first(),
    {
        if self.deck.is_empty() {
            None
        } else {
            let c = self.deck.remove(0);
            assert(self.deck@ =~= old(self)@.drop_first());
            Some(c)
        }
    }

    /// Appends `cards` at the back, in the order given.
    pub fn insert(&mut self, cards: Vec<Card>)
        ensures
            final(self)@ == old(self)@ + cards@,
    {
        let mut cards = cards;
        self.deck.append(&mut cards);
    }

    pub fn is_empty(&self) -> (r: bool)
        ensures
            r <==> self@.len() == 0,
    {
        self.deck.is_empty()
    }

    pub fn len(&self) -> (r: usize)
        ensures
            r == self@.len(),
    {
        self.deck.len()
    }
}

/// A fresh deck holds every card exactly once.
pub proof fn lemma_full_deck_complete(c: Card)
    ensures
        full_deck().len() == 52,
        full_deck().contains(c),
        full_deck().to_multiset().count(c) == 1,
{
    let i = 13 * suit_index(c.suit) + rank_index(c.rank);
    assert(i / 13 == suit_index(c.suit) && i % 13 == rank_index(c.rank)) by (nonlinear_arith)
        requires
            i == 13 * suit_index(c.suit) + rank_index(c.rank),
            0 <= rank_index(c.rank) < 13,
            0 <= suit_index(c.suit) < 4,
    ;
    assert(full_deck()[i] == c);
    lemma_full_deck_no_duplicates();
    full_deck().lemma_multiset_has_no_duplicates();
    full_deck().to_multiset_ensures();
}

/// No card appears twice in a fresh deck.
pub proof fn lemma_full_deck_no_duplicates()
    ensures
        full_deck().no_duplicates(),
{
    assert forall|i: int, j: int|
        0 <= i < 52 && 0 <= j < 52 && i != j implies full_deck()[i] != full_deck()[j] by {
        let (si, ri) = (i / 13, i % 13);
        let (sj, rj) = (j / 13, j % 13);
        assert(i == 13 * si + ri && j == 13 * sj + rj && 0 <= ri < 13 && 0 <= rj < 13 && 0 <= si
            < 4 && 0 <= sj < 4) by (nonlinear_arith)
            requires
                0 <= i < 52,
                0 <= j < 52,
                si == i / 13,
                ri == i % 13,
                sj == j / 13,
                rj == j % 13,
        ;
        assert(suit_index(suit_at(si)) == si);
        assert(suit_index(suit_at(sj)) == sj);
        assert(rank_index(rank_at(ri)) == ri);
        assert(rank_index(rank_at(rj)) == rj);
    }
}

} // verus!
