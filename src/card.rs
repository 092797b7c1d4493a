use vstd::prelude::*;

verus! {

/// The four suits. A suit only names a card; it never decides a round.
#[derive(Debug, Clone, Copy, PartialEq, Eq, Structural, PartialOrd, Ord)]
pub enum Suit {
    Hearts,
    Diamonds,
    Clubs,
    Spades,
}

/// The thirteen ranks, from lowest to highest.
#[derive(Debug, Clone, Copy, PartialEq, Eq, Structural, PartialOrd, Ord)]
pub enum Rank {
    Two,
    Three,
    Four,
    Five,
    Six,
    Seven,
    Eight,
    Nine,
    Ten,
    Jack,
    Queen,
    King,
    Ace,
}

/// A playing card.
#[derive(Debug, Clone, Copy, PartialEq, Eq, Structural, PartialOrd, Ord)]
pub struct Card {
    pub suit: Suit,
    pub rank: Rank,
}

/// Position of a rank in the order Two < Three < ... < Ace, from 0 to 12.
pub open spec fn rank_value(r: Rank) -> int {
    match r {
        Rank::Two => 0,
        Rank::Three => 1,
        Rank::Four => 2,
        Rank::Five => 3,
        Rank::Six => 4,
        Rank::Seven => 5,
        Rank::Eight => 6,
        Rank::Nine => 7,
        Rank::Ten => 8,
        Rank::Jack => 9,
        Rank::Queen => 10,
        Rank::King => 11,
        Rank::Ace => 12,
    }
}

/// Three-way comparison of two ranks by their position in the rank order.
pub open spec fn rank_cmp(a: Rank, b: Rank) -> core::cmp::Ordering {
    if rank_value(a) < rank_value(b) {
        core::cmp::Ordering::Less
    } else if rank_value(a) == rank_value(b) {
        core::cmp::Ordering::Equal
    } else {
        core::cmp::Ordering::Greater
    }
}

impl Rank {
    /// The rank's position in the rank order.
    pub fn value(&self) -> (r: u8)
        ensures
            r as int == rank_value(*self),
    {
        match self {
            Rank::Two => 0,
            Rank::Three => 1,
            Rank::Four => 2,
            Rank::Five => 3,
            Rank::Six => 4,
            Rank::Seven => 5,
            Rank::Eight => 6,
            Rank::Nine => 7,
            Rank::Ten => 8,
            Rank::Jack => 9,
            Rank::Queen => 10,
            Rank::King => 11,
            Rank::Ace => 12,
        }
    }
}

impl Card {
    pub fn new(suit: Suit, rank: Rank) -> (r: Card)
        ensures
            r.suit == suit,
            r.rank == rank,
    {
        Card { suit, rank }
    }
}

/// Compares two cards by rank alone; the suits play no part.
pub fn compare_cards(card_one: &Card, card_two: &Card) -> (r: core::cmp::Ordering)
    ensures
        r == rank_cmp(card_one.rank, card_two.rank),
{
    let one = card_one.rank.value();
    let two = card_two.rank.value();
    if one < two {
        core::cmp::Ordering::Less
    } else if one == two {
        core::cmp::Ordering::Equal
    } else {
        core::cmp::Ordering::Greater
    }
}

/// Every rank lies in the order between Two and Ace.
pub proof fn lemma_rank_value_bounds(r: Rank)
    ensures
        0 <= rank_value(r) <= 12,
        rank_value(Rank::Two) <= rank_value(r) <= rank_value(Rank::Ace),
{
}

/// Exactly one of Less, Equal and Greater holds between two ranks, Equal only
/// between equal ranks, and swapping the operands turns Less into Greater.
pub proof fn lemma_rank_cmp_total(a: Rank, b: Rank)
    ensures
        (rank_cmp(a, b) == core::cmp::Ordering::Less) as int + (rank_cmp(a, b)
            == core::cmp::Ordering::Equal) as int + (rank_cmp(a, b)
            == core::cmp::Ordering::Greater) as int == 1,
        rank_cmp(a, b) == core::cmp::Ordering::Equal <==> a == b,
        rank_cmp(a, b) == core::cmp::Ordering::Less <==> rank_cmp(b, a)
            == core::cmp::Ordering::Greater,
{
}

/// The rank order is transitive.
pub proof fn lemma_rank_cmp_transitive(a: Rank, b: Rank, c: Rank)
    ensures
        rank_cmp(a, b) == core::cmp::Ordering::Less && rank_cmp(b, c) == core::cmp::Ordering::Less
            ==> rank_cmp(a, c) == core::cmp::Ordering::Less,
{
}

} // verus!
