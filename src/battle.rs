use vstd::prelude::*;
use vstd::multiset::Multiset;
use crate::card::{compare_cards, rank_cmp, Card};
use crate::deck::Deck;

verus! {

/// How a battle ended.
#[derive(Debug, Clone, Copy, PartialEq, Eq, Structural)]
pub enum Outcome {
    /// A war could not go on because a deck ran short; the cards at stake are out of play.
    Stalemate,
    DeckOneWins,
    DeckTwoWins,
}

/// The result of a battle between decks `a` and `b`: the outcome and both decks after it.
///
/// Each deck gives its top card. The higher rank takes both, appended to its
/// own deck in the order drawn. On equal ranks each deck must still hold two
/// cards; if one does not, the battle is a stalemate and the two cards are
/// gone. Otherwise each deck gives one more card, the battle is fought again
/// on what remains, and its winner also takes these four cards, appended after
/// what the inner battle gave it. A stalemate inside a war ends the whole battle.
pub open spec fn battle_result(a: Seq<Card>, b: Seq<Card>) -> (Outcome, Seq<Card>, Seq<Card>)
    decreases a.len(),
{
    if a.len() == 0 || b.len() == 0 {
        (Outcome::Stalemate, a, b)
    } else {
        let (c1, c2) = (a[0], b[0]);
        let (a1, b1) = (a.drop_first(), b.drop_first());
        match rank_cmp(c1.rank, c2.rank) {
            core::cmp::Ordering::Greater => (Outcome::DeckOneWins, a1 + seq![c1, c2], b1),
            core::cmp::Ordering::Less => (Outcome::DeckTwoWins, a1, b1 + seq![c1, c2]),
            core::cmp::Ordering::Equal => {
                if a1.len() < 2 || b1.len() < 2 {
                    (Outcome::Stalemate, a1, b1)
                } else {
                    let pool = seq![c1, c2, a1[0], b1[0]];
                    let (r, x, y) = battle_result(a1.drop_first(), b1.drop_first());
                    match r {
                        Outcome::Stalemate => (Outcome::Stalemate, x, y),
                        Outcome::DeckOneWins => (Outcome::DeckOneWins, x + pool, y),
                        Outcome::DeckTwoWins => (Outcome::DeckTwoWins, x, y + pool),
                    }
                }
            },
        }
    }
}

/// Fights one battle between the two decks, moving the cards as `battle_result` says.
pub fn battle(deck_one: &mut Deck, deck_two: &mut Deck) -> (r: Outcome)
    requires
        old(deck_one)@.len() > 0,
        old(deck_two)@.len() > 0,
    ensures
        (r, final(deck_one)@, final(deck_two)@) == battle_result(old(deck_one)@, old(deck_two)@),
    decreases old(deck_one)@.len(),
{
    let card_one = deck_one.draw().unwrap();
    let card_two = deck_two.draw().unwrap();
    match compare_cards(&card_one, &card_two) {
        core::cmp::Ordering::Greater => {
            deck_one.insert(vec![card_one, card_two]);
            Outcome::DeckOneWins
        },
        core::cmp::Ordering::Less => {
            deck_two.insert(vec![card_one, card_two]);
            Outcome::DeckTwoWins
        },
        core::cmp::Ordering::Equal => {
            if deck_one.len() < 2 || deck_two.len() < 2 {
                return Outcome::Stalemate;
            }
            let extra_one = deck_one.draw().unwrap();
            let extra_two = deck_two.draw().unwrap();
            let winnings = vec![card_one, card_two, extra_one, extra_two];
            let result = battle(deck_one, deck_two);
            match result {
                Outcome::Stalemate => Outcome::Stalemate,
                Outcome::DeckOneWins => {
                    deck_one.insert(winnings);
                    Outcome::DeckOneWins
                },
                Outcome::DeckTwoWins => {
                    deck_two.insert(winnings);
                    Outcome::DeckTwoWins
                },
            }
        },
    }
}

/// Every card held by the two decks together, counted with multiplicity.
pub open spec fn cards_in_play(a: Seq<Card>, b: Seq<Card>) -> Multiset<Card> {
    a.to_multiset().add(b.to_multiset())
}

/// How many wars a battle between `a` and `b` fights before it is decided or stalls.
pub open spec fn war_levels(a: Seq<Card>, b: Seq<Card>) -> nat
    decreases a.len(),
{
    if a.len() == 0 || b.len() == 0 {
        0
    } else {
        let (a1, b1) = (a.drop_first(), b.drop_first());
        if rank_cmp(a[0].rank, b[0].rank) == core::cmp::Ordering::Equal && a1.len() >= 2
            && b1.len() >= 2 {
            1 + war_levels(a1.drop_first(), b1.drop_first())
        } else {
            0
        }
    }
}

proof fn lemma_multiset_first(s: Seq<Card>)
    requires
        s.len() > 0,
    ensures
        s.to_multiset() == s.drop_first().to_multiset().insert(s[0]),
{
    broadcast use vstd::seq_lib::group_to_multiset_ensures;

    assert(s.remove(0) =~= s.drop_first());
    assert(s.to_multiset() =~= s.drop_first().to_multiset().insert(s[0]));
}

proof fn lemma_multiset_of_pair(c1: Card, c2: Card)
    ensures
        seq![c1, c2].to_multiset() == Multiset::empty().insert(c1).insert(c2),
{
    broadcast use vstd::seq_lib::group_to_multiset_ensures;
    broadcast use vstd::multiset::group_multiset_axioms;

    let e = Seq::<Card>::empty();
    assert(e.to_multiset() =~= Multiset::empty());
    assert(seq![c1, c2] =~= e.push(c1).push(c2));
}

/// A decided battle keeps every card in play; a stalemate only takes cards out of play.
pub proof fn lemma_card_conservation(a: Seq<Card>, b: Seq<Card>)
    requires
        a.len() > 0,
        b.len() > 0,
    ensures
        ({
            let (r, x, y) = battle_result(a, b);
            &&& r != Outcome::Stalemate ==> x.len() + y.len() == a.len() + b.len()
                && cards_in_play(x, y) == cards_in_play(a, b)
            &&& r == Outcome::Stalemate ==> x.len() + y.len() < a.len() + b.len()
                && cards_in_play(x, y).subset_of(cards_in_play(a, b))
        }),
    decreases a.len(),
{
    broadcast use vstd::seq_lib::group_to_multiset_ensures;
    broadcast use vstd::seq_lib::lemma_multiset_commutative;
    broadcast use vstd::multiset::group_multiset_axioms;

    let (c1, c2) = (a[0], b[0]);
    let (a1, b1) = (a.drop_first(), b.drop_first());
    lemma_multiset_first(a);
    lemma_multiset_first(b);
    let (r, x, y) = battle_result(a, b);
    lemma_multiset_of_pair(c1, c2);
    match rank_cmp(c1.rank, c2.rank) {
        core::cmp::Ordering::Greater => {
            assert(cards_in_play(x, y) =~= cards_in_play(a, b));
        },
        core::cmp::Ordering::Less => {
            assert(cards_in_play(x, y) =~= cards_in_play(a, b));
        },
        core::cmp::Ordering::Equal => {
            if a1.len() < 2 || b1.len() < 2 {
                assert(cards_in_play(x, y).subset_of(cards_in_play(a, b)));
            } else {
                let (a2, b2) = (a1.drop_first(), b1.drop_first());
                lemma_multiset_first(a1);
                lemma_multiset_first(b1);
                lemma_card_conservation(a2, b2);
                let pool = seq![c1, c2, a1[0], b1[0]];
                lemma_multiset_of_pair(a1[0], b1[0]);
                assert(pool =~= seq![c1, c2] + seq![a1[0], b1[0]]);
                let (r2, x2, y2) = battle_result(a2, b2);
                assert(cards_in_play(a, b) =~= cards_in_play(a2, b2).add(pool.to_multiset()));
                if r2 == Outcome::DeckOneWins {
                    assert(cards_in_play(x, y) =~= cards_in_play(x2, y2).add(pool.to_multiset()));
                } else if r2 == Outcome::DeckTwoWins {
                    assert(cards_in_play(x, y) =~= cards_in_play(x2, y2).add(pool.to_multiset()));
                } else {
                    assert(cards_in_play(x, y).subset_of(cards_in_play(a, b)));
                }
            }
        },
    }
}

/// A round whose top cards differ in rank: the higher card's deck gains both
/// cards at its back, in the order drawn, and the other deck loses its top card.
pub proof fn lemma_decided_round(a: Seq<Card>, b: Seq<Card>)
    requires
        a.len() > 0,
        b.len() > 0,
        rank_cmp(a[0].rank, b[0].rank) != core::cmp::Ordering::Equal,
    ensures
        ({
            let (r, x, y) = battle_result(a, b);
            &&& rank_cmp(a[0].rank, b[0].rank) == core::cmp::Ordering::Greater ==> r
                == Outcome::DeckOneWins && x == a.drop_first() + seq![a[0], b[0]] && y
                == b.drop_first() && x.len() == a.len() + 1 && y.len() == b.len() - 1
            &&& rank_cmp(a[0].rank, b[0].rank) == core::cmp::Ordering::Less ==> r
                == Outcome::DeckTwoWins && x == a.drop_first() && y == b.drop_first() + seq![
                a[0],
                b[0],
            ] && x.len() == a.len() - 1 && y.len() == b.len() + 1
        }),
{
}

/// A war: on tied top cards with four cards or more in each deck, each deck
/// commits two cards, the battle is fought again on what remains, and the four
/// committed cards go, in the order drawn, to the winner of that inner battle.
pub proof fn lemma_war(a: Seq<Card>, b: Seq<Card>)
    requires
        a.len() >= 4,
        b.len() >= 4,
        rank_cmp(a[0].rank, b[0].rank) == core::cmp::Ordering::Equal,
    ensures
        ({
            let (r, x, y) = battle_result(a, b);
            let (r2, x2, y2) = battle_result(a.skip(2), b.skip(2));
            let pool = seq![a[0], b[0], a[1], b[1]];
            &&& r == r2
            &&& r2 == Outcome::Stalemate ==> x == x2 && y == y2
            &&& r2 == Outcome::DeckOneWins ==> x == x2 + pool && y == y2
            &&& r2 == Outcome::DeckTwoWins ==> x == x2 && y == y2 + pool
            &&& war_levels(a, b) >= 1
        }),
{
    assert(a.drop_first().drop_first() =~= a.skip(2));
    assert(b.drop_first().drop_first() =~= b.skip(2));
}

/// Tied top cards with fewer than two cards left behind either one: the battle
/// is a stalemate and both tied cards are out of play.
pub proof fn lemma_stalemate(a: Seq<Card>, b: Seq<Card>)
    requires
        a.len() > 0,
        b.len() > 0,
        rank_cmp(a[0].rank, b[0].rank) == core::cmp::Ordering::Equal,
        a.len() - 1 < 2 || b.len() - 1 < 2,
    ensures
        battle_result(a, b) == (Outcome::Stalemate, a.drop_first(), b.drop_first()),
{
}

/// The shape of a decided battle that went through `k` wars: each deck drew
/// `2k + 1` cards from its top, and the winner received `4k + 2` cards at its
/// back: one pool of four for each war, and the two cards of the last round.
pub proof fn lemma_decided_battle_shape(a: Seq<Card>, b: Seq<Card>)
    requires
        a.len() > 0,
        b.len() > 0,
    ensures
        ({
            let (r, x, y) = battle_result(a, b);
            let k = war_levels(a, b) as int;
            let m = 2 * k + 1;
            &&& r != Outcome::Stalemate ==> m <= a.len() && m <= b.len()
            &&& r == Outcome::DeckOneWins ==> y == b.skip(m) && x.len() == a.len() - m + 4 * k + 2
                && x.take(a.len() - m) == a.skip(m)
            &&& r == Outcome::DeckTwoWins ==> x == a.skip(m) && y.len() == b.len() - m + 4 * k + 2
                && y.take(b.len() - m) == b.skip(m)
        }),
    decreases a.len(),
{
    let (a1, b1) = (a.drop_first(), b.drop_first());
    let (r, x, y) = battle_result(a, b);
    if rank_cmp(a[0].rank, b[0].rank) == core::cmp::Ordering::Equal && a1.len() >= 2 && b1.len()
        >= 2 {
        let (a2, b2) = (a1.drop_first(), b1.drop_first());
        lemma_decided_battle_shape(a2, b2);
        let k2 = war_levels(a2, b2) as int;
        let m2 = 2 * k2 + 1;
        let (r2, x2, y2) = battle_result(a2, b2);
        if r2 != Outcome::Stalemate {
            assert(a2.skip(m2) =~= a.skip(m2 + 2));
            assert(b2.skip(m2) =~= b.skip(m2 + 2));
        }
        if r2 == Outcome::DeckOneWins {
            assert(x.take(a.len() - (m2 + 2)) =~= x2.take(a2.len() - m2));
        } else if r2 == Outcome::DeckTwoWins {
            assert(y.take(b.len() - (m2 + 2)) =~= y2.take(b2.len() - m2));
        }
    } else {
        assert(a.skip(1) =~= a1);
        assert(b.skip(1) =~= b1);
        if r == Outcome::DeckOneWins {
            assert(x.take(a.len() - 1) =~= a1);
        } else if r == Outcome::DeckTwoWins {
            assert(y.take(b.len() - 1) =~= b1);
        }
    }
}

} // verus!
