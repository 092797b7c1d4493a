use std::cmp::Ordering;
use war::battle::{battle, Outcome};
use war::card::{compare_cards, Card, Rank, Suit};
use war::deck::Deck;

fn c(suit: Suit, rank: Rank) -> Card {
    Card::new(suit, rank)
}

fn deck_of(cards: Vec<Card>) -> Deck {
    Deck { deck: cards }
}

const RANKS: [Rank; 13] = [
    Rank::Two,
    Rank::Three,
    Rank::Four,
    Rank::Five,
    Rank::Six,
    Rank::Seven,
    Rank::Eight,
    Rank::Nine,
    Rank::Ten,
    Rank::Jack,
    Rank::Queen,
    Rank::King,
    Rank::Ace,
];

#[test]
fn ace_beats_king() {
    let mut one = deck_of(vec![c(Suit::Spades, Rank::Ace)]);
    let mut two = deck_of(vec![c(Suit::Hearts, Rank::King)]);
    let r = battle(&mut one, &mut two);
    assert_eq!(r, Outcome::DeckOneWins);
    assert_eq!(
        one.deck,
        vec![c(Suit::Spades, Rank::Ace), c(Suit::Hearts, Rank::King)]
    );
    assert!(two.deck.is_empty());
}

#[test]
fn tie_without_cards_for_war_is_stalemate() {
    let mut one = deck_of(vec![c(Suit::Clubs, Rank::Five), c(Suit::Diamonds, Rank::Five)]);
    let mut two = deck_of(vec![c(Suit::Hearts, Rank::Five)]);
    let r = battle(&mut one, &mut two);
    assert_eq!(r, Outcome::Stalemate);
    assert_eq!(one.deck, vec![c(Suit::Diamonds, Rank::Five)]);
    assert!(two.deck.is_empty());
}

#[test]
fn lower_card_loses_both_cards_to_deck_two() {
    let mut one = deck_of(vec![c(Suit::Hearts, Rank::Three), c(Suit::Hearts, Rank::Nine)]);
    let mut two = deck_of(vec![c(Suit::Clubs, Rank::Jack), c(Suit::Clubs, Rank::Two)]);
    let r = battle(&mut one, &mut two);
    assert_eq!(r, Outcome::DeckTwoWins);
    assert_eq!(one.deck, vec![c(Suit::Hearts, Rank::Nine)]);
    assert_eq!(
        two.deck,
        vec![
            c(Suit::Clubs, Rank::Two),
            c(Suit::Hearts, Rank::Three),
            c(Suit::Clubs, Rank::Jack)
        ]
    );
}

#[test]
fn decided_round_moves_one_card_net() {
    let mut one = deck_of(vec![c(Suit::Hearts, Rank::Queen), c(Suit::Hearts, Rank::Two), c(Suit::Hearts, Rank::Four)]);
    let mut two = deck_of(vec![c(Suit::Spades, Rank::Ten), c(Suit::Spades, Rank::Six)]);
    assert_eq!(battle(&mut one, &mut two), Outcome::DeckOneWins);
    assert_eq!(one.deck.len(), 4);
    assert_eq!(two.deck.len(), 1);
    assert_eq!(one.deck[2], c(Suit::Hearts, Rank::Queen));
    assert_eq!(one.deck[3], c(Suit::Spades, Rank::Ten));
}

#[test]
fn single_war_gives_six_cards_to_winner() {
    let mut one = deck_of(vec![
        c(Suit::Clubs, Rank::Five),
        c(Suit::Clubs, Rank::Two),
        c(Suit::Clubs, Rank::King),
        c(Suit::Clubs, Rank::Seven),
    ]);
    let mut two = deck_of(vec![
        c(Suit::Diamonds, Rank::Five),
        c(Suit::Diamonds, Rank::Three),
        c(Suit::Diamonds, Rank::Queen),
        c(Suit::Diamonds, Rank::Eight),
    ]);
    let r = battle(&mut one, &mut two);
    assert_eq!(r, Outcome::DeckOneWins);
    assert_eq!(
        one.deck,
        vec![
            c(Suit::Clubs, Rank::Seven),
            c(Suit::Clubs, Rank::King),
            c(Suit::Diamonds, Rank::Queen),
            c(Suit::Clubs, Rank::Five),
            c(Suit::Diamonds, Rank::Five),
            c(Suit::Clubs, Rank::Two),
            c(Suit::Diamonds, Rank::Three),
        ]
    );
    assert_eq!(two.deck, vec![c(Suit::Diamonds, Rank::Eight)]);
    assert_eq!(one.deck.len() + two.deck.len(), 8);
}

#[test]
fn nested_war_pays_inner_pool_first() {
    let mut one = deck_of(vec![
        c(Suit::Clubs, Rank::Nine),
        c(Suit::Clubs, Rank::Two),
        c(Suit::Clubs, Rank::Jack),
        c(Suit::Clubs, Rank::Three),
        c(Suit::Clubs, Rank::Four),
    ]);
    let mut two = deck_of(vec![
        c(Suit::Hearts, Rank::Nine),
        c(Suit::Hearts, Rank::Two),
        c(Suit::Hearts, Rank::Jack),
        c(Suit::Hearts, Rank::Three),
        c(Suit::Hearts, Rank::Ace),
    ]);
    let r = battle(&mut one, &mut two);
    assert_eq!(r, Outcome::DeckTwoWins);
    assert!(one.deck.is_empty());
    assert_eq!(
        two.deck,
        vec![
            c(Suit::Clubs, Rank::Four),
            c(Suit::Hearts, Rank::Ace),
            c(Suit::Clubs, Rank::Jack),
            c(Suit::Hearts, Rank::Jack),
            c(Suit::Clubs, Rank::Three),
            c(Suit::Hearts, Rank::Three),
            c(Suit::Clubs, Rank::Nine),
            c(Suit::Hearts, Rank::Nine),
            c(Suit::Clubs, Rank::Two),
            c(Suit::Hearts, Rank::Two),
        ]
    );
}

#[test]
fn stalemate_inside_war_forfeits_outer_pool() {
    let mut one = deck_of(vec![
        c(Suit::Clubs, Rank::Six),
        c(Suit::Clubs, Rank::Two),
        c(Suit::Clubs, Rank::Ten),
        c(Suit::Clubs, Rank::Four),
    ]);
    let mut two = deck_of(vec![
        c(Suit::Hearts, Rank::Six),
        c(Suit::Hearts, Rank::Two),
        c(Suit::Hearts, Rank::Ten),
        c(Suit::Hearts, Rank::Four),
    ]);
    let r = battle(&mut one, &mut two);
    assert_eq!(r, Outcome::Stalemate);
    assert_eq!(one.deck, vec![c(Suit::Clubs, Rank::Four)]);
    assert_eq!(two.deck, vec![c(Suit::Hearts, Rank::Four)]);
}

#[test]
fn compare_cards_ignores_suit() {
    assert_eq!(
        compare_cards(&c(Suit::Hearts, Rank::Seven), &c(Suit::Spades, Rank::Seven)),
        Ordering::Equal
    );
    assert_eq!(
        compare_cards(&c(Suit::Spades, Rank::Two), &c(Suit::Hearts, Rank::Ace)),
        Ordering::Less
    );
    assert_eq!(
        compare_cards(&c(Suit::Hearts, Rank::Ace), &c(Suit::Spades, Rank::King)),
        Ordering::Greater
    );
}

#[test]
fn rank_order_is_total_and_follows_the_list() {
    for (i, a) in RANKS.iter().enumerate() {
        assert_eq!(a.value() as usize, i);
        for (j, b) in RANKS.iter().enumerate() {
            let r = compare_cards(&c(Suit::Clubs, *a), &c(Suit::Diamonds, *b));
            assert_eq!(r, i.cmp(&j));
            let back = compare_cards(&c(Suit::Diamonds, *b), &c(Suit::Clubs, *a));
            assert_eq!(back, r.reverse());
        }
    }
}
