//! The card game War: decks, ranks and the recursive battle that decides each round.
pub mod card;
pub mod deck;
pub mod battle;
pub mod game;

