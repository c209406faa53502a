//! Texas Hold'em hand evaluation and equity estimation.
//!
//! Cards are bit-packed words; a hand of five cards is ranked by a lookup in tables that
//! give every class of hands its strength, from 1 for a royal flush to 7462 for seven high;
//! seven cards are ranked by their best five. On top of the evaluator stand two equity
//! calculators, one that enumerates every deal and one that samples deals.

// Cards and what is made of them.
pub mod card;
pub mod hand;
pub mod hole_cards;
pub mod street;
pub mod board;
pub mod deck;
pub mod game;

// Chips, players and betting.
pub mod chips;
pub mod player;
pub mod action;
pub mod betting;
pub mod ids;
pub mod text;

// Hand evaluation.
pub mod combinatorics;
pub mod rank_keys;
pub mod hand_classes;
pub mod strength_map;
pub mod hand_rank_tables;
pub mod hand_strength;
pub mod hand_evaluator;
pub mod cactus_kev;

// Showdowns and equity.
pub mod hand_solver;
pub mod showdown;
pub mod equity;
pub mod exhaustive;
pub mod monte_carlo;

// What the library asks of its surroundings.
pub mod clock;
pub mod id_generator;
pub mod random_source;
pub mod event_store;
pub mod snapshot_store;
pub mod read_model;
pub mod event_publisher;
pub mod game_repository;
pub mod hand_history;
