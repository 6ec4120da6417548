//! A verified engine for counterfactual-regret minimization over
//! extensive-form games of imperfect information, together with the
//! card, hand and range machinery of the poker games built on it.
//!
//! Probabilities and payoffs are held in fixed-point integers so that
//! every arithmetic step of the solver is exact and provable; the scale
//! is [`fixed::PROB_ONE`] units to one.

pub mod abstraction;
pub mod action;
pub mod card;
pub mod config;
pub mod fixed;
pub mod game;
pub mod grid;
pub mod hand;
pub mod hand_eval;
pub mod eightmax;
pub mod info_state;
pub mod kuhn;
pub mod position;
pub mod rng;
pub mod scenario;
pub mod solver;
pub mod spots;
pub mod storage;
pub mod text;
