//! A small verified library behind two console toys: a word-guessing game
//! with Wordle-style feedback, and a sprite that arrow keys move around a
//! window.
//!
//! The scoring of a guess against a target word, the normalization and
//! bookkeeping of the game session, and the clamped motion arithmetic all
//! live here with contracts; reading lines and drawing frames stay outside.

pub mod game;
pub mod motion;
pub mod scoring;
