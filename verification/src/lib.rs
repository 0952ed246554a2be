//! Classification of five-card poker hands that may hold one joker.
//!
//! [`card`] holds the cards and the reader of a hand's text, which [`words`]
//! cuts into words. [`hand`] holds the ten categories and the judge that
//! picks the highest one, [`groups`] the counting of cards with one number
//! that five of the categories rest on, and [`laws`] what is proved of
//! every judgment.

pub mod card;
pub mod groups;
pub mod hand;
pub mod laws;
pub mod words;
