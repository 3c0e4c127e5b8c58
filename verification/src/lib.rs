//! The rules of an RGB wallet: which outputs may carry assets, how inputs are
//! chosen, how transfers move from one status to the next and what is written
//! down for each of them.

pub mod chain;
pub mod database;
pub mod error;
pub mod keys;
pub mod laws;
pub mod rgb_data;
pub mod scalars;
pub mod seqs;
pub mod text;
pub mod wallet;
