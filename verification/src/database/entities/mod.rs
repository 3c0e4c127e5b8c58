//! The tables of the wallet.

pub mod coloring;
