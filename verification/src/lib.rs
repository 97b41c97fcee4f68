//! A key-value store kept in shielded Zcash memos: the rules that decide what a
//! database holds, what a write may do, and how both are shown.

pub mod config;
pub mod db;
pub mod fleet;
pub mod freshness;
pub mod gui;
pub mod internal;
pub mod lex;
pub mod network;
pub mod ordmap;
pub mod protocol;
pub mod sort;
pub mod text;
