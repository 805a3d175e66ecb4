//! Verified core of a checker that looks up which names of a word list are
//! still free under `.eth`, `.box` and `.id`.
pub mod text;
pub mod order;
pub mod timestamp;
pub mod word_map;
pub mod wordlist;
pub mod checkpoint;
pub mod checker;
pub mod manager;
pub mod export;
pub mod run;
pub mod report;
pub mod word_run;
