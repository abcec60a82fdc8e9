//! A bookcase in the terminal: the books of one reader, with their reading
//! states and tags, and the table and the dialogs in which they are
//! browsed, filtered, sorted and edited.
//!
//! The library holds the data and what each key press does to it; drawing
//! and reading the keyboard are left to the program around it.

pub mod book;
pub mod books;
pub mod filter;
pub mod tags;
pub mod text;
pub mod tui;
pub mod util;
