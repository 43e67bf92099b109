//! A fixed-grid table renderer for terminal display.
//!
//! The crate has two parts: [`buffer`] parses comma-separated text into an
//! ordered table of records, and [`view`] lays that table out as a bordered
//! cell grid, producing one line of text per terminal row. All terminal and
//! file I/O stays with the caller: the library takes plain text in and hands
//! finished lines back.

pub mod buffer;
pub mod view;
