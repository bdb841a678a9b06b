//! Core of a modal, keyboard-driven text editor: a row-based text buffer
//! with a dual byte/character cursor, a keystroke grammar that composes
//! editing motions, and a linear undo/redo history over buffer snapshots.

pub mod buffer;
pub mod chars;
pub mod document;
pub mod handler;
pub mod history;
pub mod lexer;
pub mod motion;
pub mod token;
