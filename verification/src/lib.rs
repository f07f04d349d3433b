//! The core of a terminal chat console: a retained view tree with a
//! two-pass measure/layout protocol and an abstract paint contract, a
//! deduplicating pageable scrollback, the window and title bars, an input
//! line, the command-line tokenizer with its inverse, and the event
//! protocol that drives them.

mod strutil;
pub mod command;
pub mod message;
pub mod buffer;
pub mod bars;
pub mod input;
pub mod view;
pub mod paint;
pub mod event;
pub mod ui;
