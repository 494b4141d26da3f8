//! A line editor in the manner of readline, verified.
//!
//! The terminal is not in here. Bytes come in one at a time, what is to be
//! written goes out as text, and [`session`] says what to do about each thing
//! that happens in between. Behind it, from the outside in:
//!
//! - [`decoder`] and [`keys`] turn bytes into input events, [`keyspec`] spells
//!   keys the way readline does;
//! - [`step`] says what one event does to a line: searches, pending keys, the
//!   bindings, and the undo bookkeeping; [`act`] runs the named actions of
//!   [`actions`], [`vi`] the normal-mode commands, [`edit`], [`recall`],
//!   [`search`] and [`complete`] the commands themselves, over [`words`];
//! - [`paint`] repaints the line, over [`width`]; [`hints`] remembers the hint;
//! - [`editor`] holds what persists across lines: the [`log`] (with its file
//!   format in [`histfile`]), the [`ring`], the bindings and the variables;
//!   [`preload`] has the laws of what one line leaves to the next;
//! - [`modes`], [`external`] and [`queries`] are what the terminal side needs
//!   decided: the raw-mode recipe, the external editor's command line, and
//!   cursor-position queries.
//!
//! [`line`] holds the state of a line and the mathematical value that it stands
//! for; the commands' contracts are functions from value to value. [`laws`] says
//! what these come to for the person at the keyboard: what each key does to the
//! text, what is on the screen, and what is remembered.
pub mod act;
pub mod actions;
pub mod complete;
pub mod decoder;
pub mod edit;
pub mod editor;
pub mod external;
pub mod hints;
pub mod histfile;
pub mod hooks;
pub mod keys;
pub mod keyspec;
pub mod laws;
pub mod line;
pub mod log;
pub mod modes;
pub mod paint;
pub mod preload;
pub mod queries;
pub mod recall;
pub mod ring;
pub mod search;
pub mod session;
pub mod step;
pub mod text;
pub mod unicode;
pub mod vi;
pub mod width;
pub mod words;

pub use actions::{BellStyle, EditorAction};
pub use editor::{BindError, Editor, ReadResult};
pub use hooks::{Candidate, Hooks, NoHooks};
