//! Typing practice on a vocabulary: the state of a session, the scoring of what was typed
//! against the selected word, the editing of the input, the selection in the list, and
//! what each pane of the terminal shows. Drawing and reading the terminal are left to the
//! program that uses the library.

pub mod event;
pub mod layout;
pub mod opts;
pub mod state;
pub mod text;
pub mod widgets;
pub mod word;
