//! What the operations of the library do, stated over the values that go in and come out: the
//! entries of a directory, the characters of a line, the row under the cursor.
//!
//! - [`listing`] is about the entries of a directory and their rows, [`moving`] about the cursor and
//!   what opens and closes, [`showing`] about the place of the tree and what a refresh keeps,
//!   [`drawing`] about what a row looks like and [`counting`] about what a directory shows of what
//!   lies below it.
//! - [`acting`] is about the mouse and the actions, [`pasting`] about the clipboard, and [`prompting`]
//!   about what is asked.
//! - [`reporting`], [`asking`] and [`inquiring`] are about changed files, the commands of Jujutsu, and
//!   the providers; [`watching`] is about file events and watches, and [`paths`] about paths.
//! - [`calls`] says of calls of the operations themselves what they answer and leave behind.

pub mod acting;
pub mod asking;
pub mod calls;
pub mod counting;
pub mod drawing;
pub mod inquiring;
pub mod listing;
pub mod moving;
pub mod pasting;
pub mod paths;
pub mod prompting;
pub mod reporting;
pub mod showing;
pub mod watching;
