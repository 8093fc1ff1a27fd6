//! The logic of a persistent file tree beside a text editor, of the Jujutsu integration that feeds
//! it and the editor's diff gutter, and of the file watcher that keeps both up to date.
//!
//! Nothing here touches the disk, a process, a thread or the screen. What has to be read comes in as
//! plain values, and what has to be done goes out as plain values:
//!
//! - [`path`], [`order`], [`collections`], [`text`] and [`geometry`] hold the values that the rest
//!   is about: paths by their components, sets of and maps from paths, texts, and rectangles of the
//!   screen.
//! - [`tree`] is the state of the file tree. [`listing`], [`flatten`] and [`rows`] turn directories
//!   into its rows, [`refresh`] brings it up to date, [`navigate`] moves through it, [`selection`] and
//!   [`clipboard`] are about what is done with paths, [`prompts`] asks, [`progress`] is how such work ends, [`events`] reacts to the
//!   mouse and the keyboard, [`metadata`] sums up states and diagnostics, and [`render`] draws.
//!   [`undo`] states what one action undoes of another.
//! - [`vcs`] asks the providers of version-control metadata in turn, and [`jj`] is the one of them
//!   that works: its commands, and what their output tells.
//! - [`watch`] decides what is watched and gathers the events.
//! - [`laws`] states what the operations do over plain entries, characters, rows and paths.

pub mod clipboard;
pub mod collections;
pub mod events;
pub mod flatten;
pub mod geometry;
pub mod jj;
pub mod laws;
pub mod listing;
pub mod metadata;
pub mod navigate;
pub mod order;
pub mod path;
pub mod progress;
pub mod prompts;
pub mod refresh;
pub mod render;
pub mod rows;
pub mod selection;
pub mod text;
pub mod tree;
pub mod undo;
pub mod vcs;
pub mod watch;
