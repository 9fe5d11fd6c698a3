//! Locating a Grand Theft Auto V installation, stripping the user's identity
//! from any path that leaves the machine, classifying an installation by
//! the store it came from, and gathering what the mod installer prints.
//!
//! Everything here is a pure function or a small state machine over plain
//! values: the caller touches the file system, the network and the child
//! process, and hands in what it saw.
//!
//! - `sanitizer`: the user's name gives way to a placeholder.
//! - `platform`: the store that a path names.
//! - `analytics`: what goes to and comes from the analytics service.
//! - `resolver`: reporting a directory, and searching for the game.
//! - `installer`: the arguments of the installer and its transcript.
//! - `host`: small answers about the machine.
//! - `text`: strings as sequences of characters.

pub mod text;
pub mod sanitizer;
pub mod platform;
pub mod analytics;
pub mod resolver;
pub mod installer;
pub mod host;
