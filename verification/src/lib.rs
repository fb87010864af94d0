//! A Signal client for the terminal: what it shows, and what it decides.
//!
//! The library holds the rules of the client over plain values. It reads and
//! writes nothing itself: a step that needs the disk, the network or the
//! terminal hands out what is to be done, and takes back what came of it.
//!
//! - [`app`] and [`ui`] are the terminal interface: its state, and the lines
//!   that show it. [`edit`], [`states`] and [`wrap`] are parts of it.
//! - [`cli`] and [`dates`] are the commands that answer once.
//! - [`backend`] shows stored messages and conversations, [`attachments`] their
//!   files, [`preferences`] what is remembered.
//! - [`sync`] and [`archive`] bring in the history of a phone, [`qr`] links it.
//! - [`updater`] keeps the program up to date, [`launch`] starts it.
//! - [`text`], [`number`], [`bytes`], [`json`], [`order`] and [`paths`] are what
//!   the others are written in.
use vstd::prelude::*;

pub mod app;
pub mod archive;
pub mod attachments;
pub mod backend;
pub mod bytes;
pub mod cli;
pub mod dates;
pub mod edit;
pub mod json;
pub mod launch;
pub mod number;
pub mod order;
pub mod paths;
pub mod preferences;
pub mod qr;
pub mod states;
pub mod sync;
pub mod text;
pub mod ui;
pub mod updater;
pub mod wrap;

verus! {

} // verus!
