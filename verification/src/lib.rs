//! Verified core of `voxtype-review`, an edit-before-insert popup for Voxtype.
//!
//! A dictation arrives as text, is reviewed in a window, and goes out as text.
//! Everything that is decided on the way is decided here; what reads, writes,
//! draws and spawns is left to the program around this library.
//!
//! * [`action`], [`run`], [`terminal`], [`decision`]: what an action is, what a
//!   run of one comes to, and what is sent on.
//! * [`review`], [`voice`]: the popup, and instructions that are spoken.
//! * [`focus`], [`valet`]: the window that was dictated into, and the clipboard.
//! * [`config`], [`toml_doc`]: the action set and the file it is read from.
//! * [`voxtype_config`], [`edit`]: the settings of Voxtype, changed one line at a
//!   time.
//! * [`webui`], [`http`], [`json`], [`page`]: the config page.
//! * [`cli`], [`place`], [`text`]: what the rest stands on.
//! * [`date`], [`calendar`], [`numbers`]: dates, and what they stand on.

use vstd::prelude::*;

pub mod action;
pub mod calendar;
pub mod cli;
pub mod config;
pub mod date;
pub mod decision;
pub mod edit;
pub mod focus;
pub mod http;
pub mod json;
pub mod numbers;
pub mod page;
pub mod place;
pub mod review;
pub mod run;
pub mod terminal;
pub mod text;
pub mod toml_doc;
pub mod valet;
pub mod voice;
pub mod voxtype_config;
pub mod webui;

verus! {

} // verus!
