//! Clypse, a clipboard history manager for Linux: the clipboard history store,
//! the capture rules, the daemon's IPC protocol, and the state of the window and
//! the panel applet, each with its behaviour stated and proved.
use vstd::prelude::*;

pub mod applet;
pub mod capture;
pub mod client;
pub mod config;
pub mod db;
pub mod hash;
pub mod mime;
pub mod protocol;
pub mod service;
pub mod view;
pub mod text;
pub mod tray;

verus! {

} // verus!
