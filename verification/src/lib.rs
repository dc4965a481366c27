use vstd::prelude::*;

pub mod text;
pub mod actions;
pub mod config;
pub mod platform;
pub mod providers;
pub mod editor;
pub mod error;
pub mod hotkey;
pub mod module;
pub mod shortcut;
pub mod theme;
pub mod ui;

verus! {

} // verus!
