//! `roe`: the editing model behind a dual-pane structured-data editor
//! (raw text on one side, a navigable tree on the other).
use vstd::prelude::*;

pub mod text;
pub mod value;
pub mod tree;
pub mod format;
pub mod codec;
pub mod sync;
pub mod state;
pub mod events;
pub mod render;
pub mod session;

verus! {
}
