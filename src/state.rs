//! State shared by the application's windows.
use vstd::prelude::*;
use std::collections::HashMap;

verus! {

/// The path of the store, and which window shows which receipt: receipt
/// id to window id.
pub struct State {
    pub db_path: String,
    pub window_map: HashMap<i32, u32>,
}

} // verus!
