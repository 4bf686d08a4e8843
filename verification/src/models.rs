//! The to-do items the application stores.

use vstd::prelude::*;

verus! {

/// A to-do item as a client submits it.
pub struct NewTodo {
    pub title: String,
    pub item_order: i32,
}

/// A stored to-do item.
pub struct Todo {
    pub id: i32,
    pub title: String,
    pub item_order: i32,
    pub completed: bool,
}

} // verus!
