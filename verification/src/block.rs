//! A named block type.

use vstd::prelude::*;

verus! {

use crate::BlockId;

/// A block type identifier together with its display name.
#[derive(Debug, Clone, PartialEq, Eq)]
pub struct Block {
    pub id: BlockId,
    pub name: String,
}

impl Block {
    pub fn new(id: BlockId, name: &str) -> (r: Self)
        ensures
            r.id == id,
            r.name@ == name@,
    {
        Self { id, name: name.to_string() }
    }
}

} // verus!
