//! Plain catalog value types.

use vstd::prelude::*;

verus! {

/// A person credited with a catalog item.
#[derive(Debug, Clone)]
pub struct Author {
    pub id: i64,
    pub name: String,
}

impl Author {
    /// Builds an author row from its key and display name.
    pub fn new(id: i64, name: String) -> (author: Author)
        ensures
            author.id == id,
            author.name == name,
    {
        Author { id, name }
    }
}

} // verus!
