//! The form of an entry in which it is exchanged with clients.

use vstd::prelude::*;

use crate::map::StringMap;

verus! {

/// An entry as a client sends or receives it: attributes and nothing else.
#[derive(Debug)]
pub struct ProtoEntry {
    pub attrs: StringMap<Vec<String>>,
}

} // verus!
