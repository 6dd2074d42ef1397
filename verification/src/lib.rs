//! Directory entries: named attributes with lists of string values, their schema
//! validation, the filters that select them and the modifications that change them.

pub mod attrs;
pub mod entry;
pub mod filter;
pub mod laws;
pub mod map;
pub mod modify;
pub mod order;
pub mod proto;
pub mod schema;
pub mod values;
