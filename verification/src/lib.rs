//! In-memory representation of JSON-like documents.
//!
//! Two containers make up the library: [`object::JSONObject`], a mapping from
//! text keys to values, and [`array::JSONArray`], an ordered heterogeneous
//! sequence.  Both store each of the seven value kinds (integer, float bits,
//! boolean, text, nested array, nested object, null) in a collection of its
//! own; the array additionally tags every element with a logical position so
//! that the original insertion order can be reconstructed across the
//! segregated lists.

use vstd::prelude::*;

pub mod array;
pub mod object;
pub mod string_map;

pub use array::JSONArray;
pub use object::JSONObject;

verus! {

/// The JSON null value.  It carries no payload; a container records only its
/// presence under a key or at a position.
#[derive(Clone, Copy, PartialEq, Eq, Structural, Debug)]
pub struct Null;

} // verus!
