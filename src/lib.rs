use vstd::prelude::*;

pub mod broadcast_node;
pub mod echo;
pub mod message;
pub mod node;
pub mod unique_ids;
pub mod wire;

verus! {

} // verus!
