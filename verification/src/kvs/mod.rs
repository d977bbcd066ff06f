//! The transactional key-value plane: an ordered store of byte strings in memory, and
//! transactions over it.

pub mod table;
pub mod tx;
pub mod tx_laws;
