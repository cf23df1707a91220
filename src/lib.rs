//! Point-in-time snapshot of per-member records held in several key-value
//! storage maps: key decoding, checkpoint parsing and the merge of the maps
//! into one record per (group, member) pair.
pub mod checkpoint;
pub mod error;
pub mod key;
pub mod laws;
pub mod record;
pub mod snapshot;
pub mod table;
