//! Mystery boxes: reward pools scoped by rarity, a ledger of boxes, and the
//! claim protocol that commits a reward optimistically and compensates when
//! the outside transfer fails.

pub mod contract;
pub mod deposit;
pub mod json;
pub mod laws;
pub mod model;
pub mod network;
pub mod pools;
pub mod quest;
pub mod randomness;
pub mod types;
pub mod verification;
