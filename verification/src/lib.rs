//! Mining logic of the Stratum V2 roles: job creation, coinbase handling, Merkle roots,
//! share targets, difficulty management and share validation.

pub mod bytes;
pub mod channels;
pub mod coinbase;
pub mod coinbase_laws;
pub mod downstream;
pub mod errors;
pub mod header;
pub mod ids;
pub mod job_creator;
pub mod merkle;
pub mod messages;
pub mod mutex;
pub mod stripped_coinbase;
pub mod target;
pub mod transaction;
pub mod uint256;
pub mod wire_format;
