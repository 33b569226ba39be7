pub mod error;
pub mod state;
pub mod voting;
pub mod proposals;
pub mod members;
pub mod removal;
pub mod laws;
