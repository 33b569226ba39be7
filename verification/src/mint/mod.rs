pub mod error;
pub mod ops;
pub mod state;
pub mod laws;
