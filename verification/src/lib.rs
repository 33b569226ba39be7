pub mod dao;
pub mod key;
pub mod mint;
pub mod spl;
