pub mod database;
pub mod abi;
pub mod types;
pub mod mock;
pub mod invalid_check;
