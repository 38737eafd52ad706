pub mod account;
pub mod bank;
pub mod coin;
pub mod denom;
pub mod error;
pub mod execute;
pub mod hash;
pub mod host;
pub mod parse;
pub mod registry;
pub mod storage;
pub mod types;
