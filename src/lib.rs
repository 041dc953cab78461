pub mod cache;
pub mod census;
pub mod engine;
pub mod layout;
pub mod order;
