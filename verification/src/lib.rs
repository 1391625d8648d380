//! Transaction-processing core of a card terminal and the bank server behind it.

pub mod account;
pub mod frame;
pub mod laws;
pub mod message;
pub mod money;
pub mod session;
pub mod store;
pub mod terminal;
