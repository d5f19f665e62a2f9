//! The machines, and the contract that they share.

pub mod machine;
pub mod string_machine;
