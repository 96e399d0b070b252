//! The machines of a factory.

pub mod manufacturers;
