pub mod action;
pub mod kitchen;
pub mod laws;
pub mod order;
