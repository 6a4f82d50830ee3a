pub mod display;
pub mod keys;
pub mod typing;
