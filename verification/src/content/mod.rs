pub mod manager;
pub mod providers;
pub mod register;
pub mod selection;
pub mod song;
pub mod stack;
