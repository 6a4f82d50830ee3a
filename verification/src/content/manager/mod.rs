pub mod actions;
pub mod browser;
pub mod check;
pub mod give_back;
pub mod manager;
pub mod navigation;
pub mod queueing;
