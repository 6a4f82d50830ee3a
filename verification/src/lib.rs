pub mod app;
pub mod content;
pub mod image;
pub mod service;
