pub mod block;
pub mod config;
pub mod decode;
pub mod handler;
pub mod printer;
pub mod sixel;
