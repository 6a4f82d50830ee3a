pub mod editors;
pub mod notifier;
pub mod python;
pub mod text;
pub mod yt;
