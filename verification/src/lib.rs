//! The verified core of Runde.

pub mod banner;
pub mod base32;
pub mod clipboard;
pub mod env_file;
pub mod form;
pub mod joining;
pub mod logs;
pub mod peer;
pub mod placement;
pub mod pump;
pub mod relay;
pub mod screen;
pub mod text;
pub mod ticket;
pub mod tunnel;
pub mod updater;
