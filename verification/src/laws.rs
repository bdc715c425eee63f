//! What the library promises, stated over texts, lists and states themselves.

pub mod app;
pub mod json;
pub mod layout;
pub mod ops;
pub mod pacman;
pub mod text;
pub mod theme;
pub mod ui;
