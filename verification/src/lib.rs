//! The logic of a terminal package manager for pacman and the AUR.
//!
//! What pacman, yay and the AUR print is read in [`pacman`] and [`json`]. What
//! changes the system is worked out in [`ops`]. [`theme`] reads palettes.
//! [`app`] holds the application, whose states and transitions [`model`]
//! describes, and [`ui`] works out what is on the screen, in areas that
//! [`layout`] gives. [`laws`] states what they promise together.
//!
//! Nothing here reads or writes anything: texts that were read come in, and
//! commands to run and screens to draw go out.

pub mod app;
pub mod json;
pub mod laws;
pub mod layout;
pub mod model;
pub mod names;
pub mod ops;
pub mod order;
pub mod pacman;
pub mod paths;
pub mod text;
pub mod theme;
pub mod ui;
