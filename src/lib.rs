//! The search-and-presentation core of a keyboard launcher: an item cache
//! with bounded staleness, a tiered fuzzy ranking, and a viewport that keeps
//! the selected result in view, with the key handling, layout and item
//! sources around them.

pub mod commands;
pub mod config;
pub mod desktop;
pub mod fuzzy;
pub mod icons;
pub mod keys;
pub mod layout;
pub mod order;
pub mod session;
pub mod text;
pub mod theme;
pub mod viewport;
