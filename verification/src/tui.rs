//! The terminal interface's logic: the command palette, what keys and
//! palette actions do to the interface state, and the text the views show.
pub mod palette;
pub mod state;
pub mod view;
pub mod theme;
