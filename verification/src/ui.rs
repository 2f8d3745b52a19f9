//! What the screen shows: colours, panes and the laid-out document.
pub mod chrome;
pub mod doc;
pub mod grid;
pub mod links;
pub mod panes;
pub mod reader;
pub mod strip;
pub mod theme;
pub mod viewport;
