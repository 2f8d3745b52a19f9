//! The state of the screen and its update logic: a state machine that turns key and
//! mouse events into new states and commands for the worker, and folds the worker's
//! results back in. It does no input or output of its own.
pub mod content;
pub mod geometry;
pub mod matching;
pub mod state;
pub mod appearance;
pub mod panes;
pub mod reading;
pub mod feeds;
pub mod events;
pub mod keys;
pub mod dialogs;
pub mod mouse;

pub use self::content::{collect_image_sources, collect_links, image_key};
pub use self::geometry::{hit, in_rect, LinkRect, Rect, Rects};
pub use self::keys::Action;
pub use self::matching::{fuzzy, web_url};
pub use self::state::{App, Focus, Mode, PanelBorderStyle, StoredImage, ThemeEditor};
