//! What holds of the library as a whole: relations between what goes into an operation
//! and what comes out of it, and between one operation and another.

pub mod accounts;
pub mod answers;
pub mod blocks;
pub mod chrome;
pub mod discovery;
pub mod drawing;
pub mod embeds;
pub mod feeds;
pub mod following;
pub mod gestures;
pub mod hoisting;
pub mod html;
pub mod keeping;
pub mod keys;
pub mod layout;
pub mod markdown;
pub mod media;
pub mod menus;
pub mod pictures;
pub mod printing;
pub mod records;
pub mod reports;
pub mod repositories;
pub mod screen;
pub mod sessions;
pub mod styles;
pub mod words;
