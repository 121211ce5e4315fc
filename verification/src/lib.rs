//! Navigational page cache and search index of a note browser.

pub mod book;
pub mod index;
pub mod laws;
pub mod links;
pub mod page;
pub mod repository;
pub mod search;
pub mod text;
pub mod trail;
pub mod utils;
