//! Reads a radio station's playlist-history table into typed playlist entries.
//!
//! The table markup is parsed with `scraper` and entities are decoded with
//! `html-escape`; which rows become records, and what each record holds, is
//! decided and proved here.

pub mod markup;
pub mod playlist;
pub mod youtube;

pub use playlist::{try_scrape_html, ParseError, PlaylistItem};
