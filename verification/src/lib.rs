//! Core of a comic and manga page viewer: the byte-wise ordering of page
//! names, the ingestion of zip-style archives and directory listings into a
//! page list, and the navigation state machine that moves a cursor over the
//! pages in single-page, dual-page and right-to-left reading modes.

pub mod archive;
pub mod hotkey;
pub mod navigation;
pub mod order;
pub mod pages;
pub mod reader;
pub mod source;
pub mod zoom;
