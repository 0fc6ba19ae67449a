//! Tracks subscription feeds of episodic video, keeps a catalog of the items
//! not yet watched and of those being watched, and reconciles what a media
//! player reports back into it.
//!
//! `catalog` holds the store's operations, `sync` the watermark merge of
//! fetched feeds, `playback` the end of a viewing session, `feeds` the
//! normalization of RSS and Atom documents.

pub mod catalog;
pub mod decimal;
pub mod feeds;
pub mod keyed;
pub mod links;
pub mod model;
pub mod playback;
pub mod remote;
pub mod schedule;
pub mod sync;
pub mod time;
