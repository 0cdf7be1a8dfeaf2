//! Core engine of a terminal dashboard for monthly time-series search counts.
//!
//! The library turns a decoded search response into a normalized chart model
//! (a primary series plus an optional per-facet-value breakdown), keeps a
//! bounded insertion-ordered store of charts per query identity, tracks
//! multi-select state for the visible series lists, restores selections when a
//! query becomes active again, and rebuilds a row-major export table from the
//! currently selected series.  Fetching, rendering and key decoding live
//! outside the library and exchange plain values with it.

pub mod cache;
pub mod chart;
pub mod encode;
pub mod export;
pub mod humanize;
pub mod input;
pub mod json;
pub mod keys;
pub mod selection;
pub mod session;
pub mod store;
pub mod text;
pub mod widgets;
