//! Page recognition pipeline: image normalisation, content-addressed cache keys,
//! language hints, reading order, formula detection and per-page aggregation.

pub mod blocks;
pub mod layout;
pub mod normalize;
pub mod text;
pub mod math;
pub mod language;
pub mod cache;
pub mod config;
pub mod error;
pub mod pipeline;
pub mod pages;
pub mod markdown;
pub mod coordinator;
