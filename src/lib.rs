//! Request aggregation and caching layer of a small crypto news and
//! market-data backend: a bounded LRU cache of serialized responses, the
//! normalization of upstream records, a sentiment heuristic and the
//! per-request decisions of the two routes.

pub mod cache;
pub mod sentiment;
pub mod timestamp;
pub mod json;
pub mod news;
pub mod market;
pub mod handler;
