//! Flow telemetry aggregation, traffic-direction classification and
//! threshold-based detection, with every rule stated as a contract.

pub mod common;
pub mod net;
pub mod seed;
pub mod sampling;
pub mod flow;
pub mod bounded_map;
pub mod counters;
pub mod rate_window;
pub mod aggregator;
pub mod window;
pub mod text;
pub mod render;
pub mod input;
pub mod direction;
pub mod policy;
pub mod evaluate;
pub mod state;
pub mod table;
pub mod precedence;
pub mod config;
pub mod trie;
pub mod registry;
pub mod event;
pub mod clock;
pub mod metrics;
pub mod sink;
pub mod document;
pub mod normalize;
pub mod engine;
pub mod exporter;
pub mod pipeline;
pub mod prefix_list;
pub mod scrape;
