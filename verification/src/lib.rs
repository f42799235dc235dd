//! Verified core of a hierarchical KV-cache gateway: identifiers, KV-footprint estimation,
//! cuckoo-filter projections of cached blocks, cluster membership and gossip decisions, and
//! the wire-level logic of the backend connectors.

pub mod backend;
pub mod catalog;
pub mod ckf_consumer;
pub mod ckf_producer;
pub mod ckf_relay;
pub mod coalescing;
pub mod config;
pub mod connector;
pub mod connector_registry;
pub mod cost;
pub mod cuckoo_filter;
pub mod decision_event;
pub mod dynamo;
pub mod error;
pub mod estimate;
pub mod estimation_registry;
pub mod gossip;
pub mod hash;
pub mod ids;
pub mod kv_estimate_config;
pub mod kv_event;
pub mod kv_index;
pub mod lane;
pub mod lane_grid;
pub mod load_stats;
pub mod local_ckf;
pub mod member;
pub mod messages;
pub mod metrics;
pub mod model_registry;
pub mod model_tier;
pub mod named_map;
pub mod openai_compat;
pub mod plugin;
pub mod radix_tree;
pub mod region_view;
pub mod request;
pub mod resilience;
pub mod routing_history;
pub mod sglang;
pub mod shared_state;
pub mod spec;
pub mod sse;
pub mod store;
pub mod table;
pub mod tenant;
pub mod text;
pub mod topology;
pub mod topology_graph;
pub mod transport;
