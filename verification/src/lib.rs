//! Live network-throughput monitoring core: raw cumulative interface
//! counters are collected (from counter text, native interface tables, or
//! an SNMP-managed router), turned into per-second deltas by a
//! wraparound-safe tracker, and rendered as human-readable rates.

pub mod collect;
pub mod formatting;
pub mod text;
pub mod tracker;
pub mod types;
pub mod wan;

pub use collect::{accumulate_samples, filter_interface_names, filter_table_rows, parse_net_dev};
pub use formatting::{human_bits_per_sec, human_bytes_per_sec};
pub use tracker::{DeltaTracker, NetDelta};
pub use types::{InterfaceSet, InterfaceStats, InterfaceType, StatView};
pub use wan::{detect_interface_index, fetch_wan_stats, is_snmp_available};
