//! A verified IP-to-country classification engine and the analytics
//! aggregation built on it: a fixed table of CIDR blocks with country labels,
//! longest-prefix-match lookup for IPv4 and IPv6 literals, and a pure
//! aggregation pass that folds per-view records into country, per-post and
//! daily breakdowns.
pub mod analytics;
pub mod cidr;
pub mod geoip;
pub mod ip;
pub mod records;
pub mod sorting;
pub mod text;
