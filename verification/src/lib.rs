//! Verified core of a crawler for the peer-to-peer network of Spectre nodes.
//!
//! The library holds the decisions of the crawler: how peer addresses are
//! normalised and written, how a crawl walks the network breadth first, how
//! the answers of one peer are collected, what a handshake announces, and how
//! crawled nodes are geolocated with a bounded number of attempts.  The
//! network, the clock and the HTTP client are driven from outside.

pub mod address;
pub mod address_laws;
pub mod crawl;
pub mod geo;
pub mod handshake;
pub mod messages;
pub mod models;
pub mod session;
pub mod text;
pub mod update;
