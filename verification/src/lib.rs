//! A bridge between a MAVLink-speaking vehicle and web clients.
//!
//! The crate keeps a live mirror of every message seen per vehicle and
//! component, answers JSON-pointer queries against that mirror, fans newly
//! received messages out to filtered subscribers, and drives a MAVLink-FTP
//! client one operation at a time.  All data is modelled on plain values so
//! that the behaviour of each component is stated in contracts and checked.

pub mod cli;
pub mod controller;
pub mod data;
pub mod json;
pub mod mavftp;
pub mod mavlink_vehicle;
pub mod rest_api;
pub mod text;
pub mod websocket_manager;
