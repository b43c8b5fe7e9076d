//! Pingenty: the verified core of a network monitor.
//!
//! The library holds everything the monitor decides or computes: latency
//! statistics, ICMP echo packets and their checksum, the order of probes,
//! the classification of DNS answers, the decoding and aggregation of captured
//! frames, the state of the dashboard, and the lines of the reports and of the live
//! export. Sockets, threads, files and the terminal belong to the program around it.

pub mod account;
pub mod cli;
pub mod clock;
pub mod dns;
pub mod double;
pub mod echo;
pub mod export;
pub mod flows;
pub mod packet;
pub mod ping;
pub mod ranking;
pub mod report;
pub mod text;
pub mod tui;
pub mod watch;
