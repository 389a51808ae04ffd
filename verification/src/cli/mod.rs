//! The rules behind the command line tools: what they parse, print, decide and put on the wire.

pub mod audit;
pub mod bench;
pub mod calendar;
pub mod config;
pub mod connect;
pub mod copy;
pub mod doctor;
pub mod formats;
pub mod forward;
pub mod fwd;
pub mod health;
pub mod key;
pub mod known_hosts;
pub mod options;
pub mod perf;
pub mod ping;
pub mod pipe;
pub mod proto;
pub mod proxy;
pub mod recv;
pub mod report;
pub mod scan;
pub mod serve;
pub mod shell;
pub mod stats;
pub mod sync;
pub mod tui;
pub mod tunnel;
pub mod version;
