//! A TR-369 (USP) agent core: the record and message codec, session
//! sequencing, the TR-181 data-model dispatcher and the message engine.

pub mod agent;
pub mod apply;
pub mod config;
pub mod device_info;
pub mod dm;
pub mod endpoint;
pub mod error;
pub mod firmware;
pub mod gnss;
pub mod heartbeat;
pub mod message;
pub mod pb;
pub mod record;
pub mod session;
pub mod stats;
pub mod tables;
pub mod text;
pub mod util;
pub mod wire;
