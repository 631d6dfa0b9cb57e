//! A small peer-to-peer publish/subscribe core: writers and readers matched
//! by topic, peers found through periodic multicast announcements.

pub mod entity;
pub mod message;
pub mod domain;
pub mod participant;
pub mod codec;
