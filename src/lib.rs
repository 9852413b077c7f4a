pub mod clock;
pub mod kv;
pub mod gossip;
