//! Orchestration and durability core of a payment-channel node.

pub mod chain;
pub mod dispatch;
pub mod forwarding;
pub mod funding;
pub mod keys;
pub mod layout;
pub mod payment;
pub mod peers;
pub mod recovery;
pub mod routing;
pub mod text;
pub mod update_log;
