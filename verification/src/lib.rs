//! Agent-to-agent messaging over Logos Messaging topics.

pub mod agent;
pub mod clock;
pub mod codec;
pub mod error;
pub mod history;
pub mod json;
pub mod keys;
pub mod load;
pub mod metrics;
pub mod module_call;
pub mod node;
pub mod order;
pub mod presence;
pub mod retry;
pub mod sds;
pub mod session;
pub mod storage;
pub mod table;
pub mod text;
pub mod transport;
pub mod trust;
pub mod unique;
