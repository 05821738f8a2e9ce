//! Settings of a channel.

use vstd::prelude::*;
use crate::clock::Duration;

verus! {

/// Default number of causal history entries to carry in a message.
pub const DEFAULT_CAUSAL_HISTORY_SIZE: usize = 200;

/// Default number of filter hits that acknowledge a message.
pub const DEFAULT_POSSIBLE_ACKS_THRESHOLD: u32 = 2;

/// Default time to wait for an acknowledgement, in seconds.
pub const DEFAULT_ACK_TIMEOUT_SECS: u64 = 10;

/// Default number of retransmissions.
pub const DEFAULT_MAX_RETRIES: u32 = 3;

/// Configuration for the SDS channel.
#[derive(Debug, Clone, Copy)]
pub struct ChannelConfig {
    /// Number of causal history entries per message.
    pub causal_history_size: usize,
    /// How many filter hits count as a definitive acknowledgement.
    pub possible_acks_threshold: u32,
    /// How long to wait for an acknowledgement before sending again.
    pub ack_timeout: Duration,
    /// Maximum number of retransmissions.
    pub max_retries: u32,
    /// Time (ms) after which unresolved dependencies count as lost; `None`
    /// switches this off.
    pub timeout_for_lost_messages_ms: Option<u64>,
}

/// The default settings.
pub open spec fn default_config() -> ChannelConfig {
    ChannelConfig {
        causal_history_size: DEFAULT_CAUSAL_HISTORY_SIZE,
        possible_acks_threshold: DEFAULT_POSSIBLE_ACKS_THRESHOLD,
        ack_timeout: Duration { nanos: 10_000_000_000 },
        max_retries: DEFAULT_MAX_RETRIES,
        timeout_for_lost_messages_ms: None,
    }
}

impl Default for ChannelConfig {
    fn default() -> (res: ChannelConfig)
        ensures
            res == default_config(),
    {
        ChannelConfig {
            causal_history_size: DEFAULT_CAUSAL_HISTORY_SIZE,
            possible_acks_threshold: DEFAULT_POSSIBLE_ACKS_THRESHOLD,
            ack_timeout: Duration::from_secs(DEFAULT_ACK_TIMEOUT_SECS),
            max_retries: DEFAULT_MAX_RETRIES,
            timeout_for_lost_messages_ms: None,
        }
    }
}

impl ChannelConfig {
    /// Fire-and-forget mode: no waiting and no retries.
    pub fn fire_and_forget() -> (res: ChannelConfig)
        ensures
            res == (ChannelConfig {
                ack_timeout: Duration { nanos: 0 },
                max_retries: 0,
                ..default_config()
            }),
    {
        let base = ChannelConfig::default();
        ChannelConfig {
            causal_history_size: base.causal_history_size,
            possible_acks_threshold: base.possible_acks_threshold,
            ack_timeout: Duration::from_millis(0),
            max_retries: 0,
            timeout_for_lost_messages_ms: base.timeout_for_lost_messages_ms,
        }
    }
}

} // verus!
