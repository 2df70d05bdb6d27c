//! A bounded, deduplicating reader for an at-least-once delivery queue.
//!
//! The library decides how many distinct messages to collect, folds every
//! delivery into a table keyed by message identity, decides when polling
//! stops, and plans the side effects of each collected message so that a
//! message is never removed from its source queue before it was handled.
//! Talking to the queue service is left to the caller.

pub mod collector;
pub mod disposal;
pub mod message;
pub mod record;
mod table;
pub mod target;

pub use disposal::{disposal_config, plan_disposal, Action, DeletePolicy, DisposalConfig, DisposalRun, PrintMode};
pub use collector::{CollectAction, Collector, StopReason, LEASE_SECONDS};
pub use record::{forward_ack, full_record};
pub use message::{CollectedMessage, Field, ReadError, ReceivedMessage};
pub use target::{parse_queue_size, resolve_target, CountMode, DEFAULT_COUNT};
