//! Security and anti-fraud: banning of failing sources, destination blocking
//! and per-user call limits.
//!
//! Position in the pipeline: ban, access list, flood protection, dispatch.

pub mod ban;
pub mod destination;
pub mod manager;
pub mod tables;
pub mod user_limits;
pub mod window;

pub use ban::{BanConfig, BanEntry, BanManager};
pub use destination::{
    DestinationDecision, DestinationPolicy, DestinationRule, DestinationsConfig,
};
pub use manager::{SecurityEvent, SecurityFeaturesConfig, SecurityManager};
pub use user_limits::{LimitDecision, UserLimits, UserLimitsConfig, UserLimitsManager};
