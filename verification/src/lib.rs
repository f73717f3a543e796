//! State-synchronisation core of a decentralised chat room.
//!
//! Every replica holds the full room state. Replicas exchange summaries and
//! deltas, and every transition is checked against signed authorisation
//! records before it is committed.
//!
//! * [`contract`] states what every part of the room state can do.
//! * [`state`] is the room state as a whole.
//! * [`configuration`], [`member`] and [`ban`] are its parts.
//! * [`invite`] and [`ban_rules`] hold the rules on members and bans, over
//!   plain identifiers.
//! * [`sync`] holds what is common to summaries and deltas.
//! * [`crypto`] reaches the signature scheme and the content hash, which are
//!   taken on trust.
//! * [`error`] lists what can be wrong.

pub mod ban;
pub mod ban_rules;
pub mod configuration;
pub mod contract;
pub mod crypto;
pub mod error;
pub mod invite;
pub mod member;
pub mod state;
pub mod sync;
