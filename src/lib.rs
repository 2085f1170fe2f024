//! Frame capture to constant-frame-rate video: the scheduling of snapshot
//! requests, the ordered handoff of captured payloads, presentation timestamps
//! and the lifecycle of a streaming encoder session.
pub mod decode;
pub mod scheduler;
pub mod session;
pub mod timestamp;
pub mod worker;
