//! A session directory and the per-session relay that fans out messages
//! among the participants of a hosted multiplayer session.

pub mod session;
pub mod registry;
pub mod text;
pub mod control;
pub mod relay;
pub mod frame;
pub mod outbox;
pub mod laws;
