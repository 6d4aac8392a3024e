//! Match telemetry relay: the verified state and decisions behind a bot
//! that turns live game snapshots into chat notifications.

pub mod bot;
pub mod decimal;
pub mod discord;
pub mod gsi;
pub mod snapshot;
pub mod store;
pub mod token;
