pub mod alert;
pub mod config;
pub mod discord_webhook;
pub mod names;
pub mod probe;
pub mod roster;
pub mod tracker;
