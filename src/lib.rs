//! Client library for a two-player piranha board game spoken over a
//! tag-delimited streaming protocol: rule engine, message model, message
//! builders, stream framing and the cancellation decision logic.
pub mod error;
pub mod i_client_handler;
pub mod incoming;
pub mod internal;
pub mod neutral;
pub mod outgoing;
pub mod socha_com;
pub mod text;
pub mod watchdog;
