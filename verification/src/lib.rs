//! Verified core of a Signal chat-bot server: channel metrics, conversation
//! flow selection, the interpreter's step decisions, the current step's
//! source and hash, message text handling, the management socket's framing
//! decisions, and the Signal store's iteration and protocol-key logic.
pub mod error;
pub mod metrics;
pub mod text;
pub mod signal;
pub mod json;
pub mod flows;
pub mod event;
pub mod interpret;
pub mod store;
pub mod data;
pub mod messages;
pub mod protocol;
pub mod steps;
