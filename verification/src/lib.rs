//! Verified core of a Signal client for Sailfish OS.
//!
//! The library holds the logic of the client that does not need the Qt
//! interface or the Signal service: the key store on disk (file names,
//! encryption, the quirks of the old key encoding), the decisions taken on
//! incoming messages and attachments, the lists that the interface shows,
//! and the small state machines that track the network, typing
//! notifications, profile refreshes and event-loop timers.

pub mod args;
pub mod attachments;
pub mod connection;
pub mod contact;
pub mod crypto;
pub mod decimal;
pub mod devices;
pub mod encryption;
pub mod fingerprint;
pub mod hex;
pub mod incoming;
pub mod message_list;
pub mod migration;
pub mod new_message;
pub mod profile_refresh;
pub mod protocol_store;
pub mod quirk;
pub mod receipts;
pub mod registration;
pub mod session_list;
pub mod settings;
pub mod text;
pub mod timers;
pub mod typing;
