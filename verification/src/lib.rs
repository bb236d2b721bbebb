//! Verified core of the Meridian Mail client: the message store, threading,
//! header and body handling, and outgoing-message assembly.

pub mod error;
pub mod text;
pub mod models;
pub mod order;
pub mod like;
pub mod db;
pub mod stamp;
pub mod imap;
pub mod commands;
pub mod smtp;
