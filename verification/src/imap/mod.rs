//! Incoming mail: reading raw RFC 5322 messages into `ParsedEmail`, cleaning
//! reply bodies, and the decisions of the IMAP operations that the network
//! layer carries out.

use vstd::prelude::*;

pub mod headers;
pub mod body;
pub mod mime;
pub mod parse;
pub mod fetch;
pub mod delete;

verus! {

/// A folder on the IMAP server.
#[derive(Debug, Clone)]
pub struct ImapFolder {
    pub name: String,
    pub delimiter: Option<String>,
    pub attributes: Vec<String>,
}

/// What selecting INBOX reported.
#[derive(Debug, Clone, Copy)]
pub struct MailboxInfo {
    pub exists: u32,
    pub recent: u32,
    pub uid_validity: Option<u32>,
    pub uid_next: Option<u32>,
}

} // verus!
