//! Outgoing mail: the message to send, its addresses and Message-ID, the
//! raw copy kept for the Sent folder, and the MIME message handed to the
//! SMTP transport.

pub mod outgoing;
pub mod mime_message;
pub mod assemble;
