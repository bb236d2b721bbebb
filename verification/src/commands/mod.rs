//! What the client's commands decide: subjects of replies, which
//! conversation and thread a message belongs to, storing synchronised and
//! sent mail, and reading the list of the system's mail accounts.

pub mod subject;
pub mod threading;
pub mod sync;
pub mod send;
pub mod accounts;
pub mod poll;
pub mod matching;
