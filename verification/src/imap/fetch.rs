//! The message sets that the fetch operations ask the server for.

use vstd::prelude::*;

use crate::text::{decimal, decimal_chars, extend_chars, string_of, chars_of};

verus! {

/// The first sequence number of the last `count` messages of a mailbox
/// that holds `exists` messages.
pub open spec fn recent_start(exists: u32, count: u32) -> int {
    if exists > count {
        exists - count + 1
    } else {
        1
    }
}

/// The sequence set `start:end`.
pub open spec fn seq_range(start: nat, end: nat) -> Seq<char> {
    decimal(start) + seq![':'] + decimal(end)
}

/// The sequence set of the last `count` messages of a mailbox that holds
/// `exists` (`start:exists`); none when the mailbox is empty or no message
/// is asked for.
pub fn recent_fetch_set(exists: u32, count: u32) -> (r: Option<String>)
    ensures
        r is None <==> (exists == 0 || count == 0),
        r matches Some(s) ==> s@ == seq_range(recent_start(exists, count) as nat, exists as nat),
{
    if exists == 0 || count == 0 {
        return None;
    }
    let start: u32 = if exists > count {
        exists - count + 1
    } else {
        1
    };
    let mut v = decimal_chars(start as u64);
    v.push(':');
    let w = decimal_chars(exists as u64);
    extend_chars(&mut v, &w);
    Some(string_of(&v))
}

/// The UID set of every message from `since_uid` on (`since_uid:*`).
pub fn since_uid_set(since_uid: u32) -> (r: String)
    ensures
        r@ == decimal(since_uid as nat) + ":*"@,
{
    let mut v = decimal_chars(since_uid as u64);
    let w = chars_of(":*");
    extend_chars(&mut v, &w);
    string_of(&v)
}

} // verus!
