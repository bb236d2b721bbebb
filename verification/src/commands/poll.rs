//! The decisions of the background workers: the polling synchroniser and
//! the IMAP IDLE watcher. The workers wait, talk to the server and the
//! credential store, and report what happened; these functions say what
//! comes next.

use vstd::prelude::*;

use super::sync::SyncReport;

verus! {

/// How many messages a synchronisation fetches when none is asked for.
pub const DEFAULT_SYNC_COUNT: u32 = 500;

/// How many of the latest messages each polling round fetches.
pub const POLL_FETCH_COUNT: u32 = 50;

/// Seconds the polling worker waits before its first round.
pub const POLL_START_DELAY_SECS: u64 = 5;

/// Seconds between polling rounds.
pub const POLL_INTERVAL_SECS: u64 = 60;

/// Seconds an IDLE wait lasts before it is renewed (servers end IDLE after
/// 29 minutes).
pub const IDLE_RENEW_SECS: u64 = 1200;

/// Seconds before reconnecting after a failed IDLE connection.
pub const IDLE_CONNECT_RETRY_SECS: u64 = 30;

/// Seconds before retrying after INBOX could not be selected for IDLE.
pub const IDLE_SELECT_RETRY_SECS: u64 = 10;

/// How many messages a synchronisation fetches.
pub fn sync_fetch_count(requested: Option<u32>) -> (r: u32)
    ensures
        r == match requested {
            Some(n) => n,
            None => DEFAULT_SYNC_COUNT,
        },
{
    match requested {
        Some(n) => n,
        None => DEFAULT_SYNC_COUNT,
    }
}

/// What one polling round came to.
#[derive(Debug, Clone, Copy)]
pub enum PollOutcome {
    /// The credential store gave no password for the account.
    NoPassword,
    /// The account is no longer in the store.
    AccountGone,
    /// Connecting or logging in failed.
    ConnectFailed,
    /// Fetching the latest messages failed.
    FetchFailed,
    /// The fetched messages were stored, as reported.
    Synced(SyncReport),
}

/// What the polling worker does after a round.
#[derive(Debug, Clone, Copy, PartialEq, Eq, Structural)]
pub enum PollDecision {
    /// Stop the worker.
    Stop,
    /// Tell the interface that the store changed (when `notify`), then wait
    /// `secs` seconds before the next round.
    Continue { notify: bool, secs: u64 },
}

/// What the polling worker does after a round: it stops when the
/// account's password or the account itself is gone (a removed account's
/// worker ends this way); otherwise it waits a polling interval for the next
/// round, after telling the interface when new messages were stored.
pub fn poll_decision(outcome: PollOutcome) -> (r: PollDecision)
    ensures
        r == PollDecision::Stop <==> (outcome is NoPassword || outcome is AccountGone),
        r matches PollDecision::Continue { notify, secs } ==> secs == POLL_INTERVAL_SECS && notify == (
        outcome matches PollOutcome::Synced(report) && report.new_messages > 0),
{
    match outcome {
        PollOutcome::NoPassword => PollDecision::Stop,
        PollOutcome::AccountGone => PollDecision::Stop,
        PollOutcome::ConnectFailed => PollDecision::Continue { notify: false, secs: POLL_INTERVAL_SECS },
        PollOutcome::FetchFailed => PollDecision::Continue { notify: false, secs: POLL_INTERVAL_SECS },
        PollOutcome::Synced(report) => PollDecision::Continue {
            notify: report.new_messages > 0,
            secs: POLL_INTERVAL_SECS,
        },
    }
}

/// What one IDLE cycle came to.
#[derive(Debug, Clone, Copy, PartialEq, Eq, Structural)]
pub enum IdleOutcome {
    /// Opening a session failed.
    ConnectFailed,
    /// INBOX could not be selected.
    SelectFailed,
    /// The server reported a change.
    Notified,
    /// Waiting failed.
    WaitFailed,
    /// The wait reached its renewal time.
    TimedOut,
    /// The watcher was asked to stop.
    Stopped,
}

/// What the IDLE watcher does after a cycle.
#[derive(Debug, Clone, Copy, PartialEq, Eq, Structural)]
pub enum IdleDecision {
    /// Stop watching.
    Stop,
    /// Wait this many seconds (unless asked to stop meanwhile), then open a
    /// new session.
    Retry(u64),
    /// Report new mail, then open a new session.
    NotifyAndRenew,
    /// Open a new session.
    Renew,
}

/// What the IDLE watcher does after a cycle: after a failed connection it
/// retries in 30 seconds, after a failed selection in 10; a notification is
/// reported; every other cycle simply renews, until it is asked to stop.
pub fn idle_decision(outcome: IdleOutcome) -> (r: IdleDecision)
    ensures
        outcome == IdleOutcome::ConnectFailed ==> r == IdleDecision::Retry(IDLE_CONNECT_RETRY_SECS),
        outcome == IdleOutcome::SelectFailed ==> r == IdleDecision::Retry(IDLE_SELECT_RETRY_SECS),
        outcome == IdleOutcome::Notified ==> r == IdleDecision::NotifyAndRenew,
        (outcome == IdleOutcome::WaitFailed || outcome == IdleOutcome::TimedOut) ==> r == IdleDecision::Renew,
        outcome == IdleOutcome::Stopped ==> r == IdleDecision::Stop,
{
    match outcome {
        IdleOutcome::ConnectFailed => IdleDecision::Retry(IDLE_CONNECT_RETRY_SECS),
        IdleOutcome::SelectFailed => IdleDecision::Retry(IDLE_SELECT_RETRY_SECS),
        IdleOutcome::Notified => IdleDecision::NotifyAndRenew,
        IdleOutcome::WaitFailed => IdleDecision::Renew,
        IdleOutcome::TimedOut => IdleDecision::Renew,
        IdleOutcome::Stopped => IdleDecision::Stop,
    }
}

} // verus!
