//! Threads.

use vstd::prelude::*;

use super::conversations::{ConvUpdate, MessageSelector};
use super::{db_err, first_index, lemma_first_index, lemma_first_index_at, next_id, thread_views, Database, DbState};
use crate::error::{AppError, AppResult, DbError};
use crate::stamp::UtcTime;
use crate::models::{owned, Thread, ThreadView};
use crate::text::str_eq;

verus! {

/// Selects the thread with identifier `id`.
pub open spec fn thread_has_id(id: i64) -> spec_fn(ThreadView) -> bool {
    |t: ThreadView| t.id == id
}

impl Database {
    /// Position of the thread with identifier `id`.
    pub(crate) fn find_thread(&self, id: i64) -> (r: Option<usize>)
        ensures
            match r {
                Some(i) => i < self.threads.len() && first_index(self@.threads, thread_has_id(id))
                    == Some(i as int),
                None => first_index(self@.threads, thread_has_id(id)) is None,
            },
    {
        let ghost s = self@.threads;
        let mut i: usize = 0;
        while i < self.threads.len()
            invariant
                i <= self.threads.len(),
                s == thread_views(self.threads@),
                forall|k: int| 0 <= k < i ==> !thread_has_id(id)(#[trigger] s[k]),
            decreases self.threads.len() - i,
        {
            if self.threads[i].id == id {
                proof {
                    lemma_first_index_at(s, thread_has_id(id), i as int);
                }
                return Some(i);
            }
            i = i + 1;
        }
        proof {
            lemma_first_index_at(s, thread_has_id(id), i as int);
        }
        None
    }

    /// Whether a thread with identifier `id` exists.
    pub(crate) fn thread_exists(&self, id: i64) -> (r: bool)
        ensures
            r == self@.has_thread(id),
    {
        let r = self.find_thread(id);
        proof {
            lemma_first_index(self@.threads, thread_has_id(id));
        }
        r.is_some()
    }
}

} // verus!

verus! {

/// A change to a thread row.
pub enum ThreadUpdate {
    /// Its latest message was sent at the given time.
    LastMessageAt(UtcTime),
    /// One more unread message.
    IncrementUnread,
    /// The given number of unread messages.
    SetUnread(i64),
}

/// A thread row after change `op`.
pub open spec fn apply_thread_update(t: ThreadView, op: ThreadUpdate) -> ThreadView {
    match op {
        ThreadUpdate::LastMessageAt(at) => ThreadView { last_message_at: Some(at), ..t },
        ThreadUpdate::IncrementUnread => ThreadView { unread_count: (t.unread_count + 1) as i64, ..t },
        ThreadUpdate::SetUnread(n) => ThreadView { unread_count: n, ..t },
    }
}

/// Selects the thread of conversation `conv` with normalized subject `norm`.
pub open spec fn thread_has_key(conv: i64, norm: Seq<char>) -> spec_fn(ThreadView) -> bool {
    |t: ThreadView| t.conversation_id == conv && t.normalized_subject == norm
}

/// The sum of the unread counters of the threads of conversation `conv`,
/// added up in table order; none when a partial sum leaves the range of
/// `i64` (the store's `SUM` then fails).
pub open spec fn unread_sum(threads: Seq<ThreadView>, conv: i64) -> Option<i64>
    decreases threads.len(),
{
    if threads.len() == 0 {
        Some(0)
    } else {
        match unread_sum(threads.drop_last(), conv) {
            None => None,
            Some(s) => {
                let n = s + if threads.last().conversation_id == conv {
                    threads.last().unread_count as int
                } else {
                    0
                };
                if i64::MIN <= n <= i64::MAX {
                    Some(n as i64)
                } else {
                    None
                }
            },
        }
    }
}

/// A total as the store reads it back: a failed sum reads as 0.
pub open spec fn stored_total(sum: Option<i64>) -> i64 {
    match sum {
        Some(s) => s,
        None => 0,
    }
}

impl DbState {
    /// The thread with identifier `id`, if any.
    pub open spec fn thread(self, id: i64) -> Option<ThreadView> {
        match first_index(self.threads, thread_has_id(id)) {
            Some(i) => Some(self.threads[i]),
            None => None,
        }
    }

    /// The thread of conversation `conv` for normalized subject `norm`: the
    /// existing one, or a new one with the next identifier; a reference to a
    /// missing conversation is refused.
    pub open spec fn create_thread(self, conv: i64, subject: Seq<char>, norm: Seq<char>) -> (DbState, AppResult<i64>) {
        match first_index(self.threads, thread_has_key(conv, norm)) {
            Some(i) => (self, Ok(self.threads[i].id)),
            None => if !self.has_conversation(conv) {
                (self, db_err(DbError::ForeignKeyViolation))
            } else {
                match next_id(self.seq_thread) {
                    None => (self, db_err(DbError::Full)),
                    Some(id) => (
                        DbState {
                            threads: self.threads.push(
                                ThreadView {
                                    id,
                                    conversation_id: conv,
                                    subject,
                                    normalized_subject: norm,
                                    last_message_at: None,
                                    unread_count: 0,
                                },
                            ),
                            seq_thread: id,
                            last_rowid: id,
                            ..self
                        },
                        Ok(id),
                    ),
                }
            },
        }
    }

    /// The store with thread `id`'s row changed by `op`.
    pub open spec fn update_thread(self, id: i64, op: ThreadUpdate) -> DbState {
        DbState {
            threads: self.threads.map_values(
                |t: ThreadView| if t.id == id { apply_thread_update(t, op) } else { t },
            ),
            ..self
        }
    }

    /// Whether thread `id`'s unread counter is at its maximum.
    pub open spec fn thread_unread_full(self, id: i64) -> bool {
        exists|i: int|
            0 <= i < self.threads.len() && #[trigger] self.threads[i].id == id
                && self.threads[i].unread_count == i64::MAX
    }

    /// Counting one more unread message in thread `id`; refused when the
    /// counter is at its maximum.
    pub open spec fn increment_thread_unread(self, id: i64) -> (DbState, AppResult<()>) {
        if self.thread_unread_full(id) {
            (self, db_err(DbError::IntegerOverflow))
        } else {
            (self.update_thread(id, ThreadUpdate::IncrementUnread), Ok(()))
        }
    }

    /// Marking thread `id` read: no unread messages counted, each of its
    /// messages read, and its conversation's counter set to the sum of the
    /// counters of that conversation's threads.
    pub open spec fn mark_thread_read(self, id: i64) -> DbState {
        let s = self.update_thread(id, ThreadUpdate::SetUnread(0)).mark_messages_read(
            MessageSelector::Thread(id),
        );
        match s.thread(id) {
            Some(t) => s.update_conversation(
                t.conversation_id,
                ConvUpdate::SetUnread(stored_total(unread_sum(s.threads, t.conversation_id))),
            ),
            None => s,
        }
    }
}

/// A thread row after change `op`.
fn apply_thread_update_exec(t: &Thread, op: &ThreadUpdate) -> (r: Thread)
    requires
        *op is IncrementUnread ==> t.unread_count < i64::MAX,
    ensures
        r@ == apply_thread_update(t@, *op),
{
    let mut r = t.copy();
    match op {
        ThreadUpdate::LastMessageAt(at) => {
            r.last_message_at = Some(*at);
        },
        ThreadUpdate::IncrementUnread => {
            r.unread_count = t.unread_count + 1;
        },
        ThreadUpdate::SetUnread(n) => {
            r.unread_count = *n;
        },
    }
    r
}

impl Database {
    /// Applies `op` to thread `id`.
    fn update_thread_rows(&mut self, id: i64, op: &ThreadUpdate)
        requires
            old(self).wf(),
            *op is IncrementUnread ==> !old(self)@.thread_unread_full(id),
        ensures
            final(self).wf(),
            final(self)@ == old(self)@.update_thread(id, *op),
    {
        let ghost before = self@;
        let ghost target = before.update_thread(id, *op).threads;
        let mut i: usize = 0;
        while i < self.threads.len()
            invariant
                i <= self.threads.len(),
                self@ == (DbState { threads: self@.threads, ..before }),
                self.threads@.len() == before.threads.len(),
                target == before.update_thread(id, *op).threads,
                *op is IncrementUnread ==> !before.thread_unread_full(id),
                forall|k: int| 0 <= k < i ==> #[trigger] self.threads@[k]@ == target[k],
                forall|k: int| i <= k < self.threads@.len() ==> #[trigger] self.threads@[k]@ == before.threads[k],
            decreases self.threads.len() - i,
        {
            assert(self.threads@[i as int]@ == before.threads[i as int]);
            if self.threads[i].id == id {
                let row = apply_thread_update_exec(&self.threads[i], op);
                self.threads.set(i, row);
            }
            assert(self.threads@[i as int]@ == target[i as int]);
            i = i + 1;
        }
        assert(self@.threads =~= target);
        proof {
            super::lemma_wf_same_thread_keys(before, self@);
        }
    }

    /// The thread of conversation `conversation_id` for `normalized_subject`
    /// (see `DbState::create_thread`).
    pub fn create_thread(&mut self, conversation_id: i64, subject: &str, normalized_subject: &str) -> (r:
        AppResult<i64>)
        requires
            old(self).wf(),
        ensures
            final(self).wf(),
            (final(self)@, r) == old(self)@.create_thread(conversation_id, subject@, normalized_subject@),
    {
        let ghost s = self@.threads;
        let ghost p = thread_has_key(conversation_id, normalized_subject@);
        let mut i: usize = 0;
        while i < self.threads.len()
            invariant
                i <= self.threads.len(),
                self.wf(),
                s == thread_views(self.threads@),
                p == thread_has_key(conversation_id, normalized_subject@),
                forall|k: int| 0 <= k < i ==> !p(#[trigger] s[k]),
            decreases self.threads.len() - i,
        {
            if self.threads[i].conversation_id == conversation_id && str_eq(
                self.threads[i].normalized_subject.as_str(),
                normalized_subject,
            ) {
                proof {
                    lemma_first_index_at(s, p, i as int);
                }
                return Ok(self.threads[i].id);
            }
            i = i + 1;
        }
        proof {
            lemma_first_index_at(s, p, i as int);
        }
        if !self.conversation_exists(conversation_id) {
            return Err(AppError::Database(DbError::ForeignKeyViolation));
        }
        if self.seq_thread == i64::MAX {
            return Err(AppError::Database(DbError::Full));
        }
        let id = self.seq_thread + 1;
        let ghost before = self@;
        self.threads.push(
            Thread {
                id,
                conversation_id,
                subject: owned(subject),
                normalized_subject: owned(normalized_subject),
                last_message_at: None,
                unread_count: 0,
            },
        );
        self.seq_thread = id;
        self.last_rowid = id;
        let ghost after = self@;
        assert(after.threads =~= before.create_thread(conversation_id, subject@, normalized_subject@).0.threads);
        proof {
            assert forall|k: int| 0 <= k < after.messages.len() implies after.has_thread(
                #[trigger] after.messages[k].thread_id,
            ) by {
                let w = choose|w: int|
                    0 <= w < before.threads.len() && #[trigger] before.threads[w].id
                        == before.messages[k].thread_id;
                assert(after.threads[w] == before.threads[w]);
            }
        }
        Ok(id)
    }

    /// The thread with identifier `id`.
    pub fn get_thread(&self, id: i64) -> (r: AppResult<Thread>)
        ensures
            match self@.thread(id) {
                Some(t) => r matches Ok(x) && x@ == t,
                None => r == db_err::<Thread>(DbError::NoRows),
            },
    {
        match self.find_thread(id) {
            Some(i) => Ok(self.threads[i].copy()),
            None => Err(AppError::Database(DbError::NoRows)),
        }
    }

    /// Records the time of thread `thread_id`'s latest message.
    pub fn update_thread_last_message(&mut self, thread_id: i64, sent_at: UtcTime) -> (r: AppResult<()>)
        requires
            old(self).wf(),
        ensures
            final(self).wf(),
            r is Ok,
            final(self)@ == old(self)@.update_thread(thread_id, ThreadUpdate::LastMessageAt(sent_at)),
    {
        self.update_thread_rows(thread_id, &ThreadUpdate::LastMessageAt(sent_at));
        Ok(())
    }

    /// Counts one more unread message in thread `thread_id`.
    pub fn increment_thread_unread(&mut self, thread_id: i64) -> (r: AppResult<()>)
        requires
            old(self).wf(),
        ensures
            final(self).wf(),
            (final(self)@, r) == old(self)@.increment_thread_unread(thread_id),
    {
        let mut i: usize = 0;
        while i < self.threads.len()
            invariant
                i <= self.threads.len(),
                self.wf(),
                forall|k: int|
                    0 <= k < i ==> !(#[trigger] self@.threads[k].id == thread_id
                        && self@.threads[k].unread_count == i64::MAX),
            decreases self.threads.len() - i,
        {
            if self.threads[i].id == thread_id && self.threads[i].unread_count == i64::MAX {
                assert(self@.threads[i as int].id == thread_id);
                return Err(AppError::Database(DbError::IntegerOverflow));
            }
            i = i + 1;
        }
        self.update_thread_rows(thread_id, &ThreadUpdate::IncrementUnread);
        Ok(())
    }

    /// The sum of the unread counters of the threads of `conv`, as stored.
    fn thread_unread_total(&self, conv: i64) -> (r: i64)
        ensures
            r == stored_total(unread_sum(self@.threads, conv)),
    {
        let ghost s = self@.threads;
        let mut sum: i64 = 0;
        let mut i: usize = 0;
        while i < self.threads.len()
            invariant
                i <= self.threads.len(),
                s == thread_views(self.threads@),
                unread_sum(s.take(i as int), conv) == Some(sum),
            decreases self.threads.len() - i,
        {
            assert(s.take(i + 1).drop_last() =~= s.take(i as int));
            if self.threads[i].conversation_id == conv {
                let next = sum as i128 + self.threads[i].unread_count as i128;
                if next < i64::MIN as i128 || next > i64::MAX as i128 {
                    proof {
                        lemma_unread_sum_none_extends(s, conv, i + 1);
                    }
                    return 0;
                }
                sum = next as i64;
            }
            i = i + 1;
        }
        assert(s.take(self.threads.len() as int) =~= s);
        sum
    }
}

/// Once a partial sum has failed, the whole sum fails.
proof fn lemma_unread_sum_none_extends(s: Seq<ThreadView>, conv: i64, j: int)
    requires
        0 <= j <= s.len(),
        unread_sum(s.take(j), conv) is None,
    ensures
        unread_sum(s, conv) is None,
    decreases s.len() - j,
{
    if j < s.len() {
        assert(s.take(j + 1).drop_last() =~= s.take(j));
        lemma_unread_sum_none_extends(s, conv, j + 1);
    } else {
        assert(s.take(j) =~= s);
    }
}

} // verus!

verus! {

impl Database {
    /// Marks thread `thread_id` read (see `DbState::mark_thread_read`).
    pub fn mark_thread_read(&mut self, thread_id: i64) -> (r: AppResult<()>)
        requires
            old(self).wf(),
        ensures
            final(self).wf(),
            r is Ok,
            final(self)@ == old(self)@.mark_thread_read(thread_id),
    {
        self.update_thread_rows(thread_id, &ThreadUpdate::SetUnread(0));
        self.mark_messages_read_rows(MessageSelector::Thread(thread_id));
        match self.find_thread(thread_id) {
            Some(i) => {
                let c = self.threads[i].conversation_id;
                let total = self.thread_unread_total(c);
                self.update_conversation_rows(c, &ConvUpdate::SetUnread(total));
            },
            None => {},
        }
        Ok(())
    }
}

} // verus!
