//! The lists that the interface shows: conversations and threads, with a
//! preview of their latest message.

use vstd::prelude::*;

use super::conversations::conversation_has_id;
use super::rows::{row_views, select_rows};
use super::{
    conversation_row_views, conversation_views, thread_item_views, thread_views, ConversationRow,
    ConversationRowView, Database, DbState, StoredMessage, StoredMessageView,
};
use crate::error::{AppError, AppResult};
use crate::models::{
    copy_opt_string, opt_view, Conversation, ConversationView, Thread, ThreadListItem,
    ThreadListItemView, ThreadView,
};
use crate::order::{key_views, lemma_stable_order_len, sort_positions, stable_order};
use crate::stamp::{time_key, UtcTime};
use crate::text::{chars_of, extend_chars, string_of, sub_chars};
use vstd::utf8::encode_utf8;

verus! {

/// The position of the latest message of a non-empty list: the greatest
/// sending time, the last such message among equal times.
pub open spec fn latest_index(s: Seq<StoredMessageView>) -> int
    decreases s.len(),
{
    if s.len() <= 1 {
        0
    } else {
        let j = latest_index(s.drop_last());
        if time_key(s.last().sent_at) >= time_key(s[j].sent_at) {
            s.len() - 1
        } else {
            j
        }
    }
}

pub proof fn lemma_latest_index_bounds(s: Seq<StoredMessageView>)
    requires
        s.len() > 0,
    ensures
        0 <= latest_index(s) < s.len(),
    decreases s.len(),
{
    if s.len() > 1 {
        lemma_latest_index_bounds(s.drop_last());
    }
}

/// How many characters a preview keeps.
pub const PREVIEW_CHARS: usize = 120;

/// The preview of a text: its first `PREVIEW_CHARS` characters, followed by
/// "…" when the text is longer than `PREVIEW_CHARS` bytes in UTF-8.
pub open spec fn preview_text(t: Seq<char>) -> Seq<char> {
    let n = if t.len() < PREVIEW_CHARS {
        t.len() as int
    } else {
        PREVIEW_CHARS as int
    };
    if encode_utf8(t).len() > PREVIEW_CHARS {
        t.take(n) + "…"@
    } else {
        t.take(n)
    }
}

/// The preview of the latest of `s`, if it has a text.
pub open spec fn preview_of(s: Seq<StoredMessageView>) -> Option<Seq<char>> {
    if s.len() == 0 {
        None
    } else {
        match s[latest_index(s)].body_text {
            Some(t) => Some(preview_text(t)),
            None => None,
        }
    }
}

/// The sort key for "latest first, never-active last".
pub open spec fn recency_key(at: Option<UtcTime>) -> i128 {
    match at {
        Some(t) => (-time_key(t)) as i128,
        None => i128::MAX,
    }
}

impl DbState {
    /// The preview of conversation `id`'s latest message.
    pub open spec fn conversation_preview(self, id: i64) -> Option<Seq<char>> {
        preview_of(self.messages.filter(|m: StoredMessageView| m.conversation_id == id))
    }

    /// The preview of thread `id`'s latest message.
    pub open spec fn thread_preview(self, id: i64) -> Option<Seq<char>> {
        preview_of(self.messages.filter(|m: StoredMessageView| m.thread_id == id))
    }

    /// Whether conversation `conv` holds a message of account `account`.
    pub open spec fn has_message_of(self, conv: i64, account: i64) -> bool {
        exists|k: int|
            0 <= k < self.messages.len() && #[trigger] self.messages[k].conversation_id == conv
                && self.messages[k].account_id == account
    }

    /// A conversation row with its members and preview.
    pub open spec fn conversation_entry(self, c: ConversationRowView) -> ConversationView {
        ConversationView {
            id: c.id,
            kind: c.kind,
            subject_hint: c.subject_hint,
            last_message_at: c.last_message_at,
            unread_count: c.unread_count,
            members: self.conversation_members(c.id),
            last_message_preview: self.conversation_preview(c.id),
        }
    }

    /// The conversations holding a message of account `account`, latest
    /// activity first (never-active ones last), with members and preview.
    pub open spec fn conversation_list(self, account: i64) -> Seq<ConversationView> {
        let rows = self.conversations.filter(|c: ConversationRowView| self.has_message_of(c.id, account));
        stable_order::<i128>(
            rows.map_values(|c: ConversationRowView| recency_key(c.last_message_at)),
            rows.len() as int,
        ).map_values(|i: int| self.conversation_entry(rows[i]))
    }

    /// A thread row as the thread list shows it.
    pub open spec fn thread_entry(self, t: ThreadView) -> ThreadListItemView {
        ThreadListItemView {
            id: t.id,
            conversation_id: t.conversation_id,
            subject: t.subject,
            last_message_preview: self.thread_preview(t.id),
            last_message_at: t.last_message_at,
            unread_count: t.unread_count,
        }
    }

    /// The threads of conversation `conv`, latest activity first.
    pub open spec fn thread_list(self, conv: i64) -> Seq<ThreadListItemView> {
        let rows = self.threads.filter(|t: ThreadView| t.conversation_id == conv);
        stable_order::<i128>(
            rows.map_values(|t: ThreadView| recency_key(t.last_message_at)),
            rows.len() as int,
        ).map_values(|i: int| self.thread_entry(rows[i]))
    }
}

/// The preview of a text.
pub fn make_preview(t: &String) -> (r: String)
    ensures
        r@ == preview_text(t@),
{
    let v = chars_of(t.as_str());
    let n = if v.len() < PREVIEW_CHARS {
        v.len()
    } else {
        PREVIEW_CHARS
    };
    let mut p = sub_chars(&v, 0, n);
    assert(v@.subrange(0, n as int) == v@.take(n as int));
    if crate::text::utf8_longer_than(&v, PREVIEW_CHARS as u64) {
        let e = chars_of("…");
        extend_chars(&mut p, &e);
    }
    string_of(&p)
}

impl Database {
    /// The preview of the latest message that `sel_conv` (a conversation)
    /// or else `sel_thread` (a thread) selects.
    fn preview_for(&self, id: i64, by_thread: bool) -> (r: Option<String>)
        ensures
            opt_view(r) == (if by_thread {
                self@.thread_preview(id)
            } else {
                self@.conversation_preview(id)
            }),
    {
        let ghost sel = if by_thread {
            |m: StoredMessageView| m.thread_id == id
        } else {
            |m: StoredMessageView| m.conversation_id == id
        };
        let ghost s = self@.messages;
        // `best` is the position in `self.messages` of the latest selected
        // message seen so far.
        let mut best: Option<usize> = None;
        let mut i: usize = 0;
        while i < self.messages.len()
            invariant
                i <= self.messages.len(),
                s == self@.messages,
                sel == (if by_thread {
                    |m: StoredMessageView| m.thread_id == id
                } else {
                    |m: StoredMessageView| m.conversation_id == id
                }),
                match best {
                    None => s.take(i as int).filter(sel).len() == 0,
                    Some(b) => b < i && s.take(i as int).filter(sel).len() > 0 && s[b as int]
                        == s.take(i as int).filter(sel)[latest_index(s.take(i as int).filter(sel))],
                },
            decreases self.messages.len() - i,
        {
            let m = &self.messages[i];
            proof {
                assert(s.take(i + 1) =~= s.take(i as int).push(s[i as int]));
                s.take(i as int).lemma_filter_push(s[i as int], sel);
            }
            let hit = if by_thread {
                m.thread_id == id
            } else {
                m.conversation_id == id
            };
            assert(hit == sel(s[i as int]));
            let ghost f = s.take(i as int).filter(sel);
            let ghost f2 = s.take(i + 1).filter(sel);
            if hit {
                assert(f2 == f.push(s[i as int]));
                assert(f.push(s[i as int]).drop_last() == f);
                match best {
                    None => {
                        best = Some(i);
                        assert(latest_index(f2) == 0);
                    },
                    Some(b) => {
                        assert(f.len() > 0);
                        proof {
                            lemma_latest_index_bounds(f);
                        }
                        assert(f2.drop_last() == f);
                        assert(f2.last() == s[i as int]);
                        assert(f2[latest_index(f)] == f[latest_index(f)]);
                        assert(latest_index(f2) == if time_key(s[i as int].sent_at) >= time_key(f[latest_index(f)].sent_at) {
                            f.len() as int
                        } else {
                            latest_index(f)
                        });
                        if !m.sent_at.before(&self.messages[b].sent_at) {
                            best = Some(i);
                        }
                    },
                }
            } else {
                assert(f2 == f);
            }
            i = i + 1;
        }
        assert(s.take(self.messages.len() as int) =~= s);
        match best {
            None => None,
            Some(b) => match &self.messages[b].body_text {
                Some(t) => Some(make_preview(t)),
                None => None,
            },
        }
    }

    /// Whether conversation `conv` holds a message of account `account`.
    fn holds_message_of(&self, conv: i64, account: i64) -> (r: bool)
        ensures
            r == self@.has_message_of(conv, account),
    {
        let mut i: usize = 0;
        while i < self.messages.len()
            invariant
                i <= self.messages.len(),
                forall|k: int|
                    0 <= k < i ==> !(#[trigger] self@.messages[k].conversation_id == conv
                        && self@.messages[k].account_id == account),
            decreases self.messages.len() - i,
        {
            if self.messages[i].conversation_id == conv && self.messages[i].account_id == account {
                assert(self@.messages[i as int].conversation_id == conv);
                return true;
            }
            i = i + 1;
        }
        false
    }

    /// The conversations holding a message of account `account_id` (see
    /// `DbState::conversation_list`).
    pub fn list_conversations(&self, account_id: i64) -> (r: AppResult<Vec<Conversation>>)
        ensures
            r matches Ok(v) && conversation_views(v@) == self@.conversation_list(account_id),
    {
        let ghost p = |c: ConversationRowView| self@.has_message_of(c.id, account_id);
        let ghost s = self@.conversations;
        let mut rows: Vec<ConversationRow> = Vec::new();
        let mut i: usize = 0;
        while i < self.conversations.len()
            invariant
                i <= self.conversations.len(),
                s == self@.conversations,
                p == (|c: ConversationRowView| self@.has_message_of(c.id, account_id)),
                row_views(rows@) == s.take(i as int).filter(p),
            decreases self.conversations.len() - i,
        {
            proof {
                assert(s.take(i + 1) =~= s.take(i as int).push(s[i as int]));
                s.take(i as int).lemma_filter_push(s[i as int], p);
            }
            if self.holds_message_of(self.conversations[i].id, account_id) {
                let ghost before = row_views(rows@);
                rows.push(self.conversations[i].copy());
                assert(row_views(rows@) =~= before.push(s[i as int]));
            }
            i = i + 1;
        }
        assert(s.take(self.conversations.len() as int) =~= s);
        let ghost rv = row_views(rows@);
        let mut keys: Vec<i128> = Vec::new();
        let mut k: usize = 0;
        while k < rows.len()
            invariant
                k <= rows.len(),
                keys@.len() == k,
                forall|t: int| 0 <= t < k ==> #[trigger] keys@[t] == recency_key(rows@[t]@.last_message_at),
            decreases rows.len() - k,
        {
            let key = match rows[k].last_message_at {
                Some(t) => -t.key(),
                None => i128::MAX,
            };
            keys.push(key);
            k = k + 1;
        }
        assert(key_views(keys@) =~= rv.map_values(|c: ConversationRowView| recency_key(c.last_message_at)));
        let pos = sort_positions(&keys);
        proof {
            lemma_stable_order_len::<i128>(key_views(keys@), keys@.len() as int);
        }
        let ghost order = stable_order::<i128>(key_views(keys@), keys@.len() as int);
        let mut out: Vec<Conversation> = Vec::new();
        let mut j: usize = 0;
        while j < pos.len()
            invariant
                j <= pos.len(),
                pos@.len() == rows@.len(),
                rv == row_views(rows@),
                order == stable_order::<i128>(key_views(keys@), keys@.len() as int),
                keys@.len() == rows@.len(),
                forall|t: int| 0 <= t < pos@.len() ==> #[trigger] pos@[t] as int == order[t],
                forall|t: int| 0 <= t < order.len() ==> 0 <= #[trigger] order[t] < rows@.len(),
                order.len() == rows@.len(),
                conversation_views(out@) == order.take(j as int).map_values(
                    |t: int| self@.conversation_entry(rv[t]),
                ),
            decreases pos.len() - j,
        {
            let c = &rows[pos[j]];
            let members = match self.get_conversation_members(c.id) {
                Ok(m) => m,
                Err(_) => Vec::new(),
            };
            let preview = self.preview_for(c.id, false);
            let entry = Conversation {
                id: c.id,
                kind: c.kind,
                subject_hint: copy_opt_string(&c.subject_hint),
                last_message_at: c.last_message_at,
                unread_count: c.unread_count,
                members,
                last_message_preview: preview,
            };
            let ghost before = conversation_views(out@);
            out.push(entry);
            assert(conversation_views(out@) =~= before.push(self@.conversation_entry(rv[order[j as int]])));
            assert(order.take(j + 1) =~= order.take(j as int).push(order[j as int]));
            j = j + 1;
        }
        assert(order.take(pos.len() as int) =~= order);
        Ok(out)
    }

    /// The threads of conversation `conversation_id` (see
    /// `DbState::thread_list`).
    pub fn get_threads_for_conversation(&self, conversation_id: i64) -> (r: AppResult<Vec<ThreadListItem>>)
        ensures
            r matches Ok(v) && thread_item_views(v@) == self@.thread_list(conversation_id),
    {
        let ghost p = |t: ThreadView| t.conversation_id == conversation_id;
        let ghost s = self@.threads;
        let mut rows: Vec<Thread> = Vec::new();
        let mut i: usize = 0;
        while i < self.threads.len()
            invariant
                i <= self.threads.len(),
                s == self@.threads,
                p == (|t: ThreadView| t.conversation_id == conversation_id),
                row_views(rows@) == s.take(i as int).filter(p),
            decreases self.threads.len() - i,
        {
            proof {
                assert(s.take(i + 1) =~= s.take(i as int).push(s[i as int]));
                s.take(i as int).lemma_filter_push(s[i as int], p);
            }
            if self.threads[i].conversation_id == conversation_id {
                let ghost before = row_views(rows@);
                rows.push(self.threads[i].copy());
                assert(row_views(rows@) =~= before.push(s[i as int]));
            }
            i = i + 1;
        }
        assert(s.take(self.threads.len() as int) =~= s);
        let ghost rv = row_views(rows@);
        let mut keys: Vec<i128> = Vec::new();
        let mut k: usize = 0;
        while k < rows.len()
            invariant
                k <= rows.len(),
                keys@.len() == k,
                forall|t: int| 0 <= t < k ==> #[trigger] keys@[t] == recency_key(rows@[t]@.last_message_at),
            decreases rows.len() - k,
        {
            let key = match rows[k].last_message_at {
                Some(t) => -t.key(),
                None => i128::MAX,
            };
            keys.push(key);
            k = k + 1;
        }
        assert(key_views(keys@) =~= rv.map_values(|t: ThreadView| recency_key(t.last_message_at)));
        let pos = sort_positions(&keys);
        proof {
            lemma_stable_order_len::<i128>(key_views(keys@), keys@.len() as int);
        }
        let ghost order = stable_order::<i128>(key_views(keys@), keys@.len() as int);
        let mut out: Vec<ThreadListItem> = Vec::new();
        let mut j: usize = 0;
        while j < pos.len()
            invariant
                j <= pos.len(),
                pos@.len() == rows@.len(),
                rv == row_views(rows@),
                order == stable_order::<i128>(key_views(keys@), keys@.len() as int),
                keys@.len() == rows@.len(),
                forall|t: int| 0 <= t < pos@.len() ==> #[trigger] pos@[t] as int == order[t],
                forall|t: int| 0 <= t < order.len() ==> 0 <= #[trigger] order[t] < rows@.len(),
                order.len() == rows@.len(),
                thread_item_views(out@) == order.take(j as int).map_values(
                    |t: int| self@.thread_entry(rv[t]),
                ),
            decreases pos.len() - j,
        {
            let t = &rows[pos[j]];
            let entry = ThreadListItem {
                id: t.id,
                conversation_id: t.conversation_id,
                subject: t.subject.clone(),
                last_message_preview: self.preview_for(t.id, true),
                last_message_at: t.last_message_at,
                unread_count: t.unread_count,
            };
            let ghost before = thread_item_views(out@);
            out.push(entry);
            assert(thread_item_views(out@) =~= before.push(self@.thread_entry(rv[order[j as int]])));
            assert(order.take(j + 1) =~= order.take(j as int).push(order[j as int]));
            j = j + 1;
        }
        assert(order.take(pos.len() as int) =~= order);
        Ok(out)
    }
}

/// The message at `latest_index` is sent no earlier than any other.
proof fn lemma_latest_index_max(s: Seq<StoredMessageView>, j: int)
    requires
        0 <= j < s.len(),
    ensures
        0 <= latest_index(s) < s.len(),
        time_key(s[j].sent_at) <= time_key(s[latest_index(s)].sent_at),
    decreases s.len(),
{
    lemma_latest_index_bounds(s);
    if s.len() > 1 {
        let t = s.drop_last();
        lemma_latest_index_bounds(t);
        assert(t[latest_index(t)] == s[latest_index(t)]);
        if j < s.len() - 1 {
            lemma_latest_index_max(t, j);
            assert(t[j] == s[j]);
        }
    }
}

/// The preview among `msgs` selected by `sel` is taken from a selected
/// message that no other selected message follows in sending time.
proof fn lemma_preview_of_latest(msgs: Seq<StoredMessageView>, sel: spec_fn(StoredMessageView) -> bool)
    ensures
        (forall|j: int| 0 <= j < msgs.len() ==> !sel(#[trigger] msgs[j])) ==> preview_of(msgs.filter(sel)) is None,
        (exists|j: int| 0 <= j < msgs.len() && sel(#[trigger] msgs[j])) ==> exists|k: int|
            0 <= k < msgs.len() && sel(#[trigger] msgs[k]) && (forall|j: int|
                0 <= j < msgs.len() && sel(#[trigger] msgs[j]) ==> time_key(msgs[j].sent_at) <= time_key(
                    msgs[k].sent_at,
                )) && preview_of(msgs.filter(sel)) == match msgs[k].body_text {
                Some(t) => Some(preview_text(t)),
                None => None::<Seq<char>>,
            },
{
    broadcast use vstd::seq_lib::group_filter_ensures;
    let f = msgs.filter(sel);
    if f.len() == 0 {
        assert forall|j: int| 0 <= j < msgs.len() implies !sel(#[trigger] msgs[j]) by {
            if sel(msgs[j]) {
                msgs.lemma_filter_contains(sel, j);
            }
        }
    } else {
        lemma_latest_index_bounds(f);
        let li = latest_index(f);
        assert(f.contains(f[li]));
        msgs.lemma_filter_contains_rev(sel, f[li]);
        let k = choose|k: int| 0 <= k < msgs.len() && msgs[k] == f[li];
        assert(sel(msgs[k]));
        assert forall|j: int| 0 <= j < msgs.len() && sel(#[trigger] msgs[j]) implies time_key(msgs[j].sent_at)
            <= time_key(msgs[k].sent_at) by {
            msgs.lemma_filter_contains(sel, j);
            let q = choose|q: int| 0 <= q < f.len() && f[q] == msgs[j];
            lemma_latest_index_max(f, q);
        }
    }
}

/// The preview shown for a conversation is that of one of its messages
/// which no other message of the conversation follows in sending time;
/// a conversation without messages has no preview.
pub proof fn law_conversation_preview_is_of_latest_message(s: DbState, id: i64)
    ensures
        (forall|j: int| 0 <= j < s.messages.len() ==> (#[trigger] s.messages[j]).conversation_id != id)
            ==> s.conversation_preview(id) is None,
        (exists|j: int| 0 <= j < s.messages.len() && (#[trigger] s.messages[j]).conversation_id == id)
            ==> exists|k: int|
            0 <= k < s.messages.len() && (#[trigger] s.messages[k]).conversation_id == id && (forall|j: int|
                0 <= j < s.messages.len() && (#[trigger] s.messages[j]).conversation_id == id ==> time_key(
                    s.messages[j].sent_at,
                ) <= time_key(s.messages[k].sent_at)) && s.conversation_preview(id) == match s.messages[k].body_text {
                Some(t) => Some(preview_text(t)),
                None => None::<Seq<char>>,
            },
{
    lemma_preview_of_latest(s.messages, |m: StoredMessageView| m.conversation_id == id);
}

/// The preview shown for a thread is that of one of its messages which no
/// other message of the thread follows in sending time; a thread without
/// messages has no preview.
pub proof fn law_thread_preview_is_of_latest_message(s: DbState, id: i64)
    ensures
        (forall|j: int| 0 <= j < s.messages.len() ==> (#[trigger] s.messages[j]).thread_id != id)
            ==> s.thread_preview(id) is None,
        (exists|j: int| 0 <= j < s.messages.len() && (#[trigger] s.messages[j]).thread_id == id)
            ==> exists|k: int|
            0 <= k < s.messages.len() && (#[trigger] s.messages[k]).thread_id == id && (forall|j: int|
                0 <= j < s.messages.len() && (#[trigger] s.messages[j]).thread_id == id ==> time_key(
                    s.messages[j].sent_at,
                ) <= time_key(s.messages[k].sent_at)) && s.thread_preview(id) == match s.messages[k].body_text {
                Some(t) => Some(preview_text(t)),
                None => None::<Seq<char>>,
            },
{
    lemma_preview_of_latest(s.messages, |m: StoredMessageView| m.thread_id == id);
}

} // verus!

