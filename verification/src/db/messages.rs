//! Messages and attachments.

use vstd::prelude::*;

use super::conversations::{selects, MessageSelector};
use super::rows::{filter_rows, limit_count, limit_len, row_views, select_rows, selected, take_positions, RowFilter};
use super::{
    db_err, first_index, lemma_first_index, lemma_first_index_at, message_views, next_id,
    stored_message_views, Database, DbState, InsertMessage, InsertMessageView, StoredMessage, StoredMessageView,
};
use crate::error::{AppError, AppResult, DbError};
use crate::like::{opt_like_contains, text_like};
use crate::models::{
    attachment_views, copy_opt_string, opt_str_view, owned, owned_opt, Attachment, AttachmentView,
    Message, MessageView,
};
use crate::stamp::{time_key, UtcTime};
use crate::order::{key_views, lemma_stable_order_covers, lemma_stable_order_len, sort_positions, stable_order};
use crate::text::{chars_of, str_eq};

verus! {

/// Selects the message with Message-ID `mid`.
pub open spec fn message_has_mid(mid: Seq<char>) -> spec_fn(StoredMessageView) -> bool {
    |m: StoredMessageView| m.message_id == mid
}

/// Selects the message with identifier `id`.
pub open spec fn message_has_id(id: i64) -> spec_fn(StoredMessageView) -> bool {
    |m: StoredMessageView| m.id == id
}

/// How many messages a page holds when no limit is given.
pub const DEFAULT_PAGE_SIZE: i64 = 50;

/// The sort key of a message by sending time, earliest first.
pub open spec fn sent_key(m: StoredMessageView) -> i128 {
    time_key(m.sent_at) as i128
}

/// The sort key of a message by sending time, latest first.
pub open spec fn sent_key_desc(m: StoredMessageView) -> i128 {
    (-time_key(m.sent_at)) as i128
}

/// `rows` in order of `key`, equal keys in table order.
pub open spec fn order_by(rows: Seq<StoredMessageView>, key: spec_fn(StoredMessageView) -> i128) -> Seq<StoredMessageView> {
    stable_order::<i128>(rows.map_values(key), rows.len() as int).map_values(|i: int| rows[i])
}

/// The first `limit` rows (all of them for a negative limit).
pub open spec fn limited<A>(rows: Seq<A>, limit: i64) -> Seq<A> {
    rows.take(limit_len(limit, rows.len() as int))
}

/// Selects the messages of conversation `conv` before message `before`.
pub open spec fn in_conversation_before(conv: i64, before: Option<i64>) -> spec_fn(StoredMessageView) -> bool {
    |m: StoredMessageView|
        m.conversation_id == conv && match before {
            Some(b) => m.id < b,
            None => true,
        }
}

/// Selects the messages of thread `thread` before message `before`.
pub open spec fn in_thread_before(thread: i64, before: Option<i64>) -> spec_fn(StoredMessageView) -> bool {
    |m: StoredMessageView|
        m.thread_id == thread && match before {
            Some(b) => m.id < b,
            None => true,
        }
}

/// Selects the messages whose text or subject contains `query`.
pub open spec fn message_matches(query: Seq<char>) -> spec_fn(StoredMessageView) -> bool {
    |m: StoredMessageView| opt_like_contains(m.body_text, query) || opt_like_contains(m.subject, query)
}

/// A stored message with the given attachments.
pub open spec fn with_attachments(m: StoredMessageView, atts: Seq<AttachmentView>) -> MessageView {
    MessageView {
        id: m.id,
        conversation_id: m.conversation_id,
        account_id: m.account_id,
        message_id: m.message_id,
        in_reply_to: m.in_reply_to,
        thread_id: m.thread_id,
        from_email: m.from_email,
        from_name: m.from_name,
        subject: m.subject,
        body_text: m.body_text,
        body_html: m.body_html,
        sent_at: m.sent_at,
        is_outgoing: m.is_outgoing,
        is_read: m.is_read,
        raw_headers: m.raw_headers,
        attachments: atts,
    }
}

/// The most messages a search returns when no limit is given.
pub const DEFAULT_SEARCH_LIMIT: i64 = 50;

impl DbState {
    /// Adding message `msg`: when its Message-ID is already stored nothing
    /// changes and the answer is the identifier of the last row added; a
    /// reference to a missing conversation, thread or account is refused;
    /// otherwise it gets the next identifier.
    pub open spec fn insert_message(self, msg: InsertMessageView) -> (DbState, AppResult<i64>) {
        if first_index(self.messages, message_has_mid(msg.message_id)) is Some {
            (self, Ok(self.last_rowid))
        } else if !self.has_conversation(msg.conversation_id) || !self.has_thread(msg.thread_id)
            || !self.has_account(msg.account_id) {
            (self, db_err(DbError::ForeignKeyViolation))
        } else {
            match next_id(self.seq_message) {
                None => (self, db_err(DbError::Full)),
                Some(id) => (
                    DbState {
                        messages: self.messages.push(msg.row(id)),
                        seq_message: id,
                        last_rowid: id,
                        ..self
                    },
                    Ok(id),
                ),
            }
        }
    }

    /// Whether a message with Message-ID `mid` is stored.
    pub open spec fn message_exists(self, mid: Seq<char>) -> bool {
        first_index(self.messages, message_has_mid(mid)) is Some
    }

    /// The message with Message-ID `mid`, if any.
    pub open spec fn message_by_mid(self, mid: Seq<char>) -> Option<StoredMessageView> {
        match first_index(self.messages, message_has_mid(mid)) {
            Some(i) => Some(self.messages[i]),
            None => None,
        }
    }

    /// The message with identifier `id`, if any.
    pub open spec fn message(self, id: i64) -> Option<StoredMessageView> {
        match first_index(self.messages, message_has_id(id)) {
            Some(i) => Some(self.messages[i]),
            None => None,
        }
    }

    /// The attachments of message `id`, in the order they were added.
    pub open spec fn attachments_of(self, id: i64) -> Seq<AttachmentView> {
        self.attachments.filter(|a: AttachmentView| a.message_id == id)
    }

    /// A stored message with its attachments.
    pub open spec fn full_message(self, m: StoredMessageView) -> MessageView {
        with_attachments(m, self.attachments_of(m.id))
    }

    /// A page of the messages that `sel` selects: by sending time, earliest
    /// first, at most `limit` of them (`DEFAULT_PAGE_SIZE` when none is
    /// given), each with its attachments.
    pub open spec fn message_page(self, sel: spec_fn(StoredMessageView) -> bool, limit: Option<i64>) -> Seq<MessageView> {
        let lim = match limit {
            Some(l) => l,
            None => DEFAULT_PAGE_SIZE,
        };
        limited(order_by(self.messages.filter(sel), |m: StoredMessageView| sent_key(m)), lim).map_values(
            |m: StoredMessageView| self.full_message(m),
        )
    }

    /// The messages whose text or subject contains `query`: latest first, at
    /// most `limit` of them (`DEFAULT_SEARCH_LIMIT` when none is given),
    /// without their attachments.
    pub open spec fn message_search(self, query: Seq<char>, limit: Option<i64>) -> Seq<MessageView> {
        let lim = match limit {
            Some(l) => l,
            None => DEFAULT_SEARCH_LIMIT,
        };
        limited(order_by(self.messages.filter(message_matches(query)), |m: StoredMessageView| sent_key_desc(m)), lim).map_values(
            |m: StoredMessageView| with_attachments(m, seq![]),
        )
    }

    /// Adding an attachment record to message `message_id`; a reference to a
    /// missing message is refused.
    pub open spec fn insert_attachment(self, row: AttachmentView) -> (DbState, AppResult<i64>) {
        if !self.has_message(row.message_id) {
            (self, db_err(DbError::ForeignKeyViolation))
        } else {
            match next_id(self.seq_attachment) {
                None => (self, db_err(DbError::Full)),
                Some(id) => (
                    DbState {
                        attachments: self.attachments.push(AttachmentView { id, ..row }),
                        seq_attachment: id,
                        last_rowid: id,
                        ..self
                    },
                    Ok(id),
                ),
            }
        }
    }

    /// The Message-IDs of the messages of conversation `conv`.
    pub open spec fn message_ids_in(self, conv: i64) -> Seq<Seq<char>> {
        self.messages.filter(|m: StoredMessageView| m.conversation_id == conv).map_values(
            |m: StoredMessageView| m.message_id,
        )
    }

    /// The Message-IDs that a reply to message `mid` refers to: those of the
    /// other messages of its conversation sent before it, earliest
    /// first; none when `mid` is not stored.
    pub open spec fn references_for(self, mid: Seq<char>) -> Seq<Seq<char>> {
        match self.message_by_mid(mid) {
            None => seq![],
            Some(m0) => order_by(
                self.messages.filter(earlier_in_conversation(m0.conversation_id, m0.sent_at, mid)),
                |m: StoredMessageView| sent_key(m),
            ).map_values(|m: StoredMessageView| m.message_id),
        }
    }
}

/// Selects the messages of conversation `conv` sent before `at`,
/// other than the one with Message-ID `mid`.
pub open spec fn earlier_in_conversation(conv: i64, at: UtcTime, mid: Seq<char>) -> spec_fn(StoredMessageView) -> bool {
    |m: StoredMessageView| m.conversation_id == conv && time_key(m.sent_at) < time_key(at) && m.message_id != mid
}

// ─── Row filters ─────────────────────────────────────────────────────────────

pub struct ConversationPage {
    pub conv: i64,
    pub before: Option<i64>,
}

impl RowFilter<StoredMessage> for ConversationPage {
    open spec fn accepts(&self, m: StoredMessageView) -> bool {
        in_conversation_before(self.conv, self.before)(m)
    }

    fn test(&self, m: &StoredMessage) -> (r: bool) {
        m.conversation_id == self.conv && match self.before {
            Some(b) => m.id < b,
            None => true,
        }
    }
}

pub struct ThreadPage {
    pub thread: i64,
    pub before: Option<i64>,
}

impl RowFilter<StoredMessage> for ThreadPage {
    open spec fn accepts(&self, m: StoredMessageView) -> bool {
        in_thread_before(self.thread, self.before)(m)
    }

    fn test(&self, m: &StoredMessage) -> (r: bool) {
        m.thread_id == self.thread && match self.before {
            Some(b) => m.id < b,
            None => true,
        }
    }
}

pub struct TextQuery {
    pub query: Vec<char>,
}

impl RowFilter<StoredMessage> for TextQuery {
    open spec fn accepts(&self, m: StoredMessageView) -> bool {
        message_matches(self.query@)(m)
    }

    fn test(&self, m: &StoredMessage) -> (r: bool) {
        let a = match &m.body_text {
            Some(t) => text_like(t.as_str(), &self.query),
            None => false,
        };
        let b = match &m.subject {
            Some(t) => text_like(t.as_str(), &self.query),
            None => false,
        };
        a || b
    }
}

pub struct EarlierInConversation {
    pub conv: i64,
    pub at: UtcTime,
    pub mid: Vec<char>,
}

impl RowFilter<StoredMessage> for EarlierInConversation {
    open spec fn accepts(&self, m: StoredMessageView) -> bool {
        earlier_in_conversation(self.conv, self.at, self.mid@)(m)
    }

    fn test(&self, m: &StoredMessage) -> (r: bool) {
        m.conversation_id == self.conv && m.sent_at.before(&self.at) && !crate::text::chars_eq(
            &chars_of(m.message_id.as_str()),
            &self.mid,
        )
    }
}

pub struct InConversation {
    pub conv: i64,
}

impl RowFilter<StoredMessage> for InConversation {
    open spec fn accepts(&self, m: StoredMessageView) -> bool {
        m.conversation_id == self.conv
    }

    fn test(&self, m: &StoredMessage) -> (r: bool) {
        m.conversation_id == self.conv
    }
}

pub struct AttachmentOf {
    pub message: i64,
}

impl RowFilter<Attachment> for AttachmentOf {
    open spec fn accepts(&self, a: AttachmentView) -> bool {
        a.message_id == self.message
    }

    fn test(&self, a: &Attachment) -> (r: bool) {
        a.message_id == self.message
    }
}

} // verus!

verus! {

impl Database {
    /// Position of the message with Message-ID `mid`.
    pub(crate) fn find_message_by_mid(&self, mid: &str) -> (r: Option<usize>)
        ensures
            match r {
                Some(i) => i < self.messages.len() && first_index(self@.messages, message_has_mid(mid@))
                    == Some(i as int),
                None => first_index(self@.messages, message_has_mid(mid@)) is None,
            },
    {
        let ghost s = self@.messages;
        let mut i: usize = 0;
        while i < self.messages.len()
            invariant
                i <= self.messages.len(),
                s == stored_message_views(self.messages@),
                forall|k: int| 0 <= k < i ==> !message_has_mid(mid@)(#[trigger] s[k]),
            decreases self.messages.len() - i,
        {
            if str_eq(self.messages[i].message_id.as_str(), mid) {
                proof {
                    lemma_first_index_at(s, message_has_mid(mid@), i as int);
                }
                return Some(i);
            }
            i = i + 1;
        }
        proof {
            lemma_first_index_at(s, message_has_mid(mid@), i as int);
        }
        None
    }

    /// Position of the message with identifier `id`.
    pub(crate) fn find_message(&self, id: i64) -> (r: Option<usize>)
        ensures
            match r {
                Some(i) => i < self.messages.len() && first_index(self@.messages, message_has_id(id))
                    == Some(i as int),
                None => first_index(self@.messages, message_has_id(id)) is None,
            },
    {
        let ghost s = self@.messages;
        let mut i: usize = 0;
        while i < self.messages.len()
            invariant
                i <= self.messages.len(),
                s == stored_message_views(self.messages@),
                forall|k: int| 0 <= k < i ==> !message_has_id(id)(#[trigger] s[k]),
            decreases self.messages.len() - i,
        {
            if self.messages[i].id == id {
                proof {
                    lemma_first_index_at(s, message_has_id(id), i as int);
                }
                return Some(i);
            }
            i = i + 1;
        }
        proof {
            lemma_first_index_at(s, message_has_id(id), i as int);
        }
        None
    }

    /// The attachments of message `id`.
    pub(crate) fn attachments_for(&self, id: i64) -> (r: Vec<Attachment>)
        ensures
            attachment_views(r@) == self@.attachments_of(id),
    {
        let f = AttachmentOf { message: id };
        let r = filter_rows(&self.attachments, &f);
        assert(selected::<Attachment, AttachmentOf>(&f) =~= (|a: AttachmentView| a.message_id == id));
        assert(row_views(self.attachments@) == self@.attachments);
        assert(attachment_views(r@) == row_views(r@));
        r
    }

    /// Message `m` with the given attachments.
    fn message_with(m: &StoredMessage, attachments: Vec<Attachment>) -> (r: Message)
        ensures
            r@ == with_attachments(m@, attachment_views(attachments@)),
    {
        Message {
            id: m.id,
            conversation_id: m.conversation_id,
            account_id: m.account_id,
            message_id: m.message_id.clone(),
            in_reply_to: copy_opt_string(&m.in_reply_to),
            thread_id: m.thread_id,
            from_email: m.from_email.clone(),
            from_name: copy_opt_string(&m.from_name),
            subject: copy_opt_string(&m.subject),
            body_text: copy_opt_string(&m.body_text),
            body_html: copy_opt_string(&m.body_html),
            sent_at: m.sent_at,
            is_outgoing: m.is_outgoing,
            is_read: m.is_read,
            raw_headers: copy_opt_string(&m.raw_headers),
            attachments,
        }
    }

    /// `rows` by sending time: latest first when `desc`, else earliest
    /// first; equal times in table order.
    pub(crate) fn sort_messages(rows: &Vec<StoredMessage>, desc: bool) -> (r: Vec<StoredMessage>)
        ensures
            row_views(r@) == order_by(
                row_views(rows@),
                if desc {
                    |m: StoredMessageView| sent_key_desc(m)
                } else {
                    |m: StoredMessageView| sent_key(m)
                },
            ),
    {
        let ghost key = if desc {
            |m: StoredMessageView| sent_key_desc(m)
        } else {
            |m: StoredMessageView| sent_key(m)
        };
        let mut keys: Vec<i128> = Vec::new();
        let mut i: usize = 0;
        while i < rows.len()
            invariant
                i <= rows.len(),
                key == (if desc {
                    |m: StoredMessageView| sent_key_desc(m)
                } else {
                    |m: StoredMessageView| sent_key(m)
                }),
                keys@.len() == i,
                forall|k: int| 0 <= k < i ==> #[trigger] keys@[k] == key(rows@[k]@),
            decreases rows.len() - i,
        {
            let t = rows[i].sent_at.key();
            if desc {
                keys.push(-t);
            } else {
                keys.push(t);
            }
            i = i + 1;
        }
        let ghost rv = row_views(rows@);
        assert(key_views(keys@) =~= rv.map_values(key));
        let pos = sort_positions(&keys);
        proof {
            lemma_stable_order_len::<i128>(key_views(keys@), keys@.len() as int);
        }
        let r = select_rows(rows, &pos);
        assert(row_views(r@) =~= order_by(rv, key));
        r
    }

    /// The first `k` rows, each with its attachments.
    fn page_of(&self, rows: &Vec<StoredMessage>, k: usize, attach: bool) -> (r: Vec<Message>)
        requires
            k <= rows.len(),
        ensures
            message_views(r@) == row_views(rows@).take(k as int).map_values(
                |m: StoredMessageView| if attach { self@.full_message(m) } else { with_attachments(m, seq![]) },
            ),
    {
        let ghost f = |m: StoredMessageView| if attach { self@.full_message(m) } else { with_attachments(m, seq![]) };
        let mut r: Vec<Message> = Vec::new();
        let mut i: usize = 0;
        while i < k
            invariant
                i <= k <= rows.len(),
                f == (|m: StoredMessageView| if attach { self@.full_message(m) } else { with_attachments(m, seq![]) }),
                message_views(r@) == row_views(rows@).take(i as int).map_values(f),
            decreases k - i,
        {
            let atts = if attach {
                self.attachments_for(rows[i].id)
            } else {
                Vec::new()
            };
            assert(attach ==> attachment_views(atts@) == self@.attachments_of(rows@[i as int]@.id));
            assert(!attach ==> attachment_views(atts@) =~= Seq::<AttachmentView>::empty());
            let m = Self::message_with(&rows[i], atts);
            let ghost before = message_views(r@);
            r.push(m);
            assert(message_views(r@) =~= before.push(f(rows@[i as int]@)));
            assert(row_views(rows@).take(i + 1) =~= row_views(rows@).take(i as int).push(rows@[i as int]@));
            i = i + 1;
        }
        r
    }

    /// Adds message `msg` (see `DbState::insert_message`) and returns the
    /// identifier of the last row added.
    pub fn insert_message(&mut self, msg: &InsertMessage) -> (r: AppResult<i64>)
        requires
            old(self).wf(),
        ensures
            final(self).wf(),
            (final(self)@, r) == old(self)@.insert_message(msg@),
    {
        if self.find_message_by_mid(msg.message_id.as_str()).is_some() {
            return Ok(self.last_rowid);
        }
        if !self.conversation_exists(msg.conversation_id) || !self.thread_exists(msg.thread_id)
            || !self.account_exists(msg.account_id) {
            return Err(AppError::Database(DbError::ForeignKeyViolation));
        }
        if self.seq_message == i64::MAX {
            return Err(AppError::Database(DbError::Full));
        }
        let id = self.seq_message + 1;
        let row = StoredMessage {
            id,
            conversation_id: msg.conversation_id,
            thread_id: msg.thread_id,
            account_id: msg.account_id,
            message_id: msg.message_id.clone(),
            in_reply_to: copy_opt_string(&msg.in_reply_to),
            from_email: msg.from_email.clone(),
            from_name: copy_opt_string(&msg.from_name),
            subject: copy_opt_string(&msg.subject),
            body_text: copy_opt_string(&msg.body_text),
            body_html: copy_opt_string(&msg.body_html),
            sent_at: msg.sent_at,
            is_outgoing: msg.is_outgoing,
            is_read: msg.is_read,
            raw_headers: copy_opt_string(&msg.raw_headers),
        };
        let ghost before = self@;
        proof {
            lemma_first_index(before.messages, message_has_mid(msg.message_id@));
        }
        self.messages.push(row);
        self.seq_message = id;
        self.last_rowid = id;
        let ghost after = self@;
        assert(after.messages =~= before.messages.push(msg@.row(id)));
        proof {
            assert forall|k: int| 0 <= k < after.attachments.len() implies after.has_message(
                #[trigger] after.attachments[k].message_id,
            ) by {
                let w = choose|w: int|
                    0 <= w < before.messages.len() && #[trigger] before.messages[w].id
                        == before.attachments[k].message_id;
                assert(after.messages[w] == before.messages[w]);
            }
        }
        Ok(id)
    }

    /// Whether a message with Message-ID `message_id` is stored.
    pub fn message_exists(&self, message_id: &str) -> (r: AppResult<bool>)
        ensures
            r == Ok::<bool, AppError>(self@.message_exists(message_id@)),
    {
        Ok(self.find_message_by_mid(message_id).is_some())
    }

    /// The message with identifier `id`, with its attachments.
    pub fn get_message_by_id(&self, id: i64) -> (r: AppResult<Message>)
        ensures
            match self@.message(id) {
                Some(m) => r matches Ok(x) && x@ == self@.full_message(m),
                None => r == db_err::<Message>(DbError::NoRows),
            },
    {
        match self.find_message(id) {
            Some(i) => {
                let atts = self.attachments_for(self.messages[i].id);
                Ok(Self::message_with(&self.messages[i], atts))
            },
            None => Err(AppError::Database(DbError::NoRows)),
        }
    }

    /// A page of the messages of conversation `conversation_id` (before
    /// message `before_id` when given): earliest first, at most `limit`.
    pub fn get_messages_for_conversation(&self, conversation_id: i64, limit: Option<i64>, before_id: Option<i64>) -> (r:
        AppResult<Vec<Message>>)
        ensures
            r matches Ok(v) && message_views(v@) == self@.message_page(
                in_conversation_before(conversation_id, before_id),
                limit,
            ),
    {
        let lim = match limit {
            Some(l) => l,
            None => DEFAULT_PAGE_SIZE,
        };
        let f = ConversationPage { conv: conversation_id, before: before_id };
        let found = filter_rows(&self.messages, &f);
        assert(selected::<StoredMessage, ConversationPage>(&f) =~= in_conversation_before(conversation_id, before_id));
        assert(row_views(self.messages@) == self@.messages);
        let sorted = Self::sort_messages(&found, false);
        let k = limit_count(lim, sorted.len());
        let r = self.page_of(&sorted, k, true);
        Ok(r)
    }

    /// A page of the messages of thread `thread_id` (before message
    /// `before_id` when given): earliest first, at most `limit`.
    pub fn get_messages_for_thread(&self, thread_id: i64, limit: Option<i64>, before_id: Option<i64>) -> (r:
        AppResult<Vec<Message>>)
        ensures
            r matches Ok(v) && message_views(v@) == self@.message_page(
                in_thread_before(thread_id, before_id),
                limit,
            ),
    {
        let lim = match limit {
            Some(l) => l,
            None => DEFAULT_PAGE_SIZE,
        };
        let f = ThreadPage { thread: thread_id, before: before_id };
        let found = filter_rows(&self.messages, &f);
        assert(selected::<StoredMessage, ThreadPage>(&f) =~= in_thread_before(thread_id, before_id));
        assert(row_views(self.messages@) == self@.messages);
        let sorted = Self::sort_messages(&found, false);
        let k = limit_count(lim, sorted.len());
        let r = self.page_of(&sorted, k, true);
        Ok(r)
    }

    /// Marks message `message_id` read.
    pub fn mark_message_read(&mut self, message_id: i64) -> (r: AppResult<()>)
        requires
            old(self).wf(),
        ensures
            final(self).wf(),
            r is Ok,
            final(self)@ == old(self)@.mark_messages_read(MessageSelector::Id(message_id)),
    {
        self.mark_messages_read_rows(MessageSelector::Id(message_id));
        Ok(())
    }

    /// The messages whose text or subject contains `query` (see
    /// `DbState::message_search`).
    pub fn search_messages(&self, query: &str, limit: Option<i64>) -> (r: AppResult<Vec<Message>>)
        ensures
            r matches Ok(v) && message_views(v@) == self@.message_search(query@, limit),
    {
        let lim = match limit {
            Some(l) => l,
            None => DEFAULT_SEARCH_LIMIT,
        };
        let f = TextQuery { query: chars_of(query) };
        let found = filter_rows(&self.messages, &f);
        assert(selected::<StoredMessage, TextQuery>(&f) =~= message_matches(query@));
        assert(row_views(self.messages@) == self@.messages);
        let sorted = Self::sort_messages(&found, true);
        let k = limit_count(lim, sorted.len());
        let r = self.page_of(&sorted, k, false);
        Ok(r)
    }

    /// Adds an attachment record to message `message_db_id` and returns its
    /// identifier.
    pub fn insert_attachment(
        &mut self,
        message_db_id: i64,
        filename: Option<&str>,
        mime_type: Option<&str>,
        size_bytes: Option<i64>,
        local_path: Option<&str>,
    ) -> (r: AppResult<i64>)
        requires
            old(self).wf(),
        ensures
            final(self).wf(),
            (final(self)@, r) == old(self)@.insert_attachment(
                AttachmentView {
                    id: 0,
                    message_id: message_db_id,
                    filename: opt_str_view(filename),
                    mime_type: opt_str_view(mime_type),
                    size_bytes,
                    local_path: opt_str_view(local_path),
                },
            ),
    {
        let found = self.find_message(message_db_id);
        proof {
            lemma_first_index(self@.messages, message_has_id(message_db_id));
        }
        if found.is_none() {
            return Err(AppError::Database(DbError::ForeignKeyViolation));
        }
        if self.seq_attachment == i64::MAX {
            return Err(AppError::Database(DbError::Full));
        }
        let id = self.seq_attachment + 1;
        let ghost before = self@;
        self.attachments.push(
            Attachment {
                id,
                message_id: message_db_id,
                filename: owned_opt(filename),
                mime_type: owned_opt(mime_type),
                size_bytes,
                local_path: owned_opt(local_path),
            },
        );
        self.seq_attachment = id;
        self.last_rowid = id;
        let ghost after = self@;
        assert(after.attachments =~= before.attachments.push(
            AttachmentView {
                id,
                message_id: message_db_id,
                filename: opt_str_view(filename),
                mime_type: opt_str_view(mime_type),
                size_bytes,
                local_path: opt_str_view(local_path),
            },
        ));
        Ok(id)
    }

    /// The attachments of message `message_db_id`.
    pub fn get_attachments_for_message(&self, message_db_id: i64) -> (r: AppResult<Vec<Attachment>>)
        ensures
            r matches Ok(v) && attachment_views(v@) == self@.attachments_of(message_db_id),
    {
        Ok(self.attachments_for(message_db_id))
    }

    /// The conversation of the message with Message-ID `message_id`.
    pub fn find_conversation_by_message_id(&self, message_id: &str) -> (r: AppResult<Option<i64>>)
        ensures
            r == Ok::<Option<i64>, AppError>(
                match self@.message_by_mid(message_id@) {
                    Some(m) => Some(m.conversation_id),
                    None => None,
                },
            ),
    {
        match self.find_message_by_mid(message_id) {
            Some(i) => Ok(Some(self.messages[i].conversation_id)),
            None => Ok(None),
        }
    }

    /// The conversation and thread of the message with Message-ID
    /// `message_id`.
    pub fn find_conversation_and_thread_by_message_id(&self, message_id: &str) -> (r: AppResult<
        Option<(i64, i64)>,
    >)
        ensures
            r == Ok::<Option<(i64, i64)>, AppError>(
                match self@.message_by_mid(message_id@) {
                    Some(m) => Some((m.conversation_id, m.thread_id)),
                    None => None,
                },
            ),
    {
        match self.find_message_by_mid(message_id) {
            Some(i) => Ok(Some((self.messages[i].conversation_id, self.messages[i].thread_id))),
            None => Ok(None),
        }
    }

    /// The subject of the message with Message-ID `message_id`.
    pub fn get_subject_for_message_id(&self, message_id: &str) -> (r: AppResult<Option<String>>)
        ensures
            r matches Ok(o) && crate::models::opt_view(o) == match self@.message_by_mid(message_id@) {
                Some(m) => m.subject,
                None => None,
            },
    {
        match self.find_message_by_mid(message_id) {
            Some(i) => Ok(copy_opt_string(&self.messages[i].subject)),
            None => Ok(None),
        }
    }

    /// The Message-IDs of the messages of conversation `conversation_id`.
    pub fn get_message_ids_for_conversation(&self, conversation_id: i64) -> (r: AppResult<Vec<String>>)
        ensures
            r matches Ok(v) && v@.map_values(|s: String| s@) == self@.message_ids_in(conversation_id),
    {
        let f = InConversation { conv: conversation_id };
        let found = filter_rows(&self.messages, &f);
        assert(selected::<StoredMessage, InConversation>(&f) =~= (|m: StoredMessageView| m.conversation_id == conversation_id));
        assert(row_views(self.messages@) == self@.messages);
        let mut v: Vec<String> = Vec::new();
        let mut i: usize = 0;
        while i < found.len()
            invariant
                i <= found.len(),
                v@.map_values(|s: String| s@) == row_views(found@).take(i as int).map_values(
                    |m: StoredMessageView| m.message_id,
                ),
            decreases found.len() - i,
        {
            let ghost before = v@.map_values(|s: String| s@);
            v.push(found[i].message_id.clone());
            assert(v@.map_values(|s: String| s@) =~= before.push(found@[i as int].message_id@));
            assert(row_views(found@).take(i + 1) =~= row_views(found@).take(i as int).push(found@[i as int]@));
            i = i + 1;
        }
        assert(row_views(found@).take(found.len() as int) =~= row_views(found@));
        Ok(v)
    }

    /// The Message-IDs that a reply to `message_id` refers to (see
    /// `DbState::references_for`).
    pub fn get_references_for_message_id(&self, message_id: &str) -> (r: AppResult<Vec<String>>)
        ensures
            r matches Ok(v) && v@.map_values(|s: String| s@) == self@.references_for(message_id@),
    {
        let i = match self.find_message_by_mid(message_id) {
            Some(i) => i,
            None => {
                let v: Vec<String> = Vec::new();
                assert(v@.map_values(|s: String| s@) =~= Seq::<Seq<char>>::empty());
                return Ok(v);
            },
        };
        let f = EarlierInConversation {
            conv: self.messages[i].conversation_id,
            at: self.messages[i].sent_at,
            mid: chars_of(message_id),
        };
        let found = filter_rows(&self.messages, &f);
        assert(selected::<StoredMessage, EarlierInConversation>(&f) =~= earlier_in_conversation(
            self@.messages[i as int].conversation_id,
            self@.messages[i as int].sent_at,
            message_id@,
        ));
        assert(row_views(self.messages@) == self@.messages);
        let sorted = Self::sort_messages(&found, false);
        let mut v: Vec<String> = Vec::new();
        let mut k: usize = 0;
        while k < sorted.len()
            invariant
                k <= sorted.len(),
                v@.map_values(|s: String| s@) == row_views(sorted@).take(k as int).map_values(
                    |m: StoredMessageView| m.message_id,
                ),
            decreases sorted.len() - k,
        {
            let ghost before = v@.map_values(|s: String| s@);
            v.push(sorted[k].message_id.clone());
            assert(v@.map_values(|s: String| s@) =~= before.push(sorted@[k as int].message_id@));
            assert(row_views(sorted@).take(k + 1) =~= row_views(sorted@).take(k as int).push(sorted@[k as int]@));
            k = k + 1;
        }
        assert(row_views(sorted@).take(sorted.len() as int) =~= row_views(sorted@));
        Ok(v)
    }
}

/// Ordering rows keeps exactly the rows.
proof fn lemma_order_by_members(rows: Seq<StoredMessageView>, key: spec_fn(StoredMessageView) -> i128)
    ensures
        order_by(rows, key).len() == rows.len(),
        forall|i: int| 0 <= i < rows.len() ==> rows.contains(#[trigger] order_by(rows, key)[i]),
        forall|j: int| 0 <= j < rows.len() ==> order_by(rows, key).contains(#[trigger] rows[j]),
{
    let ks = rows.map_values(key);
    let n = rows.len() as int;
    lemma_stable_order_len::<i128>(ks, n);
    lemma_stable_order_covers::<i128>(ks, n);
    let o = stable_order::<i128>(ks, n);
    let out = order_by(rows, key);
    assert(out.len() == n);
    assert forall|i: int| 0 <= i < rows.len() implies rows.contains(#[trigger] out[i]) by {
        assert(0 <= o[i] < n);
        assert(out[i] == rows[o[i]]);
    }
    assert forall|j: int| 0 <= j < rows.len() implies out.contains(#[trigger] rows[j]) by {
        assert(o.contains(j));
        let p = choose|p: int| 0 <= p < o.len() && o[p] == j;
        assert(out[p] == rows[j]);
    }
}

/// Row `i` that a selection, ordered and limited, hands out is a selected
/// row.
proof fn lemma_selection_member_at(
    msgs: Seq<StoredMessageView>,
    sel: spec_fn(StoredMessageView) -> bool,
    key: spec_fn(StoredMessageView) -> i128,
    lim: i64,
    i: int,
)
    requires
        0 <= i < limited(order_by(msgs.filter(sel), key), lim).len(),
    ensures
        exists|k: int|
            0 <= k < msgs.len() && sel(#[trigger] msgs[k]) && limited(order_by(msgs.filter(sel), key), lim)[i]
                == msgs[k],
{
    broadcast use vstd::seq_lib::group_filter_ensures;
    let rows = msgs.filter(sel);
    let o = order_by(rows, key);
    lemma_order_by_members(rows, key);
    let lt = limited(o, lim);
    assert(lt[i] == o[i]);
    assert(rows.contains(o[i]));
    let q = choose|q: int| 0 <= q < rows.len() && rows[q] == o[i];
    assert(sel(rows[q]));
    msgs.lemma_filter_contains_rev(sel, o[i]);
    let k = choose|k: int| 0 <= k < msgs.len() && msgs[k] == o[i];
    assert(sel(msgs[k]));
}

/// With no limit in force, a selection, ordered, hands out every selected
/// row.
proof fn lemma_selection_complete(
    msgs: Seq<StoredMessageView>,
    sel: spec_fn(StoredMessageView) -> bool,
    key: spec_fn(StoredMessageView) -> i128,
    lim: i64,
    k: int,
)
    requires
        lim < 0 || lim >= msgs.len(),
        0 <= k < msgs.len(),
        sel(msgs[k]),
    ensures
        limited(order_by(msgs.filter(sel), key), lim).contains(msgs[k]),
{
    broadcast use vstd::seq_lib::group_filter_ensures;
    let rows = msgs.filter(sel);
    let o = order_by(rows, key);
    lemma_order_by_members(rows, key);
    assert(rows.len() <= msgs.len());
    assert(limited(o, lim) == o);
    msgs.lemma_filter_contains(sel, k);
    let q = choose|q: int| 0 <= q < rows.len() && rows[q] == msgs[k];
    assert(o.contains(rows[q]));
}

/// A search hands out only stored messages whose text or subject contains
/// the query, without attachments; with no limit in force (a negative limit,
/// or one not below the number of messages) it hands out every one of them.
pub proof fn law_search_finds_text_or_subject(s: DbState, query: Seq<char>, limit: Option<i64>)
    ensures
        forall|i: int|
            #![trigger s.message_search(query, limit)[i]]
            0 <= i < s.message_search(query, limit).len() ==> exists|k: int|
                0 <= k < s.messages.len() && (opt_like_contains((#[trigger] s.messages[k]).body_text, query) || opt_like_contains(
                    s.messages[k].subject,
                    query,
                )) && s.message_search(query, limit)[i] == with_attachments(s.messages[k], seq![]),
        (limit matches Some(l) && (l < 0 || l >= s.messages.len())) ==> forall|k: int|
            0 <= k < s.messages.len() && (opt_like_contains((#[trigger] s.messages[k]).body_text, query)
                || opt_like_contains(s.messages[k].subject, query)) ==> s.message_search(query, limit).contains(
                with_attachments(s.messages[k], seq![]),
            ),
{
    let lim = match limit {
        Some(l) => l,
        None => DEFAULT_SEARCH_LIMIT,
    };
    let sel = message_matches(query);
    let key = |m: StoredMessageView| sent_key_desc(m);
    let lt = limited(order_by(s.messages.filter(sel), key), lim);
    let res = s.message_search(query, limit);
    assert(res == lt.map_values(|m: StoredMessageView| with_attachments(m, seq![])));
    assert forall|i: int| #![trigger res[i]] 0 <= i < res.len() implies exists|k: int|
        0 <= k < s.messages.len() && (opt_like_contains((#[trigger] s.messages[k]).body_text, query)
            || opt_like_contains(s.messages[k].subject, query)) && res[i] == with_attachments(s.messages[k], seq![]) by {
        lemma_selection_member_at(s.messages, sel, key, lim, i);
        let k = choose|k: int| 0 <= k < s.messages.len() && sel(#[trigger] s.messages[k]) && lt[i] == s.messages[k];
        assert(res[i] == with_attachments(s.messages[k], seq![]));
    }
    if limit matches Some(l) && (l < 0 || l >= s.messages.len()) {
        assert forall|k: int| 0 <= k < s.messages.len() && (opt_like_contains((#[trigger] s.messages[k]).body_text, query)
            || opt_like_contains(s.messages[k].subject, query)) implies res.contains(with_attachments(s.messages[k], seq![])) by {
            lemma_selection_complete(s.messages, sel, key, lim, k);
            let p = choose|p: int| 0 <= p < lt.len() && lt[p] == s.messages[k];
            assert(res[p] == with_attachments(s.messages[k], seq![]));
        }
    }
}

/// A page of a conversation hands out only messages of that conversation,
/// with their attachments, and only ones before message `before` when it is
/// given; with no limit in force (a negative limit, or one not below the
/// number of messages) it hands out every such message.
pub proof fn law_conversation_page_members(s: DbState, conv: i64, limit: Option<i64>, before: Option<i64>)
    ensures
        forall|i: int|
            #![trigger s.message_page(in_conversation_before(conv, before), limit)[i]]
            0 <= i < s.message_page(in_conversation_before(conv, before), limit).len() ==> exists|k: int|
                0 <= k < s.messages.len() && (#[trigger] s.messages[k]).conversation_id == conv && (before matches Some(b)
                    ==> s.messages[k].id < b) && s.message_page(in_conversation_before(conv, before), limit)[i]
                    == s.full_message(s.messages[k]),
        (limit matches Some(l) && (l < 0 || l >= s.messages.len())) ==> forall|k: int|
            0 <= k < s.messages.len() && (#[trigger] s.messages[k]).conversation_id == conv && (before matches Some(b)
                ==> s.messages[k].id < b) ==> s.message_page(in_conversation_before(conv, before), limit).contains(
                s.full_message(s.messages[k]),
            ),
{
    let lim = match limit {
        Some(l) => l,
        None => DEFAULT_PAGE_SIZE,
    };
    let sel = in_conversation_before(conv, before);
    let key = |m: StoredMessageView| sent_key(m);
    let lt = limited(order_by(s.messages.filter(sel), key), lim);
    let res = s.message_page(sel, limit);
    assert(res == lt.map_values(|m: StoredMessageView| s.full_message(m)));
    assert forall|i: int| #![trigger res[i]] 0 <= i < res.len() implies exists|k: int|
        0 <= k < s.messages.len() && (#[trigger] s.messages[k]).conversation_id == conv && (before matches Some(b)
            ==> s.messages[k].id < b) && res[i] == s.full_message(s.messages[k]) by {
        lemma_selection_member_at(s.messages, sel, key, lim, i);
        let k = choose|k: int| 0 <= k < s.messages.len() && sel(#[trigger] s.messages[k]) && lt[i] == s.messages[k];
        assert(res[i] == s.full_message(s.messages[k]));
    }
    if limit matches Some(l) && (l < 0 || l >= s.messages.len()) {
        assert forall|k: int| 0 <= k < s.messages.len() && (#[trigger] s.messages[k]).conversation_id == conv && (before matches Some(b)
            ==> s.messages[k].id < b) implies res.contains(s.full_message(s.messages[k])) by {
            assert(sel(s.messages[k]));
            lemma_selection_complete(s.messages, sel, key, lim, k);
            let p = choose|p: int| 0 <= p < lt.len() && lt[p] == s.messages[k];
            assert(res[p] == s.full_message(s.messages[k]));
        }
    }
}

/// A page of a thread hands out only messages of that thread, with their
/// attachments, and only ones before message `before` when it is given;
/// with no limit in force it hands out every such message.
pub proof fn law_thread_page_members(s: DbState, thread: i64, limit: Option<i64>, before: Option<i64>)
    ensures
        forall|i: int|
            #![trigger s.message_page(in_thread_before(thread, before), limit)[i]]
            0 <= i < s.message_page(in_thread_before(thread, before), limit).len() ==> exists|k: int|
                0 <= k < s.messages.len() && (#[trigger] s.messages[k]).thread_id == thread && (before matches Some(b)
                    ==> s.messages[k].id < b) && s.message_page(in_thread_before(thread, before), limit)[i]
                    == s.full_message(s.messages[k]),
        (limit matches Some(l) && (l < 0 || l >= s.messages.len())) ==> forall|k: int|
            0 <= k < s.messages.len() && (#[trigger] s.messages[k]).thread_id == thread && (before matches Some(b)
                ==> s.messages[k].id < b) ==> s.message_page(in_thread_before(thread, before), limit).contains(
                s.full_message(s.messages[k]),
            ),
{
    let lim = match limit {
        Some(l) => l,
        None => DEFAULT_PAGE_SIZE,
    };
    let sel = in_thread_before(thread, before);
    let key = |m: StoredMessageView| sent_key(m);
    let lt = limited(order_by(s.messages.filter(sel), key), lim);
    let res = s.message_page(sel, limit);
    assert(res == lt.map_values(|m: StoredMessageView| s.full_message(m)));
    assert forall|i: int| #![trigger res[i]] 0 <= i < res.len() implies exists|k: int|
        0 <= k < s.messages.len() && (#[trigger] s.messages[k]).thread_id == thread && (before matches Some(b)
            ==> s.messages[k].id < b) && res[i] == s.full_message(s.messages[k]) by {
        lemma_selection_member_at(s.messages, sel, key, lim, i);
        let k = choose|k: int| 0 <= k < s.messages.len() && sel(#[trigger] s.messages[k]) && lt[i] == s.messages[k];
        assert(res[i] == s.full_message(s.messages[k]));
    }
    if limit matches Some(l) && (l < 0 || l >= s.messages.len()) {
        assert forall|k: int| 0 <= k < s.messages.len() && (#[trigger] s.messages[k]).thread_id == thread && (before matches Some(b)
            ==> s.messages[k].id < b) implies res.contains(s.full_message(s.messages[k])) by {
            assert(sel(s.messages[k]));
            lemma_selection_complete(s.messages, sel, key, lim, k);
            let p = choose|p: int| 0 <= p < lt.len() && lt[p] == s.messages[k];
            assert(res[p] == s.full_message(s.messages[k]));
        }
    }
}

} // verus!

