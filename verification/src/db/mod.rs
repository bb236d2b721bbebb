//! The message store: accounts, contacts, conversations, threads, messages
//! and attachments, with the queries the client runs on them.
//!
//! Each table keeps its rows in the order of their identifiers. New rows take
//! the next identifier of their table (identifiers are never reused), a row
//! whose unique key is taken is refused or ignored as each operation says,
//! references between rows are checked when a row is added, and removing a
//! row removes the rows that depend on it.

use vstd::prelude::*;

use crate::error::{AppError, AppResult, DbError};
use crate::stamp::UtcTime;
use crate::models::{
    attachment_views, copy_opt_string, opt_view, Account, AccountView, Attachment, AttachmentView,
    Contact, ContactView, Conversation, ConversationKind, ConversationView, MemberRole, Message,
    MessageView, Thread, ThreadListItem, ThreadListItemView, ThreadView,
};

pub mod accounts;
pub mod contacts;
pub mod conversations;
pub mod threads;
pub mod messages;
pub mod rows;
pub mod listing;
pub mod cascade;
pub mod laws;
pub mod snapshot;

verus! {

// ─── Rows ────────────────────────────────────────────────────────────────────

/// A stored conversation, without the members and preview that queries add.
#[derive(Debug, Clone)]
pub struct ConversationRow {
    pub id: i64,
    pub kind: ConversationKind,
    pub subject_hint: Option<String>,
    pub last_message_at: Option<UtcTime>,
    pub unread_count: i64,
}

pub struct ConversationRowView {
    pub id: i64,
    pub kind: ConversationKind,
    pub subject_hint: Option<Seq<char>>,
    pub last_message_at: Option<UtcTime>,
    pub unread_count: i64,
}

impl View for ConversationRow {
    type V = ConversationRowView;

    open spec fn view(&self) -> ConversationRowView {
        ConversationRowView {
            id: self.id,
            kind: self.kind,
            subject_hint: opt_view(self.subject_hint),
            last_message_at: self.last_message_at,
            unread_count: self.unread_count,
        }
    }
}

impl ConversationRow {
    pub fn copy(&self) -> (r: Self)
        ensures
            r@ == self@,
    {
        ConversationRow {
            id: self.id,
            kind: self.kind,
            subject_hint: copy_opt_string(&self.subject_hint),
            last_message_at: self.last_message_at,
            unread_count: self.unread_count,
        }
    }
}

/// Membership of a contact in a conversation. `rowid` is the row's position
/// key: one more than the largest one in the table when it was added.
#[derive(Debug, Clone, Copy, PartialEq, Eq, Structural)]
pub struct MemberRow {
    pub rowid: i64,
    pub conversation_id: i64,
    pub contact_id: i64,
    pub role: MemberRole,
}

/// A stored message, without its attachments.
#[derive(Debug, Clone)]
pub struct StoredMessage {
    pub id: i64,
    pub conversation_id: i64,
    pub thread_id: i64,
    pub account_id: i64,
    pub message_id: String,
    pub in_reply_to: Option<String>,
    pub from_email: String,
    pub from_name: Option<String>,
    pub subject: Option<String>,
    pub body_text: Option<String>,
    pub body_html: Option<String>,
    pub sent_at: UtcTime,
    pub is_outgoing: bool,
    pub is_read: bool,
    pub raw_headers: Option<String>,
}

pub struct StoredMessageView {
    pub id: i64,
    pub conversation_id: i64,
    pub thread_id: i64,
    pub account_id: i64,
    pub message_id: Seq<char>,
    pub in_reply_to: Option<Seq<char>>,
    pub from_email: Seq<char>,
    pub from_name: Option<Seq<char>>,
    pub subject: Option<Seq<char>>,
    pub body_text: Option<Seq<char>>,
    pub body_html: Option<Seq<char>>,
    pub sent_at: UtcTime,
    pub is_outgoing: bool,
    pub is_read: bool,
    pub raw_headers: Option<Seq<char>>,
}

impl View for StoredMessage {
    type V = StoredMessageView;

    open spec fn view(&self) -> StoredMessageView {
        StoredMessageView {
            id: self.id,
            conversation_id: self.conversation_id,
            thread_id: self.thread_id,
            account_id: self.account_id,
            message_id: self.message_id@,
            in_reply_to: opt_view(self.in_reply_to),
            from_email: self.from_email@,
            from_name: opt_view(self.from_name),
            subject: opt_view(self.subject),
            body_text: opt_view(self.body_text),
            body_html: opt_view(self.body_html),
            sent_at: self.sent_at,
            is_outgoing: self.is_outgoing,
            is_read: self.is_read,
            raw_headers: opt_view(self.raw_headers),
        }
    }
}

impl StoredMessage {
    pub fn copy(&self) -> (r: Self)
        ensures
            r@ == self@,
    {
        StoredMessage {
            id: self.id,
            conversation_id: self.conversation_id,
            thread_id: self.thread_id,
            account_id: self.account_id,
            message_id: self.message_id.clone(),
            in_reply_to: copy_opt_string(&self.in_reply_to),
            from_email: self.from_email.clone(),
            from_name: copy_opt_string(&self.from_name),
            subject: copy_opt_string(&self.subject),
            body_text: copy_opt_string(&self.body_text),
            body_html: copy_opt_string(&self.body_html),
            sent_at: self.sent_at,
            is_outgoing: self.is_outgoing,
            is_read: self.is_read,
            raw_headers: copy_opt_string(&self.raw_headers),
        }
    }
}

/// Data for a new message (no identifier, no attachments).
#[derive(Debug, Clone)]
pub struct InsertMessage {
    pub conversation_id: i64,
    pub thread_id: i64,
    pub account_id: i64,
    pub message_id: String,
    pub in_reply_to: Option<String>,
    pub from_email: String,
    pub from_name: Option<String>,
    pub subject: Option<String>,
    pub body_text: Option<String>,
    pub body_html: Option<String>,
    pub sent_at: UtcTime,
    pub is_outgoing: bool,
    pub is_read: bool,
    pub raw_headers: Option<String>,
}

/// The characters of a new message's data.
pub struct InsertMessageView {
    pub conversation_id: i64,
    pub thread_id: i64,
    pub account_id: i64,
    pub message_id: Seq<char>,
    pub in_reply_to: Option<Seq<char>>,
    pub from_email: Seq<char>,
    pub from_name: Option<Seq<char>>,
    pub subject: Option<Seq<char>>,
    pub body_text: Option<Seq<char>>,
    pub body_html: Option<Seq<char>>,
    pub sent_at: UtcTime,
    pub is_outgoing: bool,
    pub is_read: bool,
    pub raw_headers: Option<Seq<char>>,
}

impl View for InsertMessage {
    type V = InsertMessageView;

    open spec fn view(&self) -> InsertMessageView {
        InsertMessageView {
            conversation_id: self.conversation_id,
            thread_id: self.thread_id,
            account_id: self.account_id,
            message_id: self.message_id@,
            in_reply_to: opt_view(self.in_reply_to),
            from_email: self.from_email@,
            from_name: opt_view(self.from_name),
            subject: opt_view(self.subject),
            body_text: opt_view(self.body_text),
            body_html: opt_view(self.body_html),
            sent_at: self.sent_at,
            is_outgoing: self.is_outgoing,
            is_read: self.is_read,
            raw_headers: opt_view(self.raw_headers),
        }
    }
}

impl InsertMessageView {
    /// The stored form of this message under identifier `id`.
    pub open spec fn row(self, id: i64) -> StoredMessageView {
        StoredMessageView {
            id,
            conversation_id: self.conversation_id,
            thread_id: self.thread_id,
            account_id: self.account_id,
            message_id: self.message_id,
            in_reply_to: self.in_reply_to,
            from_email: self.from_email,
            from_name: self.from_name,
            subject: self.subject,
            body_text: self.body_text,
            body_html: self.body_html,
            sent_at: self.sent_at,
            is_outgoing: self.is_outgoing,
            is_read: self.is_read,
            raw_headers: self.raw_headers,
        }
    }
}

// ─── The abstract store ──────────────────────────────────────────────────────

/// The contents of the store: its tables, the last identifier handed out in
/// each table, and the identifier of the last row added.
pub struct DbState {
    pub accounts: Seq<AccountView>,
    pub contacts: Seq<ContactView>,
    pub conversations: Seq<ConversationRowView>,
    pub threads: Seq<ThreadView>,
    pub members: Seq<MemberRow>,
    pub messages: Seq<StoredMessageView>,
    pub attachments: Seq<AttachmentView>,
    pub seq_account: i64,
    pub seq_contact: i64,
    pub seq_conversation: i64,
    pub seq_thread: i64,
    pub seq_message: i64,
    pub seq_attachment: i64,
    pub last_rowid: i64,
}

/// The first position in `s` whose element satisfies `p`.
pub open spec fn first_index<A>(s: Seq<A>, p: spec_fn(A) -> bool) -> Option<int>
    decreases s.len(),
{
    if s.len() == 0 {
        None
    } else if p(s[0]) {
        Some(0)
    } else {
        match first_index(s.drop_first(), p) {
            Some(i) => Some(i + 1),
            None => None,
        }
    }
}

pub proof fn lemma_first_index<A>(s: Seq<A>, p: spec_fn(A) -> bool)
    ensures
        match first_index(s, p) {
            Some(i) => 0 <= i < s.len() && p(s[i]) && forall|k: int| 0 <= k < i ==> !p(#[trigger] s[k]),
            None => forall|k: int| 0 <= k < s.len() ==> !p(#[trigger] s[k]),
        },
    decreases s.len(),
{
    if s.len() > 0 && !p(s[0]) {
        lemma_first_index(s.drop_first(), p);
        match first_index(s.drop_first(), p) {
            Some(i) => {
                assert forall|k: int| 0 <= k < i + 1 implies !p(#[trigger] s[k]) by {
                    if k > 0 {
                        assert(s[k] == s.drop_first()[k - 1]);
                    }
                }
            },
            None => {
                assert forall|k: int| 0 <= k < s.len() implies !p(#[trigger] s[k]) by {
                    if k > 0 {
                        assert(s[k] == s.drop_first()[k - 1]);
                    }
                }
            },
        }
    }
}

/// `first_index` is the position that a scan from the front stops at.
pub proof fn lemma_first_index_at<A>(s: Seq<A>, p: spec_fn(A) -> bool, i: int)
    requires
        0 <= i <= s.len(),
        forall|k: int| 0 <= k < i ==> !p(#[trigger] s[k]),
        i < s.len() ==> p(s[i]),
    ensures
        first_index(s, p) == (if i < s.len() { Some(i) } else { None::<int> }),
{
    lemma_first_index(s, p);
    match first_index(s, p) {
        Some(j) => {
            if j < i {
            } else if j > i {
                assert(!p(s[i]));
            }
        },
        None => {
            if i < s.len() {
                assert(!p(s[i]));
            }
        },
    }
}

/// The identifier after `last`, if identifiers are not exhausted.
pub open spec fn next_id(last: i64) -> Option<i64> {
    if last < i64::MAX {
        Some((last + 1) as i64)
    } else {
        None
    }
}

impl DbState {
    pub open spec fn has_conversation(self, id: i64) -> bool {
        exists|i: int| 0 <= i < self.conversations.len() && #[trigger] self.conversations[i].id == id
    }

    pub open spec fn has_contact(self, id: i64) -> bool {
        exists|i: int| 0 <= i < self.contacts.len() && #[trigger] self.contacts[i].id == id
    }

    pub open spec fn has_account(self, id: i64) -> bool {
        exists|i: int| 0 <= i < self.accounts.len() && #[trigger] self.accounts[i].id == id
    }

    pub open spec fn has_thread(self, id: i64) -> bool {
        exists|i: int| 0 <= i < self.threads.len() && #[trigger] self.threads[i].id == id
    }

    pub open spec fn has_message(self, id: i64) -> bool {
        exists|i: int| 0 <= i < self.messages.len() && #[trigger] self.messages[i].id == id
    }

    /// The store's integrity: identifiers increase along each table and stay
    /// within what was handed out, unique keys are unique, and every
    /// reference names an existing row.
    pub open spec fn wf(self) -> bool {
        &&& self.seq_account >= 0 && self.seq_contact >= 0 && self.seq_conversation >= 0
        &&& self.seq_thread >= 0 && self.seq_message >= 0 && self.seq_attachment >= 0
        // Identifiers increase along each table and were handed out.
        &&& forall|i: int, j: int|
            0 <= i < j < self.accounts.len() ==> self.accounts[i].id < self.accounts[j].id
        &&& forall|i: int|
            0 <= i < self.accounts.len() ==> 1 <= #[trigger] self.accounts[i].id <= self.seq_account
        &&& forall|i: int, j: int|
            0 <= i < j < self.contacts.len() ==> self.contacts[i].id < self.contacts[j].id
        &&& forall|i: int|
            0 <= i < self.contacts.len() ==> 1 <= #[trigger] self.contacts[i].id <= self.seq_contact
        &&& forall|i: int, j: int|
            0 <= i < j < self.conversations.len() ==> self.conversations[i].id
                < self.conversations[j].id
        &&& forall|i: int|
            0 <= i < self.conversations.len() ==> 1 <= #[trigger] self.conversations[i].id
                <= self.seq_conversation
        &&& forall|i: int, j: int|
            0 <= i < j < self.threads.len() ==> self.threads[i].id < self.threads[j].id
        &&& forall|i: int|
            0 <= i < self.threads.len() ==> 1 <= #[trigger] self.threads[i].id <= self.seq_thread
        &&& forall|i: int, j: int|
            0 <= i < j < self.members.len() ==> self.members[i].rowid < self.members[j].rowid
        &&& forall|i: int| 0 <= i < self.members.len() ==> 1 <= #[trigger] self.members[i].rowid
        &&& forall|i: int, j: int|
            0 <= i < j < self.messages.len() ==> self.messages[i].id < self.messages[j].id
        &&& forall|i: int|
            0 <= i < self.messages.len() ==> 1 <= #[trigger] self.messages[i].id <= self.seq_message
        &&& forall|i: int, j: int|
            0 <= i < j < self.attachments.len() ==> self.attachments[i].id < self.attachments[j].id
        &&& forall|i: int|
            0 <= i < self.attachments.len() ==> 1 <= #[trigger] self.attachments[i].id
                <= self.seq_attachment
        // Unique keys.
        &&& forall|i: int, j: int|
            0 <= i < j < self.accounts.len() ==> self.accounts[i].email != self.accounts[j].email
        &&& forall|i: int, j: int|
            0 <= i < j < self.contacts.len() ==> self.contacts[i].email != self.contacts[j].email
        &&& forall|i: int, j: int|
            0 <= i < j < self.threads.len() ==> !(self.threads[i].conversation_id
                == self.threads[j].conversation_id && self.threads[i].normalized_subject
                == self.threads[j].normalized_subject)
        &&& forall|i: int, j: int|
            0 <= i < j < self.members.len() ==> !(self.members[i].conversation_id
                == self.members[j].conversation_id && self.members[i].contact_id
                == self.members[j].contact_id)
        &&& forall|i: int, j: int|
            0 <= i < j < self.messages.len() ==> self.messages[i].message_id
                != self.messages[j].message_id
        // References.
        &&& forall|i: int|
            0 <= i < self.threads.len() ==> self.has_conversation(
                #[trigger] self.threads[i].conversation_id,
            )
        &&& forall|i: int|
            0 <= i < self.members.len() ==> self.has_conversation(
                #[trigger] self.members[i].conversation_id,
            )
        &&& forall|i: int|
            0 <= i < self.members.len() ==> self.has_contact(#[trigger] self.members[i].contact_id)
        &&& forall|i: int|
            0 <= i < self.messages.len() ==> self.has_conversation(
                #[trigger] self.messages[i].conversation_id,
            )
        &&& forall|i: int|
            0 <= i < self.messages.len() ==> self.has_thread(#[trigger] self.messages[i].thread_id)
        &&& forall|i: int|
            0 <= i < self.messages.len() ==> self.has_account(#[trigger] self.messages[i].account_id)
        &&& forall|i: int|
            0 <= i < self.attachments.len() ==> self.has_message(
                #[trigger] self.attachments[i].message_id,
            )
    }

    /// The empty store.
    pub open spec fn empty() -> DbState {
        DbState {
            accounts: seq![],
            contacts: seq![],
            conversations: seq![],
            threads: seq![],
            members: seq![],
            messages: seq![],
            attachments: seq![],
            seq_account: 0,
            seq_contact: 0,
            seq_conversation: 0,
            seq_thread: 0,
            seq_message: 0,
            seq_attachment: 0,
            last_rowid: 0,
        }
    }
}

// ─── The store ───────────────────────────────────────────────────────────────

pub struct Database {
    pub(crate) accounts: Vec<Account>,
    pub(crate) contacts: Vec<Contact>,
    pub(crate) conversations: Vec<ConversationRow>,
    pub(crate) threads: Vec<Thread>,
    pub(crate) members: Vec<MemberRow>,
    pub(crate) messages: Vec<StoredMessage>,
    pub(crate) attachments: Vec<Attachment>,
    pub(crate) seq_account: i64,
    pub(crate) seq_contact: i64,
    pub(crate) seq_conversation: i64,
    pub(crate) seq_thread: i64,
    pub(crate) seq_message: i64,
    pub(crate) seq_attachment: i64,
    pub(crate) last_rowid: i64,
}

pub open spec fn account_views(v: Seq<Account>) -> Seq<AccountView> {
    v.map_values(|a: Account| a@)
}

pub open spec fn contact_views(v: Seq<Contact>) -> Seq<ContactView> {
    v.map_values(|c: Contact| c@)
}

pub open spec fn conversation_row_views(v: Seq<ConversationRow>) -> Seq<ConversationRowView> {
    v.map_values(|c: ConversationRow| c@)
}

pub open spec fn thread_views(v: Seq<Thread>) -> Seq<ThreadView> {
    v.map_values(|t: Thread| t@)
}

pub open spec fn stored_message_views(v: Seq<StoredMessage>) -> Seq<StoredMessageView> {
    v.map_values(|m: StoredMessage| m@)
}

pub open spec fn message_views(v: Seq<Message>) -> Seq<MessageView> {
    v.map_values(|m: Message| m@)
}

pub open spec fn thread_item_views(v: Seq<ThreadListItem>) -> Seq<ThreadListItemView> {
    v.map_values(|t: ThreadListItem| t@)
}

pub open spec fn conversation_views(v: Seq<Conversation>) -> Seq<ConversationView> {
    v.map_values(|c: Conversation| c@)
}

impl View for Database {
    type V = DbState;

    closed spec fn view(&self) -> DbState {
        DbState {
            accounts: account_views(self.accounts@),
            contacts: contact_views(self.contacts@),
            conversations: conversation_row_views(self.conversations@),
            threads: thread_views(self.threads@),
            members: self.members@,
            messages: stored_message_views(self.messages@),
            attachments: attachment_views(self.attachments@),
            seq_account: self.seq_account,
            seq_contact: self.seq_contact,
            seq_conversation: self.seq_conversation,
            seq_thread: self.seq_thread,
            seq_message: self.seq_message,
            seq_attachment: self.seq_attachment,
            last_rowid: self.last_rowid,
        }
    }
}

impl Database {
    /// The store's integrity (see `DbState::wf`).
    pub open spec fn wf(&self) -> bool {
        self@.wf()
    }

    /// A new, empty store.
    pub fn new() -> (db: Self)
        ensures
            db@ == DbState::empty(),
            db.wf(),
    {
        let db = Database {
            accounts: Vec::new(),
            contacts: Vec::new(),
            conversations: Vec::new(),
            threads: Vec::new(),
            members: Vec::new(),
            messages: Vec::new(),
            attachments: Vec::new(),
            seq_account: 0,
            seq_contact: 0,
            seq_conversation: 0,
            seq_thread: 0,
            seq_message: 0,
            seq_attachment: 0,
            last_rowid: 0,
        };
        assert(db@.accounts =~= Seq::<AccountView>::empty());
        assert(db@.contacts =~= Seq::<ContactView>::empty());
        assert(db@.conversations =~= Seq::<ConversationRowView>::empty());
        assert(db@.threads =~= Seq::<ThreadView>::empty());
        assert(db@.messages =~= Seq::<StoredMessageView>::empty());
        assert(db@.attachments =~= Seq::<AttachmentView>::empty());
        db
    }

    /// A new, empty store (the store lives in memory).
    pub fn open_in_memory() -> (r: AppResult<Self>)
        ensures
            r matches Ok(db) && db@ == DbState::empty() && db.wf(),
    {
        Ok(Database::new())
    }
}

/// A store error.
pub open spec fn db_err<T>(e: DbError) -> Result<T, AppError> {
    Err(AppError::Database(e))
}

} // verus!

verus! {

// ─── Integrity under changes that keep keys and references ──────────────────

/// Changing conversation rows without changing their identifiers keeps the
/// store's integrity.
pub proof fn lemma_wf_same_conversation_ids(s: DbState, t: DbState)
    requires
        s.wf(),
        t == (DbState { conversations: t.conversations, ..s }),
        t.conversations.len() == s.conversations.len(),
        forall|i: int| 0 <= i < s.conversations.len() ==> #[trigger] t.conversations[i].id == s.conversations[i].id,
    ensures
        t.wf(),
{
    assert forall|id: i64| s.has_conversation(id) implies t.has_conversation(id) by {
        let k = choose|k: int| 0 <= k < s.conversations.len() && #[trigger] s.conversations[k].id == id;
        assert(t.conversations[k].id == id);
    }
}

/// Changing message rows without changing their keys and references keeps
/// the store's integrity.
pub proof fn lemma_wf_same_message_keys(s: DbState, t: DbState)
    requires
        s.wf(),
        t == (DbState { messages: t.messages, ..s }),
        t.messages.len() == s.messages.len(),
        forall|i: int|
            0 <= i < s.messages.len() ==> {
                &&& #[trigger] t.messages[i].id == s.messages[i].id
                &&& t.messages[i].conversation_id == s.messages[i].conversation_id
                &&& t.messages[i].thread_id == s.messages[i].thread_id
                &&& t.messages[i].account_id == s.messages[i].account_id
                &&& t.messages[i].message_id == s.messages[i].message_id
            },
    ensures
        t.wf(),
{
    assert forall|id: i64| s.has_message(id) implies t.has_message(id) by {
        let k = choose|k: int| 0 <= k < s.messages.len() && #[trigger] s.messages[k].id == id;
        assert(t.messages[k].id == id);
    }
    assert forall|i: int, j: int| 0 <= i < j < t.messages.len() implies t.messages[i].message_id
        != t.messages[j].message_id && t.messages[i].id < t.messages[j].id by {
        assert(t.messages[i].id == s.messages[i].id);
        assert(t.messages[j].id == s.messages[j].id);
    }
    assert forall|i: int| 0 <= i < t.messages.len() implies 1 <= #[trigger] t.messages[i].id
        <= t.seq_message by {
        assert(t.messages[i].id == s.messages[i].id);
    }
    assert forall|i: int| 0 <= i < t.messages.len() implies t.has_conversation(
        #[trigger] t.messages[i].conversation_id,
    ) by {
        assert(t.messages[i].id == s.messages[i].id);
    }
    assert forall|i: int| 0 <= i < t.messages.len() implies t.has_thread(
        #[trigger] t.messages[i].thread_id,
    ) by {
        assert(t.messages[i].id == s.messages[i].id);
    }
    assert forall|i: int| 0 <= i < t.messages.len() implies t.has_account(
        #[trigger] t.messages[i].account_id,
    ) by {
        assert(t.messages[i].id == s.messages[i].id);
    }
}

/// Changing thread rows without changing their keys and references keeps
/// the store's integrity.
pub proof fn lemma_wf_same_thread_keys(s: DbState, t: DbState)
    requires
        s.wf(),
        t == (DbState { threads: t.threads, ..s }),
        t.threads.len() == s.threads.len(),
        forall|i: int|
            0 <= i < s.threads.len() ==> {
                &&& #[trigger] t.threads[i].id == s.threads[i].id
                &&& t.threads[i].conversation_id == s.threads[i].conversation_id
                &&& t.threads[i].normalized_subject == s.threads[i].normalized_subject
            },
    ensures
        t.wf(),
{
    assert forall|id: i64| s.has_thread(id) implies t.has_thread(id) by {
        let k = choose|k: int| 0 <= k < s.threads.len() && #[trigger] s.threads[k].id == id;
        assert(t.threads[k].id == id);
    }
    assert forall|i: int, j: int| 0 <= i < j < t.threads.len() implies !(t.threads[i].conversation_id
        == t.threads[j].conversation_id && t.threads[i].normalized_subject
        == t.threads[j].normalized_subject) && t.threads[i].id < t.threads[j].id by {
        assert(t.threads[i].id == s.threads[i].id);
        assert(t.threads[j].id == s.threads[j].id);
    }
    assert forall|i: int| 0 <= i < t.threads.len() implies 1 <= #[trigger] t.threads[i].id
        <= t.seq_thread by {
        assert(t.threads[i].id == s.threads[i].id);
    }
    assert forall|i: int| 0 <= i < t.threads.len() implies t.has_conversation(
        #[trigger] t.threads[i].conversation_id,
    ) by {
        assert(t.threads[i].id == s.threads[i].id);
    }
}

} // verus!
