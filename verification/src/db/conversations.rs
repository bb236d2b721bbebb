//! Conversations and their members.

use vstd::prelude::*;

use super::contacts::contact_has_id;
use crate::models::ConversationView;
use super::{
    conversation_row_views, db_err, first_index, lemma_first_index, lemma_first_index_at, next_id,
    stored_message_views, ConversationRow, ConversationRowView, Database, DbState, MemberRow,
    StoredMessageView,
};
use crate::error::{AppError, AppResult, DbError};
use crate::stamp::UtcTime;
use crate::models::{
    member_views, owned, ContactView, ConversationKind, ConversationMember, MemberRole,
    MemberView,
};

verus! {

/// A change to a conversation row.
pub enum ConvUpdate {
    /// Its latest message was sent at the given time.
    LastMessageAt(UtcTime),
    /// One more unread message.
    IncrementUnread,
    /// The given number of unread messages.
    SetUnread(i64),
    /// The given subject hint, set or replacing the one it has.
    SubjectHint(String),
}

/// A conversation row after change `op`.
pub open spec fn apply_conv_update(c: ConversationRowView, op: ConvUpdate) -> ConversationRowView {
    match op {
        ConvUpdate::LastMessageAt(t) => ConversationRowView { last_message_at: Some(t), ..c },
        ConvUpdate::IncrementUnread => ConversationRowView {
            unread_count: (c.unread_count + 1) as i64,
            ..c
        },
        ConvUpdate::SetUnread(n) => ConversationRowView { unread_count: n, ..c },
        ConvUpdate::SubjectHint(s) => ConversationRowView { subject_hint: Some(s@), ..c },
    }
}

/// Which messages an update applies to.
#[derive(Clone, Copy)]
pub enum MessageSelector {
    Conversation(i64),
    Thread(i64),
    Id(i64),
}

/// Whether `sel` selects message `m`.
pub open spec fn selects(sel: MessageSelector, m: StoredMessageView) -> bool {
    match sel {
        MessageSelector::Conversation(id) => m.conversation_id == id,
        MessageSelector::Thread(id) => m.thread_id == id,
        MessageSelector::Id(id) => m.id == id,
    }
}

/// Selects the conversation with identifier `id`.
pub open spec fn conversation_has_id(id: i64) -> spec_fn(ConversationRowView) -> bool {
    |c: ConversationRowView| c.id == id
}

/// The rowid a new membership row takes: one more than the last one.
pub open spec fn next_member_rowid(members: Seq<MemberRow>) -> Option<i64> {
    if members.len() == 0 {
        Some(1)
    } else {
        next_id(members.last().rowid)
    }
}

impl DbState {
    /// Whether `contact` is a member of conversation `conv`.
    pub open spec fn has_member(self, conv: i64, contact: i64) -> bool {
        exists|k: int|
            0 <= k < self.members.len() && #[trigger] self.members[k].conversation_id == conv
                && self.members[k].contact_id == contact
    }

    /// The conversation with identifier `id`, if any.
    pub open spec fn conversation(self, id: i64) -> Option<ConversationRowView> {
        match first_index(self.conversations, conversation_has_id(id)) {
            Some(i) => Some(self.conversations[i]),
            None => None,
        }
    }

    /// Starting a conversation of kind `kind`, with the next identifier.
    pub open spec fn create_conversation(self, kind: ConversationKind) -> (DbState, AppResult<i64>) {
        match next_id(self.seq_conversation) {
            None => (self, db_err(DbError::Full)),
            Some(id) => (
                DbState {
                    conversations: self.conversations.push(
                        ConversationRowView {
                            id,
                            kind,
                            subject_hint: None,
                            last_message_at: None,
                            unread_count: 0,
                        },
                    ),
                    seq_conversation: id,
                    last_rowid: id,
                    ..self
                },
                Ok(id),
            ),
        }
    }

    /// Adding `contact` to conversation `conv` with role `role`: nothing
    /// happens when it is already a member; a reference to a missing
    /// conversation or contact is refused.
    pub open spec fn add_member(self, conv: i64, contact: i64, role: MemberRole) -> (
        DbState,
        AppResult<()>,
    ) {
        if self.has_member(conv, contact) {
            (self, Ok(()))
        } else if !self.has_conversation(conv) || !self.has_contact(contact) {
            (self, db_err(DbError::ForeignKeyViolation))
        } else {
            match next_member_rowid(self.members) {
                None => (self, db_err(DbError::Full)),
                Some(rowid) => (
                    DbState {
                        members: self.members.push(
                            MemberRow { rowid, conversation_id: conv, contact_id: contact, role },
                        ),
                        last_rowid: rowid,
                        ..self
                    },
                    Ok(()),
                ),
            }
        }
    }

    /// Selects the dialogues that have both `a` and `b` as members.
    pub open spec fn is_direct_between(self, a: i64, b: i64) -> spec_fn(ConversationRowView) -> bool {
        |c: ConversationRowView|
            c.kind == ConversationKind::Direct && self.has_member(c.id, a) && self.has_member(c.id, b)
    }

    /// The first dialogue between contacts `a` and `b`, if any.
    pub open spec fn direct_conversation(self, a: i64, b: i64) -> Option<i64> {
        match first_index(self.conversations, self.is_direct_between(a, b)) {
            Some(i) => Some(self.conversations[i].id),
            None => None,
        }
    }

    /// How many members conversation `conv` has.
    pub open spec fn member_count(self, conv: i64) -> int {
        self.members.filter(|m: MemberRow| m.conversation_id == conv).len() as int
    }

    /// How many members of conversation `conv` are among `ids`.
    pub open spec fn member_count_among(self, conv: i64, ids: Seq<i64>) -> int {
        self.members.filter(|m: MemberRow| m.conversation_id == conv && ids.contains(m.contact_id)).len() as int
    }

    /// Selects the group conversations whose members are exactly the contacts
    /// in `ids` (given without repetition).
    pub open spec fn has_exactly(self, ids: Seq<i64>) -> spec_fn(ConversationRowView) -> bool {
        |c: ConversationRowView|
            c.kind == ConversationKind::Group && self.member_count_among(c.id, ids) == ids.len()
                && self.member_count(c.id) == ids.len()
    }

    /// The first group conversation whose members are exactly `ids`, if any;
    /// none for an empty list.
    pub open spec fn group_conversation(self, ids: Seq<i64>) -> Option<i64> {
        if ids.len() == 0 {
            None
        } else {
            match first_index(self.conversations, self.has_exactly(ids)) {
                Some(i) => Some(self.conversations[i].id),
                None => None,
            }
        }
    }

    /// Selects the channels that `contact` is a member of.
    pub open spec fn is_channel_of(self, contact: i64) -> spec_fn(ConversationRowView) -> bool {
        |c: ConversationRowView| c.kind == ConversationKind::Channel && self.has_member(c.id, contact)
    }

    /// The first channel that `contact` is a member of, if any.
    pub open spec fn channel_conversation(self, contact: i64) -> Option<i64> {
        match first_index(self.conversations, self.is_channel_of(contact)) {
            Some(i) => Some(self.conversations[i].id),
            None => None,
        }
    }

    /// The store with conversation `id`'s row changed by `op`.
    pub open spec fn update_conversation(self, id: i64, op: ConvUpdate) -> DbState {
        DbState {
            conversations: self.conversations.map_values(
                |c: ConversationRowView| if c.id == id { apply_conv_update(c, op) } else { c },
            ),
            ..self
        }
    }

    /// The store with conversation `id` given subject hint `subject` (set or
    /// replaced).
    pub open spec fn set_subject_hint(self, id: i64, subject: Seq<char>) -> DbState {
        DbState {
            conversations: self.conversations.map_values(
                |c: ConversationRowView|
                    if c.id == id {
                        ConversationRowView { subject_hint: Some(subject), ..c }
                    } else {
                        c
                    },
            ),
            ..self
        }
    }

    /// Whether conversation `id`'s unread counter is at its maximum.
    pub open spec fn conversation_unread_full(self, id: i64) -> bool {
        exists|i: int|
            0 <= i < self.conversations.len() && #[trigger] self.conversations[i].id == id
                && self.conversations[i].unread_count == i64::MAX
    }

    /// Counting one more unread message in conversation `id`; refused when
    /// the counter is at its maximum.
    pub open spec fn increment_unread(self, id: i64) -> (DbState, AppResult<()>) {
        if self.conversation_unread_full(id) {
            (self, db_err(DbError::IntegerOverflow))
        } else {
            (self.update_conversation(id, ConvUpdate::IncrementUnread), Ok(()))
        }
    }

    /// The store with the messages that `sel` selects marked read.
    pub open spec fn mark_messages_read(self, sel: MessageSelector) -> DbState {
        DbState {
            messages: self.messages.map_values(
                |m: StoredMessageView|
                    if selects(sel, m) {
                        StoredMessageView { is_read: true, ..m }
                    } else {
                        m
                    },
            ),
            ..self
        }
    }

    /// Marking conversation `id` read: no unread messages counted, each of
    /// its messages read.
    pub open spec fn mark_conversation_read(self, id: i64) -> DbState {
        self.update_conversation(id, ConvUpdate::SetUnread(0)).mark_messages_read(
            MessageSelector::Conversation(id),
        )
    }

    /// The member of a membership row, with the contact it names.
    pub open spec fn member_of(self, m: MemberRow) -> Option<MemberView> {
        match self.contact(m.contact_id) {
            Some(c) => Some(MemberView { contact: c, role: m.role }),
            None => None,
        }
    }

    /// The members of conversation `conv`, in the order they were added.
    pub open spec fn conversation_members(self, conv: i64) -> Seq<MemberView> {
        self.members.filter(|m: MemberRow| m.conversation_id == conv).filter_map(
            |m: MemberRow| self.member_of(m),
        )
    }
}

} // verus!

verus! {

/// A conversation row after change `op`.
fn apply_conv_update_exec(c: &ConversationRow, op: &ConvUpdate) -> (r: ConversationRow)
    requires
        *op is IncrementUnread ==> c.unread_count < i64::MAX,
    ensures
        r@ == apply_conv_update(c@, *op),
{
    let mut r = c.copy();
    match op {
        ConvUpdate::LastMessageAt(t) => {
            r.last_message_at = Some(*t);
        },
        ConvUpdate::IncrementUnread => {
            r.unread_count = c.unread_count + 1;
        },
        ConvUpdate::SetUnread(n) => {
            r.unread_count = *n;
        },
        ConvUpdate::SubjectHint(s) => {
            r.subject_hint = Some(s.clone());
        },
    }
    r
}

impl Database {
    /// Position of the conversation with identifier `id`.
    pub(crate) fn find_conversation(&self, id: i64) -> (r: Option<usize>)
        ensures
            match r {
                Some(i) => i < self.conversations.len() && first_index(
                    self@.conversations,
                    conversation_has_id(id),
                ) == Some(i as int),
                None => first_index(self@.conversations, conversation_has_id(id)) is None,
            },
    {
        let ghost s = self@.conversations;
        let mut i: usize = 0;
        while i < self.conversations.len()
            invariant
                i <= self.conversations.len(),
                s == conversation_row_views(self.conversations@),
                forall|k: int| 0 <= k < i ==> !conversation_has_id(id)(#[trigger] s[k]),
            decreases self.conversations.len() - i,
        {
            if self.conversations[i].id == id {
                proof {
                    lemma_first_index_at(s, conversation_has_id(id), i as int);
                }
                return Some(i);
            }
            i = i + 1;
        }
        proof {
            lemma_first_index_at(s, conversation_has_id(id), i as int);
        }
        None
    }

    /// Whether a conversation with identifier `id` exists.
    pub(crate) fn conversation_exists(&self, id: i64) -> (r: bool)
        ensures
            r == self@.has_conversation(id),
    {
        let r = self.find_conversation(id);
        proof {
            lemma_first_index(self@.conversations, conversation_has_id(id));
        }
        r.is_some()
    }

    /// Applies `op` to conversation `id`.
    pub(crate) fn update_conversation_rows(&mut self, id: i64, op: &ConvUpdate)
        requires
            old(self).wf(),
            *op is IncrementUnread ==> !old(self)@.conversation_unread_full(id),
        ensures
            final(self).wf(),
            final(self)@ == old(self)@.update_conversation(id, *op),
    {
        let ghost before = self@;
        let ghost target = before.update_conversation(id, *op).conversations;
        let mut i: usize = 0;
        while i < self.conversations.len()
            invariant
                i <= self.conversations.len(),
                self@ == (DbState { conversations: self@.conversations, ..before }),
                self@.conversations.len() == before.conversations.len(),
                target == before.update_conversation(id, *op).conversations,
                *op is IncrementUnread ==> !before.conversation_unread_full(id),
                self.conversations@.len() == before.conversations.len(),
                forall|k: int| 0 <= k < i ==> #[trigger] self.conversations@[k]@ == target[k],
                forall|k: int| i <= k < self.conversations@.len() ==> #[trigger] self.conversations@[k]@ == before.conversations[k],
            decreases self.conversations.len() - i,
        {
            assert(self.conversations@[i as int]@ == before.conversations[i as int]);
            if self.conversations[i].id == id {
                proof {
                    if *op is IncrementUnread {
                        assert(before.conversations[i as int].id == id);
                    }
                }
                let row = apply_conv_update_exec(&self.conversations[i], op);
                self.conversations.set(i, row);
            }
            assert(self.conversations@[i as int]@ == target[i as int]);
            i = i + 1;
        }
        assert(self@.conversations =~= target);
        proof {
            super::lemma_wf_same_conversation_ids(before, self@);
        }
    }

    /// Applies `sel`'s "mark read" to the messages it selects.
    pub(crate) fn mark_messages_read_rows(&mut self, sel: MessageSelector)
        requires
            old(self).wf(),
        ensures
            final(self).wf(),
            final(self)@ == old(self)@.mark_messages_read(sel),
    {
        let ghost before = self@;
        let ghost target = before.mark_messages_read(sel).messages;
        let mut i: usize = 0;
        while i < self.messages.len()
            invariant
                i <= self.messages.len(),
                self@ == (DbState { messages: self@.messages, ..before }),
                self@.messages.len() == before.messages.len(),
                target == before.mark_messages_read(sel).messages,
                self.messages@.len() == before.messages.len(),
                forall|k: int| 0 <= k < i ==> #[trigger] self.messages@[k]@ == target[k],
                forall|k: int| i <= k < self.messages@.len() ==> #[trigger] self.messages@[k]@ == before.messages[k],
            decreases self.messages.len() - i,
        {
            assert(self.messages@[i as int]@ == before.messages[i as int]);
            let hit = match sel {
                MessageSelector::Conversation(id) => self.messages[i].conversation_id == id,
                MessageSelector::Thread(id) => self.messages[i].thread_id == id,
                MessageSelector::Id(id) => self.messages[i].id == id,
            };
            if hit {
                let mut row = self.messages[i].copy();
                row.is_read = true;
                self.messages.set(i, row);
            }
            assert(self.messages@[i as int]@ == target[i as int]);
            i = i + 1;
        }
        assert(self@.messages =~= target);
        proof {
            super::lemma_wf_same_message_keys(before, self@);
        }
    }

    /// Whether `contact` is a member of conversation `conv`.
    pub(crate) fn is_member(&self, conv: i64, contact: i64) -> (r: bool)
        ensures
            r == self@.has_member(conv, contact),
    {
        let mut i: usize = 0;
        while i < self.members.len()
            invariant
                i <= self.members.len(),
                forall|k: int|
                    0 <= k < i ==> !(#[trigger] self@.members[k].conversation_id == conv
                        && self@.members[k].contact_id == contact),
            decreases self.members.len() - i,
        {
            if self.members[i].conversation_id == conv && self.members[i].contact_id == contact {
                return true;
            }
            i = i + 1;
        }
        false
    }

    /// Starts a conversation of kind `kind` and returns its identifier.
    pub fn create_conversation(&mut self, kind: &ConversationKind) -> (r: AppResult<i64>)
        requires
            old(self).wf(),
        ensures
            final(self).wf(),
            (final(self)@, r) == old(self)@.create_conversation(*kind),
    {
        if self.seq_conversation == i64::MAX {
            return Err(AppError::Database(DbError::Full));
        }
        let id = self.seq_conversation + 1;
        let ghost before = self@;
        self.conversations.push(
            ConversationRow {
                id,
                kind: *kind,
                subject_hint: None,
                last_message_at: None,
                unread_count: 0,
            },
        );
        self.seq_conversation = id;
        self.last_rowid = id;
        let ghost after = self@;
        assert(after.conversations =~= before.create_conversation(*kind).0.conversations);
        proof {
            assert forall|c: i64| before.has_conversation(c) implies after.has_conversation(c) by {
                let k = choose|k: int|
                    0 <= k < before.conversations.len() && #[trigger] before.conversations[k].id == c;
                assert(after.conversations[k] == before.conversations[k]);
            }
        }
        Ok(id)
    }

    /// Adds `contact` to conversation `conversation_id` with role `role`
    /// (see `DbState::add_member`).
    pub fn add_conversation_member(&mut self, conversation_id: i64, contact_id: i64, role: &MemberRole) -> (r:
        AppResult<()>)
        requires
            old(self).wf(),
        ensures
            final(self).wf(),
            (final(self)@, r) == old(self)@.add_member(conversation_id, contact_id, *role),
    {
        if self.is_member(conversation_id, contact_id) {
            return Ok(());
        }
        if !self.conversation_exists(conversation_id) || !self.contact_exists(contact_id) {
            return Err(AppError::Database(DbError::ForeignKeyViolation));
        }
        let n = self.members.len();
        let rowid = if n == 0 {
            1
        } else {
            let last = self.members[n - 1].rowid;
            if last == i64::MAX {
                return Err(AppError::Database(DbError::Full));
            }
            last + 1
        };
        let ghost before = self@;
        self.members.push(
            MemberRow { rowid, conversation_id, contact_id, role: *role },
        );
        self.last_rowid = rowid;
        let ghost after = self@;
        proof {
            assert forall|i: int, j: int| 0 <= i < j < after.members.len() implies after.members[i].rowid
                < after.members[j].rowid by {
                if j == after.members.len() - 1 && i < j {
                    if n > 0 {
                        assert(before.members[n - 1].rowid >= before.members[i].rowid);
                    }
                }
            }
        }
        Ok(())
    }

    /// The first dialogue between contacts `a` and `b`, if any.
    pub fn find_direct_conversation(&self, contact_id_a: i64, contact_id_b: i64) -> (r: AppResult<
        Option<i64>,
    >)
        ensures
            r == Ok::<Option<i64>, AppError>(self@.direct_conversation(contact_id_a, contact_id_b)),
    {
        let ghost s = self@.conversations;
        let ghost p = self@.is_direct_between(contact_id_a, contact_id_b);
        let mut i: usize = 0;
        while i < self.conversations.len()
            invariant
                i <= self.conversations.len(),
                s == self@.conversations,
                p == self@.is_direct_between(contact_id_a, contact_id_b),
                forall|k: int| 0 <= k < i ==> !p(#[trigger] s[k]),
            decreases self.conversations.len() - i,
        {
            let c = &self.conversations[i];
            if c.kind == ConversationKind::Direct && self.is_member(c.id, contact_id_a)
                && self.is_member(c.id, contact_id_b) {
                proof {
                    lemma_first_index_at(s, p, i as int);
                }
                return Ok(Some(c.id));
            }
            i = i + 1;
        }
        proof {
            lemma_first_index_at(s, p, i as int);
        }
        Ok(None)
    }

    /// The first channel that `contact_id` is a member of, if any.
    pub fn find_channel_conversation(&self, contact_id: i64) -> (r: AppResult<Option<i64>>)
        ensures
            r == Ok::<Option<i64>, AppError>(self@.channel_conversation(contact_id)),
    {
        let ghost s = self@.conversations;
        let ghost p = self@.is_channel_of(contact_id);
        let mut i: usize = 0;
        while i < self.conversations.len()
            invariant
                i <= self.conversations.len(),
                s == self@.conversations,
                p == self@.is_channel_of(contact_id),
                forall|k: int| 0 <= k < i ==> !p(#[trigger] s[k]),
            decreases self.conversations.len() - i,
        {
            let c = &self.conversations[i];
            if c.kind == ConversationKind::Channel && self.is_member(c.id, contact_id) {
                proof {
                    lemma_first_index_at(s, p, i as int);
                }
                return Ok(Some(c.id));
            }
            i = i + 1;
        }
        proof {
            lemma_first_index_at(s, p, i as int);
        }
        Ok(None)
    }

    /// How many members conversation `conv` has, and how many of them are
    /// among `ids`.
    fn count_members(&self, conv: i64, ids: &[i64]) -> (r: (usize, usize))
        ensures
            r.0 == self@.member_count(conv),
            r.1 == self@.member_count_among(conv, ids@),
    {
        let ghost all = |m: MemberRow| m.conversation_id == conv;
        let ghost among = |m: MemberRow| m.conversation_id == conv && ids@.contains(m.contact_id);
        let ghost s = self@.members;
        let mut total: usize = 0;
        let mut hits: usize = 0;
        let mut i: usize = 0;
        while i < self.members.len()
            invariant
                i <= self.members.len(),
                s == self@.members,
                all == (|m: MemberRow| m.conversation_id == conv),
                among == (|m: MemberRow| m.conversation_id == conv && ids@.contains(m.contact_id)),
                total == s.take(i as int).filter(all).len(),
                hits == s.take(i as int).filter(among).len(),
                total <= i,
                hits <= i,
            decreases self.members.len() - i,
        {
            let m = self.members[i];
            proof {
                assert(s.take(i + 1) =~= s.take(i as int).push(m));
                s.take(i as int).lemma_filter_push(m, all);
                s.take(i as int).lemma_filter_push(m, among);
            }
            if m.conversation_id == conv {
                total = total + 1;
                let mut found = false;
                let mut j: usize = 0;
                while j < ids.len()
                    invariant
                        j <= ids.len(),
                        found == (exists|k: int| 0 <= k < j && ids@[k] == m.contact_id),
                    decreases ids.len() - j,
                {
                    if ids[j] == m.contact_id {
                        found = true;
                    }
                    j = j + 1;
                }
                proof {
                    if found {
                        let k = choose|k: int| 0 <= k < j && ids@[k] == m.contact_id;
                        assert(ids@.contains(m.contact_id));
                    } else {
                        assert(!ids@.contains(m.contact_id));
                    }
                }
                if found {
                    hits = hits + 1;
                }
            }
            i = i + 1;
        }
        assert(s.take(self.members.len() as int) =~= s);
        (total, hits)
    }

    /// The first conversation whose members are exactly `contact_ids`, if
    /// any (see `DbState::group_conversation`).
    pub fn find_group_conversation(&self, contact_ids: &[i64]) -> (r: AppResult<Option<i64>>)
        ensures
            r == Ok::<Option<i64>, AppError>(self@.group_conversation(contact_ids@)),
    {
        if contact_ids.len() == 0 {
            return Ok(None);
        }
        let n = contact_ids.len();
        let ghost s = self@.conversations;
        let ghost p = self@.has_exactly(contact_ids@);
        let mut i: usize = 0;
        while i < self.conversations.len()
            invariant
                i <= self.conversations.len(),
                n == contact_ids@.len(),
                n > 0,
                s == self@.conversations,
                p == self@.has_exactly(contact_ids@),
                forall|k: int| 0 <= k < i ==> !p(#[trigger] s[k]),
            decreases self.conversations.len() - i,
        {
            let c = self.conversations[i].id;
            let is_group = matches!(self.conversations[i].kind, ConversationKind::Group);
            let (total, hits) = self.count_members(c, contact_ids);
            if is_group && hits == n && total == n {
                assert(s[i as int].id == c);
                assert(p(s[i as int]));
                proof {
                    lemma_first_index_at(s, p, i as int);
                }
                assert(first_index(s, p) == Some(i as int));
                assert(contact_ids@.len() != 0);
                assert(first_index(self@.conversations, self@.has_exactly(contact_ids@)) == Some(i as int));
                return Ok(Some(c));
            }
            i = i + 1;
        }
        proof {
            lemma_first_index_at(s, p, i as int);
        }
        Ok(None)
    }

    /// Records the time of conversation `conversation_id`'s latest message.
    /// The preview is not stored: it is read from the messages.
    pub fn update_conversation_last_message(&mut self, conversation_id: i64, sent_at: UtcTime, preview: Option<&str>) -> (r:
        AppResult<()>)
        requires
            old(self).wf(),
        ensures
            final(self).wf(),
            r is Ok,
            final(self)@ == old(self)@.update_conversation(conversation_id, ConvUpdate::LastMessageAt(sent_at)),
    {
        let _ = preview;
        self.update_conversation_rows(conversation_id, &ConvUpdate::LastMessageAt(sent_at));
        Ok(())
    }

    /// Counts one more unread message in conversation `conversation_id`.
    pub fn increment_unread(&mut self, conversation_id: i64) -> (r: AppResult<()>)
        requires
            old(self).wf(),
        ensures
            final(self).wf(),
            (final(self)@, r) == old(self)@.increment_unread(conversation_id),
    {
        let mut i: usize = 0;
        while i < self.conversations.len()
            invariant
                i <= self.conversations.len(),
                self.wf(),
                forall|k: int|
                    0 <= k < i ==> !(#[trigger] self@.conversations[k].id == conversation_id
                        && self@.conversations[k].unread_count == i64::MAX),
            decreases self.conversations.len() - i,
        {
            if self.conversations[i].id == conversation_id && self.conversations[i].unread_count
                == i64::MAX {
                assert(self@.conversations[i as int].id == conversation_id);
                return Err(AppError::Database(DbError::IntegerOverflow));
            }
            i = i + 1;
        }
        self.update_conversation_rows(conversation_id, &ConvUpdate::IncrementUnread);
        Ok(())
    }

    /// Marks conversation `conversation_id` read: its unread counter is
    /// cleared and each of its messages is read.
    pub fn mark_conversation_read(&mut self, conversation_id: i64) -> (r: AppResult<()>)
        requires
            old(self).wf(),
        ensures
            final(self).wf(),
            r is Ok,
            final(self)@ == old(self)@.mark_conversation_read(conversation_id),
    {
        self.update_conversation_rows(conversation_id, &ConvUpdate::SetUnread(0));
        self.mark_messages_read_rows(MessageSelector::Conversation(conversation_id));
        Ok(())
    }

    /// Sets or updates the subject hint of conversation `conversation_id`.
    pub fn set_conversation_subject_hint(&mut self, conversation_id: i64, subject: &str) -> (r:
        AppResult<()>)
        requires
            old(self).wf(),
        ensures
            final(self).wf(),
            r is Ok,
            final(self)@ == old(self)@.set_subject_hint(conversation_id, subject@),
    {
        let ghost before = self@;
        let op = ConvUpdate::SubjectHint(owned(subject));
        self.update_conversation_rows(conversation_id, &op);
        assert(self@.conversations =~= before.set_subject_hint(conversation_id, subject@).conversations);
        Ok(())
    }

    /// The members of conversation `conversation_id`, with their contacts.
    pub fn get_conversation_members(&self, conversation_id: i64) -> (r: AppResult<Vec<ConversationMember>>)
        ensures
            r matches Ok(v) && member_views(v@) == self@.conversation_members(conversation_id),
    {
        let ghost sel = |m: MemberRow| m.conversation_id == conversation_id;
        let ghost f = |m: MemberRow| self@.member_of(m);
        let ghost s = self@.members;
        let mut v: Vec<ConversationMember> = Vec::new();
        let mut i: usize = 0;
        while i < self.members.len()
            invariant
                i <= self.members.len(),
                s == self@.members,
                sel == (|m: MemberRow| m.conversation_id == conversation_id),
                f == (|m: MemberRow| self@.member_of(m)),
                member_views(v@) == s.take(i as int).filter(sel).filter_map(f),
            decreases self.members.len() - i,
        {
            let m = self.members[i];
            proof {
                assert(s.take(i + 1) =~= s.take(i as int).push(m));
                s.take(i as int).lemma_filter_push(m, sel);
            }
            if m.conversation_id == conversation_id {
                let ghost fl = s.take(i as int).filter(sel);
                proof {
                    fl.push(m).lemma_filter_map_take_succ(f, fl.len() as int);
                    assert(fl.push(m).take(fl.len() as int) == fl);
                    assert(fl.push(m).take(fl.len() + 1 as int) == fl.push(m));
                }
                match self.find_contact(m.contact_id) {
                    Some(k) => {
                        let ghost before = member_views(v@);
                        v.push(ConversationMember { contact: self.contacts[k].copy(), role: m.role });
                        assert(member_views(v@) =~= before.push(
                            MemberView { contact: self@.contacts[k as int], role: m.role },
                        ));
                        assert(self@.contact(m.contact_id) == Some(self@.contacts[k as int]));
                    },
                    None => {
                        assert(self@.contact(m.contact_id) is None);
                    },
                }
            }
            i = i + 1;
        }
        assert(s.take(self.members.len() as int) =~= s);
        Ok(v)
    }
}

} // verus!
