//! Removing rows together with the rows that depend on them: removing a
//! conversation removes its threads, members and messages, removing a thread
//! removes its messages, and removing a message removes its attachments.

use vstd::prelude::*;

use super::accounts::account_has_id;
use super::conversations::ConvUpdate;
use super::listing::{latest_index, lemma_latest_index_bounds};
use super::rows::{filter_rows, row_views, selected, RowFilter};
use super::{first_index, lemma_first_index, ConversationRow, ConversationRowView, Database, DbState, MemberRow, StoredMessage, StoredMessageView};
use crate::stamp::UtcTime;
use crate::error::{AppError, AppResult};
use crate::models::{Account, AccountView, Attachment, AttachmentView, Thread, ThreadView};

verus! {

// ─── Facts about filtering ───────────────────────────────────────────────────

/// Each element of a filtered sequence satisfies the filter and comes from
/// the original.
pub proof fn lemma_filter_elems<A>(s: Seq<A>, p: spec_fn(A) -> bool)
    ensures
        forall|i: int|
            0 <= i < s.filter(p).len() ==> p(#[trigger] s.filter(p)[i]) && exists|j: int|
                0 <= j < s.len() && s[j] == s.filter(p)[i],
        s.filter(p).len() <= s.len(),
    decreases s.len(),
{
    reveal(Seq::filter);
    if s.len() > 0 {
        let t = s.drop_last();
        lemma_filter_elems(t, p);
        let f = t.filter(p);
        if p(s.last()) {
            assert(s.filter(p) == f.push(s.last()));
            assert forall|i: int| 0 <= i < f.len() + 1 implies p(#[trigger] f.push(s.last())[i])
                && exists|j: int| 0 <= j < s.len() && s[j] == f.push(s.last())[i] by {
                if i < f.len() {
                    assert(f.push(s.last())[i] == f[i]);
                    let j = choose|j: int| 0 <= j < t.len() && t[j] == f[i];
                    assert(s[j] == t[j]);
                } else {
                    assert(s[s.len() - 1] == f.push(s.last())[i]);
                }
            }
        } else {
            assert(s.filter(p) == f);
            assert forall|i: int| 0 <= i < f.len() implies p(#[trigger] f[i]) && exists|j: int|
                0 <= j < s.len() && s[j] == f[i] by {
                let j = choose|j: int| 0 <= j < t.len() && t[j] == f[i];
                assert(s[j] == t[j]);
            }
        }
    }
}

/// A relation that holds between each earlier and later element keeps
/// holding after filtering.
pub proof fn lemma_filter_pairwise<A>(s: Seq<A>, p: spec_fn(A) -> bool, r: spec_fn(A, A) -> bool)
    requires
        forall|i: int, j: int| 0 <= i < j < s.len() ==> r(s[i], s[j]),
    ensures
        forall|i: int, j: int|
            0 <= i < j < s.filter(p).len() ==> r(s.filter(p)[i], s.filter(p)[j]),
    decreases s.len(),
{
    reveal(Seq::filter);
    if s.len() > 0 {
        let t = s.drop_last();
        lemma_filter_pairwise(t, p, r);
        lemma_filter_elems(t, p);
        let f = t.filter(p);
        if p(s.last()) {
            assert(s.filter(p) == f.push(s.last()));
            assert forall|i: int, j: int| 0 <= i < j < f.len() + 1 implies r(
                f.push(s.last())[i],
                f.push(s.last())[j],
            ) by {
                assert(f.push(s.last())[i] == f[i]);
                if j == f.len() {
                    let k = choose|k: int| 0 <= k < t.len() && t[k] == f[i];
                    assert(s[k] == t[k]);
                    assert(f.push(s.last())[j] == s[s.len() - 1]);
                } else {
                    assert(f.push(s.last())[j] == f[j]);
                }
            }
        } else {
            assert(s.filter(p) == f);
        }
    }
}

/// An element that satisfies the filter is kept.
pub proof fn lemma_filter_keeps<A>(s: Seq<A>, p: spec_fn(A) -> bool, j: int)
    requires
        0 <= j < s.len(),
        p(s[j]),
    ensures
        exists|i: int| 0 <= i < s.filter(p).len() && s.filter(p)[i] == s[j],
{
    s.lemma_filter_contains(p, j);
}

} // verus!

verus! {

// ─── What removal does ───────────────────────────────────────────────────────

/// Which messages a removal takes away.
pub enum MessageFate {
    /// The message with this identifier.
    Id(i64),
    /// The messages of this account.
    Account(i64),
    /// The messages of these conversations or of these threads.
    ConversationsOrThreads(Vec<i64>, Vec<i64>),
}

/// Whether removal `fate` takes message `m` away.
pub open spec fn dies(fate: MessageFate, m: StoredMessageView) -> bool {
    match fate {
        MessageFate::Id(id) => m.id == id,
        MessageFate::Account(id) => m.account_id == id,
        MessageFate::ConversationsOrThreads(convs, threads) => convs@.contains(m.conversation_id)
            || threads@.contains(m.thread_id),
    }
}

impl DbState {
    /// The identifiers of the messages that `dead` selects.
    pub open spec fn dead_message_ids(self, dead: spec_fn(StoredMessageView) -> bool) -> Seq<i64> {
        self.messages.filter(dead).map_values(|m: StoredMessageView| m.id)
    }

    /// Removing the messages that `dead` selects, with their attachments.
    pub open spec fn drop_messages(self, dead: spec_fn(StoredMessageView) -> bool) -> DbState {
        DbState {
            messages: self.messages.filter(|m: StoredMessageView| !dead(m)),
            attachments: self.attachments.filter(
                |a: AttachmentView| !self.dead_message_ids(dead).contains(a.message_id),
            ),
            ..self
        }
    }

    /// The identifiers of the threads of the conversations in `ids`.
    pub open spec fn threads_of(self, ids: Seq<i64>) -> Seq<i64> {
        self.threads.filter(|t: ThreadView| ids.contains(t.conversation_id)).map_values(
            |t: ThreadView| t.id,
        )
    }

    /// Removing the conversations whose identifiers are in `ids`, with
    /// their threads, members and messages (and the messages of those
    /// threads), and the attachments of those messages.
    pub open spec fn drop_conversations(self, ids: Seq<i64>) -> DbState {
        let dt = self.threads_of(ids);
        let s1 = self.drop_messages(
            |m: StoredMessageView| ids.contains(m.conversation_id) || dt.contains(m.thread_id),
        );
        DbState {
            conversations: s1.conversations.filter(|c: ConversationRowView| !ids.contains(c.id)),
            threads: s1.threads.filter(|t: ThreadView| !ids.contains(t.conversation_id)),
            members: s1.members.filter(|m: MemberRow| !ids.contains(m.conversation_id)),
            ..s1
        }
    }

    /// Removing conversation `id` and everything that depends on it.
    pub open spec fn delete_conversation(self, id: i64) -> DbState {
        self.drop_conversations(seq![id])
    }

    /// Removing message `id` with its attachments; then its conversation is
    /// removed when no message is left in it, and otherwise takes the time of
    /// its latest remaining message.
    pub open spec fn delete_message(self, id: i64) -> DbState {
        let s1 = self.drop_messages(|m: StoredMessageView| m.id == id);
        match self.message(id) {
            None => s1,
            Some(m0) => {
                let c = m0.conversation_id;
                let rest = s1.messages.filter(|m: StoredMessageView| m.conversation_id == c);
                if rest.len() == 0 {
                    s1.drop_conversations(seq![c])
                } else {
                    s1.update_conversation(c, ConvUpdate::LastMessageAt(rest[latest_index(rest)].sent_at))
                }
            },
        }
    }

    /// Whether conversation `conv` holds any message.
    pub open spec fn conversation_has_messages(self, conv: i64) -> bool {
        exists|k: int| 0 <= k < self.messages.len() && #[trigger] self.messages[k].conversation_id == conv
    }

    /// The conversations that hold no message.
    pub open spec fn empty_conversations(self) -> Seq<i64> {
        self.conversations.filter(|c: ConversationRowView| !self.conversation_has_messages(c.id)).map_values(
            |c: ConversationRowView| c.id,
        )
    }

    /// Removing account `id`: its messages go, then every conversation left
    /// without messages, then the account; an unknown account is reported
    /// after the first two steps.
    pub open spec fn delete_account(self, id: i64) -> (DbState, AppResult<()>) {
        let s1 = self.drop_messages(|m: StoredMessageView| m.account_id == id);
        let s2 = s1.drop_conversations(s1.empty_conversations());
        if first_index(s2.accounts, account_has_id(id)) is None {
            (s2, Err(AppError::AccountNotFound(id)))
        } else {
            (DbState { accounts: s2.accounts.filter(|a: AccountView| a.id != id), ..s2 }, Ok(()))
        }
    }
}

// ─── Integrity is kept ───────────────────────────────────────────────────────

pub proof fn lemma_drop_messages_wf(s: DbState, dead: spec_fn(StoredMessageView) -> bool)
    requires
        s.wf(),
    ensures
        s.drop_messages(dead).wf(),
{
    let t = s.drop_messages(dead);
    let keep = |m: StoredMessageView| !dead(m);
    let ids = s.dead_message_ids(dead);
    let akeep = |a: AttachmentView| !ids.contains(a.message_id);
    lemma_filter_elems(s.messages, keep);
    lemma_filter_elems(s.attachments, akeep);
    lemma_filter_pairwise(s.messages, keep, |a: StoredMessageView, b: StoredMessageView| a.id < b.id);
    lemma_filter_pairwise(
        s.messages,
        keep,
        |a: StoredMessageView, b: StoredMessageView| a.message_id != b.message_id,
    );
    lemma_filter_pairwise(s.attachments, akeep, |a: AttachmentView, b: AttachmentView| a.id < b.id);
    assert forall|i: int| 0 <= i < t.messages.len() implies 1 <= #[trigger] t.messages[i].id
        <= t.seq_message by {
        let j = choose|j: int| 0 <= j < s.messages.len() && s.messages[j] == t.messages[i];
    }
    assert forall|i: int| 0 <= i < t.messages.len() implies t.has_conversation(
        #[trigger] t.messages[i].conversation_id,
    ) by {
        let j = choose|j: int| 0 <= j < s.messages.len() && s.messages[j] == t.messages[i];
        assert(s.has_conversation(s.messages[j].conversation_id));
    }
    assert forall|i: int| 0 <= i < t.messages.len() implies t.has_thread(
        #[trigger] t.messages[i].thread_id,
    ) by {
        let j = choose|j: int| 0 <= j < s.messages.len() && s.messages[j] == t.messages[i];
        assert(s.has_thread(s.messages[j].thread_id));
    }
    assert forall|i: int| 0 <= i < t.messages.len() implies t.has_account(
        #[trigger] t.messages[i].account_id,
    ) by {
        let j = choose|j: int| 0 <= j < s.messages.len() && s.messages[j] == t.messages[i];
        assert(s.has_account(s.messages[j].account_id));
    }
    assert forall|i: int| 0 <= i < t.attachments.len() implies 1 <= #[trigger] t.attachments[i].id
        <= t.seq_attachment by {
        let j = choose|j: int| 0 <= j < s.attachments.len() && s.attachments[j] == t.attachments[i];
    }
    assert forall|i: int| 0 <= i < t.attachments.len() implies t.has_message(
        #[trigger] t.attachments[i].message_id,
    ) by {
        let a = t.attachments[i];
        let j = choose|j: int| 0 <= j < s.attachments.len() && s.attachments[j] == a;
        assert(s.has_message(s.attachments[j].message_id));
        let w = choose|w: int| 0 <= w < s.messages.len() && #[trigger] s.messages[w].id == a.message_id;
        if dead(s.messages[w]) {
            lemma_filter_keeps(s.messages, dead, w);
            let fm = s.messages.filter(dead);
            let k = choose|k: int| 0 <= k < fm.len() && #[trigger] fm[k] == s.messages[w];
            assert(ids[k] == a.message_id);
            assert(ids.contains(a.message_id));
        } else {
            lemma_filter_keeps(s.messages, keep, w);
        }
    }
}

pub proof fn lemma_drop_conversations_wf(s: DbState, ids: Seq<i64>)
    requires
        s.wf(),
    ensures
        s.drop_conversations(ids).wf(),
{
    let dt = s.threads_of(ids);
    let dead = |m: StoredMessageView| ids.contains(m.conversation_id) || dt.contains(m.thread_id);
    let s1 = s.drop_messages(dead);
    lemma_drop_messages_wf(s, dead);
    let t = s.drop_conversations(ids);
    let ck = |c: ConversationRowView| !ids.contains(c.id);
    let tk = |x: ThreadView| !ids.contains(x.conversation_id);
    let mk = |m: MemberRow| !ids.contains(m.conversation_id);
    lemma_filter_elems(s1.conversations, ck);
    lemma_filter_elems(s1.threads, tk);
    lemma_filter_elems(s1.members, mk);
    lemma_filter_pairwise(s1.conversations, ck, |a: ConversationRowView, b: ConversationRowView| a.id < b.id);
    lemma_filter_pairwise(s1.threads, tk, |a: ThreadView, b: ThreadView| a.id < b.id);
    lemma_filter_pairwise(
        s1.threads,
        tk,
        |a: ThreadView, b: ThreadView| !(a.conversation_id == b.conversation_id && a.normalized_subject == b.normalized_subject),
    );
    lemma_filter_pairwise(s1.members, mk, |a: MemberRow, b: MemberRow| a.rowid < b.rowid);
    lemma_filter_pairwise(
        s1.members,
        mk,
        |a: MemberRow, b: MemberRow| !(a.conversation_id == b.conversation_id && a.contact_id == b.contact_id),
    );
    // A conversation that is kept is still there.
    assert forall|c: i64| s1.has_conversation(c) && !ids.contains(c) implies t.has_conversation(c) by {
        let k = choose|k: int| 0 <= k < s1.conversations.len() && #[trigger] s1.conversations[k].id == c;
        lemma_filter_keeps(s1.conversations, ck, k);
    }
    assert forall|i: int| 0 <= i < t.conversations.len() implies 1 <= #[trigger] t.conversations[i].id
        <= t.seq_conversation by {
        let j = choose|j: int| 0 <= j < s1.conversations.len() && s1.conversations[j] == t.conversations[i];
    }
    assert forall|i: int| 0 <= i < t.threads.len() implies 1 <= #[trigger] t.threads[i].id
        <= t.seq_thread by {
        let j = choose|j: int| 0 <= j < s1.threads.len() && s1.threads[j] == t.threads[i];
    }
    assert forall|i: int| 0 <= i < t.threads.len() implies t.has_conversation(
        #[trigger] t.threads[i].conversation_id,
    ) by {
        let j = choose|j: int| 0 <= j < s1.threads.len() && s1.threads[j] == t.threads[i];
        assert(s1.has_conversation(s1.threads[j].conversation_id));
    }
    assert forall|i: int| 0 <= i < t.members.len() implies 1 <= #[trigger] t.members[i].rowid by {
        let j = choose|j: int| 0 <= j < s1.members.len() && s1.members[j] == t.members[i];
    }
    assert forall|i: int| 0 <= i < t.members.len() implies t.has_conversation(
        #[trigger] t.members[i].conversation_id,
    ) by {
        let j = choose|j: int| 0 <= j < s1.members.len() && s1.members[j] == t.members[i];
        assert(s1.has_conversation(s1.members[j].conversation_id));
    }
    assert forall|i: int| 0 <= i < t.members.len() implies t.has_contact(
        #[trigger] t.members[i].contact_id,
    ) by {
        let j = choose|j: int| 0 <= j < s1.members.len() && s1.members[j] == t.members[i];
        assert(s1.has_contact(s1.members[j].contact_id));
    }
    // The messages that are left belong to kept conversations and threads.
    lemma_filter_elems(s.messages, |m: StoredMessageView| !dead(m));
    assert forall|i: int| 0 <= i < t.messages.len() implies t.has_conversation(
        #[trigger] t.messages[i].conversation_id,
    ) by {
        let m = t.messages[i];
        assert(!dead(m));
        assert(s1.has_conversation(m.conversation_id));
    }
    assert forall|i: int| 0 <= i < t.messages.len() implies t.has_thread(
        #[trigger] t.messages[i].thread_id,
    ) by {
        let m = t.messages[i];
        assert(!dead(m));
        assert(s1.has_thread(m.thread_id));
        let w = choose|w: int| 0 <= w < s1.threads.len() && #[trigger] s1.threads[w].id == m.thread_id;
        if ids.contains(s1.threads[w].conversation_id) {
            let tp = |x: ThreadView| ids.contains(x.conversation_id);
            let ft = s.threads.filter(tp);
            lemma_filter_keeps(s.threads, tp, w);
            let k = choose|k: int| 0 <= k < ft.len() && #[trigger] ft[k] == s.threads[w];
            assert(dt[k] == m.thread_id);
            assert(dt.contains(m.thread_id));
        } else {
            lemma_filter_keeps(s1.threads, tk, w);
        }
    }
}

pub proof fn lemma_delete_account_wf(s: DbState, id: i64)
    requires
        s.wf(),
    ensures
        s.delete_account(id).0.wf(),
{
    let s1 = s.drop_messages(|m: StoredMessageView| m.account_id == id);
    lemma_drop_messages_wf(s, |m: StoredMessageView| m.account_id == id);
    let s2 = s1.drop_conversations(s1.empty_conversations());
    lemma_drop_conversations_wf(s1, s1.empty_conversations());
    if first_index(s2.accounts, account_has_id(id)) is Some {
        let t = s.delete_account(id).0;
        let ak = |a: AccountView| a.id != id;
        lemma_filter_elems(s2.accounts, ak);
        lemma_filter_pairwise(s2.accounts, ak, |a: AccountView, b: AccountView| a.id < b.id);
        lemma_filter_pairwise(s2.accounts, ak, |a: AccountView, b: AccountView| a.email != b.email);
        assert forall|i: int| 0 <= i < t.accounts.len() implies 1 <= #[trigger] t.accounts[i].id
            <= t.seq_account by {
            let j = choose|j: int| 0 <= j < s2.accounts.len() && s2.accounts[j] == t.accounts[i];
        }
        // The messages left are not the account's.
        let ec = s1.empty_conversations();
        let dt = s1.threads_of(ec);
        let dead2 = |m: StoredMessageView| ec.contains(m.conversation_id) || dt.contains(m.thread_id);
        let keep2 = |m: StoredMessageView| !dead2(m);
        assert(t.messages == s1.messages.filter(keep2));
        lemma_filter_elems(s1.messages, keep2);
        let dead = |m: StoredMessageView| m.account_id == id;
        let keep = |m: StoredMessageView| !dead(m);
        assert(s1 == s.drop_messages(dead));
        assert(s1.messages == s.messages.filter(keep));
        lemma_filter_elems(s.messages, keep);
        assert forall|i: int| 0 <= i < t.messages.len() implies t.has_account(
            #[trigger] t.messages[i].account_id,
        ) by {
            let m = t.messages[i];
            assert(s2.has_account(m.account_id));
            let j = choose|j: int| 0 <= j < s1.messages.len() && s1.messages[j] == m;
            assert(keep(s.messages.filter(keep)[j]));
            assert(!dead(s1.messages[j]));
            assert(m.account_id != id);
            let w = choose|w: int| 0 <= w < s2.accounts.len() && #[trigger] s2.accounts[w].id == m.account_id;
            lemma_filter_keeps(s2.accounts, ak, w);
        }
    }
}

} // verus!

verus! {

/// Whether `v` holds `x`.
pub fn contains_id(v: &Vec<i64>, x: i64) -> (r: bool)
    ensures
        r == v@.contains(x),
{
    let mut i: usize = 0;
    while i < v.len()
        invariant
            i <= v.len(),
            forall|k: int| 0 <= k < i ==> v@[k] != x,
        decreases v.len() - i,
    {
        if v[i] == x {
            assert(v@[i as int] == x);
            return true;
        }
        i = i + 1;
    }
    false
}

/// A copy of a list of identifiers.
pub fn copy_ids(v: &Vec<i64>) -> (r: Vec<i64>)
    ensures
        r@ == v@,
{
    let mut r: Vec<i64> = Vec::new();
    let mut i: usize = 0;
    while i < v.len()
        invariant
            i <= v.len(),
            r@ == v@.take(i as int),
        decreases v.len() - i,
    {
        r.push(v[i]);
        assert(v@.take(i + 1) == v@.take(i as int).push(v@[i as int]));
        i = i + 1;
    }
    assert(v@.take(v.len() as int) == v@);
    r
}

/// Whether removal `fate` takes message `m` away.
fn kills(fate: &MessageFate, m: &StoredMessage) -> (r: bool)
    ensures
        r == dies(*fate, m@),
{
    match fate {
        MessageFate::Id(id) => m.id == *id,
        MessageFate::Account(id) => m.account_id == *id,
        MessageFate::ConversationsOrThreads(convs, threads) => contains_id(convs, m.conversation_id)
            || contains_id(threads, m.thread_id),
    }
}

pub struct Survivor<'a> {
    pub fate: &'a MessageFate,
}

impl<'a> RowFilter<StoredMessage> for Survivor<'a> {
    open spec fn accepts(&self, m: StoredMessageView) -> bool {
        !dies(*self.fate, m)
    }

    fn test(&self, m: &StoredMessage) -> (r: bool) {
        !kills(self.fate, m)
    }
}

pub struct NotAttachedTo<'a> {
    pub ids: &'a Vec<i64>,
}

impl<'a> RowFilter<Attachment> for NotAttachedTo<'a> {
    open spec fn accepts(&self, a: AttachmentView) -> bool {
        !self.ids@.contains(a.message_id)
    }

    fn test(&self, a: &Attachment) -> (r: bool) {
        !contains_id(self.ids, a.message_id)
    }
}

pub struct ConversationNotIn<'a> {
    pub ids: &'a Vec<i64>,
}

impl<'a> RowFilter<ConversationRow> for ConversationNotIn<'a> {
    open spec fn accepts(&self, c: ConversationRowView) -> bool {
        !self.ids@.contains(c.id)
    }

    fn test(&self, c: &ConversationRow) -> (r: bool) {
        !contains_id(self.ids, c.id)
    }
}

pub struct ThreadNotIn<'a> {
    pub ids: &'a Vec<i64>,
}

impl<'a> RowFilter<Thread> for ThreadNotIn<'a> {
    open spec fn accepts(&self, t: ThreadView) -> bool {
        !self.ids@.contains(t.conversation_id)
    }

    fn test(&self, t: &Thread) -> (r: bool) {
        !contains_id(self.ids, t.conversation_id)
    }
}

pub struct MemberNotIn<'a> {
    pub ids: &'a Vec<i64>,
}

impl<'a> RowFilter<MemberRow> for MemberNotIn<'a> {
    open spec fn accepts(&self, m: MemberRow) -> bool {
        !self.ids@.contains(m.conversation_id)
    }

    fn test(&self, m: &MemberRow) -> (r: bool) {
        !contains_id(self.ids, m.conversation_id)
    }
}

pub struct AccountOtherThan {
    pub id: i64,
}

impl RowFilter<Account> for AccountOtherThan {
    open spec fn accepts(&self, a: AccountView) -> bool {
        a.id != self.id
    }

    fn test(&self, a: &Account) -> (r: bool) {
        a.id != self.id
    }
}

impl Database {
    /// Removes the messages that `fate` takes away, with their attachments.
    fn drop_messages_rows(&mut self, fate: &MessageFate)
        requires
            old(self).wf(),
        ensures
            final(self).wf(),
            final(self)@ == old(self)@.drop_messages(|m: StoredMessageView| dies(*fate, m)),
    {
        let ghost before = self@;
        let ghost dead = |m: StoredMessageView| dies(*fate, m);
        let ghost s = before.messages;
        let mut ids: Vec<i64> = Vec::new();
        let mut i: usize = 0;
        while i < self.messages.len()
            invariant
                i <= self.messages.len(),
                s == row_views(self.messages@),
                dead == (|m: StoredMessageView| dies(*fate, m)),
                ids@ == s.take(i as int).filter(dead).map_values(|m: StoredMessageView| m.id),
            decreases self.messages.len() - i,
        {
            proof {
                assert(s.take(i + 1) =~= s.take(i as int).push(s[i as int]));
                s.take(i as int).lemma_filter_push(s[i as int], dead);
            }
            if kills(fate, &self.messages[i]) {
                ids.push(self.messages[i].id);
                assert(ids@ =~= s.take(i as int).filter(dead).push(s[i as int]).map_values(
                    |m: StoredMessageView| m.id,
                ));
            }
            i = i + 1;
        }
        assert(s.take(self.messages.len() as int) =~= s);
        assert(ids@ == before.dead_message_ids(dead));
        let sf = Survivor { fate };
        let messages = filter_rows(&self.messages, &sf);
        assert(selected::<StoredMessage, Survivor>(&sf) =~= (|m: StoredMessageView| !dead(m)));
        let af = NotAttachedTo { ids: &ids };
        let attachments = filter_rows(&self.attachments, &af);
        assert(selected::<Attachment, NotAttachedTo>(&af) =~= (|a: AttachmentView| !before.dead_message_ids(dead).contains(a.message_id)));
        assert(row_views(self.attachments@) == before.attachments);
        self.messages = messages;
        self.attachments = attachments;
        assert(self@.messages == before.drop_messages(dead).messages);
        assert(self@.attachments == before.drop_messages(dead).attachments);
        assert(self@ == before.drop_messages(dead));
        proof {
            lemma_drop_messages_wf(before, dead);
        }
    }

    /// Removes the conversations in `ids` with everything that depends on
    /// them.
    fn drop_conversations_rows(&mut self, ids: &Vec<i64>)
        requires
            old(self).wf(),
        ensures
            final(self).wf(),
            final(self)@ == old(self)@.drop_conversations(ids@),
    {
        let ghost before = self@;
        let ghost tp = |t: ThreadView| ids@.contains(t.conversation_id);
        let ghost s = before.threads;
        let mut dt: Vec<i64> = Vec::new();
        let mut i: usize = 0;
        while i < self.threads.len()
            invariant
                i <= self.threads.len(),
                s == row_views(self.threads@),
                tp == (|t: ThreadView| ids@.contains(t.conversation_id)),
                dt@ == s.take(i as int).filter(tp).map_values(|t: ThreadView| t.id),
            decreases self.threads.len() - i,
        {
            proof {
                assert(s.take(i + 1) =~= s.take(i as int).push(s[i as int]));
                s.take(i as int).lemma_filter_push(s[i as int], tp);
            }
            if contains_id(ids, self.threads[i].conversation_id) {
                dt.push(self.threads[i].id);
                assert(dt@ =~= s.take(i as int).filter(tp).push(s[i as int]).map_values(
                    |t: ThreadView| t.id,
                ));
            }
            i = i + 1;
        }
        assert(s.take(self.threads.len() as int) =~= s);
        assert(dt@ == before.threads_of(ids@));
        let fate = MessageFate::ConversationsOrThreads(copy_ids(ids), dt);
        self.drop_messages_rows(&fate);
        let ghost dead = |m: StoredMessageView| ids@.contains(m.conversation_id) || before.threads_of(ids@).contains(m.thread_id);
        assert((|m: StoredMessageView| dies(fate, m)) =~= dead);
        let ghost s1 = self@;
        assert(s1 == before.drop_messages(dead));
        let cf = ConversationNotIn { ids };
        let conversations = filter_rows(&self.conversations, &cf);
        assert(selected::<ConversationRow, ConversationNotIn>(&cf) =~= (|c: ConversationRowView| !ids@.contains(c.id)));
        let tf = ThreadNotIn { ids };
        let threads = filter_rows(&self.threads, &tf);
        assert(selected::<Thread, ThreadNotIn>(&tf) =~= (|t: ThreadView| !ids@.contains(t.conversation_id)));
        let mf = MemberNotIn { ids };
        let members = filter_rows(&self.members, &mf);
        assert(selected::<MemberRow, MemberNotIn>(&mf) =~= (|m: MemberRow| !ids@.contains(m.conversation_id)));
        assert(row_views(self.members@) =~= self.members@);
        assert(row_views(members@) =~= members@);
        assert(row_views(self.conversations@) == s1.conversations);
        assert(row_views(self.threads@) == s1.threads);
        self.conversations = conversations;
        self.threads = threads;
        self.members = members;
        assert(self@ == before.drop_conversations(ids@));
        proof {
            lemma_drop_conversations_wf(before, ids@);
        }
    }

    /// Removes conversation `id` with its threads, members and messages.
    pub fn delete_conversation(&mut self, id: i64) -> (r: AppResult<()>)
        requires
            old(self).wf(),
        ensures
            final(self).wf(),
            r is Ok,
            final(self)@ == old(self)@.delete_conversation(id),
    {
        let mut ids: Vec<i64> = Vec::new();
        ids.push(id);
        assert(ids@ == seq![id]);
        self.drop_conversations_rows(&ids);
        Ok(())
    }

    /// Removes message `id` (see `DbState::delete_message`).
    pub fn delete_message(&mut self, id: i64) -> (r: AppResult<()>)
        requires
            old(self).wf(),
        ensures
            final(self).wf(),
            r is Ok,
            final(self)@ == old(self)@.delete_message(id),
    {
        let ghost before = self@;
        let conv = match self.find_message(id) {
            Some(i) => Some(self.messages[i].conversation_id),
            None => None,
        };
        let fate = MessageFate::Id(id);
        self.drop_messages_rows(&fate);
        assert((|m: StoredMessageView| dies(fate, m)) =~= (|m: StoredMessageView| m.id == id));
        let ghost s1 = self@;
        match conv {
            None => {},
            Some(c) => {
                let ghost rest = s1.messages.filter(|m: StoredMessageView| m.conversation_id == c);
                let mut latest: Option<UtcTime> = None;
                let mut i: usize = 0;
                while i < self.messages.len()
                    invariant
                        i <= self.messages.len(),
                        self@ == s1,
                        rest == s1.messages.filter(|m: StoredMessageView| m.conversation_id == c),
                        match latest {
                            None => s1.messages.take(i as int).filter(|m: StoredMessageView| m.conversation_id == c).len() == 0,
                            Some(t) => {
                                let f = s1.messages.take(i as int).filter(|m: StoredMessageView| m.conversation_id == c);
                                f.len() > 0 && t == f[latest_index(f)].sent_at
                            },
                        },
                    decreases self.messages.len() - i,
                {
                    let ghost sel = |m: StoredMessageView| m.conversation_id == c;
                    let ghost f = s1.messages.take(i as int).filter(sel);
                    proof {
                        assert(s1.messages.take(i + 1) =~= s1.messages.take(i as int).push(s1.messages[i as int]));
                        s1.messages.take(i as int).lemma_filter_push(s1.messages[i as int], sel);
                    }
                    let ghost f2 = s1.messages.take(i + 1).filter(sel);
                    if self.messages[i].conversation_id == c {
                        assert(f2 == f.push(s1.messages[i as int]));
                        assert(f2.drop_last() == f);
                        match latest {
                            None => {
                                latest = Some(self.messages[i].sent_at);
                            },
                            Some(t) => {
                                proof {
                                    lemma_latest_index_bounds(f);
                                }
                                assert(f2[latest_index(f)] == f[latest_index(f)]);
                                if !self.messages[i].sent_at.before(&t) {
                                    latest = Some(self.messages[i].sent_at);
                                }
                            },
                        }
                    } else {
                        assert(f2 == f);
                    }
                    i = i + 1;
                }
                assert(s1.messages.take(self.messages.len() as int) =~= s1.messages);
                match latest {
                    None => {
                        let mut ids: Vec<i64> = Vec::new();
                        ids.push(c);
                        assert(ids@ == seq![c]);
                        self.drop_conversations_rows(&ids);
                    },
                    Some(t) => {
                        self.update_conversation_rows(c, &ConvUpdate::LastMessageAt(t));
                    },
                }
            },
        }
        Ok(())
    }

    /// Removes account `id` (see `DbState::delete_account`).
    pub fn delete_account(&mut self, id: i64) -> (r: AppResult<()>)
        requires
            old(self).wf(),
        ensures
            final(self).wf(),
            (final(self)@, r) == old(self)@.delete_account(id),
    {
        let ghost before = self@;
        let fate = MessageFate::Account(id);
        self.drop_messages_rows(&fate);
        assert((|m: StoredMessageView| dies(fate, m)) =~= (|m: StoredMessageView| m.account_id == id));
        let ghost s1 = self@;
        // The conversations left without messages.
        let ghost ep = |c: ConversationRowView| !s1.conversation_has_messages(c.id);
        let mut empty: Vec<i64> = Vec::new();
        let mut i: usize = 0;
        while i < self.conversations.len()
            invariant
                i <= self.conversations.len(),
                self@ == s1,
                ep == (|c: ConversationRowView| !s1.conversation_has_messages(c.id)),
                empty@ == s1.conversations.take(i as int).filter(ep).map_values(|c: ConversationRowView| c.id),
            decreases self.conversations.len() - i,
        {
            proof {
                assert(s1.conversations.take(i + 1) =~= s1.conversations.take(i as int).push(s1.conversations[i as int]));
                s1.conversations.take(i as int).lemma_filter_push(s1.conversations[i as int], ep);
            }
            let c = self.conversations[i].id;
            let mut found = false;
            let mut k: usize = 0;
            while k < self.messages.len()
                invariant
                    k <= self.messages.len(),
                    self@ == s1,
                    found == (exists|j: int| 0 <= j < k && #[trigger] s1.messages[j].conversation_id == c),
                decreases self.messages.len() - k,
            {
                if self.messages[k].conversation_id == c {
                    assert(s1.messages[k as int].conversation_id == c);
                    found = true;
                }
                k = k + 1;
            }
            if !found {
                empty.push(c);
                assert(empty@ =~= s1.conversations.take(i as int).filter(ep).push(s1.conversations[i as int]).map_values(
                    |c: ConversationRowView| c.id,
                ));
            }
            i = i + 1;
        }
        assert(s1.conversations.take(self.conversations.len() as int) =~= s1.conversations);
        assert(empty@ == s1.empty_conversations());
        self.drop_conversations_rows(&empty);
        let ghost s2 = self@;
        match self.find_account(id) {
            None => {
                Err(AppError::AccountNotFound(id))
            },
            Some(_) => {
                let f = AccountOtherThan { id };
                let accounts = filter_rows(&self.accounts, &f);
                assert(selected::<Account, AccountOtherThan>(&f) =~= (|a: AccountView| a.id != id));
                assert(row_views(self.accounts@) == s2.accounts);
                self.accounts = accounts;
                assert(self@ == before.delete_account(id).0);
                proof {
                    lemma_delete_account_wf(before, id);
                }
                Ok(())
            },
        }
    }
}

} // verus!
