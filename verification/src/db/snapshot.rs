//! The store's tables as plain rows, to be kept elsewhere and read back.
//! Rows read back are taken only when they have the store's integrity.

use vstd::prelude::*;

use super::rows::{copy_rows, row_views};
use super::{
    account_views, attachment_views, contact_views, conversation_row_views, stored_message_views,
    thread_views, ConversationRow, Database, DbState, MemberRow, StoredMessage,
};
use crate::models::{Account, Attachment, Contact, Thread};
use crate::text::{chars_eq, chars_of};

verus! {

/// The tables and counters of a store.
pub struct Tables {
    pub accounts: Vec<Account>,
    pub contacts: Vec<Contact>,
    pub conversations: Vec<ConversationRow>,
    pub threads: Vec<Thread>,
    pub members: Vec<MemberRow>,
    pub messages: Vec<StoredMessage>,
    pub attachments: Vec<Attachment>,
    pub seq_account: i64,
    pub seq_contact: i64,
    pub seq_conversation: i64,
    pub seq_thread: i64,
    pub seq_message: i64,
    pub seq_attachment: i64,
    pub last_rowid: i64,
}

impl View for Tables {
    type V = DbState;

    open spec fn view(&self) -> DbState {
        DbState {
            accounts: account_views(self.accounts@),
            contacts: contact_views(self.contacts@),
            conversations: conversation_row_views(self.conversations@),
            threads: thread_views(self.threads@),
            members: self.members@,
            messages: stored_message_views(self.messages@),
            attachments: attachment_views(self.attachments@),
            seq_account: self.seq_account,
            seq_contact: self.seq_contact,
            seq_conversation: self.seq_conversation,
            seq_thread: self.seq_thread,
            seq_message: self.seq_message,
            seq_attachment: self.seq_attachment,
            last_rowid: self.last_rowid,
        }
    }
}

// ─── Checks on columns ───────────────────────────────────────────────────────

/// Whether the values of `v` increase strictly.
fn strictly_increasing(v: &Vec<i64>) -> (r: bool)
    ensures
        r == forall|i: int, j: int| 0 <= i < j < v.len() ==> v@[i] < v@[j],
{
    let mut k: usize = 1;
    if v.len() == 0 {
        return true;
    }
    while k < v.len()
        invariant
            1 <= k <= v.len(),
            forall|i: int, j: int| 0 <= i < j < k ==> v@[i] < v@[j],
        decreases v.len() - k,
    {
        if v[k - 1] >= v[k] {
            return false;
        }
        assert forall|i: int, j: int| 0 <= i < j < k + 1 implies v@[i] < v@[j] by {
            if j == k && i < k - 1 {
                assert(v@[i] < v@[k - 1]);
            }
        }
        k = k + 1;
    }
    true
}

/// Whether every value of `v` lies in `lo..=hi`.
fn all_within(v: &Vec<i64>, lo: i64, hi: i64) -> (r: bool)
    ensures
        r == forall|i: int| 0 <= i < v.len() ==> lo <= #[trigger] v@[i] <= hi,
{
    let mut k: usize = 0;
    while k < v.len()
        invariant
            k <= v.len(),
            forall|i: int| 0 <= i < k ==> lo <= #[trigger] v@[i] <= hi,
        decreases v.len() - k,
    {
        if v[k] < lo || v[k] > hi {
            return false;
        }
        k = k + 1;
    }
    true
}

/// Whether every value of `v` occurs in `set`.
fn all_in(v: &Vec<i64>, set: &Vec<i64>) -> (r: bool)
    ensures
        r == forall|i: int| 0 <= i < v.len() ==> set@.contains(#[trigger] v@[i]),
{
    let mut k: usize = 0;
    while k < v.len()
        invariant
            k <= v.len(),
            forall|i: int| 0 <= i < k ==> set@.contains(#[trigger] v@[i]),
        decreases v.len() - k,
    {
        let mut found = false;
        let mut m: usize = 0;
        while m < set.len()
            invariant
                m <= set.len(),
                k < v.len(),
                found == exists|x: int| 0 <= x < m && set@[x] == v@[k as int],
            decreases set.len() - m,
        {
            if set[m] == v[k] {
                found = true;
            }
            m = m + 1;
        }
        if !found {
            assert(!set@.contains(v@[k as int]));
            return false;
        }
        k = k + 1;
    }
    true
}

/// Whether no two entries of `v` are equal (by characters and number).
fn distinct_keys(v: &Vec<(i64, Vec<char>)>) -> (r: bool)
    ensures
        r == forall|i: int, j: int| 0 <= i < j < v.len() ==> !(v@[i].0 == v@[j].0 && v@[i].1@ == v@[j].1@),
{
    let mut j: usize = 0;
    while j < v.len()
        invariant
            j <= v.len(),
            forall|a: int, b: int| 0 <= a < b < j ==> !(v@[a].0 == v@[b].0 && v@[a].1@ == v@[b].1@),
        decreases v.len() - j,
    {
        let mut i: usize = 0;
        while i < j
            invariant
                i <= j < v.len(),
                forall|a: int| 0 <= a < i ==> !(v@[a].0 == v@[j as int].0 && v@[a].1@ == v@[j as int].1@),
            decreases j - i,
        {
            if v[i].0 == v[j].0 && chars_eq(&v[i].1, &v[j].1) {
                return false;
            }
            i = i + 1;
        }
        j = j + 1;
    }
    true
}

/// Whether no two pairs of `v` are equal.
fn distinct_pairs(v: &Vec<(i64, i64)>) -> (r: bool)
    ensures
        r == forall|i: int, j: int| 0 <= i < j < v.len() ==> !(v@[i].0 == v@[j].0 && v@[i].1 == v@[j].1),
{
    let mut j: usize = 0;
    while j < v.len()
        invariant
            j <= v.len(),
            forall|a: int, b: int| 0 <= a < b < j ==> !(v@[a].0 == v@[b].0 && v@[a].1 == v@[b].1),
        decreases v.len() - j,
    {
        let mut i: usize = 0;
        while i < j
            invariant
                i <= j < v.len(),
                forall|a: int| 0 <= a < i ==> !(v@[a].0 == v@[j as int].0 && v@[a].1 == v@[j as int].1),
            decreases j - i,
        {
            if v[i].0 == v[j].0 && v[i].1 == v[j].1 {
                return false;
            }
            i = i + 1;
        }
        j = j + 1;
    }
    true
}

// ─── Columns of the tables ───────────────────────────────────────────────────

/// Access to a row's numeric columns and its key text.
pub trait RowColumns: View + Sized {
    /// Numeric column `c` of a row.
    spec fn num(v: Self::V, c: u8) -> i64;

    /// The row's key text (empty where it has none).
    spec fn text(v: Self::V) -> Seq<char>;

    fn num_at(&self, c: u8) -> (r: i64)
        ensures
            r == Self::num(self@, c),
    ;

    fn text_of(&self) -> (r: Vec<char>)
        ensures
            r@ == Self::text(self@),
    ;
}

impl RowColumns for Account {
    /// 0: identifier; otherwise 0.
    open spec fn num(v: crate::models::AccountView, c: u8) -> i64 {
        if c == 0 {
            v.id
        } else {
            0
        }
    }

    open spec fn text(v: crate::models::AccountView) -> Seq<char> {
        v.email
    }

    fn num_at(&self, c: u8) -> (r: i64) {
        if c == 0 {
            self.id
        } else {
            0
        }
    }

    fn text_of(&self) -> (r: Vec<char>) {
        chars_of(self.email.as_str())
    }
}

impl RowColumns for Contact {
    /// 0: identifier; otherwise 0.
    open spec fn num(v: crate::models::ContactView, c: u8) -> i64 {
        if c == 0 {
            v.id
        } else {
            0
        }
    }

    open spec fn text(v: crate::models::ContactView) -> Seq<char> {
        v.email
    }

    fn num_at(&self, c: u8) -> (r: i64) {
        if c == 0 {
            self.id
        } else {
            0
        }
    }

    fn text_of(&self) -> (r: Vec<char>) {
        chars_of(self.email.as_str())
    }
}

impl RowColumns for ConversationRow {
    open spec fn num(v: super::ConversationRowView, c: u8) -> i64 {
        v.id
    }

    open spec fn text(v: super::ConversationRowView) -> Seq<char> {
        seq![]
    }

    fn num_at(&self, c: u8) -> (r: i64) {
        self.id
    }

    fn text_of(&self) -> (r: Vec<char>) {
        let v: Vec<char> = Vec::new();
        assert(v@ =~= Seq::<char>::empty());
        v
    }
}

impl RowColumns for Thread {
    /// 0: identifier; otherwise: conversation.
    open spec fn num(v: crate::models::ThreadView, c: u8) -> i64 {
        if c == 0 {
            v.id
        } else {
            v.conversation_id
        }
    }

    open spec fn text(v: crate::models::ThreadView) -> Seq<char> {
        v.normalized_subject
    }

    fn num_at(&self, c: u8) -> (r: i64) {
        if c == 0 {
            self.id
        } else {
            self.conversation_id
        }
    }

    fn text_of(&self) -> (r: Vec<char>) {
        chars_of(self.normalized_subject.as_str())
    }
}

impl RowColumns for MemberRow {
    /// 0: position key; 1: conversation; otherwise: contact.
    open spec fn num(v: MemberRow, c: u8) -> i64 {
        if c == 0 {
            v.rowid
        } else if c == 1 {
            v.conversation_id
        } else {
            v.contact_id
        }
    }

    open spec fn text(v: MemberRow) -> Seq<char> {
        seq![]
    }

    fn num_at(&self, c: u8) -> (r: i64) {
        if c == 0 {
            self.rowid
        } else if c == 1 {
            self.conversation_id
        } else {
            self.contact_id
        }
    }

    fn text_of(&self) -> (r: Vec<char>) {
        let v: Vec<char> = Vec::new();
        assert(v@ =~= Seq::<char>::empty());
        v
    }
}

impl RowColumns for StoredMessage {
    /// 0: identifier; 1: conversation; 2: thread; 3: account; otherwise 0.
    open spec fn num(v: super::StoredMessageView, c: u8) -> i64 {
        if c == 0 {
            v.id
        } else if c == 1 {
            v.conversation_id
        } else if c == 2 {
            v.thread_id
        } else if c == 3 {
            v.account_id
        } else {
            0
        }
    }

    open spec fn text(v: super::StoredMessageView) -> Seq<char> {
        v.message_id
    }

    fn num_at(&self, c: u8) -> (r: i64) {
        if c == 0 {
            self.id
        } else if c == 1 {
            self.conversation_id
        } else if c == 2 {
            self.thread_id
        } else if c == 3 {
            self.account_id
        } else {
            0
        }
    }

    fn text_of(&self) -> (r: Vec<char>) {
        chars_of(self.message_id.as_str())
    }
}

impl RowColumns for Attachment {
    /// 0: identifier; otherwise: message.
    open spec fn num(v: crate::models::AttachmentView, c: u8) -> i64 {
        if c == 0 {
            v.id
        } else {
            v.message_id
        }
    }

    open spec fn text(v: crate::models::AttachmentView) -> Seq<char> {
        seq![]
    }

    fn num_at(&self, c: u8) -> (r: i64) {
        if c == 0 {
            self.id
        } else {
            self.message_id
        }
    }

    fn text_of(&self) -> (r: Vec<char>) {
        let v: Vec<char> = Vec::new();
        assert(v@ =~= Seq::<char>::empty());
        v
    }
}

/// Numeric column `c` of `rows`.
fn num_column<T: RowColumns>(rows: &Vec<T>, c: u8) -> (r: Vec<i64>)
    ensures
        r.len() == rows.len(),
        forall|i: int| 0 <= i < rows.len() ==> #[trigger] r@[i] == T::num(rows@[i]@, c),
{
    let mut r: Vec<i64> = Vec::new();
    let mut i: usize = 0;
    while i < rows.len()
        invariant
            i <= rows.len(),
            r.len() == i,
            forall|k: int| 0 <= k < i ==> #[trigger] r@[k] == T::num(rows@[k]@, c),
        decreases rows.len() - i,
    {
        r.push(rows[i].num_at(c));
        i = i + 1;
    }
    r
}

/// Numeric column `c` of `rows` with each row's key text.
fn keyed_column<T: RowColumns>(rows: &Vec<T>, c: u8) -> (r: Vec<(i64, Vec<char>)>)
    ensures
        r.len() == rows.len(),
        forall|i: int|
            0 <= i < rows.len() ==> (#[trigger] r@[i]).0 == T::num(rows@[i]@, c) && r@[i].1@ == T::text(
                rows@[i]@,
            ),
{
    let mut r: Vec<(i64, Vec<char>)> = Vec::new();
    let mut i: usize = 0;
    while i < rows.len()
        invariant
            i <= rows.len(),
            r.len() == i,
            forall|k: int|
                0 <= k < i ==> (#[trigger] r@[k]).0 == T::num(rows@[k]@, c) && r@[k].1@ == T::text(
                    rows@[k]@,
                ),
        decreases rows.len() - i,
    {
        r.push((rows[i].num_at(c), rows[i].text_of()));
        i = i + 1;
    }
    r
}

/// Numeric columns `a` and `b` of `rows`, side by side.
fn pair_column<T: RowColumns>(rows: &Vec<T>, a: u8, b: u8) -> (r: Vec<(i64, i64)>)
    ensures
        r.len() == rows.len(),
        forall|i: int|
            0 <= i < rows.len() ==> (#[trigger] r@[i]).0 == T::num(rows@[i]@, a) && r@[i].1 == T::num(
                rows@[i]@,
                b,
            ),
{
    let mut r: Vec<(i64, i64)> = Vec::new();
    let mut i: usize = 0;
    while i < rows.len()
        invariant
            i <= rows.len(),
            r.len() == i,
            forall|k: int|
                0 <= k < i ==> (#[trigger] r@[k]).0 == T::num(rows@[k]@, a) && r@[k].1 == T::num(
                    rows@[k]@,
                    b,
                ),
        decreases rows.len() - i,
    {
        r.push((rows[i].num_at(a), rows[i].num_at(b)));
        i = i + 1;
    }
    r
}

// ─── Integrity of tables ─────────────────────────────────────────────────────

/// Whether `t` has the store's integrity (see `DbState::wf`).
pub fn integrity(t: &Tables) -> (r: bool)
    ensures
        r == t@.wf(),
{
    let s = Ghost(t@);
    let acc_ids = num_column(&t.accounts, 0);
    let con_ids = num_column(&t.contacts, 0);
    let conv_ids = num_column(&t.conversations, 0);
    let thr_ids = num_column(&t.threads, 0);
    let rowids = num_column(&t.members, 0);
    let msg_ids = num_column(&t.messages, 0);
    let att_ids = num_column(&t.attachments, 0);
    let counters = t.seq_account >= 0 && t.seq_contact >= 0 && t.seq_conversation >= 0 && t.seq_thread >= 0
        && t.seq_message >= 0 && t.seq_attachment >= 0;
    let ids_acc = strictly_increasing(&acc_ids) && all_within(&acc_ids, 1, t.seq_account);
    let ids_con = strictly_increasing(&con_ids) && all_within(&con_ids, 1, t.seq_contact);
    let ids_conv = strictly_increasing(&conv_ids) && all_within(&conv_ids, 1, t.seq_conversation);
    let ids_thr = strictly_increasing(&thr_ids) && all_within(&thr_ids, 1, t.seq_thread);
    let ids_mem = strictly_increasing(&rowids) && all_within(&rowids, 1, i64::MAX);
    let ids_msg = strictly_increasing(&msg_ids) && all_within(&msg_ids, 1, t.seq_message);
    let ids_att = strictly_increasing(&att_ids) && all_within(&att_ids, 1, t.seq_attachment);
    let ids = ids_acc && ids_con && ids_conv && ids_thr && ids_mem && ids_msg && ids_att;
    let acc_keys = keyed_column(&t.accounts, 1);
    let con_keys = keyed_column(&t.contacts, 1);
    let thr_keys = keyed_column(&t.threads, 1);
    let mem_keys = pair_column(&t.members, 1, 2);
    let msg_keys = keyed_column(&t.messages, 4);
    let uniq_acc = distinct_keys(&acc_keys);
    let uniq_con = distinct_keys(&con_keys);
    let uniq_thr = distinct_keys(&thr_keys);
    let uniq_mem = distinct_pairs(&mem_keys);
    let uniq_msg = distinct_keys(&msg_keys);
    let unique = uniq_acc && uniq_con && uniq_thr && uniq_mem && uniq_msg;
    let thr_convs = num_column(&t.threads, 1);
    let mem_convs = num_column(&t.members, 1);
    let mem_contacts = num_column(&t.members, 2);
    let msg_convs = num_column(&t.messages, 1);
    let msg_threads = num_column(&t.messages, 2);
    let msg_accounts = num_column(&t.messages, 3);
    let att_msgs = num_column(&t.attachments, 1);
    let ref_thr = all_in(&thr_convs, &conv_ids);
    let ref_mem_conv = all_in(&mem_convs, &conv_ids);
    let ref_mem_con = all_in(&mem_contacts, &con_ids);
    let ref_msg_conv = all_in(&msg_convs, &conv_ids);
    let ref_msg_thr = all_in(&msg_threads, &thr_ids);
    let ref_msg_acc = all_in(&msg_accounts, &acc_ids);
    let ref_att = all_in(&att_msgs, &msg_ids);
    let refs = ref_thr && ref_mem_conv && ref_mem_con && ref_msg_conv && ref_msg_thr && ref_msg_acc && ref_att;
    let r = counters && ids && unique && refs;
    proof {
        let s = s@;
        assert(ids_acc == ((forall|i: int, j: int|
            0 <= i < j < s.accounts.len() ==> s.accounts[i].id < s.accounts[j].id) && (forall|i: int|
            0 <= i < s.accounts.len() ==> 1 <= #[trigger] s.accounts[i].id <= s.seq_account))) by {
            lemma_increasing(s.accounts, |x: crate::models::AccountView| x.id, acc_ids@);
            lemma_within(s.accounts, |x: crate::models::AccountView| x.id, acc_ids@, 1, s.seq_account);
        }
        assert(ids_con == ((forall|i: int, j: int|
            0 <= i < j < s.contacts.len() ==> s.contacts[i].id < s.contacts[j].id) && (forall|i: int|
            0 <= i < s.contacts.len() ==> 1 <= #[trigger] s.contacts[i].id <= s.seq_contact))) by {
            lemma_increasing(s.contacts, |x: crate::models::ContactView| x.id, con_ids@);
            lemma_within(s.contacts, |x: crate::models::ContactView| x.id, con_ids@, 1, s.seq_contact);
        }
        assert(ids_conv == ((forall|i: int, j: int|
            0 <= i < j < s.conversations.len() ==> s.conversations[i].id < s.conversations[j].id) && (forall|i: int|
            0 <= i < s.conversations.len() ==> 1 <= #[trigger] s.conversations[i].id <= s.seq_conversation))) by {
            lemma_increasing(s.conversations, |x: super::ConversationRowView| x.id, conv_ids@);
            lemma_within(s.conversations, |x: super::ConversationRowView| x.id, conv_ids@, 1, s.seq_conversation);
        }
        assert(ids_thr == ((forall|i: int, j: int|
            0 <= i < j < s.threads.len() ==> s.threads[i].id < s.threads[j].id) && (forall|i: int|
            0 <= i < s.threads.len() ==> 1 <= #[trigger] s.threads[i].id <= s.seq_thread))) by {
            lemma_increasing(s.threads, |x: crate::models::ThreadView| x.id, thr_ids@);
            lemma_within(s.threads, |x: crate::models::ThreadView| x.id, thr_ids@, 1, s.seq_thread);
        }
        assert(ids_mem == ((forall|i: int, j: int|
            0 <= i < j < s.members.len() ==> s.members[i].rowid < s.members[j].rowid) && (forall|i: int|
            0 <= i < s.members.len() ==> 1 <= #[trigger] s.members[i].rowid))) by {
            lemma_increasing(s.members, |x: MemberRow| x.rowid, rowids@);
            lemma_within(s.members, |x: MemberRow| x.rowid, rowids@, 1, i64::MAX);
        }
        assert(ids_msg == ((forall|i: int, j: int|
            0 <= i < j < s.messages.len() ==> s.messages[i].id < s.messages[j].id) && (forall|i: int|
            0 <= i < s.messages.len() ==> 1 <= #[trigger] s.messages[i].id <= s.seq_message))) by {
            lemma_increasing(s.messages, |x: super::StoredMessageView| x.id, msg_ids@);
            lemma_within(s.messages, |x: super::StoredMessageView| x.id, msg_ids@, 1, s.seq_message);
        }
        assert(ids_att == ((forall|i: int, j: int|
            0 <= i < j < s.attachments.len() ==> s.attachments[i].id < s.attachments[j].id) && (forall|i: int|
            0 <= i < s.attachments.len() ==> 1 <= #[trigger] s.attachments[i].id <= s.seq_attachment))) by {
            lemma_increasing(s.attachments, |x: crate::models::AttachmentView| x.id, att_ids@);
            lemma_within(s.attachments, |x: crate::models::AttachmentView| x.id, att_ids@, 1, s.seq_attachment);
        }
        assert(uniq_acc == (forall|i: int, j: int|
            0 <= i < j < s.accounts.len() ==> s.accounts[i].email != s.accounts[j].email)) by {
            lemma_distinct_keys(s.accounts, |x: crate::models::AccountView| 0i64, |x: crate::models::AccountView| x.email, acc_keys@);
        }
        assert(uniq_con == (forall|i: int, j: int|
            0 <= i < j < s.contacts.len() ==> s.contacts[i].email != s.contacts[j].email)) by {
            lemma_distinct_keys(s.contacts, |x: crate::models::ContactView| 0i64, |x: crate::models::ContactView| x.email, con_keys@);
        }
        assert(uniq_thr == (forall|i: int, j: int|
            0 <= i < j < s.threads.len() ==> !(s.threads[i].conversation_id == s.threads[j].conversation_id
                && s.threads[i].normalized_subject == s.threads[j].normalized_subject))) by {
            lemma_distinct_keys(
                s.threads,
                |x: crate::models::ThreadView| x.conversation_id,
                |x: crate::models::ThreadView| x.normalized_subject,
                thr_keys@,
            );
        }
        assert(uniq_mem == (forall|i: int, j: int|
            0 <= i < j < s.members.len() ==> !(s.members[i].conversation_id == s.members[j].conversation_id
                && s.members[i].contact_id == s.members[j].contact_id))) by {
            lemma_distinct_pairs(s.members, |x: MemberRow| x.conversation_id, |x: MemberRow| x.contact_id, mem_keys@);
        }
        assert(uniq_msg == (forall|i: int, j: int|
            0 <= i < j < s.messages.len() ==> s.messages[i].message_id != s.messages[j].message_id)) by {
            lemma_distinct_keys(s.messages, |x: super::StoredMessageView| 0i64, |x: super::StoredMessageView| x.message_id, msg_keys@);
        }
        assert(ref_thr == (forall|i: int|
            0 <= i < s.threads.len() ==> s.has_conversation(#[trigger] s.threads[i].conversation_id))) by {
            lemma_has_id(s.conversations, |x: super::ConversationRowView| x.id, conv_ids@);
            lemma_all_in(s.threads, |x: crate::models::ThreadView| x.conversation_id, thr_convs@, conv_ids@);
        }
        assert(ref_mem_conv == (forall|i: int|
            0 <= i < s.members.len() ==> s.has_conversation(#[trigger] s.members[i].conversation_id))) by {
            lemma_has_id(s.conversations, |x: super::ConversationRowView| x.id, conv_ids@);
            lemma_all_in(s.members, |x: MemberRow| x.conversation_id, mem_convs@, conv_ids@);
        }
        assert(ref_mem_con == (forall|i: int|
            0 <= i < s.members.len() ==> s.has_contact(#[trigger] s.members[i].contact_id))) by {
            lemma_has_id(s.contacts, |x: crate::models::ContactView| x.id, con_ids@);
            lemma_all_in(s.members, |x: MemberRow| x.contact_id, mem_contacts@, con_ids@);
        }
        assert(ref_msg_conv == (forall|i: int|
            0 <= i < s.messages.len() ==> s.has_conversation(#[trigger] s.messages[i].conversation_id))) by {
            lemma_has_id(s.conversations, |x: super::ConversationRowView| x.id, conv_ids@);
            lemma_all_in(s.messages, |x: super::StoredMessageView| x.conversation_id, msg_convs@, conv_ids@);
        }
        assert(ref_msg_thr == (forall|i: int|
            0 <= i < s.messages.len() ==> s.has_thread(#[trigger] s.messages[i].thread_id))) by {
            lemma_has_id(s.threads, |x: crate::models::ThreadView| x.id, thr_ids@);
            lemma_all_in(s.messages, |x: super::StoredMessageView| x.thread_id, msg_threads@, thr_ids@);
        }
        assert(ref_msg_acc == (forall|i: int|
            0 <= i < s.messages.len() ==> s.has_account(#[trigger] s.messages[i].account_id))) by {
            lemma_has_id(s.accounts, |x: crate::models::AccountView| x.id, acc_ids@);
            lemma_all_in(s.messages, |x: super::StoredMessageView| x.account_id, msg_accounts@, acc_ids@);
        }
        assert(ref_att == (forall|i: int|
            0 <= i < s.attachments.len() ==> s.has_message(#[trigger] s.attachments[i].message_id))) by {
            lemma_has_id(s.messages, |x: super::StoredMessageView| x.id, msg_ids@);
            lemma_all_in(s.attachments, |x: crate::models::AttachmentView| x.message_id, att_msgs@, msg_ids@);
        }
    }
    r
}

// ─── Keeping and reading back a store ────────────────────────────────────────

impl Database {
    /// The store's tables and counters, copied.
    pub fn export(&self) -> (t: Tables)
        ensures
            t@ == self@,
    {
        let t = Tables {
            accounts: copy_rows(&self.accounts),
            contacts: copy_rows(&self.contacts),
            conversations: copy_rows(&self.conversations),
            threads: copy_rows(&self.threads),
            members: copy_rows(&self.members),
            messages: copy_rows(&self.messages),
            attachments: copy_rows(&self.attachments),
            seq_account: self.seq_account,
            seq_contact: self.seq_contact,
            seq_conversation: self.seq_conversation,
            seq_thread: self.seq_thread,
            seq_message: self.seq_message,
            seq_attachment: self.seq_attachment,
            last_rowid: self.last_rowid,
        };
        proof {
            assert(row_views(t.accounts@) == t@.accounts);
            assert(row_views(self.accounts@) == self@.accounts);
            assert(row_views(t.contacts@) == t@.contacts);
            assert(row_views(self.contacts@) == self@.contacts);
            assert(row_views(t.conversations@) == t@.conversations);
            assert(row_views(self.conversations@) == self@.conversations);
            assert(row_views(t.threads@) == t@.threads);
            assert(row_views(self.threads@) == self@.threads);
            assert(row_views(t.members@) =~= t.members@);
            assert(row_views(self.members@) =~= self.members@);
            assert(row_views(t.messages@) == t@.messages);
            assert(row_views(self.messages@) == self@.messages);
            assert(row_views(t.attachments@) == t@.attachments);
            assert(row_views(self.attachments@) == self@.attachments);
        }
        t
    }

    /// A store holding the given tables, if they have the store's integrity.
    pub fn restore(t: Tables) -> (r: Option<Database>)
        ensures
            r is Some <==> t@.wf(),
            r matches Some(db) ==> db@ == t@ && db.wf(),
    {
        if !integrity(&t) {
            return None;
        }
        let db = Database {
            accounts: t.accounts,
            contacts: t.contacts,
            conversations: t.conversations,
            threads: t.threads,
            members: t.members,
            messages: t.messages,
            attachments: t.attachments,
            seq_account: t.seq_account,
            seq_contact: t.seq_contact,
            seq_conversation: t.seq_conversation,
            seq_thread: t.seq_thread,
            seq_message: t.seq_message,
            seq_attachment: t.seq_attachment,
            last_rowid: t.last_rowid,
        };
        Some(db)
    }
}

// ─── Columns and the integrity conditions ────────────────────────────────────

proof fn lemma_increasing<A>(rows: Seq<A>, key: spec_fn(A) -> i64, ids: Seq<i64>)
    requires
        ids.len() == rows.len(),
        forall|i: int| 0 <= i < rows.len() ==> ids[i] == key(rows[i]),
    ensures
        (forall|i: int, j: int| 0 <= i < j < ids.len() ==> ids[i] < ids[j]) == (forall|i: int, j: int|
            #![trigger rows[i], rows[j]] 0 <= i < j < rows.len() ==> key(rows[i]) < key(rows[j])),
{
    if forall|i: int, j: int| 0 <= i < j < ids.len() ==> ids[i] < ids[j] {
        assert forall|i: int, j: int| 0 <= i < j < rows.len() implies key(rows[i]) < key(rows[j]) by {
            assert(ids[i] == key(rows[i]));
            assert(ids[j] == key(rows[j]));
        }
    }
    if forall|i: int, j: int| #![trigger rows[i], rows[j]] 0 <= i < j < rows.len() ==> key(rows[i]) < key(rows[j]) {
        assert forall|i: int, j: int| 0 <= i < j < ids.len() implies ids[i] < ids[j] by {
            assert(ids[i] == key(rows[i]));
            assert(ids[j] == key(rows[j]));
        }
    }
}

proof fn lemma_within<A>(rows: Seq<A>, key: spec_fn(A) -> i64, ids: Seq<i64>, lo: i64, hi: i64)
    requires
        ids.len() == rows.len(),
        forall|i: int| 0 <= i < rows.len() ==> ids[i] == key(rows[i]),
    ensures
        (forall|i: int| 0 <= i < ids.len() ==> lo <= #[trigger] ids[i] <= hi) == (forall|i: int|
            0 <= i < rows.len() ==> lo <= key(#[trigger] rows[i]) <= hi),
{
    if forall|i: int| 0 <= i < ids.len() ==> lo <= #[trigger] ids[i] <= hi {
        assert forall|i: int| 0 <= i < rows.len() implies lo <= key(#[trigger] rows[i]) <= hi by {
            assert(ids[i] == key(rows[i]));
        }
    }
    if forall|i: int| 0 <= i < rows.len() ==> lo <= key(#[trigger] rows[i]) <= hi {
        assert forall|i: int| 0 <= i < ids.len() implies lo <= #[trigger] ids[i] <= hi by {
            assert(ids[i] == key(rows[i]));
        }
    }
}

proof fn lemma_distinct_keys<A>(
    rows: Seq<A>,
    num: spec_fn(A) -> i64,
    text: spec_fn(A) -> Seq<char>,
    keys: Seq<(i64, Vec<char>)>,
)
    requires
        keys.len() == rows.len(),
        forall|i: int| 0 <= i < rows.len() ==> keys[i].0 == num(rows[i]) && keys[i].1@ == text(rows[i]),
    ensures
        (forall|i: int, j: int| 0 <= i < j < keys.len() ==> !(keys[i].0 == keys[j].0 && keys[i].1@ == keys[j].1@))
            == (forall|i: int, j: int|
            #![trigger rows[i], rows[j]] 0 <= i < j < rows.len() ==> !(num(rows[i]) == num(rows[j]) && text(rows[i]) == text(rows[j]))),
{
    if forall|i: int, j: int| 0 <= i < j < keys.len() ==> !(keys[i].0 == keys[j].0 && keys[i].1@ == keys[j].1@) {
        assert forall|i: int, j: int| 0 <= i < j < rows.len() implies !(num(rows[i]) == num(rows[j]) && text(
            rows[i],
        ) == text(rows[j])) by {
            assert(keys[i].0 == num(rows[i]) && keys[i].1@ == text(rows[i]));
            assert(keys[j].0 == num(rows[j]) && keys[j].1@ == text(rows[j]));
        }
    }
    if forall|i: int, j: int| #![trigger rows[i], rows[j]] 0 <= i < j < rows.len() ==> !(num(rows[i]) == num(rows[j]) && text(rows[i]) == text(rows[j])) {
        assert forall|i: int, j: int| 0 <= i < j < keys.len() implies !(keys[i].0 == keys[j].0 && keys[i].1@
            == keys[j].1@) by {
            assert(keys[i].0 == num(rows[i]) && keys[i].1@ == text(rows[i]));
            assert(keys[j].0 == num(rows[j]) && keys[j].1@ == text(rows[j]));
        }
    }
}

proof fn lemma_distinct_pairs<A>(rows: Seq<A>, a: spec_fn(A) -> i64, b: spec_fn(A) -> i64, keys: Seq<(i64, i64)>)
    requires
        keys.len() == rows.len(),
        forall|i: int| 0 <= i < rows.len() ==> keys[i].0 == a(rows[i]) && keys[i].1 == b(rows[i]),
    ensures
        (forall|i: int, j: int| 0 <= i < j < keys.len() ==> !(keys[i].0 == keys[j].0 && keys[i].1 == keys[j].1))
            == (forall|i: int, j: int|
            #![trigger rows[i], rows[j]] 0 <= i < j < rows.len() ==> !(a(rows[i]) == a(rows[j]) && b(rows[i]) == b(rows[j]))),
{
    if forall|i: int, j: int| 0 <= i < j < keys.len() ==> !(keys[i].0 == keys[j].0 && keys[i].1 == keys[j].1) {
        assert forall|i: int, j: int| 0 <= i < j < rows.len() implies !(a(rows[i]) == a(rows[j]) && b(rows[i])
            == b(rows[j])) by {
            assert(keys[i].0 == a(rows[i]) && keys[i].1 == b(rows[i]));
            assert(keys[j].0 == a(rows[j]) && keys[j].1 == b(rows[j]));
        }
    }
    if forall|i: int, j: int| #![trigger rows[i], rows[j]] 0 <= i < j < rows.len() ==> !(a(rows[i]) == a(rows[j]) && b(rows[i]) == b(rows[j])) {
        assert forall|i: int, j: int| 0 <= i < j < keys.len() implies !(keys[i].0 == keys[j].0 && keys[i].1
            == keys[j].1) by {
            assert(keys[i].0 == a(rows[i]) && keys[i].1 == b(rows[i]));
            assert(keys[j].0 == a(rows[j]) && keys[j].1 == b(rows[j]));
        }
    }
}

proof fn lemma_has_id<A>(rows: Seq<A>, key: spec_fn(A) -> i64, ids: Seq<i64>)
    requires
        ids.len() == rows.len(),
        forall|i: int| 0 <= i < rows.len() ==> ids[i] == key(rows[i]),
    ensures
        forall|x: i64|
            ids.contains(x) <==> exists|i: int| 0 <= i < rows.len() && key(#[trigger] rows[i]) == x,
{
    assert forall|x: i64| ids.contains(x) <==> exists|i: int| 0 <= i < rows.len() && key(#[trigger] rows[i]) == x by {
        if ids.contains(x) {
            let k = choose|k: int| 0 <= k < ids.len() && ids[k] == x;
            assert(key(rows[k]) == x);
        }
        if exists|i: int| 0 <= i < rows.len() && key(#[trigger] rows[i]) == x {
            let k = choose|k: int| 0 <= k < rows.len() && key(#[trigger] rows[k]) == x;
            assert(ids[k] == x);
        }
    }
}

proof fn lemma_all_in<A>(rows: Seq<A>, key: spec_fn(A) -> i64, vals: Seq<i64>, set: Seq<i64>)
    requires
        vals.len() == rows.len(),
        forall|i: int| 0 <= i < rows.len() ==> vals[i] == key(rows[i]),
    ensures
        (forall|i: int| 0 <= i < vals.len() ==> set.contains(#[trigger] vals[i])) == (forall|i: int|
            0 <= i < rows.len() ==> set.contains(key(#[trigger] rows[i]))),
{
    if forall|i: int| 0 <= i < vals.len() ==> set.contains(#[trigger] vals[i]) {
        assert forall|i: int| 0 <= i < rows.len() implies set.contains(key(#[trigger] rows[i])) by {
            assert(vals[i] == key(rows[i]));
        }
    }
    if forall|i: int| 0 <= i < rows.len() ==> set.contains(key(#[trigger] rows[i])) {
        assert forall|i: int| 0 <= i < vals.len() implies set.contains(#[trigger] vals[i]) by {
            assert(vals[i] == key(rows[i]));
        }
    }
}

} // verus!
