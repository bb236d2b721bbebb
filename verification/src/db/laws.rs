//! What holds of the store across its operations.

use vstd::prelude::*;

use super::cascade::lemma_filter_elems;
use super::messages::message_has_mid;
use super::threads::thread_has_key;
use super::{first_index, lemma_first_index, lemma_first_index_at, DbState, InsertMessageView, StoredMessageView};
use crate::db::conversations::MessageSelector;
use crate::models::{ConversationKind, MemberRole};

verus! {

/// Once a message is added (or found already stored), a message with its
/// Message-ID is stored.
pub proof fn law_inserted_message_exists(s: DbState, msg: InsertMessageView)
    requires
        s.insert_message(msg).1 is Ok,
    ensures
        s.insert_message(msg).0.message_exists(msg.message_id),
{
    let t = s.insert_message(msg).0;
    if first_index(s.messages, message_has_mid(msg.message_id)) is None {
        lemma_first_index(s.messages, message_has_mid(msg.message_id));
        lemma_first_index(t.messages, message_has_mid(msg.message_id));
        assert(t.messages[s.messages.len() as int].message_id == msg.message_id);
    }
}

/// A message whose Message-ID is stored is not added again: the store stays
/// as it is.
pub proof fn law_insert_message_deduplicates(s: DbState, msg: InsertMessageView)
    requires
        s.message_exists(msg.message_id),
    ensures
        s.insert_message(msg).0 == s,
{
}

/// Asking twice for the thread of a conversation and normalized subject
/// gives the same thread, and the second time nothing changes (whatever
/// subject text comes with it).
pub proof fn law_create_thread_idempotent(
    s: DbState,
    conv: i64,
    subject: Seq<char>,
    other_subject: Seq<char>,
    norm: Seq<char>,
)
    requires
        s.create_thread(conv, subject, norm).1 is Ok,
    ensures
        ({
            let (t, r) = s.create_thread(conv, subject, norm);
            t.create_thread(conv, other_subject, norm) == (t, r)
        }),
{
    let p = thread_has_key(conv, norm);
    lemma_first_index(s.threads, p);
    let t = s.create_thread(conv, subject, norm).0;
    match first_index(s.threads, p) {
        Some(i) => {},
        None => {
            let n = s.threads.len() as int;
            assert forall|k: int| 0 <= k < n implies !p(#[trigger] t.threads[k]) by {
                assert(t.threads[k] == s.threads[k]);
            }
            lemma_first_index_at(t.threads, p, n);
        },
    }
}

/// Adding a contact to a conversation it already belongs to changes nothing,
/// whatever the role: membership is recorded once.
pub proof fn law_add_member_idempotent(
    s: DbState,
    conv: i64,
    contact: i64,
    role: MemberRole,
    other_role: MemberRole,
)
    requires
        s.add_member(conv, contact, role).1 is Ok,
    ensures
        ({
            let t = s.add_member(conv, contact, role).0;
            t.add_member(conv, contact, other_role) == (t, Ok::<(), crate::error::AppError>(()))
        }),
{
    let t = s.add_member(conv, contact, role).0;
    if !s.has_member(conv, contact) {
        let k = s.members.len() as int;
        assert(t.members[k].conversation_id == conv && t.members[k].contact_id == contact);
        assert(t.has_member(conv, contact));
    }
}

/// Marking a conversation read leaves it with no unread messages counted
/// and every one of its messages read.
pub proof fn law_mark_conversation_read_clears(s: DbState, id: i64)
    ensures
        forall|i: int|
            0 <= i < s.mark_conversation_read(id).conversations.len() && (
            #[trigger] s.mark_conversation_read(id).conversations[i]).id == id
                ==> s.mark_conversation_read(id).conversations[i].unread_count == 0,
        forall|i: int|
            0 <= i < s.mark_conversation_read(id).messages.len() && (
            #[trigger] s.mark_conversation_read(id).messages[i]).conversation_id == id
                ==> s.mark_conversation_read(id).messages[i].is_read,
{
}

/// After a conversation is deleted, no conversation, thread, member or
/// message of it is left.
pub proof fn law_delete_conversation_removes_all(s: DbState, id: i64)
    ensures
        forall|i: int|
            0 <= i < s.delete_conversation(id).conversations.len() ==> (
            #[trigger] s.delete_conversation(id).conversations[i]).id != id,
        forall|i: int|
            0 <= i < s.delete_conversation(id).threads.len() ==> (
            #[trigger] s.delete_conversation(id).threads[i]).conversation_id != id,
        forall|i: int|
            0 <= i < s.delete_conversation(id).members.len() ==> (
            #[trigger] s.delete_conversation(id).members[i]).conversation_id != id,
        forall|i: int|
            0 <= i < s.delete_conversation(id).messages.len() ==> (
            #[trigger] s.delete_conversation(id).messages[i]).conversation_id != id,
{
    let ids = seq![id];
    let dt = s.threads_of(ids);
    let dead = |m: StoredMessageView| ids.contains(m.conversation_id) || dt.contains(m.thread_id);
    let s1 = s.drop_messages(dead);
    let t = s.delete_conversation(id);
    assert(ids.contains(id)) by {
        assert(ids[0] == id);
    }
    lemma_filter_elems(s.messages, |m: StoredMessageView| !dead(m));
    lemma_filter_elems(s1.conversations, |c: crate::db::ConversationRowView| !ids.contains(c.id));
    lemma_filter_elems(s1.threads, |th: crate::models::ThreadView| !ids.contains(th.conversation_id));
    lemma_filter_elems(s1.members, |m: crate::db::MemberRow| !ids.contains(m.conversation_id));
}


/// After an account is deleted, no message of it is left, and (when it
/// existed) neither is the account.
pub proof fn law_delete_account_removes_its_messages(s: DbState, id: i64)
    ensures
        forall|i: int|
            0 <= i < s.delete_account(id).0.messages.len() ==> (
            #[trigger] s.delete_account(id).0.messages[i]).account_id != id,
        s.delete_account(id).1 is Ok ==> forall|i: int|
            0 <= i < s.delete_account(id).0.accounts.len() ==> (
            #[trigger] s.delete_account(id).0.accounts[i]).id != id,
{
    let dead = |m: StoredMessageView| m.account_id == id;
    let s1 = s.drop_messages(dead);
    let ids = s1.empty_conversations();
    let dt = s1.threads_of(ids);
    let dead2 = |m: StoredMessageView| ids.contains(m.conversation_id) || dt.contains(m.thread_id);
    let s2 = s1.drop_conversations(ids);
    lemma_filter_elems(s.messages, |m: StoredMessageView| !dead(m));
    lemma_filter_elems(s1.messages, |m: StoredMessageView| !dead2(m));
    assert forall|i: int| 0 <= i < s2.messages.len() implies (#[trigger] s2.messages[i]).account_id != id by {
        let j = choose|j: int| 0 <= j < s1.messages.len() && s1.messages[j] == s2.messages[i];
        let k = choose|k: int| 0 <= k < s.messages.len() && s.messages[k] == s1.messages[j];
        assert(!dead(s1.messages[j]));
    }
    lemma_filter_elems(s2.accounts, |a: crate::models::AccountView| a.id != id);
}

} // verus!
