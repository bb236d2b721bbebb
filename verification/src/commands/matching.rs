//! How messages find their conversation again. Contacts keep their place
//! and identifier, so recording the same addresses again answers the same
//! identifiers; and a dialogue or group, once found or created for some
//! contacts, is the conversation found for exactly those contacts
//! afterwards, whether a message is received from them or sent to them.

use vstd::prelude::*;

use super::threading::{emails_of, not_me, participants_of};
use crate::db::cascade::lemma_filter_elems;
use crate::db::contacts::contact_has_email;
use crate::db::{first_index, lemma_first_index, lemma_first_index_at, DbState, MemberRow};
use crate::imap::parse::ParsedEmailView;
use crate::models::{ConversationKind, MemberRole};
use crate::text::unicode_lowercase;

verus! {

// ─── Contacts kept in place ──────────────────────────────────────────────────

/// `t` holds every contact of `s` at the same position, with the same
/// identifier and address.
pub open spec fn keeps_contacts(s: DbState, t: DbState) -> bool {
    &&& s.contacts.len() <= t.contacts.len()
    &&& forall|i: int|
        #![trigger t.contacts[i]]
        0 <= i < s.contacts.len() ==> t.contacts[i].id == s.contacts[i].id && t.contacts[i].email
            == s.contacts[i].email
}

/// The contacts' identifiers increase along the table and were handed out.
pub open spec fn contact_ids_ok(s: DbState) -> bool {
    &&& forall|i: int, j: int| 0 <= i < j < s.contacts.len() ==> s.contacts[i].id < s.contacts[j].id
    &&& forall|i: int| 0 <= i < s.contacts.len() ==> #[trigger] s.contacts[i].id <= s.seq_contact
}

proof fn lemma_keeps_trans(a: DbState, b: DbState, c: DbState)
    requires
        keeps_contacts(a, b),
        keeps_contacts(b, c),
    ensures
        keeps_contacts(a, c),
{
    assert forall|i: int| #![trigger c.contacts[i]] 0 <= i < a.contacts.len() implies c.contacts[i].id
        == a.contacts[i].id && c.contacts[i].email == a.contacts[i].email by {
        assert(b.contacts[i].id == a.contacts[i].id);
    }
}

/// What recording a contact does: the contacts keep their place, the other
/// tables stay, and on success the address's first contact has the
/// identifier answered.
proof fn lemma_upsert_contact_facts(s: DbState, e: Seq<char>, name: Option<Seq<char>>, now: i64)
    ensures
        ({
            let (s1, r) = s.upsert_contact(e, name, now);
            &&& keeps_contacts(s, s1)
            &&& s1.conversations == s.conversations
            &&& s1.members == s.members
            &&& s1.threads == s.threads
            &&& s1.messages == s.messages
            &&& s1.seq_conversation == s.seq_conversation
            &&& contact_ids_ok(s) ==> contact_ids_ok(s1)
            &&& r matches Ok(id) ==> (first_index(s1.contacts, contact_has_email(e)) matches Some(i) && 0
                <= i < s1.contacts.len() && s1.contacts[i].id == id && s1.contacts[i].email == e)
        }),
{
    let (s1, r) = s.upsert_contact(e, name, now);
    lemma_first_index(s.contacts, contact_has_email(e));
    match first_index(s.contacts, contact_has_email(e)) {
        Some(i) => {
            assert(s1.contacts[i].email == e);
            lemma_first_index_at(s1.contacts, contact_has_email(e), i);
        },
        None => {
            if let Ok(id) = r {
                let n = s.contacts.len() as int;
                assert(s1.contacts[n].email == e);
                assert forall|k: int| 0 <= k < n implies !contact_has_email(e)(#[trigger] s1.contacts[k]) by {
                    assert(s1.contacts[k] == s.contacts[k]);
                }
                lemma_first_index_at(s1.contacts, contact_has_email(e), n);
                assert forall|i: int| #![trigger s1.contacts[i]] 0 <= i < s.contacts.len() implies s1.contacts[i].id
                    == s.contacts[i].id && s1.contacts[i].email == s.contacts[i].email by {
                    assert(s1.contacts[i] == s.contacts[i]);
                }
            }
        },
    }
}

/// An address whose first contact `s` holds is recorded again, in any state
/// that keeps `s`'s contacts, under that contact's identifier.
proof fn lemma_upsert_contact_found(
    s: DbState,
    t: DbState,
    e: Seq<char>,
    name: Option<Seq<char>>,
    now: i64,
    i: int,
)
    requires
        keeps_contacts(s, t),
        first_index(s.contacts, contact_has_email(e)) == Some(i),
    ensures
        0 <= i < s.contacts.len(),
        first_index(t.contacts, contact_has_email(e)) == Some(i),
        t.upsert_contact(e, name, now).1 == Ok::<i64, crate::error::AppError>(s.contacts[i].id),
{
    lemma_first_index(s.contacts, contact_has_email(e));
    assert forall|k: int| 0 <= k < i implies !contact_has_email(e)(#[trigger] t.contacts[k]) by {
        assert(!contact_has_email(e)(s.contacts[k]));
        assert(t.contacts[k].email == s.contacts[k].email);
    }
    assert(t.contacts[i].email == s.contacts[i].email);
    lemma_first_index_at(t.contacts, contact_has_email(e), i);
}


/// What recording participants does: the contacts keep their place and the
/// other tables stay.
proof fn lemma_participants_facts(
    s: DbState,
    ps: Seq<(Seq<char>, Option<Seq<char>>)>,
    now: i64,
    ids: Seq<i64>,
)
    ensures
        ({
            let (s1, r) = s.upsert_participants(ps, now, ids);
            &&& keeps_contacts(s, s1)
            &&& s1.conversations == s.conversations
            &&& s1.members == s.members
            &&& s1.threads == s.threads
            &&& s1.messages == s.messages
            &&& s1.seq_conversation == s.seq_conversation
            &&& contact_ids_ok(s) ==> contact_ids_ok(s1)
        }),
    decreases ps.len(),
{
    if ps.len() > 0 {
        lemma_participants_facts(s, ps.drop_last(), now, ids);
        let (s1, r1) = s.upsert_participants(ps.drop_last(), now, ids);
        if r1 is Ok {
            lemma_upsert_contact_facts(s1, ps.last().0, ps.last().1, now);
            let (s2, r2) = s1.upsert_contact(ps.last().0, ps.last().1, now);
            lemma_keeps_trans(s, s1, s2);
        }
    }
}

/// Recording, in a state that keeps the contacts a successful recording of
/// `ps` left, participants with the same addresses answers the same
/// identifiers.
proof fn lemma_participants_again(
    s: DbState,
    ps: Seq<(Seq<char>, Option<Seq<char>>)>,
    now1: i64,
    t: DbState,
    qs: Seq<(Seq<char>, Option<Seq<char>>)>,
    now2: i64,
    ids: Seq<i64>,
)
    requires
        s.upsert_participants(ps, now1, ids).1 is Ok,
        keeps_contacts(s.upsert_participants(ps, now1, ids).0, t),
        qs.len() == ps.len(),
        forall|k: int| 0 <= k < ps.len() ==> (#[trigger] qs[k]).0 == ps[k].0,
    ensures
        t.upsert_participants(qs, now2, ids).1 == s.upsert_participants(ps, now1, ids).1,
    decreases ps.len(),
{
    if ps.len() > 0 {
        let (s1, r1) = s.upsert_participants(ps.drop_last(), now1, ids);
        let (s2, r2) = s1.upsert_contact(ps.last().0, ps.last().1, now1);
        lemma_upsert_contact_facts(s1, ps.last().0, ps.last().1, now1);
        lemma_keeps_trans(s1, s2, t);
        assert forall|k: int| 0 <= k < ps.drop_last().len() implies (#[trigger] qs.drop_last()[k]).0
            == ps.drop_last()[k].0 by {
            assert(qs.drop_last()[k] == qs[k]);
            assert(ps.drop_last()[k] == ps[k]);
        }
        lemma_participants_again(s, ps.drop_last(), now1, t, qs.drop_last(), now2, ids);
        lemma_participants_facts(t, qs.drop_last(), now2, ids);
        let (t1, q1) = t.upsert_participants(qs.drop_last(), now2, ids);
        lemma_keeps_trans(s2, t, t1);
        let i = first_index(s2.contacts, contact_has_email(ps.last().0)).unwrap();
        assert(qs.last().0 == ps.last().0) by {
            assert(qs[qs.len() - 1].0 == ps[ps.len() - 1].0);
        }
        lemma_upsert_contact_found(s2, t1, ps.last().0, qs.last().1, now2, i);
    }
}


// ─── Dialogues ───────────────────────────────────────────────────────────────

/// What adding a member does: only membership rows of `conv` are added, and
/// on success `contact` is a member of `conv`.
proof fn lemma_add_member_facts(s: DbState, conv: i64, contact: i64, role: MemberRole)
    ensures
        ({
            let (s1, r) = s.add_member(conv, contact, role);
            &&& s1.conversations == s.conversations
            &&& s1.contacts == s.contacts
            &&& s1.threads == s.threads
            &&& s1.messages == s.messages
            &&& s1.seq_conversation == s.seq_conversation
            &&& s.members.len() <= s1.members.len()
            &&& forall|k: int| 0 <= k < s.members.len() ==> #[trigger] s1.members[k] == s.members[k]
            &&& forall|k: int|
                s.members.len() <= k < s1.members.len() ==> (#[trigger] s1.members[k]).conversation_id
                    == conv
            &&& r is Ok ==> s1.has_member(conv, contact)
        }),
{
    let (s1, r) = s.add_member(conv, contact, role);
    if !s.has_member(conv, contact) && r is Ok {
        let n = s.members.len() as int;
        assert(s1.members[n].conversation_id == conv && s1.members[n].contact_id == contact);
    }
}

/// Membership rows that only extend `s`'s with rows of `conv` leave the
/// membership of every other conversation as it was.
proof fn lemma_members_of_others(s: DbState, t: DbState, conv: i64, other: i64, contact: i64)
    requires
        s.members.len() <= t.members.len(),
        forall|k: int| 0 <= k < s.members.len() ==> #[trigger] t.members[k] == s.members[k],
        forall|k: int| s.members.len() <= k < t.members.len() ==> (#[trigger] t.members[k]).conversation_id == conv,
        other != conv,
    ensures
        t.has_member(other, contact) == s.has_member(other, contact),
{
    if t.has_member(other, contact) {
        let k = choose|k: int|
            0 <= k < t.members.len() && #[trigger] t.members[k].conversation_id == other
                && t.members[k].contact_id == contact;
        assert(k < s.members.len());
        assert(s.members[k].conversation_id == other);
    }
    if s.has_member(other, contact) {
        let k = choose|k: int|
            0 <= k < s.members.len() && #[trigger] s.members[k].conversation_id == other
                && s.members[k].contact_id == contact;
        assert(t.members[k].conversation_id == other);
    }
}

/// A dialogue created for `a` and `b` when they had none, with both added
/// as members, is the dialogue found for them afterwards.
proof fn lemma_new_dialogue_found(s: DbState, a: i64, b: i64)
    requires
        forall|i: int| 0 <= i < s.conversations.len() ==> #[trigger] s.conversations[i].id <= s.seq_conversation,
        s.direct_conversation(a, b) is None,
        ({
            let (s3, r3) = s.create_conversation(ConversationKind::Direct);
            &&& r3 is Ok
            &&& s3.add_member(r3->Ok_0, a, MemberRole::To).1 is Ok
            &&& s3.add_member(r3->Ok_0, a, MemberRole::To).0.add_member(r3->Ok_0, b, MemberRole::To).1 is Ok
        }),
    ensures
        ({
            let (s3, r3) = s.create_conversation(ConversationKind::Direct);
            let c = r3->Ok_0;
            let s5 = s3.add_member(c, a, MemberRole::To).0.add_member(c, b, MemberRole::To).0;
            &&& s5.direct_conversation(a, b) == Some(c)
            &&& s5.contacts == s.contacts
        }),
{
    let (s3, r3) = s.create_conversation(ConversationKind::Direct);
    let c = r3->Ok_0;
    let (s4, r4) = s3.add_member(c, a, MemberRole::To);
    let (s5, r5) = s4.add_member(c, b, MemberRole::To);
    lemma_add_member_facts(s3, c, a, MemberRole::To);
    lemma_add_member_facts(s4, c, b, MemberRole::To);
    let n = s.conversations.len() as int;
    assert(s5.conversations == s.conversations.push(s3.conversations[n]));
    assert(s5.conversations[n].id == c);
    assert(s3.members == s.members);
    // The members of `s5` extend those of `s` with rows of `c` only.
    assert forall|k: int| 0 <= k < s.members.len() implies #[trigger] s5.members[k] == s.members[k] by {
        assert(s4.members[k] == s3.members[k]);
    }
    assert forall|k: int| s.members.len() <= k < s5.members.len() implies (#[trigger] s5.members[k]).conversation_id
        == c by {
        if k < s4.members.len() {
            assert(s5.members[k] == s4.members[k]);
        }
    }
    // `a` is still a member of `c` after `b` was added.
    let ka = choose|k: int|
        0 <= k < s4.members.len() && #[trigger] s4.members[k].conversation_id == c && s4.members[k].contact_id == a;
    assert(s5.members[ka] == s4.members[ka]);
    assert(s5.has_member(c, a));
    let p5 = s5.is_direct_between(a, b);
    let p2 = s.is_direct_between(a, b);
    lemma_first_index(s.conversations, p2);
    assert forall|k: int| 0 <= k < n implies !p5(#[trigger] s5.conversations[k]) by {
        assert(s5.conversations[k] == s.conversations[k]);
        assert(!p2(s.conversations[k]));
        lemma_members_of_others(s, s5, c, s.conversations[k].id, a);
        lemma_members_of_others(s, s5, c, s.conversations[k].id, b);
    }
    assert(p5(s5.conversations[n]));
    lemma_first_index_at(s5.conversations, p5, n);
}


// ─── Groups ──────────────────────────────────────────────────────────────────

/// Selects the membership rows of conversation `c`.
spec fn in_conversation(c: i64) -> spec_fn(MemberRow) -> bool {
    |m: MemberRow| m.conversation_id == c
}

/// The contacts of conversation `c`'s membership rows, in the order the
/// rows were added.
spec fn member_contacts(s: DbState, c: i64) -> Seq<i64> {
    s.members.filter(in_conversation(c)).map_values(|m: MemberRow| m.contact_id)
}

/// A contact is a member of `c` exactly when it is among `c`'s rows' contacts.
proof fn lemma_member_iff(s: DbState, c: i64, x: i64)
    ensures
        s.has_member(c, x) == member_contacts(s, c).contains(x),
{
    let f = s.members.filter(in_conversation(c));
    if s.has_member(c, x) {
        let k = choose|k: int|
            0 <= k < s.members.len() && #[trigger] s.members[k].conversation_id == c
                && s.members[k].contact_id == x;
        s.members.lemma_filter_contains(in_conversation(c), k);
        let j = choose|j: int| 0 <= j < f.len() && f[j] == s.members[k];
        assert(member_contacts(s, c)[j] == x);
    }
    if member_contacts(s, c).contains(x) {
        let j = choose|j: int| 0 <= j < member_contacts(s, c).len() && member_contacts(s, c)[j] == x;
        assert(f[j].contact_id == x);
        s.members.lemma_filter_pred(in_conversation(c), j);
        assert(f.contains(f[j]));
        s.members.lemma_filter_contains_rev(in_conversation(c), f[j]);
        let k = choose|k: int| 0 <= k < s.members.len() && s.members[k] == f[j];
        assert(s.members[k].conversation_id == c && s.members[k].contact_id == x);
    }
}

/// Filters that agree on every element of a sequence select the same.
proof fn lemma_filter_agree<A>(s: Seq<A>, p: spec_fn(A) -> bool, q: spec_fn(A) -> bool)
    requires
        forall|i: int| 0 <= i < s.len() ==> p(#[trigger] s[i]) == q(s[i]),
    ensures
        s.filter(p) == s.filter(q),
    decreases s.len(),
{
    reveal(Seq::filter);
    if s.len() > 0 {
        assert forall|i: int| 0 <= i < s.drop_last().len() implies p(#[trigger] s.drop_last()[i]) == q(
            s.drop_last()[i],
        ) by {
            assert(s.drop_last()[i] == s[i]);
        }
        lemma_filter_agree(s.drop_last(), p, q);
        assert(p(s.last()) == q(s.last()));
    }
}

/// What enrolling does: the contacts keep their place, the conversations
/// stay, and only membership rows of `c` are added.
proof fn lemma_enroll_facts(
    u: DbState,
    c: i64,
    ps: Seq<(Seq<char>, Option<Seq<char>>)>,
    cc: Seq<Seq<char>>,
    all_cc: bool,
    now: i64,
)
    ensures
        ({
            let (v, r) = u.enroll(c, ps, cc, all_cc, now);
            &&& keeps_contacts(u, v)
            &&& v.conversations == u.conversations
            &&& v.threads == u.threads
            &&& v.messages == u.messages
            &&& v.seq_conversation == u.seq_conversation
            &&& u.members.len() <= v.members.len()
            &&& forall|k: int| 0 <= k < u.members.len() ==> #[trigger] v.members[k] == u.members[k]
            &&& forall|k: int|
                u.members.len() <= k < v.members.len() ==> (#[trigger] v.members[k]).conversation_id == c
        }),
    decreases ps.len(),
{
    if ps.len() > 0 {
        lemma_enroll_facts(u, c, ps.drop_last(), cc, all_cc, now);
        let (u1, r1) = u.enroll(c, ps.drop_last(), cc, all_cc, now);
        if r1 is Ok {
            lemma_upsert_contact_facts(u1, ps.last().0, ps.last().1, now);
            let (u2, r2) = u1.upsert_contact(ps.last().0, ps.last().1, now);
            lemma_keeps_trans(u, u1, u2);
            if let Ok(cid) = r2 {
                let role = super::threading::role_for(cc, all_cc, ps.last().0);
                lemma_add_member_facts(u2, c, cid, role);
                let (u3, r3) = u2.add_member(c, cid, role);
                assert(u3.contacts == u2.contacts);
                assert forall|k: int| 0 <= k < u.members.len() implies #[trigger] u3.members[k] == u.members[k] by {
                    assert(u3.members[k] == u2.members[k]);
                    assert(u1.members[k] == u.members[k]);
                }
                assert forall|k: int| u.members.len() <= k < u3.members.len() implies (
                #[trigger] u3.members[k]).conversation_id == c by {
                    if k < u2.members.len() {
                        assert(u3.members[k] == u2.members[k]);
                        assert(u2.members[k] == u1.members[k]);
                    }
                }
            }
        }
    }
}

/// Enrolling `ps` into a conversation whose rows' contacts are the
/// identifiers `ids` adds, in order, exactly the identifiers that recording
/// `ps` collects after `ids`, in a state that keeps the contacts that
/// recording left.
proof fn lemma_enroll_mirrors(
    sa: DbState,
    ps: Seq<(Seq<char>, Option<Seq<char>>)>,
    now: i64,
    ids: Seq<i64>,
    u: DbState,
    c: i64,
    cc: Seq<Seq<char>>,
)
    requires
        sa.upsert_participants(ps, now, ids).1 is Ok,
        keeps_contacts(sa.upsert_participants(ps, now, ids).0, u),
        u.enroll(c, ps, cc, false, now).1 is Ok,
        member_contacts(u, c) == ids,
    ensures
        member_contacts(u.enroll(c, ps, cc, false, now).0, c) == sa.upsert_participants(ps, now, ids).1->Ok_0,
    decreases ps.len(),
{
    if ps.len() > 0 {
        let (s1, r1) = sa.upsert_participants(ps.drop_last(), now, ids);
        let got1 = r1->Ok_0;
        lemma_upsert_contact_facts(s1, ps.last().0, ps.last().1, now);
        let (s2, r2) = s1.upsert_contact(ps.last().0, ps.last().1, now);
        let cid = r2->Ok_0;
        lemma_keeps_trans(s1, s2, u);
        lemma_enroll_mirrors(sa, ps.drop_last(), now, ids, u, c, cc);
        lemma_enroll_facts(u, c, ps.drop_last(), cc, false, now);
        let (u1, q1) = u.enroll(c, ps.drop_last(), cc, false, now);
        lemma_keeps_trans(s2, u, u1);
        let i = first_index(s2.contacts, contact_has_email(ps.last().0)).unwrap();
        lemma_upsert_contact_found(s2, u1, ps.last().0, ps.last().1, now, i);
        lemma_upsert_contact_facts(u1, ps.last().0, ps.last().1, now);
        let (u2, q2) = u1.upsert_contact(ps.last().0, ps.last().1, now);
        assert(member_contacts(u2, c) == got1);
        let role = super::threading::role_for(cc, false, ps.last().0);
        let (u3, q3) = u2.add_member(c, cid, role);
        lemma_member_iff(u2, c, cid);
        if !u2.has_member(c, cid) {
            let row = MemberRow { rowid: u3.members.last().rowid, conversation_id: c, contact_id: cid, role };
            assert(u3.members == u2.members.push(row));
            u2.members.lemma_filter_push(row, in_conversation(c));
            assert(member_contacts(u3, c) =~= got1.push(cid));
        }
    }
}

/// Membership rows that only extend `s`'s with rows of `conv` leave the
/// member counts of every other conversation as they were.
proof fn lemma_counts_of_others(s: DbState, t: DbState, conv: i64, other: i64, ids: Seq<i64>)
    requires
        s.members.len() <= t.members.len(),
        forall|k: int| 0 <= k < s.members.len() ==> #[trigger] t.members[k] == s.members[k],
        forall|k: int| s.members.len() <= k < t.members.len() ==> (#[trigger] t.members[k]).conversation_id == conv,
        other != conv,
    ensures
        t.member_count(other) == s.member_count(other),
        t.member_count_among(other, ids) == s.member_count_among(other, ids),
{
    let extra = t.members.skip(s.members.len() as int);
    assert(t.members =~= s.members + extra);
    let p = |m: MemberRow| m.conversation_id == other;
    let q = |m: MemberRow| m.conversation_id == other && ids.contains(m.contact_id);
    Seq::filter_distributes_over_add(s.members, extra, p);
    Seq::filter_distributes_over_add(s.members, extra, q);
    assert(extra.all(|x: MemberRow| !p(x))) by {
        assert forall|i: int| 0 <= i < extra.len() implies !p(#[trigger] extra[i]) by {
            assert(extra[i] == t.members[s.members.len() + i]);
        }
    }
    assert(extra.all(|x: MemberRow| !q(x))) by {
        assert forall|i: int| 0 <= i < extra.len() implies !q(#[trigger] extra[i]) by {
            assert(extra[i] == t.members[s.members.len() + i]);
        }
    }
    extra.lemma_all_neg_filter_empty(p);
    extra.lemma_all_neg_filter_empty(q);
    assert(t.members.filter(p) =~= s.members.filter(p));
    assert(t.members.filter(q) =~= s.members.filter(q));
}

/// A group created for the contacts `ids` that recording `ps` collected
/// after ourselves, when no conversation had exactly them, with ourselves
/// added and then `ps` enrolled, is the group found for them afterwards.
proof fn lemma_new_group_found(
    sa: DbState,
    ps: Seq<(Seq<char>, Option<Seq<char>>)>,
    now: i64,
    my_id: i64,
    cc: Seq<Seq<char>>,
)
    requires
        sa.upsert_participants(ps, now, seq![my_id]).1 is Ok,
        ({
            let s2 = sa.upsert_participants(ps, now, seq![my_id]).0;
            let ids = sa.upsert_participants(ps, now, seq![my_id]).1->Ok_0;
            let (s3, r3) = s2.create_conversation(ConversationKind::Group);
            let (s4, r4) = s3.add_member(r3->Ok_0, my_id, MemberRole::To);
            &&& ids.len() > 0
            &&& forall|i: int|
                0 <= i < s2.conversations.len() ==> #[trigger] s2.conversations[i].id <= s2.seq_conversation
            &&& forall|i: int|
                0 <= i < s2.members.len() ==> #[trigger] s2.members[i].conversation_id <= s2.seq_conversation
            &&& s2.group_conversation(ids) is None
            &&& r3 is Ok
            &&& r4 is Ok
            &&& s4.enroll(r3->Ok_0, ps, cc, false, now).1 is Ok
        }),
    ensures
        ({
            let s2 = sa.upsert_participants(ps, now, seq![my_id]).0;
            let ids = sa.upsert_participants(ps, now, seq![my_id]).1->Ok_0;
            let (s3, r3) = s2.create_conversation(ConversationKind::Group);
            let c = r3->Ok_0;
            let s4 = s3.add_member(c, my_id, MemberRole::To).0;
            let s5 = s4.enroll(c, ps, cc, false, now).0;
            &&& s5.group_conversation(ids) == Some(c)
            &&& keeps_contacts(s2, s5)
        }),
{
    let s2 = sa.upsert_participants(ps, now, seq![my_id]).0;
    let ids = sa.upsert_participants(ps, now, seq![my_id]).1->Ok_0;
    let (s3, r3) = s2.create_conversation(ConversationKind::Group);
    let c = r3->Ok_0;
    let (s4, r4) = s3.add_member(c, my_id, MemberRole::To);
    let (s5, r5) = s4.enroll(c, ps, cc, false, now);
    let n = s2.conversations.len() as int;
    assert(s3.members == s2.members);
    // `c` has no rows before ourselves are added.
    assert(s3.members.all(|x: MemberRow| !in_conversation(c)(x))) by {
        assert forall|i: int| 0 <= i < s3.members.len() implies !in_conversation(c)(#[trigger] s3.members[i]) by {
            assert(s3.members[i] == s2.members[i]);
        }
    }
    s3.members.lemma_all_neg_filter_empty(in_conversation(c));
    assert(member_contacts(s3, c).len() == 0);
    lemma_member_iff(s3, c, my_id);
    let row = MemberRow { rowid: s4.members.last().rowid, conversation_id: c, contact_id: my_id, role: MemberRole::To };
    assert(s4.members == s3.members.push(row));
    s3.members.lemma_filter_push(row, in_conversation(c));
    assert(member_contacts(s4, c) =~= seq![my_id]);
    assert(keeps_contacts(s2, s4));
    lemma_enroll_mirrors(sa, ps, now, seq![my_id], s4, c, cc);
    lemma_enroll_facts(s4, c, ps, cc, false, now);
    lemma_keeps_trans(s2, s4, s5);
    assert(member_contacts(s5, c) == ids);
    // The rows of `s5` extend those of `s2` with rows of `c` only.
    assert forall|k: int| 0 <= k < s2.members.len() implies #[trigger] s5.members[k] == s2.members[k] by {
        assert(s5.members[k] == s4.members[k]);
        assert(s4.members[k] == s3.members[k]);
    }
    assert forall|k: int| s2.members.len() <= k < s5.members.len() implies (#[trigger] s5.members[k]).conversation_id
        == c by {
        if k < s4.members.len() {
            assert(s5.members[k] == s4.members[k]);
        }
    }
    // `c` has exactly the members `ids`.
    let count_p = |m: MemberRow| m.conversation_id == c;
    let among_p = |m: MemberRow| m.conversation_id == c && ids.contains(m.contact_id);
    lemma_filter_agree(s5.members, in_conversation(c), count_p);
    assert forall|i: int| 0 <= i < s5.members.len() implies among_p(#[trigger] s5.members[i]) == in_conversation(c)(
        s5.members[i],
    ) by {
        if s5.members[i].conversation_id == c {
            s5.members.lemma_filter_contains(in_conversation(c), i);
            let f = s5.members.filter(in_conversation(c));
            let j = choose|j: int| 0 <= j < f.len() && f[j] == s5.members[i];
            assert(member_contacts(s5, c)[j] == s5.members[i].contact_id);
        }
    }
    lemma_filter_agree(s5.members, among_p, in_conversation(c));
    assert(s5.conversations == s2.conversations.push(s3.conversations[n]));
    assert(s5.conversations[n].id == c);
    let p5 = s5.has_exactly(ids);
    let p2 = s2.has_exactly(ids);
    assert(p5(s5.conversations[n]));
    lemma_first_index(s2.conversations, p2);
    assert forall|k: int| 0 <= k < n implies !p5(#[trigger] s5.conversations[k]) by {
        assert(s5.conversations[k] == s2.conversations[k]);
        assert(!p2(s2.conversations[k]));
        lemma_counts_of_others(s2, s5, c, s2.conversations[k].id, ids);
    }
    lemma_first_index_at(s5.conversations, p5, n);
}

/// A dialogue created when we and the one contact `ps` collected had none,
/// with ourselves added and then `ps` enrolled, is the dialogue found for us
/// two afterwards.
proof fn lemma_new_dialogue_enrolled(
    sa: DbState,
    ps: Seq<(Seq<char>, Option<Seq<char>>)>,
    now: i64,
    my_id: i64,
)
    requires
        sa.upsert_participants(ps, now, seq![my_id]).1 is Ok,
        ({
            let s2 = sa.upsert_participants(ps, now, seq![my_id]).0;
            let ids = sa.upsert_participants(ps, now, seq![my_id]).1->Ok_0;
            let (s3, r3) = s2.create_conversation(ConversationKind::Direct);
            let (s4, r4) = s3.add_member(r3->Ok_0, my_id, MemberRole::To);
            &&& ids.len() == 2
            &&& ids[0] == my_id
            &&& forall|i: int|
                0 <= i < s2.conversations.len() ==> #[trigger] s2.conversations[i].id <= s2.seq_conversation
            &&& forall|i: int|
                0 <= i < s2.members.len() ==> #[trigger] s2.members[i].conversation_id <= s2.seq_conversation
            &&& s2.direct_conversation(my_id, ids[1]) is None
            &&& r3 is Ok
            &&& r4 is Ok
            &&& s4.enroll(r3->Ok_0, ps, seq![], false, now).1 is Ok
        }),
    ensures
        ({
            let s2 = sa.upsert_participants(ps, now, seq![my_id]).0;
            let ids = sa.upsert_participants(ps, now, seq![my_id]).1->Ok_0;
            let (s3, r3) = s2.create_conversation(ConversationKind::Direct);
            let c = r3->Ok_0;
            let s4 = s3.add_member(c, my_id, MemberRole::To).0;
            let s5 = s4.enroll(c, ps, seq![], false, now).0;
            &&& s5.direct_conversation(my_id, ids[1]) == Some(c)
            &&& keeps_contacts(s2, s5)
        }),
{
    let s2 = sa.upsert_participants(ps, now, seq![my_id]).0;
    let ids = sa.upsert_participants(ps, now, seq![my_id]).1->Ok_0;
    let (s3, r3) = s2.create_conversation(ConversationKind::Direct);
    let c = r3->Ok_0;
    let (s4, r4) = s3.add_member(c, my_id, MemberRole::To);
    let (s5, r5) = s4.enroll(c, ps, seq![], false, now);
    let n = s2.conversations.len() as int;
    assert(s3.members == s2.members);
    assert(s3.members.all(|x: MemberRow| !in_conversation(c)(x))) by {
        assert forall|i: int| 0 <= i < s3.members.len() implies !in_conversation(c)(#[trigger] s3.members[i]) by {
            assert(s3.members[i] == s2.members[i]);
        }
    }
    s3.members.lemma_all_neg_filter_empty(in_conversation(c));
    lemma_member_iff(s3, c, my_id);
    let row = MemberRow { rowid: s4.members.last().rowid, conversation_id: c, contact_id: my_id, role: MemberRole::To };
    assert(s4.members == s3.members.push(row));
    s3.members.lemma_filter_push(row, in_conversation(c));
    assert(member_contacts(s4, c) =~= seq![my_id]);
    assert(keeps_contacts(s2, s4));
    lemma_enroll_mirrors(sa, ps, now, seq![my_id], s4, c, seq![]);
    lemma_enroll_facts(s4, c, ps, seq![], false, now);
    lemma_keeps_trans(s2, s4, s5);
    assert(member_contacts(s5, c) == ids);
    lemma_member_iff(s5, c, my_id);
    lemma_member_iff(s5, c, ids[1]);
    assert(member_contacts(s5, c)[0] == my_id);
    assert(member_contacts(s5, c)[1] == ids[1]);
    assert forall|k: int| 0 <= k < s2.members.len() implies #[trigger] s5.members[k] == s2.members[k] by {
        assert(s5.members[k] == s4.members[k]);
        assert(s4.members[k] == s3.members[k]);
    }
    assert forall|k: int| s2.members.len() <= k < s5.members.len() implies (#[trigger] s5.members[k]).conversation_id
        == c by {
        if k < s4.members.len() {
            assert(s5.members[k] == s4.members[k]);
        }
    }
    assert(s5.conversations == s2.conversations.push(s3.conversations[n]));
    assert(s5.conversations[n].id == c);
    let p5 = s5.is_direct_between(my_id, ids[1]);
    let p2 = s2.is_direct_between(my_id, ids[1]);
    assert(p5(s5.conversations[n]));
    lemma_first_index(s2.conversations, p2);
    assert forall|k: int| 0 <= k < n implies !p5(#[trigger] s5.conversations[k]) by {
        assert(s5.conversations[k] == s2.conversations[k]);
        assert(!p2(s2.conversations[k]));
        lemma_members_of_others(s2, s5, c, s2.conversations[k].id, my_id);
        lemma_members_of_others(s2, s5, c, s2.conversations[k].id, ids[1]);
    }
    lemma_first_index_at(s5.conversations, p5, n);
}

/// The dialogue found for two contacts depends only on the conversations and
/// their members.
proof fn lemma_direct_same(s: DbState, t: DbState, a: i64, b: i64)
    requires
        s.conversations == t.conversations,
        s.members == t.members,
    ensures
        s.direct_conversation(a, b) == t.direct_conversation(a, b),
{
    assert(s.is_direct_between(a, b) =~= t.is_direct_between(a, b));
}

/// The group found for some contacts depends only on the conversations and
/// their members.
proof fn lemma_group_same(s: DbState, t: DbState, ids: Seq<i64>)
    requires
        s.conversations == t.conversations,
        s.members == t.members,
    ensures
        s.group_conversation(ids) == t.group_conversation(ids),
{
    assert(s.has_exactly(ids) =~= t.has_exactly(ids));
}

/// Recording participants collects, for each of them, the identifier of
/// the first contact with its address.
proof fn lemma_participants_collect(
    s: DbState,
    ps: Seq<(Seq<char>, Option<Seq<char>>)>,
    now: i64,
    ids: Seq<i64>,
)
    ensures
        ({
            let (s1, r) = s.upsert_participants(ps, now, ids);
            r matches Ok(got) ==> {
                &&& forall|x: i64| ids.contains(x) ==> got.contains(x)
                &&& forall|k: int|
                    0 <= k < ps.len() ==> (first_index(s1.contacts, contact_has_email((#[trigger] ps[k]).0)) matches Some(
                        i,
                    ) && 0 <= i < s1.contacts.len() && got.contains(s1.contacts[i].id))
            }
        }),
    decreases ps.len(),
{
    if ps.len() > 0 {
        lemma_participants_collect(s, ps.drop_last(), now, ids);
        let (s1, r1) = s.upsert_participants(ps.drop_last(), now, ids);
        if let Ok(got1) = r1 {
            lemma_upsert_contact_facts(s1, ps.last().0, ps.last().1, now);
            let (s2, r2) = s1.upsert_contact(ps.last().0, ps.last().1, now);
            if let Ok(cid) = r2 {
                let got = if got1.contains(cid) {
                    got1
                } else {
                    got1.push(cid)
                };
                assert forall|x: i64| got1.contains(x) implies got.contains(x) by {
                    if !got1.contains(cid) {
                        let j = choose|j: int| 0 <= j < got1.len() && got1[j] == x;
                        assert(got[j] == x);
                    }
                }
                assert(got.contains(cid)) by {
                    if !got1.contains(cid) {
                        assert(got[got1.len() as int] == cid);
                    }
                }
                assert forall|k: int| 0 <= k < ps.len() implies (first_index(
                    s2.contacts,
                    contact_has_email((#[trigger] ps[k]).0),
                ) matches Some(i) && 0 <= i < s2.contacts.len() && got.contains(s2.contacts[i].id)) by {
                    if k < ps.len() - 1 {
                        assert(ps.drop_last()[k] == ps[k]);
                        let i = first_index(s1.contacts, contact_has_email(ps[k].0)).unwrap();
                        lemma_upsert_contact_found(s1, s2, ps[k].0, None, now, i);
                    }
                }
            }
        }
    }
}

/// No participant of a message has our own address (compared lower-cased).
proof fn lemma_participants_not_me(p: ParsedEmailView, me: Seq<char>)
    ensures
        forall|k: int|
            0 <= k < participants_of(p, me).len() ==> unicode_lowercase((#[trigger] participants_of(p, me)[k]).0)
                != unicode_lowercase(me),
{
    let from = if unicode_lowercase(p.from_email) != unicode_lowercase(me) {
        seq![(p.from_email, p.from_name)]
    } else {
        seq![]
    };
    let tos = p.to.filter(not_me(me));
    let ccs = p.cc.filter(not_me(me));
    lemma_filter_elems(p.to, not_me(me));
    lemma_filter_elems(p.cc, not_me(me));
    assert(participants_of(p, me) == from + tos + ccs);
    assert forall|k: int| 0 <= k < participants_of(p, me).len() implies unicode_lowercase(
        (#[trigger] participants_of(p, me)[k]).0,
    ) != unicode_lowercase(me) by {
        if k < from.len() {
            assert(participants_of(p, me)[k] == from[k]);
        } else if k < from.len() + tos.len() {
            assert(participants_of(p, me)[k] == tos[k - from.len()]);
            assert(not_me(me)(tos[k - from.len()]));
        } else {
            assert(participants_of(p, me)[k] == ccs[k - from.len() - tos.len()]);
            assert(not_me(me)(ccs[k - from.len() - tos.len()]));
        }
    }
}

// ─── Placing and placing again ───────────────────────────────────────────────

/// The conversation with exactly the contacts `ids` (ourselves first): the
/// dialogue of the two, or else the group of all.
spec fn conversation_of(st: DbState, ids: Seq<i64>) -> Option<i64> {
    if ids.len() == 2 {
        st.direct_conversation(ids[0], ids[1])
    } else {
        st.group_conversation(ids)
    }
}

/// Ourselves as recorded in `s`, at `now`.
pub open spec fn me_recorded(s: DbState, me: Seq<char>, now: i64) -> (DbState, crate::error::AppResult<i64>) {
    s.upsert_contact(me, None, now)
}

/// Ourselves and then `ps` as recorded in `s`, at `now`.
pub open spec fn all_recorded(s: DbState, ps: Seq<(Seq<char>, Option<Seq<char>>)>, me: Seq<char>, now: i64) -> (
    DbState,
    crate::error::AppResult<Seq<i64>>,
) {
    let (sa, ra) = me_recorded(s, me, now);
    sa.upsert_participants(ps, now, seq![ra->Ok_0])
}

/// What placing a message with participants `ps` in `s` left in `s1`:
/// ourselves and `ps` were recorded, collecting the contacts `ids`, `s1`
/// keeps those contacts, and its conversation of exactly `ids` is `c`.
spec fn placed(
    s: DbState,
    ps: Seq<(Seq<char>, Option<Seq<char>>)>,
    me: Seq<char>,
    now: i64,
    s1: DbState,
    c: i64,
) -> bool {
    &&& me_recorded(s, me, now).1 is Ok
    &&& all_recorded(s, ps, me, now).1 is Ok
    &&& keeps_contacts(all_recorded(s, ps, me, now).0, s1)
    &&& conversation_of(s1, all_recorded(s, ps, me, now).1->Ok_0) == Some(c)
}

/// The facts about recording ourselves and then `ps` in a store with the
/// store's integrity.
proof fn lemma_recorded_facts(s: DbState, ps: Seq<(Seq<char>, Option<Seq<char>>)>, me: Seq<char>, now: i64)
    requires
        s.wf(),
        all_recorded(s, ps, me, now).1 is Ok,
        me_recorded(s, me, now).1 is Ok,
    ensures
        ({
            let (sa, ra) = me_recorded(s, me, now);
            let (sb, rb) = all_recorded(s, ps, me, now);
            let ids = rb->Ok_0;
            &&& keeps_contacts(sa, sb)
            &&& sb.conversations == s.conversations
            &&& sb.members == s.members
            &&& sb.seq_conversation == s.seq_conversation
            &&& ids.no_duplicates()
            &&& ids.len() >= 1
            &&& ids[0] == ra->Ok_0
            &&& forall|i: int| 0 <= i < sb.conversations.len() ==> #[trigger] sb.conversations[i].id <= sb.seq_conversation
            &&& forall|i: int| 0 <= i < sb.members.len() ==> #[trigger] sb.members[i].conversation_id <= sb.seq_conversation
            &&& (exists|k: int| 0 <= k < ps.len() && (#[trigger] ps[k]).0 != me) ==> ids.len() >= 2
        }),
{
    let (sa, ra) = me_recorded(s, me, now);
    let my_id = ra->Ok_0;
    lemma_upsert_contact_facts(s, me, None, now);
    let (sb, rb) = all_recorded(s, ps, me, now);
    lemma_participants_facts(sa, ps, now, seq![my_id]);
    super::threading::law_upsert_participants_distinct(sa, ps, now, seq![my_id]);
    let ids = rb->Ok_0;
    assert(ids[0] == my_id) by {
        assert(ids.take(1)[0] == ids[0]);
    }
    assert forall|i: int| 0 <= i < sb.members.len() implies #[trigger] sb.members[i].conversation_id
        <= sb.seq_conversation by {
        assert(s.has_conversation(s.members[i].conversation_id));
        let j = choose|j: int|
            0 <= j < s.conversations.len() && #[trigger] s.conversations[j].id == s.members[i].conversation_id;
        assert(s.conversations[j].id <= s.seq_conversation);
    }
    if exists|k: int| 0 <= k < ps.len() && (#[trigger] ps[k]).0 != me {
        let k = choose|k: int| 0 <= k < ps.len() && (#[trigger] ps[k]).0 != me;
        lemma_participants_collect(sa, ps, now, seq![my_id]);
        let i_me = first_index(sa.contacts, contact_has_email(me)).unwrap();
        lemma_upsert_contact_found(sa, sb, me, None, now, i_me);
        let j = first_index(sb.contacts, contact_has_email(ps[k].0)).unwrap();
        lemma_first_index(sb.contacts, contact_has_email(ps[k].0));
        lemma_first_index(sb.contacts, contact_has_email(me));
        assert(contact_ids_ok(s));
        assert(i_me != j);
        assert(sb.contacts[i_me].id != sb.contacts[j].id) by {
            if i_me < j {
                assert(sb.contacts[i_me].id < sb.contacts[j].id);
            } else {
                assert(sb.contacts[j].id < sb.contacts[i_me].id);
            }
        }
        if ids.len() < 2 {
            let x = choose|x: int| 0 <= x < ids.len() && ids[x] == sb.contacts[j].id;
            assert(x == 0);
        }
    }
}

/// Placing an incoming message (no newsletter, no reply) in the
/// conversation of its participants.
proof fn lemma_contact_placed(s: DbState, p: ParsedEmailView, me: Seq<char>, now: i64)
    requires
        s.wf(),
        s.contact_conversation(p, me, now).1 is Ok,
    ensures
        placed(
            s,
            participants_of(p, me),
            me,
            now,
            s.contact_conversation(p, me, now).0,
            s.contact_conversation(p, me, now).1->Ok_0,
        ),
{
    let ps = participants_of(p, me);
    let (s1, r1) = s.contact_conversation(p, me, now);
    let c = r1->Ok_0;
    let (sa, ra) = me_recorded(s, me, now);
    let my_id = ra->Ok_0;
    let (sb, rb) = all_recorded(s, ps, me, now);
    lemma_recorded_facts(s, ps, me, now);
    let ids = rb->Ok_0;
    if ids.len() == 2 {
        let other = ids[1];
        assert(other != my_id);
        match sb.direct_conversation(my_id, other) {
            Some(d) => {
                assert(s1 == sb && c == d);
            },
            None => {
                lemma_new_dialogue_found(sb, my_id, other);
            },
        }
    } else {
        match sb.group_conversation(ids) {
            Some(d) => {
                assert(s1 == sb && c == d);
            },
            None => {
                lemma_new_group_found(sa, ps, now, my_id, emails_of(p.cc));
            },
        }
    }
}

/// Placing a message we send to `ps`, when one of them has another address
/// than ours, in the conversation of its participants.
proof fn lemma_sent_placed(s: DbState, ps: Seq<(Seq<char>, Option<Seq<char>>)>, me: Seq<char>, now: i64)
    requires
        s.wf(),
        exists|k: int| 0 <= k < ps.len() && (#[trigger] ps[k]).0 != me,
        s.conversation_for_participants(ps, me, now).1 is Ok,
    ensures
        placed(
            s,
            ps,
            me,
            now,
            s.conversation_for_participants(ps, me, now).0,
            s.conversation_for_participants(ps, me, now).1->Ok_0,
        ),
        all_recorded(s, ps, me, now).1->Ok_0.len() >= 2,
{
    let (s1, r1) = s.conversation_for_participants(ps, me, now);
    let c = r1->Ok_0;
    let (sa, ra) = me_recorded(s, me, now);
    let my_id = ra->Ok_0;
    let (sb, rb) = all_recorded(s, ps, me, now);
    lemma_recorded_facts(s, ps, me, now);
    let ids = rb->Ok_0;
    if ids.len() == 2 {
        let other = ids[1];
        assert(other != my_id);
        match sb.direct_conversation(my_id, other) {
            Some(d) => {
                assert(s1 == sb && c == d);
            },
            None => {
                lemma_new_dialogue_enrolled(sa, ps, now, my_id);
            },
        }
    } else {
        match sb.group_conversation(ids) {
            Some(d) => {
                assert(s1 == sb && c == d);
            },
            None => {
                lemma_new_group_found(sa, ps, now, my_id, seq![]);
            },
        }
    }
}

/// Placing an incoming message (no newsletter, no reply) whose participants
/// have the addresses of `ps`, after `ps` was placed in `c`, in any state
/// `t` with the contacts, conversations and members that placing left.
proof fn lemma_contact_again(
    s: DbState,
    ps: Seq<(Seq<char>, Option<Seq<char>>)>,
    me: Seq<char>,
    now1: i64,
    s1: DbState,
    c: i64,
    t: DbState,
    q: ParsedEmailView,
    now2: i64,
)
    requires
        placed(s, ps, me, now1, s1, c),
        t.contacts == s1.contacts,
        t.conversations == s1.conversations,
        t.members == s1.members,
        emails_of(participants_of(q, me)) == emails_of(ps),
    ensures
        t.contact_conversation(q, me, now2).1 == Ok::<i64, crate::error::AppError>(c),
        ({
            let u = t.contact_conversation(q, me, now2).0;
            &&& u.conversations == t.conversations
            &&& u.members == t.members
            &&& u.threads == t.threads
            &&& u.messages == t.messages
        }),
{
    let qs = participants_of(q, me);
    lemma_same_addresses(ps, qs);
    let (sa, ra) = me_recorded(s, me, now1);
    let my_id = ra->Ok_0;
    lemma_upsert_contact_facts(s, me, None, now1);
    let i_me = first_index(sa.contacts, contact_has_email(me)).unwrap();
    let (sb, rb) = all_recorded(s, ps, me, now1);
    let ids = rb->Ok_0;
    lemma_participants_facts(sa, ps, now1, seq![my_id]);
    super::threading::law_upsert_participants_distinct(sa, ps, now1, seq![my_id]);
    assert(ids[0] == my_id) by {
        assert(ids.take(1)[0] == ids[0]);
    }
    assert(keeps_contacts(s1, t));
    lemma_keeps_trans(sb, s1, t);
    lemma_keeps_trans(sa, sb, t);
    lemma_upsert_contact_found(sa, t, me, None, now2, i_me);
    lemma_upsert_contact_facts(t, me, None, now2);
    let (sc, rc) = t.upsert_contact(me, None, now2);
    lemma_keeps_trans(sb, t, sc);
    lemma_participants_again(sa, ps, now1, sc, qs, now2, seq![my_id]);
    lemma_participants_facts(sc, qs, now2, seq![my_id]);
    let (sd, rd) = sc.upsert_participants(qs, now2, seq![my_id]);
    if ids.len() == 2 {
        lemma_direct_same(s1, sd, ids[0], ids[1]);
    } else {
        lemma_group_same(s1, sd, ids);
    }
}

/// Placing a message we send to `qs`, with the addresses of `ps`, after `ps`
/// was placed in `c` collecting at least one contact besides ourselves, in
/// any state `t` with the contacts, conversations and members that placing
/// left.
proof fn lemma_sent_again(
    s: DbState,
    ps: Seq<(Seq<char>, Option<Seq<char>>)>,
    me: Seq<char>,
    now1: i64,
    s1: DbState,
    c: i64,
    t: DbState,
    qs: Seq<(Seq<char>, Option<Seq<char>>)>,
    now2: i64,
)
    requires
        placed(s, ps, me, now1, s1, c),
        all_recorded(s, ps, me, now1).1->Ok_0.len() >= 2,
        t.contacts == s1.contacts,
        t.conversations == s1.conversations,
        t.members == s1.members,
        emails_of(qs) == emails_of(ps),
    ensures
        t.conversation_for_participants(qs, me, now2).1 == Ok::<i64, crate::error::AppError>(c),
        ({
            let u = t.conversation_for_participants(qs, me, now2).0;
            &&& u.conversations == t.conversations
            &&& u.members == t.members
            &&& u.threads == t.threads
            &&& u.messages == t.messages
        }),
{
    lemma_same_addresses(ps, qs);
    let (sa, ra) = me_recorded(s, me, now1);
    let my_id = ra->Ok_0;
    lemma_upsert_contact_facts(s, me, None, now1);
    let i_me = first_index(sa.contacts, contact_has_email(me)).unwrap();
    let (sb, rb) = all_recorded(s, ps, me, now1);
    let ids = rb->Ok_0;
    lemma_participants_facts(sa, ps, now1, seq![my_id]);
    super::threading::law_upsert_participants_distinct(sa, ps, now1, seq![my_id]);
    assert(ids[0] == my_id) by {
        assert(ids.take(1)[0] == ids[0]);
    }
    assert(keeps_contacts(s1, t));
    lemma_keeps_trans(sb, s1, t);
    lemma_keeps_trans(sa, sb, t);
    lemma_upsert_contact_found(sa, t, me, None, now2, i_me);
    lemma_upsert_contact_facts(t, me, None, now2);
    let (sc, rc) = t.upsert_contact(me, None, now2);
    lemma_keeps_trans(sb, t, sc);
    lemma_participants_again(sa, ps, now1, sc, qs, now2, seq![my_id]);
    lemma_participants_facts(sc, qs, now2, seq![my_id]);
    let (sd, rd) = sc.upsert_participants(qs, now2, seq![my_id]);
    if ids.len() == 2 {
        lemma_direct_same(s1, sd, ids[0], ids[1]);
    } else {
        lemma_group_same(s1, sd, ids);
    }
}

/// Two lists of participants with the same addresses have the same length
/// and the same address at each position.
proof fn lemma_same_addresses(ps: Seq<(Seq<char>, Option<Seq<char>>)>, qs: Seq<(Seq<char>, Option<Seq<char>>)>)
    requires
        emails_of(qs) == emails_of(ps),
    ensures
        qs.len() == ps.len(),
        forall|k: int| 0 <= k < ps.len() ==> (#[trigger] qs[k]).0 == ps[k].0,
{
    assert(emails_of(qs).len() == qs.len());
    assert(emails_of(ps).len() == ps.len());
    assert forall|k: int| 0 <= k < ps.len() implies (#[trigger] qs[k]).0 == ps[k].0 by {
        assert(emails_of(qs)[k] == qs[k].0);
        assert(emails_of(ps)[k] == ps[k].0);
    }
}

/// Placing in the conversation of the participants leaves the messages and
/// threads as they were.
proof fn lemma_contact_conversation_keeps(s: DbState, p: ParsedEmailView, me: Seq<char>, now: i64)
    ensures
        s.contact_conversation(p, me, now).0.messages == s.messages,
        s.contact_conversation(p, me, now).0.threads == s.threads,
{
    let ps = participants_of(p, me);
    let (sa, ra) = s.upsert_contact(me, None, now);
    lemma_upsert_contact_facts(s, me, None, now);
    if let Ok(my_id) = ra {
        let (sb, rb) = sa.upsert_participants(ps, now, seq![my_id]);
        lemma_participants_facts(sa, ps, now, seq![my_id]);
        if let Ok(ids) = rb {
            let kind = if ids.len() == 2 {
                ConversationKind::Direct
            } else {
                ConversationKind::Group
            };
            let (s3, r3) = sb.create_conversation(kind);
            if let Ok(c) = r3 {
                lemma_add_member_facts(s3, c, my_id, MemberRole::To);
                let s4 = s3.add_member(c, my_id, MemberRole::To).0;
                if ids.len() == 2 {
                    lemma_add_member_facts(s4, c, ids[1], MemberRole::To);
                } else {
                    lemma_enroll_facts(s4, c, ps, emails_of(p.cc), false, now);
                }
            }
        }
    }
}

/// The stored message a message answers depends only on the messages.
proof fn lemma_reply_target_same(s: DbState, t: DbState, p: ParsedEmailView)
    requires
        s.messages == t.messages,
    ensures
        s.reply_target(p) == t.reply_target(p),
{
    assert(s.is_stored_mid() =~= t.is_stored_mid());
}

/// After enrolling `ps` into `c` succeeds, each of them is, by its address's
/// first contact, a member of `c`.
proof fn lemma_enroll_makes_members(
    u: DbState,
    c: i64,
    ps: Seq<(Seq<char>, Option<Seq<char>>)>,
    cc: Seq<Seq<char>>,
    all_cc: bool,
    now: i64,
)
    requires
        u.enroll(c, ps, cc, all_cc, now).1 is Ok,
    ensures
        ({
            let v = u.enroll(c, ps, cc, all_cc, now).0;
            forall|k: int|
                0 <= k < ps.len() ==> (first_index(v.contacts, contact_has_email((#[trigger] ps[k]).0)) matches Some(
                    i,
                ) && 0 <= i < v.contacts.len() && v.has_member(c, v.contacts[i].id))
        }),
    decreases ps.len(),
{
    if ps.len() > 0 {
        lemma_enroll_makes_members(u, c, ps.drop_last(), cc, all_cc, now);
        let (u1, r1) = u.enroll(c, ps.drop_last(), cc, all_cc, now);
        lemma_upsert_contact_facts(u1, ps.last().0, ps.last().1, now);
        let (u2, r2) = u1.upsert_contact(ps.last().0, ps.last().1, now);
        let cid = r2->Ok_0;
        let role = super::threading::role_for(cc, all_cc, ps.last().0);
        lemma_add_member_facts(u2, c, cid, role);
        let (u3, r3) = u2.add_member(c, cid, role);
        assert forall|k: int| 0 <= k < ps.len() implies (first_index(
            u3.contacts,
            contact_has_email((#[trigger] ps[k]).0),
        ) matches Some(i) && 0 <= i < u3.contacts.len() && u3.has_member(c, u3.contacts[i].id)) by {
            if k < ps.len() - 1 {
                assert(ps.drop_last()[k] == ps[k]);
                let i = first_index(u1.contacts, contact_has_email(ps[k].0)).unwrap();
                lemma_upsert_contact_found(u1, u2, ps[k].0, None, now, i);
                let m = choose|m: int|
                    0 <= m < u1.members.len() && #[trigger] u1.members[m].conversation_id == c
                        && u1.members[m].contact_id == u1.contacts[i].id;
                assert(u3.members[m] == u2.members[m]);
            }
        }
    }
}

/// Enrolling contacts that are all members of `c` already succeeds and
/// changes no conversation, thread, membership or message.
proof fn lemma_enroll_members_again(
    w: DbState,
    c: i64,
    ps: Seq<(Seq<char>, Option<Seq<char>>)>,
    cc: Seq<Seq<char>>,
    all_cc: bool,
    now: i64,
)
    requires
        forall|k: int|
            0 <= k < ps.len() ==> (first_index(w.contacts, contact_has_email((#[trigger] ps[k]).0)) matches Some(i)
                && 0 <= i < w.contacts.len() && w.has_member(c, w.contacts[i].id)),
    ensures
        ({
            let (w2, r) = w.enroll(c, ps, cc, all_cc, now);
            &&& r is Ok
            &&& keeps_contacts(w, w2)
            &&& w2.conversations == w.conversations
            &&& w2.members == w.members
            &&& w2.threads == w.threads
            &&& w2.messages == w.messages
        }),
    decreases ps.len(),
{
    if ps.len() > 0 {
        assert forall|k: int| 0 <= k < ps.drop_last().len() implies (first_index(
            w.contacts,
            contact_has_email((#[trigger] ps.drop_last()[k]).0),
        ) matches Some(i) && 0 <= i < w.contacts.len() && w.has_member(c, w.contacts[i].id)) by {
            assert(ps.drop_last()[k] == ps[k]);
        }
        lemma_enroll_members_again(w, c, ps.drop_last(), cc, all_cc, now);
        let (w1, r1) = w.enroll(c, ps.drop_last(), cc, all_cc, now);
        let n = ps.len() - 1;
        let i = first_index(w.contacts, contact_has_email(ps[n].0)).unwrap();
        assert(ps.last() == ps[n]);
        lemma_upsert_contact_found(w, w1, ps.last().0, ps.last().1, now, i);
        lemma_upsert_contact_facts(w1, ps.last().0, ps.last().1, now);
        let (w2, r2) = w1.upsert_contact(ps.last().0, ps.last().1, now);
        lemma_keeps_trans(w, w1, w2);
    }
}

/// A channel created for `sender` when it had none, with the sender added,
/// is the channel found for it afterwards.
proof fn lemma_new_channel_found(s: DbState, sender: i64)
    requires
        forall|i: int| 0 <= i < s.conversations.len() ==> #[trigger] s.conversations[i].id <= s.seq_conversation,
        s.channel_conversation(sender) is None,
        ({
            let (s3, r3) = s.create_conversation(ConversationKind::Channel);
            &&& r3 is Ok
            &&& s3.add_member(r3->Ok_0, sender, MemberRole::To).1 is Ok
        }),
    ensures
        ({
            let (s3, r3) = s.create_conversation(ConversationKind::Channel);
            let s4 = s3.add_member(r3->Ok_0, sender, MemberRole::To).0;
            s4.channel_conversation(sender) == Some(r3->Ok_0)
        }),
{
    let (s3, r3) = s.create_conversation(ConversationKind::Channel);
    let c = r3->Ok_0;
    let (s4, r4) = s3.add_member(c, sender, MemberRole::To);
    lemma_add_member_facts(s3, c, sender, MemberRole::To);
    let n = s.conversations.len() as int;
    assert(s4.conversations == s.conversations.push(s3.conversations[n]));
    assert(s3.members == s.members);
    let p4 = s4.is_channel_of(sender);
    let p0 = s.is_channel_of(sender);
    lemma_first_index(s.conversations, p0);
    assert forall|k: int| 0 <= k < n implies !p4(#[trigger] s4.conversations[k]) by {
        assert(s4.conversations[k] == s.conversations[k]);
        assert(!p0(s.conversations[k]));
        lemma_members_of_others(s, s4, c, s.conversations[k].id, sender);
    }
    assert(p4(s4.conversations[n]));
    lemma_first_index_at(s4.conversations, p4, n);
}

/// Placing a message leaves the messages as they were.
pub proof fn lemma_resolve_keeps_messages(s: DbState, p: ParsedEmailView, me: Seq<char>, now: i64)
    ensures
        s.resolve(p, me, now).0.messages == s.messages,
{
    reveal(DbState::resolve);
    let subject = match p.subject {
        Some(x) => x,
        None => crate::commands::subject::no_subject(),
    };
    let norm = crate::commands::subject::normalized_subject(p.subject);
    if p.is_newsletter {
        let (sa, ra) = s.upsert_contact(p.from_email, p.from_name, now);
        lemma_upsert_contact_facts(s, p.from_email, p.from_name, now);
        if let Ok(sender) = ra {
            if sa.channel_conversation(sender) is None {
                let (s3, r3) = sa.create_conversation(ConversationKind::Channel);
                if let Ok(c) = r3 {
                    lemma_add_member_facts(s3, c, sender, MemberRole::To);
                }
            }
        }
    } else {
        match s.reply_target(p) {
            Some((c, t)) => {
                lemma_enroll_facts(s, c, p.cc, emails_of(p.cc), true, now);
            },
            None => {
                lemma_contact_conversation_keeps(s, p, me, now);
            },
        }
    }
}

// ─── Laws ────────────────────────────────────────────────────────────────────

/// Conversations are found again by their participants' addresses: once a
/// message was placed in the conversation of its participants, a later
/// message whose participants have the same addresses is placed in the same
/// conversation, be it a dialogue or a group, and no conversation or
/// membership is added for it.
pub proof fn law_conversation_found_again(
    s: DbState,
    p: ParsedEmailView,
    q: ParsedEmailView,
    me: Seq<char>,
    now1: i64,
    now2: i64,
)
    requires
        s.wf(),
        emails_of(participants_of(q, me)) == emails_of(participants_of(p, me)),
        s.contact_conversation(p, me, now1).1 is Ok,
    ensures
        s.contact_conversation(p, me, now1).0.contact_conversation(q, me, now2).1 == s.contact_conversation(
            p,
            me,
            now1,
        ).1,
        ({
            let s1 = s.contact_conversation(p, me, now1).0;
            let s2 = s1.contact_conversation(q, me, now2).0;
            s2.conversations == s1.conversations && s2.members == s1.members
        }),
{
    let (s1, r1) = s.contact_conversation(p, me, now1);
    lemma_contact_placed(s, p, me, now1);
    lemma_contact_again(s, participants_of(p, me), me, now1, s1, r1->Ok_0, s1, q, now2);
}

/// A message that is no newsletter and answers no stored message, whose
/// participants have the addresses of the participants of an earlier such
/// message, is placed in the earlier message's conversation (when it is
/// placed at all).
pub proof fn law_message_joins_earlier_conversation(
    s: DbState,
    p: ParsedEmailView,
    q: ParsedEmailView,
    me: Seq<char>,
    now1: i64,
    now2: i64,
)
    requires
        s.wf(),
        !p.is_newsletter,
        !q.is_newsletter,
        s.reply_target(p) is None,
        s.resolve(p, me, now1).0.reply_target(q) is None,
        emails_of(participants_of(q, me)) == emails_of(participants_of(p, me)),
        s.resolve(p, me, now1).1 is Ok,
    ensures
        s.resolve(p, me, now1).0.resolve(q, me, now2).1 matches Ok(place) ==> place.0 == s.resolve(
            p,
            me,
            now1,
        ).1->Ok_0.0,
{
    reveal(DbState::resolve);
    let (s1, r1) = s.contact_conversation(p, me, now1);
    let c = r1->Ok_0;
    let subject = match p.subject {
        Some(x) => x,
        None => crate::commands::subject::no_subject(),
    };
    let (s2, r2) = s1.create_thread(c, subject, crate::commands::subject::normalized_subject(p.subject));
    lemma_contact_placed(s, p, me, now1);
    lemma_contact_again(s, participants_of(p, me), me, now1, s1, c, s2, q, now2);
}

/// Sending twice to recipients with the same addresses, one of them not
/// ours, uses the same conversation, and the second time no conversation or
/// membership is added.
pub proof fn law_sent_conversation_found_again(
    s: DbState,
    ps: Seq<(Seq<char>, Option<Seq<char>>)>,
    qs: Seq<(Seq<char>, Option<Seq<char>>)>,
    me: Seq<char>,
    now1: i64,
    now2: i64,
)
    requires
        s.wf(),
        exists|k: int| 0 <= k < ps.len() && (#[trigger] ps[k]).0 != me,
        emails_of(qs) == emails_of(ps),
        s.conversation_for_participants(ps, me, now1).1 is Ok,
    ensures
        s.conversation_for_participants(ps, me, now1).0.conversation_for_participants(qs, me, now2).1
            == s.conversation_for_participants(ps, me, now1).1,
        ({
            let s1 = s.conversation_for_participants(ps, me, now1).0;
            let s2 = s1.conversation_for_participants(qs, me, now2).0;
            s2.conversations == s1.conversations && s2.members == s1.members
        }),
{
    let (s1, r1) = s.conversation_for_participants(ps, me, now1);
    lemma_sent_placed(s, ps, me, now1);
    lemma_sent_again(s, ps, me, now1, s1, r1->Ok_0, s1, qs, now2);
}

/// Writing to the participants of a message we received (not as a reply)
/// uses the conversation the message was placed in.
pub proof fn law_sending_to_participants_uses_their_conversation(
    s: DbState,
    p: ParsedEmailView,
    qs: Seq<(Seq<char>, Option<Seq<char>>)>,
    me: Seq<char>,
    now1: i64,
    now2: i64,
)
    requires
        s.wf(),
        participants_of(p, me).len() > 0,
        emails_of(qs) == emails_of(participants_of(p, me)),
        s.contact_conversation(p, me, now1).1 is Ok,
    ensures
        s.contact_conversation(p, me, now1).0.conversation_for_participants(qs, me, now2).1
            == s.contact_conversation(p, me, now1).1,
{
    let ps = participants_of(p, me);
    let (s1, r1) = s.contact_conversation(p, me, now1);
    lemma_contact_placed(s, p, me, now1);
    lemma_participants_not_me(p, me);
    assert(ps[0].0 != me) by {
        assert(unicode_lowercase(ps[0].0) != unicode_lowercase(me));
    }
    lemma_recorded_facts(s, ps, me, now1);
    lemma_sent_again(s, ps, me, now1, s1, r1->Ok_0, s1, qs, now2);
}

/// A message received from the recipients of a message we sent (not as a
/// reply), one of them not ours, is placed in the conversation we sent to.
pub proof fn law_answer_from_recipients_joins_their_conversation(
    s: DbState,
    ps: Seq<(Seq<char>, Option<Seq<char>>)>,
    q: ParsedEmailView,
    me: Seq<char>,
    now1: i64,
    now2: i64,
)
    requires
        s.wf(),
        exists|k: int| 0 <= k < ps.len() && (#[trigger] ps[k]).0 != me,
        emails_of(participants_of(q, me)) == emails_of(ps),
        s.conversation_for_participants(ps, me, now1).1 is Ok,
    ensures
        s.conversation_for_participants(ps, me, now1).0.contact_conversation(q, me, now2).1
            == s.conversation_for_participants(ps, me, now1).1,
{
    let (s1, r1) = s.conversation_for_participants(ps, me, now1);
    lemma_sent_placed(s, ps, me, now1);
    lemma_contact_again(s, ps, me, now1, s1, r1->Ok_0, s1, q, now2);
}


/// The channel found for a sender depends only on the conversations and
/// their members.
proof fn lemma_channel_same(s: DbState, t: DbState, sender: i64)
    requires
        s.conversations == t.conversations,
        s.members == t.members,
    ensures
        s.channel_conversation(sender) == t.channel_conversation(sender),
{
    assert(s.is_channel_of(sender) =~= t.is_channel_of(sender));
}

/// Placing a message a second time gives the same conversation and thread,
/// and adds no conversation, thread, membership or message: a newsletter
/// finds its sender's channel again, a reply the thread it answers, and any
/// other message the conversation of its participants.
pub proof fn law_placing_again_adds_nothing(s: DbState, p: ParsedEmailView, me: Seq<char>, now1: i64, now2: i64)
    requires
        s.wf(),
        s.resolve(p, me, now1).1 is Ok,
    ensures
        ({
            let (s1, r1) = s.resolve(p, me, now1);
            let (s2, r2) = s1.resolve(p, me, now2);
            &&& r2 == r1
            &&& s2.conversations == s1.conversations
            &&& s2.threads == s1.threads
            &&& s2.members == s1.members
            &&& s2.messages == s1.messages
        }),
{
    reveal(DbState::resolve);
    let subject = match p.subject {
        Some(x) => x,
        None => crate::commands::subject::no_subject(),
    };
    let norm = crate::commands::subject::normalized_subject(p.subject);
    if p.is_newsletter {
        let (sa, ra) = s.upsert_contact(p.from_email, p.from_name, now1);
        lemma_upsert_contact_facts(s, p.from_email, p.from_name, now1);
        let sender = ra->Ok_0;
        let i = first_index(sa.contacts, contact_has_email(p.from_email)).unwrap();
        let (sn, rn) = s.newsletter_conversation(p, now1);
        let c = rn->Ok_0;
        match sa.channel_conversation(sender) {
            Some(d) => {},
            None => {
                lemma_new_channel_found(sa, sender);
                let (s3, r3) = sa.create_conversation(ConversationKind::Channel);
                lemma_add_member_facts(s3, c, sender, MemberRole::To);
            },
        }
        assert(sn.channel_conversation(sender) == Some(c));
        assert(keeps_contacts(sa, sn));
        let (s1, r1) = sn.create_thread(c, subject, norm);
        assert(keeps_contacts(sn, s1));
        lemma_keeps_trans(sa, sn, s1);
        lemma_upsert_contact_found(sa, s1, p.from_email, p.from_name, now2, i);
        lemma_upsert_contact_facts(s1, p.from_email, p.from_name, now2);
        let (u, ru) = s1.upsert_contact(p.from_email, p.from_name, now2);
        lemma_channel_same(sn, u, sender);
        crate::db::laws::law_create_thread_idempotent(sn, c, subject, subject, norm);
        assert(u.create_thread(c, subject, norm) == (u, r1));
    } else {
        match s.reply_target(p) {
            Some((c, t)) => {
                let cc = emails_of(p.cc);
                lemma_enroll_makes_members(s, c, p.cc, cc, true, now1);
                lemma_enroll_facts(s, c, p.cc, cc, true, now1);
                let (s1, r1) = s.enroll(c, p.cc, cc, true, now1);
                lemma_enroll_members_again(s1, c, p.cc, cc, true, now2);
                lemma_reply_target_same(s, s1, p);
            },
            None => {
                let (sc, rc) = s.contact_conversation(p, me, now1);
                let c = rc->Ok_0;
                let (s1, r1) = sc.create_thread(c, subject, norm);
                lemma_contact_conversation_keeps(s, p, me, now1);
                lemma_reply_target_same(s, s1, p);
                lemma_contact_placed(s, p, me, now1);
                lemma_contact_again(s, participants_of(p, me), me, now1, sc, c, s1, p, now2);
                crate::db::laws::law_create_thread_idempotent(sc, c, subject, subject, norm);
                let (u, ru) = s1.contact_conversation(p, me, now2);
                assert(u.create_thread(c, subject, norm) == (u, r1));
            },
        }
    }
}


/// A conversation created for sending to `ps` is the last conversation of
/// the store: a dialogue when at most two distinct contacts (ourselves
/// included) are involved and a group otherwise, with ourselves and every
/// recipient among its members.
pub proof fn law_new_conversation_for_participants(
    s: DbState,
    ps: Seq<(Seq<char>, Option<Seq<char>>)>,
    me: Seq<char>,
    now: i64,
)
    requires
        s.conversation_for_participants(ps, me, now).1 is Ok,
        !s.has_conversation(s.conversation_for_participants(ps, me, now).1->Ok_0),
    ensures
        ({
            let (s1, r) = s.conversation_for_participants(ps, me, now);
            let c = r->Ok_0;
            let ids = all_recorded(s, ps, me, now).1->Ok_0;
            &&& ids.no_duplicates()
            &&& s1.conversations.len() == s.conversations.len() + 1
            &&& s1.conversations.last().id == c
            &&& s1.conversations.last().kind == if ids.len() <= 2 {
                ConversationKind::Direct
            } else {
                ConversationKind::Group
            }
            &&& first_index(s1.contacts, contact_has_email(me)) matches Some(i) && 0 <= i < s1.contacts.len()
                && s1.has_member(c, s1.contacts[i].id)
            &&& forall|k: int|
                0 <= k < ps.len() ==> (first_index(s1.contacts, contact_has_email((#[trigger] ps[k]).0)) matches Some(
                    i,
                ) && 0 <= i < s1.contacts.len() && s1.has_member(c, s1.contacts[i].id))
        }),
{
    let (s1, r) = s.conversation_for_participants(ps, me, now);
    let c = r->Ok_0;
    let (sa, ra) = me_recorded(s, me, now);
    lemma_upsert_contact_facts(s, me, None, now);
    let my_id = ra->Ok_0;
    let i_me = first_index(sa.contacts, contact_has_email(me)).unwrap();
    let (sb, rb) = all_recorded(s, ps, me, now);
    lemma_participants_facts(sa, ps, now, seq![my_id]);
    super::threading::law_upsert_participants_distinct(sa, ps, now, seq![my_id]);
    let ids = rb->Ok_0;
    let existing = if ids.len() == 2 {
        sb.direct_conversation(my_id, ids[1])
    } else if ids.len() > 2 {
        sb.group_conversation(ids)
    } else {
        None
    };
    if ids.len() == 2 {
        lemma_first_index(sb.conversations, sb.is_direct_between(my_id, ids[1]));
    } else if ids.len() > 2 {
        lemma_first_index(sb.conversations, sb.has_exactly(ids));
    }
    if let Some(d) = existing {
        let j = choose|j: int| 0 <= j < sb.conversations.len() && sb.conversations[j].id == d;
        assert(s.conversations[j].id == d);
        assert(false);
    }
    let kind = if ids.len() <= 2 {
        ConversationKind::Direct
    } else {
        ConversationKind::Group
    };
    let (s3, r3) = sb.create_conversation(kind);
    lemma_add_member_facts(s3, c, my_id, MemberRole::To);
    let s4 = s3.add_member(c, my_id, MemberRole::To).0;
    lemma_enroll_facts(s4, c, ps, seq![], false, now);
    lemma_enroll_makes_members(s4, c, ps, seq![], false, now);
    let m = choose|m: int|
        0 <= m < s4.members.len() && #[trigger] s4.members[m].conversation_id == c && s4.members[m].contact_id == my_id;
    assert(s1.members[m] == s4.members[m]);
    assert(keeps_contacts(sb, s1)) by {
        assert(s4.contacts == sb.contacts);
    }
    lemma_keeps_trans(sa, sb, s1);
    lemma_upsert_contact_found(sa, s1, me, None, now, i_me);
}

} // verus!
