//! Which conversation and thread a message belongs to.
//!
//! A newsletter goes to its sender's channel. A reply goes to the thread of
//! the message it answers (found by In-Reply-To, then by References), and
//! the conversation gains the reply's Cc recipients. Any other message goes
//! to the conversation of exactly its participants (ourselves included): a
//! dialogue for one other person, a group otherwise, created when missing.
//! Within the conversation the thread is the one of the message's
//! normalized subject.

use vstd::prelude::*;

use super::subject::{no_subject, normalize_subject, normalized_subject};
use crate::db::{first_index, lemma_first_index_at, Database, DbState};
use crate::error::{AppError, AppResult};
use crate::imap::parse::{ParsedEmail, ParsedEmailView};
use crate::models::{
    opt_str_view, opt_view, owned, recipient_view, recipient_views, ConversationKind, MemberRole,
};
use crate::text::{str_eq, to_lowercase, unicode_lowercase};

verus! {

/// The identifiers collected so far, by value.
pub open spec fn ids_result(r: AppResult<Vec<i64>>) -> AppResult<Seq<i64>> {
    match r {
        Ok(v) => Ok(v@),
        Err(e) => Err(e),
    }
}

/// The role of a new member with address `email`: Cc when all are Cc or
/// when `cc` holds the address, To otherwise.
pub open spec fn role_for(cc: Seq<Seq<char>>, all_cc: bool, email: Seq<char>) -> MemberRole {
    if all_cc || cc.contains(email) {
        MemberRole::Cc
    } else {
        MemberRole::To
    }
}

/// The addresses of a list of recipients.
pub open spec fn emails_of(ps: Seq<(Seq<char>, Option<Seq<char>>)>) -> Seq<Seq<char>> {
    ps.map_values(|p: (Seq<char>, Option<Seq<char>>)| p.0)
}

/// Selects the recipients that are not `me`, comparing lower-cased addresses.
pub open spec fn not_me(me: Seq<char>) -> spec_fn((Seq<char>, Option<Seq<char>>)) -> bool {
    |p: (Seq<char>, Option<Seq<char>>)| unicode_lowercase(p.0) != unicode_lowercase(me)
}

/// The participants of a message other than `me`: its sender, then its To,
/// then its Cc recipients.
pub open spec fn participants_of(p: ParsedEmailView, me: Seq<char>) -> Seq<(Seq<char>, Option<Seq<char>>)> {
    let from = if unicode_lowercase(p.from_email) != unicode_lowercase(me) {
        seq![(p.from_email, p.from_name)]
    } else {
        seq![]
    };
    from + p.to.filter(not_me(me)) + p.cc.filter(not_me(me))
}

impl DbState {
    /// Recording each of `ps` as a contact seen at `now`, in order,
    /// collecting their identifiers after `ids`, each once; the first
    /// refusal stops it.
    pub open spec fn upsert_participants(
        self,
        ps: Seq<(Seq<char>, Option<Seq<char>>)>,
        now: i64,
        ids: Seq<i64>,
    ) -> (DbState, AppResult<Seq<i64>>)
        decreases ps.len(),
    {
        if ps.len() == 0 {
            (self, Ok(ids))
        } else {
            let (s1, r1) = self.upsert_participants(ps.drop_last(), now, ids);
            match r1 {
                Err(e) => (s1, Err(e)),
                Ok(got) => {
                    let (s2, r2) = s1.upsert_contact(ps.last().0, ps.last().1, now);
                    match r2 {
                        Err(e) => (s2, Err(e)),
                        Ok(cid) => (s2, Ok(if got.contains(cid) { got } else { got.push(cid) })),
                    }
                },
            }
        }
    }

    /// Recording each of `ps` as a contact seen at `now` and adding it to
    /// conversation `conv` (see `role_for`), in order; the first refusal
    /// stops it.
    pub open spec fn enroll(
        self,
        conv: i64,
        ps: Seq<(Seq<char>, Option<Seq<char>>)>,
        cc: Seq<Seq<char>>,
        all_cc: bool,
        now: i64,
    ) -> (DbState, AppResult<()>)
        decreases ps.len(),
    {
        if ps.len() == 0 {
            (self, Ok(()))
        } else {
            let (s1, r1) = self.enroll(conv, ps.drop_last(), cc, all_cc, now);
            match r1 {
                Err(e) => (s1, Err(e)),
                Ok(_) => {
                    let (s2, r2) = s1.upsert_contact(ps.last().0, ps.last().1, now);
                    match r2 {
                        Err(e) => (s2, Err(e)),
                        Ok(cid) => s2.add_member(conv, cid, role_for(cc, all_cc, ps.last().0)),
                    }
                },
            }
        }
    }

    /// The conversation for sending to `ps` from `me`: the dialogue or group
    /// with exactly these participants, or a new one (a dialogue for at most
    /// one other person) with all of them as To members.
    pub open spec fn conversation_for_participants(
        self,
        ps: Seq<(Seq<char>, Option<Seq<char>>)>,
        me: Seq<char>,
        now: i64,
    ) -> (DbState, AppResult<i64>) {
        let (s1, r1) = self.upsert_contact(me, None, now);
        match r1 {
            Err(e) => (s1, Err(e)),
            Ok(my_id) => {
                let (s2, r2) = s1.upsert_participants(ps, now, seq![my_id]);
                match r2 {
                    Err(e) => (s2, Err(e)),
                    Ok(ids) => {
                        let existing = if ids.len() == 2 {
                            s2.direct_conversation(my_id, ids[1])
                        } else if ids.len() > 2 {
                            s2.group_conversation(ids)
                        } else {
                            None
                        };
                        match existing {
                            Some(c) => (s2, Ok(c)),
                            None => {
                                let kind = if ids.len() <= 2 {
                                    ConversationKind::Direct
                                } else {
                                    ConversationKind::Group
                                };
                                let (s3, r3) = s2.create_conversation(kind);
                                match r3 {
                                    Err(e) => (s3, Err(e)),
                                    Ok(c) => {
                                        let (s4, r4) = s3.add_member(c, my_id, MemberRole::To);
                                        match r4 {
                                            Err(e) => (s4, Err(e)),
                                            Ok(_) => {
                                                let (s5, r5) = s4.enroll(c, ps, seq![], false, now);
                                                match r5 {
                                                    Err(e) => (s5, Err(e)),
                                                    Ok(_) => (s5, Ok(c)),
                                                }
                                            },
                                        }
                                    },
                                }
                            },
                        }
                    },
                }
            },
        }
    }

    /// The channel of a newsletter's sender, created when missing.
    pub open spec fn newsletter_conversation(self, p: ParsedEmailView, now: i64) -> (DbState, AppResult<i64>) {
        let (s1, r1) = self.upsert_contact(p.from_email, p.from_name, now);
        match r1 {
            Err(e) => (s1, Err(e)),
            Ok(sender) => match s1.channel_conversation(sender) {
                Some(c) => (s1, Ok(c)),
                None => {
                    let (s2, r2) = s1.create_conversation(ConversationKind::Channel);
                    match r2 {
                        Err(e) => (s2, Err(e)),
                        Ok(c) => {
                            let (s3, r3) = s2.add_member(c, sender, MemberRole::To);
                            match r3 {
                                Err(e) => (s3, Err(e)),
                                Ok(_) => (s3, Ok(c)),
                            }
                        },
                    }
                },
            },
        }
    }

    /// Selects the Message-IDs of stored messages.
    pub open spec fn is_stored_mid(self) -> spec_fn(Seq<char>) -> bool {
        |mid: Seq<char>| self.message_by_mid(mid) is Some
    }

    /// The conversation and thread of the stored message that `p` answers:
    /// the one its In-Reply-To names, else the first its References name.
    pub open spec fn reply_target(self, p: ParsedEmailView) -> Option<(i64, i64)> {
        let by_irt = match p.in_reply_to {
            Some(irt) => self.message_by_mid(irt),
            None => None,
        };
        match by_irt {
            Some(m) => Some((m.conversation_id, m.thread_id)),
            None => match first_index(p.references, self.is_stored_mid()) {
                Some(i) => match self.message_by_mid(p.references[i]) {
                    Some(m) => Some((m.conversation_id, m.thread_id)),
                    None => None,
                },
                None => None,
            },
        }
    }

    /// The conversation of exactly the participants of `p` and `me`: the
    /// dialogue with the one other person, or the group of all; created when
    /// missing, a group's members taking the Cc role when `p` lists them
    /// under Cc.
    pub open spec fn contact_conversation(self, p: ParsedEmailView, me: Seq<char>, now: i64) -> (
        DbState,
        AppResult<i64>,
    ) {
        let ps = participants_of(p, me);
        let (s1, r1) = self.upsert_contact(me, None, now);
        match r1 {
            Err(e) => (s1, Err(e)),
            Ok(my_id) => {
                let (s2, r2) = s1.upsert_participants(ps, now, seq![my_id]);
                match r2 {
                    Err(e) => (s2, Err(e)),
                    Ok(ids) => if ids.len() == 2 {
                        let other = ids[1];
                        match s2.direct_conversation(my_id, other) {
                            Some(c) => (s2, Ok(c)),
                            None => {
                                let (s3, r3) = s2.create_conversation(ConversationKind::Direct);
                                match r3 {
                                    Err(e) => (s3, Err(e)),
                                    Ok(c) => {
                                        let (s4, r4) = s3.add_member(c, my_id, MemberRole::To);
                                        match r4 {
                                            Err(e) => (s4, Err(e)),
                                            Ok(_) => {
                                                let (s5, r5) = s4.add_member(c, other, MemberRole::To);
                                                match r5 {
                                                    Err(e) => (s5, Err(e)),
                                                    Ok(_) => (s5, Ok(c)),
                                                }
                                            },
                                        }
                                    },
                                }
                            },
                        }
                    } else {
                        match s2.group_conversation(ids) {
                            Some(c) => (s2, Ok(c)),
                            None => {
                                let (s3, r3) = s2.create_conversation(ConversationKind::Group);
                                match r3 {
                                    Err(e) => (s3, Err(e)),
                                    Ok(c) => {
                                        let (s4, r4) = s3.add_member(c, my_id, MemberRole::To);
                                        match r4 {
                                            Err(e) => (s4, Err(e)),
                                            Ok(_) => {
                                                let (s5, r5) = s4.enroll(
                                                    c,
                                                    ps,
                                                    emails_of(p.cc),
                                                    false,
                                                    now,
                                                );
                                                match r5 {
                                                    Err(e) => (s5, Err(e)),
                                                    Ok(_) => (s5, Ok(c)),
                                                }
                                            },
                                        }
                                    },
                                }
                            },
                        }
                    },
                }
            },
        }
    }

    /// The conversation and thread for incoming message `p` received by
    /// `me`, contacts seen at `now` (see the module's description).
    #[verifier::opaque]
    pub open spec fn resolve(self, p: ParsedEmailView, me: Seq<char>, now: i64) -> (
        DbState,
        AppResult<(i64, i64)>,
    ) {
        let subject = match p.subject {
            Some(s) => s,
            None => no_subject(),
        };
        let norm = normalized_subject(p.subject);
        if p.is_newsletter {
            let (s1, r1) = self.newsletter_conversation(p, now);
            match r1 {
                Err(e) => (s1, Err(e)),
                Ok(c) => {
                    let (s2, r2) = s1.create_thread(c, subject, norm);
                    match r2 {
                        Err(e) => (s2, Err(e)),
                        Ok(t) => (s2, Ok((c, t))),
                    }
                },
            }
        } else {
            match self.reply_target(p) {
                Some((c, t)) => {
                    let (s1, r1) = self.enroll(c, p.cc, emails_of(p.cc), true, now);
                    match r1 {
                        Err(e) => (s1, Err(e)),
                        Ok(_) => (s1, Ok((c, t))),
                    }
                },
                None => {
                    let (s1, r1) = self.contact_conversation(p, me, now);
                    match r1 {
                        Err(e) => (s1, Err(e)),
                        Ok(c) => {
                            let (s2, r2) = s1.create_thread(c, subject, norm);
                            match r2 {
                                Err(e) => (s2, Err(e)),
                                Ok(t) => (s2, Ok((c, t))),
                            }
                        },
                    }
                },
            }
        }
    }
}

/// Once recording participants is refused, later participants change nothing.
proof fn lemma_upsert_participants_err(
    s: DbState,
    ps: Seq<(Seq<char>, Option<Seq<char>>)>,
    now: i64,
    ids: Seq<i64>,
    k: int,
)
    requires
        0 <= k <= ps.len(),
        s.upsert_participants(ps.take(k), now, ids).1 is Err,
    ensures
        s.upsert_participants(ps, now, ids) == s.upsert_participants(ps.take(k), now, ids),
    decreases ps.len(),
{
    if k == ps.len() {
        assert(ps.take(k) =~= ps);
    } else {
        assert(ps.drop_last().take(k) =~= ps.take(k));
        lemma_upsert_participants_err(s, ps.drop_last(), now, ids, k);
    }
}

/// Once enrolling is refused, later participants change nothing.
proof fn lemma_enroll_err(
    s: DbState,
    conv: i64,
    ps: Seq<(Seq<char>, Option<Seq<char>>)>,
    cc: Seq<Seq<char>>,
    all_cc: bool,
    now: i64,
    k: int,
)
    requires
        0 <= k <= ps.len(),
        s.enroll(conv, ps.take(k), cc, all_cc, now).1 is Err,
    ensures
        s.enroll(conv, ps, cc, all_cc, now) == s.enroll(conv, ps.take(k), cc, all_cc, now),
    decreases ps.len(),
{
    if k == ps.len() {
        assert(ps.take(k) =~= ps);
    } else {
        assert(ps.drop_last().take(k) =~= ps.take(k));
        lemma_enroll_err(s, conv, ps.drop_last(), cc, all_cc, now, k);
    }
}

// ─── Carrying it out ─────────────────────────────────────────────────────────

/// An optional string as an optional slice.
fn opt_as_str(o: &Option<String>) -> (r: Option<&str>)
    ensures
        opt_str_view(r) == opt_view(*o),
{
    match o {
        Some(s) => Some(s.as_str()),
        None => None,
    }
}

/// Whether `ids` holds `id`.
fn contains_id(ids: &Vec<i64>, id: i64) -> (r: bool)
    ensures
        r == ids@.contains(id),
{
    let mut i: usize = 0;
    while i < ids.len()
        invariant
            i <= ids.len(),
            forall|k: int| 0 <= k < i ==> ids@[k] != id,
        decreases ids.len() - i,
    {
        if ids[i] == id {
            return true;
        }
        i = i + 1;
    }
    false
}

/// Whether some recipient in `ps` has address `email`.
fn lists_email(ps: &Vec<(String, Option<String>)>, email: &str) -> (r: bool)
    ensures
        r == emails_of(recipient_views(ps@)).contains(email@),
{
    let ghost ev = emails_of(recipient_views(ps@));
    let mut i: usize = 0;
    while i < ps.len()
        invariant
            i <= ps.len(),
            ev == emails_of(recipient_views(ps@)),
            forall|k: int| 0 <= k < i ==> ev[k] != email@,
        decreases ps.len() - i,
    {
        assert(ev[i as int] == ps@[i as int].0@);
        if str_eq(ps[i].0.as_str(), email) {
            return true;
        }
        i = i + 1;
    }
    false
}

/// Records each participant as a contact seen at `now` (see
/// `DbState::upsert_participants`).
fn upsert_participants(
    db: &mut Database,
    ps: &Vec<(String, Option<String>)>,
    now: i64,
    ids: Vec<i64>,
) -> (r: AppResult<Vec<i64>>)
    requires
        old(db).wf(),
    ensures
        final(db).wf(),
        (final(db)@, ids_result(r)) == old(db)@.upsert_participants(recipient_views(ps@), now, ids@),
{
    let ghost pv = recipient_views(ps@);
    let ghost start = db@;
    let ghost ids0 = ids@;
    let mut got = ids;
    let mut i: usize = 0;
    assert(pv.take(0) =~= Seq::<(Seq<char>, Option<Seq<char>>)>::empty());
    while i < ps.len()
        invariant
            i <= ps.len(),
            pv == recipient_views(ps@),
            db.wf(),
            start == old(db)@,
            ids0 == ids@,
            start.upsert_participants(pv.take(i as int), now, ids0) == (db@, Ok::<Seq<i64>, AppError>(got@)),
        decreases ps.len() - i,
    {
        assert(pv.take(i + 1).drop_last() =~= pv.take(i as int));
        assert(pv.take(i + 1).last() == recipient_view(ps@[i as int]));
        let name = opt_as_str(&ps[i].1);
        match db.upsert_contact_at(ps[i].0.as_str(), name, now) {
            Err(e) => {
                proof {
                    lemma_upsert_participants_err(start, pv, now, ids0, i + 1);
                }
                return Err(e);
            },
            Ok(cid) => {
                if !contains_id(&got, cid) {
                    got.push(cid);
                }
            },
        }
        i = i + 1;
    }
    assert(pv.take(ps.len() as int) =~= pv);
    Ok(got)
}

/// Records each of `ps` as a contact and adds it to conversation `conv`
/// (see `DbState::enroll`): as Cc when `all_cc` or when `cc` lists its
/// address, as To otherwise.
fn enroll(
    db: &mut Database,
    conv: i64,
    ps: &Vec<(String, Option<String>)>,
    cc: &Vec<(String, Option<String>)>,
    all_cc: bool,
    now: i64,
) -> (r: AppResult<()>)
    requires
        old(db).wf(),
    ensures
        final(db).wf(),
        (final(db)@, r) == old(db)@.enroll(
            conv,
            recipient_views(ps@),
            emails_of(recipient_views(cc@)),
            all_cc,
            now,
        ),
{
    let ghost pv = recipient_views(ps@);
    let ghost cv = emails_of(recipient_views(cc@));
    let ghost start = db@;
    let mut i: usize = 0;
    assert(pv.take(0) =~= Seq::<(Seq<char>, Option<Seq<char>>)>::empty());
    while i < ps.len()
        invariant
            i <= ps.len(),
            pv == recipient_views(ps@),
            cv == emails_of(recipient_views(cc@)),
            db.wf(),
            start == old(db)@,
            start.enroll(conv, pv.take(i as int), cv, all_cc, now) == (db@, Ok::<(), AppError>(())),
        decreases ps.len() - i,
    {
        assert(pv.take(i + 1).drop_last() =~= pv.take(i as int));
        assert(pv.take(i + 1).last() == recipient_view(ps@[i as int]));
        let name = opt_as_str(&ps[i].1);
        match db.upsert_contact_at(ps[i].0.as_str(), name, now) {
            Err(e) => {
                proof {
                    lemma_enroll_err(start, conv, pv, cv, all_cc, now, i + 1);
                }
                return Err(e);
            },
            Ok(cid) => {
                let role = if all_cc || lists_email(cc, ps[i].0.as_str()) {
                    MemberRole::Cc
                } else {
                    MemberRole::To
                };
                match db.add_conversation_member(conv, cid, &role) {
                    Err(e) => {
                        proof {
                            lemma_enroll_err(start, conv, pv, cv, all_cc, now, i + 1);
                        }
                        return Err(e);
                    },
                    Ok(()) => {},
                }
            },
        }
        i = i + 1;
    }
    assert(pv.take(ps.len() as int) =~= pv);
    Ok(())
}

/// The conversation for sending to `participants` from `my_email`, contacts
/// seen at `now` (see `DbState::conversation_for_participants`).
pub fn create_conversation_for_participants_at(
    db: &mut Database,
    participants: &Vec<(String, Option<String>)>,
    my_email: &str,
    now: i64,
) -> (r: AppResult<i64>)
    requires
        old(db).wf(),
    ensures
        final(db).wf(),
        (final(db)@, r) == old(db)@.conversation_for_participants(
            recipient_views(participants@),
            my_email@,
            now,
        ),
{
    let my_id = match db.upsert_contact_at(my_email, None, now) {
        Err(e) => {
            return Err(e);
        },
        Ok(id) => id,
    };
    let first: Vec<i64> = vec![my_id];
    assert(first@ =~= seq![my_id]);
    let ids = match upsert_participants(db, participants, now, first) {
        Err(e) => {
            return Err(e);
        },
        Ok(ids) => ids,
    };
    let existing = if ids.len() == 2 {
        match db.find_direct_conversation(my_id, ids[1]) {
            Ok(found) => found,
            Err(e) => {
                return Err(e);
            },
        }
    } else if ids.len() > 2 {
        match db.find_group_conversation(ids.as_slice()) {
            Ok(found) => found,
            Err(e) => {
                return Err(e);
            },
        }
    } else {
        None
    };
    if let Some(c) = existing {
        return Ok(c);
    }
    let kind = if ids.len() <= 2 {
        ConversationKind::Direct
    } else {
        ConversationKind::Group
    };
    let c = match db.create_conversation(&kind) {
        Err(e) => {
            return Err(e);
        },
        Ok(c) => c,
    };
    match db.add_conversation_member(c, my_id, &MemberRole::To) {
        Err(e) => {
            return Err(e);
        },
        Ok(()) => {},
    }
    let none: Vec<(String, Option<String>)> = Vec::new();
    assert(emails_of(recipient_views(none@)) =~= Seq::<Seq<char>>::empty());
    match enroll(db, c, participants, &none, false, now) {
        Err(e) => Err(e),
        Ok(()) => Ok(c),
    }
}

/// `create_conversation_for_participants_at` with contacts seen now.
pub fn create_conversation_for_participants(
    db: &mut Database,
    participants: &Vec<(String, Option<String>)>,
    my_email: &str,
) -> (r: AppResult<i64>)
    requires
        old(db).wf(),
    ensures
        final(db).wf(),
        exists|now: i64|
            (final(db)@, r) == #[trigger] old(db)@.conversation_for_participants(
                recipient_views(participants@),
                my_email@,
                now,
            ),
{
    let now = crate::stamp::now_unix();
    create_conversation_for_participants_at(db, participants, my_email, now)
}

/// Adds the Cc recipients of `parsed` to conversation `conv_id` as Cc
/// members (adding one that is already a member changes nothing), contacts
/// seen at `now`.
pub fn extend_conversation_members_at(
    db: &mut Database,
    conv_id: i64,
    parsed: &ParsedEmail,
    now: i64,
) -> (r: AppResult<()>)
    requires
        old(db).wf(),
    ensures
        final(db).wf(),
        (final(db)@, r) == old(db)@.enroll(conv_id, parsed@.cc, emails_of(parsed@.cc), true, now),
{
    enroll(db, conv_id, &parsed.cc, &parsed.cc, true, now)
}

/// `extend_conversation_members_at` with contacts seen now.
pub fn extend_conversation_members(db: &mut Database, conv_id: i64, parsed: &ParsedEmail) -> (r:
    AppResult<()>)
    requires
        old(db).wf(),
    ensures
        final(db).wf(),
        exists|now: i64|
            (final(db)@, r) == #[trigger] old(db)@.enroll(
                conv_id,
                parsed@.cc,
                emails_of(parsed@.cc),
                true,
                now,
            ),
{
    let now = crate::stamp::now_unix();
    extend_conversation_members_at(db, conv_id, parsed, now)
}

/// The channel of a newsletter's sender (see `DbState::newsletter_conversation`).
fn newsletter_conversation(db: &mut Database, parsed: &ParsedEmail, now: i64) -> (r: AppResult<i64>)
    requires
        old(db).wf(),
    ensures
        final(db).wf(),
        (final(db)@, r) == old(db)@.newsletter_conversation(parsed@, now),
{
    let name = opt_as_str(&parsed.from_name);
    let sender = match db.upsert_contact_at(parsed.from_email.as_str(), name, now) {
        Err(e) => {
            return Err(e);
        },
        Ok(id) => id,
    };
    match db.find_channel_conversation(sender) {
        Err(e) => {
            return Err(e);
        },
        Ok(Some(c)) => {
            return Ok(c);
        },
        Ok(None) => {},
    }
    let c = match db.create_conversation(&ConversationKind::Channel) {
        Err(e) => {
            return Err(e);
        },
        Ok(c) => c,
    };
    match db.add_conversation_member(c, sender, &MemberRole::To) {
        Err(e) => Err(e),
        Ok(()) => Ok(c),
    }
}

/// The conversation and thread of the stored message that `parsed` answers
/// (see `DbState::reply_target`).
fn reply_target(db: &Database, parsed: &ParsedEmail) -> (r: Option<(i64, i64)>)
    ensures
        r == db@.reply_target(parsed@),
{
    if let Some(irt) = &parsed.in_reply_to {
        if let Ok(Some(found)) = db.find_conversation_and_thread_by_message_id(irt.as_str()) {
            return Some(found);
        }
    }
    let ghost refs = parsed@.references;
    let mut i: usize = 0;
    while i < parsed.references.len()
        invariant
            i <= parsed.references.len(),
            refs == parsed@.references,
            refs == parsed.references@.map_values(|s: String| s@),
            forall|k: int| 0 <= k < i ==> !db@.is_stored_mid()(#[trigger] refs[k]),
            match parsed@.in_reply_to {
                Some(irt) => db@.message_by_mid(irt) is None,
                None => true,
            },
        decreases parsed.references.len() - i,
    {
        assert(refs[i as int] == parsed.references@[i as int]@);
        if let Ok(Some(found)) = db.find_conversation_and_thread_by_message_id(
            parsed.references[i].as_str(),
        ) {
            proof {
                lemma_first_index_at(refs, db@.is_stored_mid(), i as int);
            }
            return Some(found);
        }
        i = i + 1;
    }
    proof {
        lemma_first_index_at(refs, db@.is_stored_mid(), i as int);
    }
    None
}

/// Appends the recipients of `ps` whose lower-cased address differs from
/// `my_lower`.
fn push_not_me(
    out: &mut Vec<(String, Option<String>)>,
    ps: &Vec<(String, Option<String>)>,
    my_email: &str,
    my_lower: &String,
)
    requires
        my_lower@ == unicode_lowercase(my_email@),
    ensures
        recipient_views(final(out)@) == recipient_views(old(out)@) + recipient_views(ps@).filter(
            not_me(my_email@),
        ),
{
    let ghost pv = recipient_views(ps@);
    let ghost base = recipient_views(out@);
    let mut i: usize = 0;
    while i < ps.len()
        invariant
            i <= ps.len(),
            pv == recipient_views(ps@),
            my_lower@ == unicode_lowercase(my_email@),
            recipient_views(out@) == base + pv.take(i as int).filter(not_me(my_email@)),
        decreases ps.len() - i,
    {
        proof {
            reveal(Seq::filter);
            assert(pv.take(i + 1).drop_last() =~= pv.take(i as int));
            assert(pv.take(i + 1).last() == recipient_view(ps@[i as int]));
        }
        let lower = to_lowercase(ps[i].0.as_str());
        if !str_eq(lower.as_str(), my_lower.as_str()) {
            let ghost before = recipient_views(out@);
            out.push((ps[i].0.clone(), ps[i].1.clone()));
            assert(recipient_views(out@) =~= before.push(recipient_view(ps@[i as int])));
        }
        i = i + 1;
    }
    assert(pv.take(ps.len() as int) =~= pv);
}

/// The participants of `parsed` other than `my_email` (see `participants_of`).
fn participants(parsed: &ParsedEmail, my_email: &str) -> (r: Vec<(String, Option<String>)>)
    ensures
        recipient_views(r@) == participants_of(parsed@, my_email@),
{
    let my_lower = to_lowercase(my_email);
    let from_lower = to_lowercase(parsed.from_email.as_str());
    let mut out: Vec<(String, Option<String>)> = Vec::new();
    if !str_eq(from_lower.as_str(), my_lower.as_str()) {
        out.push((parsed.from_email.clone(), parsed.from_name.clone()));
    }
    let ghost from_part = recipient_views(out@);
    assert(from_part =~= (if unicode_lowercase(parsed@.from_email) != unicode_lowercase(my_email@) {
        seq![(parsed@.from_email, parsed@.from_name)]
    } else {
        seq![]
    }));
    push_not_me(&mut out, &parsed.to, my_email, &my_lower);
    push_not_me(&mut out, &parsed.cc, my_email, &my_lower);
    out
}

/// The conversation of exactly the participants of `parsed` and
/// `my_email` (see `DbState::contact_conversation`).
fn contact_conversation(db: &mut Database, parsed: &ParsedEmail, my_email: &str, now: i64) -> (r:
    AppResult<i64>)
    requires
        old(db).wf(),
    ensures
        final(db).wf(),
        (final(db)@, r) == old(db)@.contact_conversation(parsed@, my_email@, now),
{
    let ps = participants(parsed, my_email);
    let my_id = match db.upsert_contact_at(my_email, None, now) {
        Err(e) => {
            return Err(e);
        },
        Ok(id) => id,
    };
    let first: Vec<i64> = vec![my_id];
    assert(first@ =~= seq![my_id]);
    let ids = match upsert_participants(db, &ps, now, first) {
        Err(e) => {
            return Err(e);
        },
        Ok(ids) => ids,
    };
    if ids.len() == 2 {
        let other = ids[1];
        match db.find_direct_conversation(my_id, other) {
            Err(e) => {
                return Err(e);
            },
            Ok(Some(c)) => {
                return Ok(c);
            },
            Ok(None) => {},
        }
        let c = match db.create_conversation(&ConversationKind::Direct) {
            Err(e) => {
                return Err(e);
            },
            Ok(c) => c,
        };
        match db.add_conversation_member(c, my_id, &MemberRole::To) {
            Err(e) => {
                return Err(e);
            },
            Ok(()) => {},
        }
        match db.add_conversation_member(c, other, &MemberRole::To) {
            Err(e) => Err(e),
            Ok(()) => Ok(c),
        }
    } else {
        match db.find_group_conversation(ids.as_slice()) {
            Err(e) => {
                return Err(e);
            },
            Ok(Some(c)) => {
                return Ok(c);
            },
            Ok(None) => {},
        }
        let c = match db.create_conversation(&ConversationKind::Group) {
            Err(e) => {
                return Err(e);
            },
            Ok(c) => c,
        };
        match db.add_conversation_member(c, my_id, &MemberRole::To) {
            Err(e) => {
                return Err(e);
            },
            Ok(()) => {},
        }
        match enroll(db, c, &ps, &parsed.cc, false, now) {
            Err(e) => Err(e),
            Ok(()) => Ok(c),
        }
    }
}

/// The conversation and thread for incoming message `parsed` received by
/// `my_email`, contacts seen at `now` (see `DbState::resolve`).
pub fn resolve_conversation_and_thread_at(
    db: &mut Database,
    parsed: &ParsedEmail,
    my_email: &str,
    now: i64,
) -> (r: AppResult<(i64, i64)>)
    requires
        old(db).wf(),
    ensures
        final(db).wf(),
        (final(db)@, r) == old(db)@.resolve(parsed@, my_email@, now),
{
    proof {
        reveal(DbState::resolve);
    }
    let subject = match &parsed.subject {
        Some(s) => s.clone(),
        None => owned("(no subject)"),
    };
    let normalized = normalize_subject(opt_as_str(&parsed.subject));
    if parsed.is_newsletter {
        let c = match newsletter_conversation(db, parsed, now) {
            Err(e) => {
                return Err(e);
            },
            Ok(c) => c,
        };
        return match db.create_thread(c, subject.as_str(), normalized.as_str()) {
            Err(e) => Err(e),
            Ok(t) => Ok((c, t)),
        };
    }
    match reply_target(db, parsed) {
        Some((c, t)) => {
            match extend_conversation_members_at(db, c, parsed, now) {
                Err(e) => Err(e),
                Ok(()) => Ok((c, t)),
            }
        },
        None => {
            let c = match contact_conversation(db, parsed, my_email, now) {
                Err(e) => {
                    return Err(e);
                },
                Ok(c) => c,
            };
            match db.create_thread(c, subject.as_str(), normalized.as_str()) {
                Err(e) => Err(e),
                Ok(t) => Ok((c, t)),
            }
        },
    }
}

/// `resolve_conversation_and_thread_at` with contacts seen now. The
/// account is not consulted: messages of every account share contacts and
/// conversations.
pub fn resolve_conversation_and_thread(
    db: &mut Database,
    parsed: &ParsedEmail,
    my_email: &str,
    account_id: i64,
) -> (r: AppResult<(i64, i64)>)
    requires
        old(db).wf(),
    ensures
        final(db).wf(),
        exists|now: i64| (final(db)@, r) == #[trigger] old(db)@.resolve(parsed@, my_email@, now),
{
    let _ = account_id;
    let now = crate::stamp::now_unix();
    resolve_conversation_and_thread_at(db, parsed, my_email, now)
}


/// A message that answers a stored message (and is no newsletter) joins the
/// conversation and thread of the message it answers, if it is placed at all.
pub proof fn law_reply_joins_answered_thread(s: DbState, p: ParsedEmailView, me: Seq<char>, now: i64)
    requires
        !p.is_newsletter,
        s.reply_target(p) is Some,
    ensures
        s.resolve(p, me, now).1 matches Ok(place) ==> place == s.reply_target(p).unwrap(),
{
    reveal(DbState::resolve);
}

/// The identifiers collected for participants start with the ones given and
/// hold no repeats when those did not.
pub proof fn law_upsert_participants_distinct(
    s: DbState,
    ps: Seq<(Seq<char>, Option<Seq<char>>)>,
    now: i64,
    ids: Seq<i64>,
)
    requires
        ids.no_duplicates(),
    ensures
        s.upsert_participants(ps, now, ids).1 matches Ok(got) ==> got.no_duplicates() && got.len()
            >= ids.len() && got.take(ids.len() as int) == ids,
    decreases ps.len(),
{
    if ps.len() > 0 {
        law_upsert_participants_distinct(s, ps.drop_last(), now, ids);
        let (s1, r1) = s.upsert_participants(ps.drop_last(), now, ids);
        if let Ok(got) = r1 {
            let (s2, r2) = s1.upsert_contact(ps.last().0, ps.last().1, now);
            if let Ok(cid) = r2 {
                if !got.contains(cid) {
                    assert(got.push(cid).take(ids.len() as int) =~= got.take(ids.len() as int));
                }
            }
        }
    }
}

/// A message that is no newsletter and answers a stored message joins that
/// message's conversation and thread: the one its In-Reply-To names when
/// that is stored, else the first stored message its References name.
pub proof fn law_reply_joins_referenced_thread(s: DbState, p: ParsedEmailView, me: Seq<char>, now: i64, i: int)
    requires
        !p.is_newsletter,
    ensures
        p.in_reply_to matches Some(irt) ==> (s.message_by_mid(irt) matches Some(m) ==> (s.resolve(
            p,
            me,
            now,
        ).1 matches Ok(ct) ==> ct == (m.conversation_id, m.thread_id))),
        ({
            &&& match p.in_reply_to {
                Some(irt) => s.message_by_mid(irt) is None,
                None => true,
            }
            &&& 0 <= i < p.references.len()
            &&& forall|j: int| 0 <= j < i ==> s.message_by_mid(#[trigger] p.references[j]) is None
        }) ==> (s.message_by_mid(p.references[i]) matches Some(m) ==> (s.resolve(p, me, now).1 matches Ok(ct)
            ==> ct == (m.conversation_id, m.thread_id))),
{
    reveal(DbState::resolve);
    let irt_unknown = match p.in_reply_to {
        Some(irt) => s.message_by_mid(irt) is None,
        None => true,
    };
    if irt_unknown && 0 <= i < p.references.len() && s.message_by_mid(p.references[i]) is Some && (forall|j: int|
        0 <= j < i ==> s.message_by_mid(#[trigger] p.references[j]) is None) {
        assert forall|k: int| 0 <= k < i implies !s.is_stored_mid()(#[trigger] p.references[k]) by {
            assert(s.message_by_mid(p.references[k]) is None);
        }
        lemma_first_index_at(p.references, s.is_stored_mid(), i);
    }
}

} // verus!

