//! Recording a sent message in the store: the conversation it continues (or
//! the one of its recipients), its thread, and the message itself.

use vstd::prelude::*;

use super::subject::{
    compose_references, compose_subject, normalize_subject, normalized_subject, outgoing_subject,
    reply_references,
};
use crate::smtp::outgoing::OutgoingMessage;
use super::threading::create_conversation_for_participants_at;
use crate::db::conversations::ConvUpdate;
use crate::db::messages::with_attachments;
use crate::db::threads::ThreadUpdate;
use crate::db::{db_err, Database, DbState, InsertMessage, InsertMessageView};
use crate::stamp::UtcTime;
use crate::error::{AppError, AppResult, DbError};
use crate::models::{
    copy_opt_string, copy_recipients, opt_str_view, opt_view, owned, recipient_views, Account,
    Message, MessageView,
};

verus! {

/// What the user asks to send.
#[derive(Debug, Clone)]
pub struct SendMessagePayload {
    pub to: Vec<(String, Option<String>)>,
    pub cc: Option<Vec<(String, Option<String>)>>,
    pub bcc: Option<Vec<(String, Option<String>)>>,
    /// The subject; when absent it is derived from the message replied to.
    pub subject: Option<String>,
    pub body: String,
    /// The Message-ID of the message replied to.
    pub in_reply_to_message_id: Option<String>,
}

/// The recipients a sent message's conversation is looked up by: its To,
/// then its Cc recipients.
pub open spec fn sent_participants(
    to: Seq<(Seq<char>, Option<Seq<char>>)>,
    cc: Option<Seq<(Seq<char>, Option<Seq<char>>)>>,
) -> Seq<(Seq<char>, Option<Seq<char>>)> {
    to + match cc {
        Some(c) => c,
        None => seq![],
    }
}

impl DbState {
    /// Where a message sent by `me` goes: for a reply, the conversation and
    /// thread of the stored message it answers; otherwise (or when that
    /// message is not stored) the conversation of its recipients `ps` and its
    /// subject's thread there. For a reply to an unknown message a refusal
    /// on the way stands in identifier 1; for a new message it is the answer.
    pub open spec fn sent_place(
        self,
        ps: Seq<(Seq<char>, Option<Seq<char>>)>,
        me: Seq<char>,
        subject: Seq<char>,
        in_reply_to: Option<Seq<char>>,
        now: i64,
    ) -> (DbState, AppResult<(i64, i64)>) {
        let norm = normalized_subject(Some(subject));
        match in_reply_to {
            Some(irt) => match self.message_by_mid(irt) {
                Some(m) => (self, Ok((m.conversation_id, m.thread_id))),
                None => {
                    let (s1, r1) = self.conversation_for_participants(ps, me, now);
                    let cid = match r1 {
                        Ok(c) => c,
                        Err(_) => 1,
                    };
                    let (s2, r2) = s1.create_thread(cid, subject, norm);
                    let tid = match r2 {
                        Ok(t) => t,
                        Err(_) => 1,
                    };
                    (s2, Ok((cid, tid)))
                },
            },
            None => {
                let (s1, r1) = self.conversation_for_participants(ps, me, now);
                match r1 {
                    Err(e) => (s1, Err(e)),
                    Ok(cid) => {
                        let (s2, r2) = s1.create_thread(cid, subject, norm);
                        match r2 {
                            Err(e) => (s2, Err(e)),
                            Ok(tid) => (s2, Ok((cid, tid))),
                        }
                    },
                }
            },
        }
    }

    /// Recording a message that `account` (address `me`, name `my_name`)
    /// sent at `now` to `ps`, with subject `subject`, text `body` and
    /// Message-ID `message_id`: placed (see `sent_place`), stored as
    /// outgoing and read, the conversation's and thread's latest times set;
    /// the answer is the stored message, without attachments.
    pub open spec fn record_sent(
        self,
        account: i64,
        me: Seq<char>,
        my_name: Option<Seq<char>>,
        ps: Seq<(Seq<char>, Option<Seq<char>>)>,
        in_reply_to: Option<Seq<char>>,
        subject: Seq<char>,
        body: Seq<char>,
        message_id: Seq<char>,
        now: UtcTime,
    ) -> (DbState, AppResult<MessageView>) {
        let (s1, r1) = self.sent_place(ps, me, subject, in_reply_to, now.secs);
        match r1 {
            Err(e) => (s1, Err(e)),
            Ok((c, t)) => {
                let ins = InsertMessageView {
                    conversation_id: c,
                    thread_id: t,
                    account_id: account,
                    message_id,
                    in_reply_to,
                    from_email: me,
                    from_name: my_name,
                    subject: Some(subject),
                    body_text: Some(body),
                    body_html: None,
                    sent_at: now,
                    is_outgoing: true,
                    is_read: true,
                    raw_headers: None,
                };
                let (s2, r2) = s1.insert_message(ins);
                match r2 {
                    Err(e) => (s2, Err(e)),
                    Ok(id) => {
                        let s3 = s2.update_conversation(c, ConvUpdate::LastMessageAt(now)).update_thread(
                            t,
                            ThreadUpdate::LastMessageAt(now),
                        );
                        match s3.message(id) {
                            Some(m) => (s3, Ok(with_attachments(m, seq![]))),
                            None => (s3, db_err(DbError::NoRows)),
                        }
                    },
                }
            },
        }
    }
}

/// The recipients a sent message's conversation is looked up by.
fn participants_of_payload(payload: &SendMessagePayload) -> (r: Vec<(String, Option<String>)>)
    ensures
        recipient_views(r@) == sent_participants(
            recipient_views(payload.to@),
            match payload.cc {
                Some(c) => Some(recipient_views(c@)),
                None => None,
            },
        ),
{
    let mut all = copy_recipients(&payload.to);
    if let Some(cc) = &payload.cc {
        let ghost before = recipient_views(all@);
        let mut i: usize = 0;
        while i < cc.len()
            invariant
                i <= cc.len(),
                recipient_views(all@) == before + recipient_views(cc@).take(i as int),
            decreases cc.len() - i,
        {
            let ghost b = recipient_views(all@);
            all.push((cc[i].0.clone(), copy_opt_string(&cc[i].1)));
            assert(recipient_views(all@) =~= b.push(crate::models::recipient_view(cc@[i as int])));
            assert(recipient_views(cc@).take(i + 1) =~= recipient_views(cc@).take(i as int).push(
                crate::models::recipient_view(cc@[i as int]),
            ));
            i = i + 1;
        }
        assert(recipient_views(cc@).take(cc.len() as int) =~= recipient_views(cc@));
    } else {
        assert(recipient_views(all@) =~= recipient_views(all@) + Seq::<(Seq<char>, Option<Seq<char>>)>::empty());
    }
    all
}

/// Where a sent message goes (see `DbState::sent_place`).
fn sent_place(
    db: &mut Database,
    ps: &Vec<(String, Option<String>)>,
    my_email: &str,
    subject: &str,
    in_reply_to: Option<&str>,
    now: i64,
) -> (r: AppResult<(i64, i64)>)
    requires
        old(db).wf(),
    ensures
        final(db).wf(),
        (final(db)@, r) == old(db)@.sent_place(
            recipient_views(ps@),
            my_email@,
            subject@,
            opt_str_view(in_reply_to),
            now,
        ),
{
    let normalized = normalize_subject(Some(subject));
    match in_reply_to {
        Some(irt) => {
            if let Ok(Some(found)) = db.find_conversation_and_thread_by_message_id(irt) {
                return Ok(found);
            }
            let cid = match create_conversation_for_participants_at(db, ps, my_email, now) {
                Ok(c) => c,
                Err(_) => 1,
            };
            let tid = match db.create_thread(cid, subject, normalized.as_str()) {
                Ok(t) => t,
                Err(_) => 1,
            };
            Ok((cid, tid))
        },
        None => {
            let cid = match create_conversation_for_participants_at(db, ps, my_email, now) {
                Ok(c) => c,
                Err(e) => {
                    return Err(e);
                },
            };
            match db.create_thread(cid, subject, normalized.as_str()) {
                Ok(tid) => Ok((cid, tid)),
                Err(e) => Err(e),
            }
        },
    }
}

/// Records a message that `account` sent at `now` (see
/// `DbState::record_sent`): `subject` and `message_id` are the ones it was
/// sent with, the recipients, text and replied-to message come from
/// `payload`.
pub fn record_sent_message(
    db: &mut Database,
    account: &Account,
    payload: &SendMessagePayload,
    subject: &str,
    message_id: &str,
    now: UtcTime,
) -> (r: AppResult<Message>)
    requires
        old(db).wf(),
    ensures
        final(db).wf(),
        ({
            let (s, res) = old(db)@.record_sent(
                account.id,
                account.email@,
                opt_view(account.display_name),
                sent_participants(
                    recipient_views(payload.to@),
                    match payload.cc {
                        Some(c) => Some(recipient_views(c@)),
                        None => None,
                    },
                ),
                opt_view(payload.in_reply_to_message_id),
                subject@,
                payload.body@,
                message_id@,
                now,
            );
            &&& final(db)@ == s
            &&& match res {
                Ok(m) => r matches Ok(x) && x@ == m,
                Err(e) => r == Err::<Message, AppError>(e),
            }
        }),
{
    let ps = participants_of_payload(payload);
    let irt = match &payload.in_reply_to_message_id {
        Some(s) => Some(s.as_str()),
        None => None,
    };
    let (conv_id, thread_id) = match sent_place(db, &ps, account.email.as_str(), subject, irt, now.secs) {
        Ok(place) => place,
        Err(e) => {
            return Err(e);
        },
    };
    let insert = InsertMessage {
        conversation_id: conv_id,
        thread_id,
        account_id: account.id,
        message_id: owned(message_id),
        in_reply_to: copy_opt_string(&payload.in_reply_to_message_id),
        from_email: account.email.clone(),
        from_name: copy_opt_string(&account.display_name),
        subject: Some(owned(subject)),
        body_text: Some(payload.body.clone()),
        body_html: None,
        sent_at: now,
        is_outgoing: true,
        is_read: true,
        raw_headers: None,
    };
    assert(insert@ == InsertMessageView {
        conversation_id: conv_id,
        thread_id: thread_id,
        account_id: account.id,
        message_id: message_id@,
        in_reply_to: opt_view(payload.in_reply_to_message_id),
        from_email: account.email@,
        from_name: opt_view(account.display_name),
        subject: Some(subject@),
        body_text: Some(payload.body@),
        body_html: None,
        sent_at: now,
        is_outgoing: true,
        is_read: true,
        raw_headers: None,
    });
    let id = match db.insert_message(&insert) {
        Ok(id) => id,
        Err(e) => {
            return Err(e);
        },
    };
    let ghost s2 = db@;
    let _ = db.update_conversation_last_message(conv_id, now, Some(payload.body.as_str()));
    let _ = db.update_thread_last_message(thread_id, now);
    assert(db@ == s2.update_conversation(conv_id, ConvUpdate::LastMessageAt(now)).update_thread(
        thread_id,
        ThreadUpdate::LastMessageAt(now),
    ));
    match db.get_message_by_id(id) {
        Ok(msg) => {
            let mut msg = msg;
            let ghost full = msg@;
            msg.attachments = Vec::new();
            assert(crate::models::attachment_views(msg.attachments@) =~= Seq::<crate::models::AttachmentView>::empty());
            assert(msg@ == MessageView { attachments: seq![], ..full });
            Ok(msg)
        },
        Err(e) => Err(e),
    }
}


/// The recipients of an optional list, none when it is absent.
pub open spec fn opt_recipients(v: Option<Vec<(String, Option<String>)>>) -> Seq<(Seq<char>, Option<Seq<char>>)> {
    match v {
        Some(l) => recipient_views(l@),
        None => seq![],
    }
}

/// The message to send for `payload` from `account`: its recipients and
/// text as given, the subject and References derived for a reply (see
/// `outgoing_subject` and `reply_references`), and no attachments.
pub fn compose_outgoing(db: &Database, account: &Account, payload: &SendMessagePayload) -> (r: OutgoingMessage)
    ensures
        r.from_email@ == account.email@,
        opt_view(r.from_name) == opt_view(account.display_name),
        recipient_views(r.to@) == recipient_views(payload.to@),
        recipient_views(r.cc@) == opt_recipients(payload.cc),
        recipient_views(r.bcc@) == opt_recipients(payload.bcc),
        r.subject@ == outgoing_subject(opt_view(payload.subject), opt_view(payload.in_reply_to_message_id), db@),
        r.body_text@ == payload.body@,
        opt_view(r.in_reply_to) == opt_view(payload.in_reply_to_message_id),
        r.references@.map_values(|s: String| s@) == reply_references(opt_view(payload.in_reply_to_message_id), db@),
        r.attachments@.len() == 0,
{
    let subject = match &payload.subject {
        Some(s) => Some(s.as_str()),
        None => None,
    };
    let irt = match &payload.in_reply_to_message_id {
        Some(s) => Some(s.as_str()),
        None => None,
    };
    assert(opt_str_view(subject) == opt_view(payload.subject));
    assert(opt_str_view(irt) == opt_view(payload.in_reply_to_message_id));
    let cc = match &payload.cc {
        Some(c) => copy_recipients(c),
        None => {
            let v: Vec<(String, Option<String>)> = Vec::new();
            assert(recipient_views(v@) =~= Seq::<(Seq<char>, Option<Seq<char>>)>::empty());
            v
        },
    };
    let bcc = match &payload.bcc {
        Some(c) => copy_recipients(c),
        None => {
            let v: Vec<(String, Option<String>)> = Vec::new();
            assert(recipient_views(v@) =~= Seq::<(Seq<char>, Option<Seq<char>>)>::empty());
            v
        },
    };
    OutgoingMessage {
        from_email: account.email.clone(),
        from_name: copy_opt_string(&account.display_name),
        to: copy_recipients(&payload.to),
        cc,
        bcc,
        subject: compose_subject(db, subject, irt),
        body_text: payload.body.clone(),
        in_reply_to: copy_opt_string(&payload.in_reply_to_message_id),
        references: compose_references(db, irt),
        attachments: Vec::new(),
    }
}

} // verus!
