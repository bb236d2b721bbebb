//! The data model shared by the store, the mail protocols and the UI.
//!
//! Sending times are instants in UTC (`UtcTime`); the times contacts are
//! seen are Unix times in whole seconds.

use vstd::prelude::*;

use crate::error::{AppError, AppResult};
use crate::stamp::UtcTime;
use crate::text::{
    chars_eq, chars_of, extend_chars, join, join_chars, lemma_words_nonempty, str_eq, string_of,
    views, words, words_of,
};

verus! {

/// The characters of an optional string.
pub open spec fn opt_view(o: Option<String>) -> Option<Seq<char>> {
    match o {
        Some(s) => Some(s@),
        None => None,
    }
}

/// The characters of an optional string slice.
pub open spec fn opt_str_view(o: Option<&str>) -> Option<Seq<char>> {
    match o {
        Some(s) => Some(s@),
        None => None,
    }
}

/// A copy of an optional string.
pub fn copy_opt_string(o: &Option<String>) -> (r: Option<String>)
    ensures
        r == *o,
{
    match o {
        Some(s) => Some(s.clone()),
        None => None,
    }
}

/// A `String` holding the characters of a string slice.
pub fn owned(s: &str) -> (r: String)
    ensures
        r@ == s@,
{
    let v = chars_of(s);
    string_of(&v)
}

/// An optional owned string from an optional slice.
pub fn owned_opt(s: Option<&str>) -> (r: Option<String>)
    ensures
        match s {
            Some(t) => r is Some && r->0@ == t@,
            None => r is None,
        },
{
    match s {
        Some(t) => Some(owned(t)),
        None => None,
    }
}

// ─── Recipients ──────────────────────────────────────────────────────────────

/// An address and its optional display name, by their characters.
pub open spec fn recipient_view(p: (String, Option<String>)) -> (Seq<char>, Option<Seq<char>>) {
    (p.0@, opt_view(p.1))
}

/// The characters of a list of addresses with optional display names.
pub open spec fn recipient_views(v: Seq<(String, Option<String>)>) -> Seq<(Seq<char>, Option<Seq<char>>)> {
    v.map_values(|p: (String, Option<String>)| recipient_view(p))
}

/// A copy of a list of addresses with optional display names.
pub fn copy_recipients(v: &Vec<(String, Option<String>)>) -> (r: Vec<(String, Option<String>)>)
    ensures
        recipient_views(r@) == recipient_views(v@),
{
    let mut r: Vec<(String, Option<String>)> = Vec::new();
    let mut i: usize = 0;
    while i < v.len()
        invariant
            i <= v.len(),
            recipient_views(r@) == recipient_views(v@).take(i as int),
        decreases v.len() - i,
    {
        let p = (v[i].0.clone(), copy_opt_string(&v[i].1));
        let ghost before = recipient_views(r@);
        r.push(p);
        assert(recipient_views(r@) =~= before.push(recipient_view(v@[i as int])));
        assert(recipient_views(v@).take(i + 1) =~= recipient_views(v@).take(i as int).push(
            recipient_view(v@[i as int]),
        ));
        i = i + 1;
    }
    assert(recipient_views(v@).take(v.len() as int) =~= recipient_views(v@));
    r
}

// ─── Account ─────────────────────────────────────────────────────────────────

#[derive(Debug, Clone)]
pub struct Account {
    pub id: i64,
    pub email: String,
    pub display_name: Option<String>,
    pub imap_host: String,
    pub imap_port: u16,
    pub smtp_host: String,
    pub smtp_port: u16,
    pub keychain_ref: String,
}

pub struct AccountView {
    pub id: i64,
    pub email: Seq<char>,
    pub display_name: Option<Seq<char>>,
    pub imap_host: Seq<char>,
    pub imap_port: u16,
    pub smtp_host: Seq<char>,
    pub smtp_port: u16,
    pub keychain_ref: Seq<char>,
}

impl View for Account {
    type V = AccountView;

    open spec fn view(&self) -> AccountView {
        AccountView {
            id: self.id,
            email: self.email@,
            display_name: opt_view(self.display_name),
            imap_host: self.imap_host@,
            imap_port: self.imap_port,
            smtp_host: self.smtp_host@,
            smtp_port: self.smtp_port,
            keychain_ref: self.keychain_ref@,
        }
    }
}

impl Account {
    /// A copy of this account.
    pub fn copy(&self) -> (r: Self)
        ensures
            r@ == self@,
    {
        Account {
            id: self.id,
            email: self.email.clone(),
            display_name: copy_opt_string(&self.display_name),
            imap_host: self.imap_host.clone(),
            imap_port: self.imap_port,
            smtp_host: self.smtp_host.clone(),
            smtp_port: self.smtp_port,
            keychain_ref: self.keychain_ref.clone(),
        }
    }
}

#[derive(Debug, Clone)]
pub struct NewAccount {
    pub email: String,
    pub display_name: Option<String>,
    pub imap_host: String,
    pub imap_port: u16,
    pub smtp_host: String,
    pub smtp_port: u16,
    /// Only used when the account is created; it goes to the credential store.
    pub password: String,
}

#[derive(Debug, Clone)]
pub struct MacosAccount {
    pub name: String,
    pub email: String,
}

// ─── Contact ─────────────────────────────────────────────────────────────────

#[derive(Debug, Clone)]
pub struct Contact {
    pub id: i64,
    pub email: String,
    pub display_name: Option<String>,
    pub avatar_url: Option<String>,
    pub last_seen: Option<i64>,
}

pub struct ContactView {
    pub id: i64,
    pub email: Seq<char>,
    pub display_name: Option<Seq<char>>,
    pub avatar_url: Option<Seq<char>>,
    pub last_seen: Option<i64>,
}

impl View for Contact {
    type V = ContactView;

    open spec fn view(&self) -> ContactView {
        ContactView {
            id: self.id,
            email: self.email@,
            display_name: opt_view(self.display_name),
            avatar_url: opt_view(self.avatar_url),
            last_seen: self.last_seen,
        }
    }
}

impl Contact {
    /// A copy of this contact.
    pub fn copy(&self) -> (r: Self)
        ensures
            r@ == self@,
    {
        Contact {
            id: self.id,
            email: self.email.clone(),
            display_name: copy_opt_string(&self.display_name),
            avatar_url: copy_opt_string(&self.avatar_url),
            last_seen: self.last_seen,
        }
    }
}

// ─── Conversation ────────────────────────────────────────────────────────────

#[derive(Debug, Clone, Copy, PartialEq, Eq, Structural)]
pub enum ConversationKind {
    Direct,
    Group,
    Channel,
}

/// The stored name of each conversation kind.
pub open spec fn kind_name(k: ConversationKind) -> Seq<char> {
    match k {
        ConversationKind::Direct => seq!['d', 'i', 'r', 'e', 'c', 't'],
        ConversationKind::Group => seq!['g', 'r', 'o', 'u', 'p'],
        ConversationKind::Channel => seq!['c', 'h', 'a', 'n', 'n', 'e', 'l'],
    }
}

/// The stored name of each member role.
pub open spec fn role_name(r: MemberRole) -> Seq<char> {
    match r {
        MemberRole::To => seq!['t', 'o'],
        MemberRole::Cc => seq!['c', 'c'],
        MemberRole::Bcc => seq!['b', 'c', 'c'],
    }
}

impl ConversationKind {
    pub fn as_str(&self) -> (r: &'static str)
        ensures
            r@ == kind_name(*self),
    {
        match self {
            ConversationKind::Direct => {
                proof {
                    reveal_strlit("direct");
                }
                "direct"
            },
            ConversationKind::Group => {
                proof {
                    reveal_strlit("group");
                }
                "group"
            },
            ConversationKind::Channel => {
                proof {
                    reveal_strlit("channel");
                }
                "channel"
            },
        }
    }

    /// The kind whose stored name is `s`; any other text is invalid data.
    pub fn try_from_str(s: &str) -> (r: AppResult<ConversationKind>)
        ensures
            match r {
                Ok(k) => kind_name(k) == s@,
                Err(e) => e is InvalidData && (forall|k: ConversationKind| kind_name(k) != s@),
            },
    {
        let v = chars_of(s);
        let d = chars_of(ConversationKind::Direct.as_str());
        let g = chars_of(ConversationKind::Group.as_str());
        let c = chars_of(ConversationKind::Channel.as_str());
        if chars_eq(&v, &d) {
            Ok(ConversationKind::Direct)
        } else if chars_eq(&v, &g) {
            Ok(ConversationKind::Group)
        } else if chars_eq(&v, &c) {
            Ok(ConversationKind::Channel)
        } else {
            let mut msg = chars_of("unknown conversation kind: ");
            extend_chars(&mut msg, &v);
            Err(AppError::InvalidData(string_of(&msg)))
        }
    }
}

#[derive(Debug, Clone, Copy, PartialEq, Eq, Structural)]
pub enum MemberRole {
    To,
    Cc,
    Bcc,
}

impl MemberRole {
    pub fn as_str(&self) -> (r: &'static str)
        ensures
            r@ == role_name(*self),
    {
        match self {
            MemberRole::To => {
                proof {
                    reveal_strlit("to");
                }
                "to"
            },
            MemberRole::Cc => {
                proof {
                    reveal_strlit("cc");
                }
                "cc"
            },
            MemberRole::Bcc => {
                proof {
                    reveal_strlit("bcc");
                }
                "bcc"
            },
        }
    }

    /// The role whose stored name is `s`; any other text is invalid data.
    pub fn try_from_str(s: &str) -> (r: AppResult<MemberRole>)
        ensures
            match r {
                Ok(k) => role_name(k) == s@,
                Err(e) => e is InvalidData && (forall|k: MemberRole| role_name(k) != s@),
            },
    {
        let v = chars_of(s);
        let t = chars_of(MemberRole::To.as_str());
        let c = chars_of(MemberRole::Cc.as_str());
        let b = chars_of(MemberRole::Bcc.as_str());
        if chars_eq(&v, &t) {
            Ok(MemberRole::To)
        } else if chars_eq(&v, &c) {
            Ok(MemberRole::Cc)
        } else if chars_eq(&v, &b) {
            Ok(MemberRole::Bcc)
        } else {
            let mut msg = chars_of("unknown member role: ");
            extend_chars(&mut msg, &v);
            Err(AppError::InvalidData(string_of(&msg)))
        }
    }
}

/// Each conversation kind is read back from its stored name.
pub proof fn lemma_kind_name_roundtrip(a: ConversationKind, b: ConversationKind)
    ensures
        kind_name(a) == kind_name(b) <==> a == b,
{
    if a != b {
        assert(kind_name(a).len() != kind_name(b).len() || kind_name(a)[0] != kind_name(b)[0]);
    }
}

/// Each member role is read back from its stored name.
pub proof fn lemma_role_name_roundtrip(a: MemberRole, b: MemberRole)
    ensures
        role_name(a) == role_name(b) <==> a == b,
{
    if a != b {
        assert(role_name(a).len() != role_name(b).len() || role_name(a)[0] != role_name(b)[0]);
    }
}

} // verus!

verus! {

#[derive(Debug, Clone)]
pub struct ConversationMember {
    pub contact: Contact,
    pub role: MemberRole,
}

pub struct MemberView {
    pub contact: ContactView,
    pub role: MemberRole,
}

impl View for ConversationMember {
    type V = MemberView;

    open spec fn view(&self) -> MemberView {
        MemberView { contact: self.contact@, role: self.role }
    }
}

/// The views of a list of members.
pub open spec fn member_views(v: Seq<ConversationMember>) -> Seq<MemberView> {
    v.map_values(|m: ConversationMember| m@)
}

/// A copy of a list of members.
pub fn copy_members(v: &Vec<ConversationMember>) -> (r: Vec<ConversationMember>)
    ensures
        member_views(r@) == member_views(v@),
{
    let mut r: Vec<ConversationMember> = Vec::new();
    let mut i: usize = 0;
    while i < v.len()
        invariant
            i <= v.len(),
            member_views(r@) == member_views(v@).take(i as int),
        decreases v.len() - i,
    {
        let m = ConversationMember { contact: v[i].contact.copy(), role: v[i].role };
        let ghost before = member_views(r@);
        r.push(m);
        assert(member_views(r@) =~= before.push(v@[i as int]@));
        assert(member_views(v@).take(i + 1) =~= member_views(v@).take(i as int).push(
            v@[i as int]@,
        ));
        i = i + 1;
    }
    assert(member_views(v@).take(v.len() as int) =~= member_views(v@));
    r
}

#[derive(Debug, Clone)]
pub struct Conversation {
    pub id: i64,
    pub kind: ConversationKind,
    pub subject_hint: Option<String>,
    pub last_message_at: Option<UtcTime>,
    pub unread_count: i64,
    /// The members of the conversation.
    pub members: Vec<ConversationMember>,
    /// A preview of the latest message.
    pub last_message_preview: Option<String>,
}

pub struct ConversationView {
    pub id: i64,
    pub kind: ConversationKind,
    pub subject_hint: Option<Seq<char>>,
    pub last_message_at: Option<UtcTime>,
    pub unread_count: i64,
    pub members: Seq<MemberView>,
    pub last_message_preview: Option<Seq<char>>,
}

impl View for Conversation {
    type V = ConversationView;

    open spec fn view(&self) -> ConversationView {
        ConversationView {
            id: self.id,
            kind: self.kind,
            subject_hint: opt_view(self.subject_hint),
            last_message_at: self.last_message_at,
            unread_count: self.unread_count,
            members: member_views(self.members@),
            last_message_preview: opt_view(self.last_message_preview),
        }
    }
}

// ─── Message ─────────────────────────────────────────────────────────────────

#[derive(Debug, Clone)]
pub struct Attachment {
    pub id: i64,
    pub message_id: i64,
    pub filename: Option<String>,
    pub mime_type: Option<String>,
    pub size_bytes: Option<i64>,
    pub local_path: Option<String>,
}

pub struct AttachmentView {
    pub id: i64,
    pub message_id: i64,
    pub filename: Option<Seq<char>>,
    pub mime_type: Option<Seq<char>>,
    pub size_bytes: Option<i64>,
    pub local_path: Option<Seq<char>>,
}

impl View for Attachment {
    type V = AttachmentView;

    open spec fn view(&self) -> AttachmentView {
        AttachmentView {
            id: self.id,
            message_id: self.message_id,
            filename: opt_view(self.filename),
            mime_type: opt_view(self.mime_type),
            size_bytes: self.size_bytes,
            local_path: opt_view(self.local_path),
        }
    }
}

impl Attachment {
    /// A copy of this attachment record.
    pub fn copy(&self) -> (r: Self)
        ensures
            r@ == self@,
    {
        Attachment {
            id: self.id,
            message_id: self.message_id,
            filename: copy_opt_string(&self.filename),
            mime_type: copy_opt_string(&self.mime_type),
            size_bytes: self.size_bytes,
            local_path: copy_opt_string(&self.local_path),
        }
    }
}

/// The views of a list of attachments.
pub open spec fn attachment_views(v: Seq<Attachment>) -> Seq<AttachmentView> {
    v.map_values(|a: Attachment| a@)
}

#[derive(Debug, Clone)]
pub struct Message {
    pub id: i64,
    pub conversation_id: i64,
    pub account_id: i64,
    /// The RFC 5322 Message-ID header.
    pub message_id: String,
    /// The Message-ID of the parent message.
    pub in_reply_to: Option<String>,
    pub thread_id: i64,
    pub from_email: String,
    pub from_name: Option<String>,
    pub subject: Option<String>,
    /// Plain text without quotes and signature.
    pub body_text: Option<String>,
    /// The original HTML body.
    pub body_html: Option<String>,
    pub sent_at: UtcTime,
    pub is_outgoing: bool,
    pub is_read: bool,
    /// The full headers, as a JSON string.
    pub raw_headers: Option<String>,
    /// The attachments of the message.
    pub attachments: Vec<Attachment>,
}

pub struct MessageView {
    pub id: i64,
    pub conversation_id: i64,
    pub account_id: i64,
    pub message_id: Seq<char>,
    pub in_reply_to: Option<Seq<char>>,
    pub thread_id: i64,
    pub from_email: Seq<char>,
    pub from_name: Option<Seq<char>>,
    pub subject: Option<Seq<char>>,
    pub body_text: Option<Seq<char>>,
    pub body_html: Option<Seq<char>>,
    pub sent_at: UtcTime,
    pub is_outgoing: bool,
    pub is_read: bool,
    pub raw_headers: Option<Seq<char>>,
    pub attachments: Seq<AttachmentView>,
}

impl View for Message {
    type V = MessageView;

    open spec fn view(&self) -> MessageView {
        MessageView {
            id: self.id,
            conversation_id: self.conversation_id,
            account_id: self.account_id,
            message_id: self.message_id@,
            in_reply_to: opt_view(self.in_reply_to),
            thread_id: self.thread_id,
            from_email: self.from_email@,
            from_name: opt_view(self.from_name),
            subject: opt_view(self.subject),
            body_text: opt_view(self.body_text),
            body_html: opt_view(self.body_html),
            sent_at: self.sent_at,
            is_outgoing: self.is_outgoing,
            is_read: self.is_read,
            raw_headers: opt_view(self.raw_headers),
            attachments: attachment_views(self.attachments@),
        }
    }
}

// ─── Thread ──────────────────────────────────────────────────────────────────

#[derive(Debug, Clone)]
pub struct Thread {
    pub id: i64,
    pub conversation_id: i64,
    pub subject: String,
    pub normalized_subject: String,
    pub last_message_at: Option<UtcTime>,
    pub unread_count: i64,
}

pub struct ThreadView {
    pub id: i64,
    pub conversation_id: i64,
    pub subject: Seq<char>,
    pub normalized_subject: Seq<char>,
    pub last_message_at: Option<UtcTime>,
    pub unread_count: i64,
}

impl View for Thread {
    type V = ThreadView;

    open spec fn view(&self) -> ThreadView {
        ThreadView {
            id: self.id,
            conversation_id: self.conversation_id,
            subject: self.subject@,
            normalized_subject: self.normalized_subject@,
            last_message_at: self.last_message_at,
            unread_count: self.unread_count,
        }
    }
}

impl Thread {
    /// A copy of this thread.
    pub fn copy(&self) -> (r: Self)
        ensures
            r@ == self@,
    {
        Thread {
            id: self.id,
            conversation_id: self.conversation_id,
            subject: self.subject.clone(),
            normalized_subject: self.normalized_subject.clone(),
            last_message_at: self.last_message_at,
            unread_count: self.unread_count,
        }
    }
}

#[derive(Debug, Clone)]
pub struct ThreadListItem {
    pub id: i64,
    pub conversation_id: i64,
    pub subject: String,
    pub last_message_preview: Option<String>,
    pub last_message_at: Option<UtcTime>,
    pub unread_count: i64,
}

pub struct ThreadListItemView {
    pub id: i64,
    pub conversation_id: i64,
    pub subject: Seq<char>,
    pub last_message_preview: Option<Seq<char>>,
    pub last_message_at: Option<UtcTime>,
    pub unread_count: i64,
}

impl View for ThreadListItem {
    type V = ThreadListItemView;

    open spec fn view(&self) -> ThreadListItemView {
        ThreadListItemView {
            id: self.id,
            conversation_id: self.conversation_id,
            subject: self.subject@,
            last_message_preview: opt_view(self.last_message_preview),
            last_message_at: self.last_message_at,
            unread_count: self.unread_count,
        }
    }
}

// ─── Credentials and sync state ──────────────────────────────────────────────

/// Login data; kept in the system credential store, never in the database.
#[derive(Debug, Clone)]
pub struct Credentials {
    pub account_id: i64,
    pub username: String,
    pub password: String,
}

#[derive(Debug, Clone)]
pub struct SyncStatus {
    pub account_id: i64,
    pub is_syncing: bool,
    pub last_sync_at: Option<i64>,
    pub error: Option<String>,
}

} // verus!

verus! {

// ─── Conversation list items ─────────────────────────────────────────────────

/// How a member is shown: the contact's display name, else its address.
pub open spec fn member_label(m: MemberView) -> Seq<char> {
    match m.contact.display_name {
        Some(n) => n,
        None => m.contact.email,
    }
}

/// The members other than the user with address `me`.
pub open spec fn other_members(members: Seq<MemberView>, me: Seq<char>) -> Seq<MemberView> {
    members.filter(|m: MemberView| m.contact.email != me)
}

/// The title of a conversation as the user with address `me` sees it:
/// "Saved Messages" when nobody else is in it, the other member's label in a
/// dialogue, and the other members' labels separated by ", " in a group.
pub open spec fn conversation_title(members: Seq<MemberView>, me: Seq<char>) -> Seq<char> {
    let o = other_members(members, me);
    if o.len() == 0 {
        "Saved Messages"@
    } else if o.len() == 1 {
        member_label(o[0])
    } else {
        join(o.map_values(|m: MemberView| member_label(m)), ", "@)
    }
}

/// The label of a member.
fn label_of(m: &ConversationMember) -> (r: Vec<char>)
    ensures
        r@ == member_label(m@),
{
    match &m.contact.display_name {
        Some(n) => chars_of(n.as_str()),
        None => chars_of(m.contact.email.as_str()),
    }
}

/// The title of a conversation for the user with address `my_email`.
pub fn conversation_display_name(conv: &Conversation, my_email: &str) -> (r: String)
    ensures
        r@ == conversation_title(conv@.members, my_email@),
{
    let ghost mv = member_views(conv.members@);
    let ghost p = |m: MemberView| m.contact.email != my_email@;
    let mut labels: Vec<Vec<char>> = Vec::new();
    let mut i: usize = 0;
    while i < conv.members.len()
        invariant
            i <= conv.members.len(),
            mv == member_views(conv.members@),
            p == (|m: MemberView| m.contact.email != my_email@),
            views(labels@) == mv.take(i as int).filter(p).map_values(
                |m: MemberView| member_label(m),
            ),
        decreases conv.members.len() - i,
    {
        let m = &conv.members[i];
        proof {
            assert(mv.take(i + 1) =~= mv.take(i as int).push(mv[i as int]));
            mv.take(i as int).lemma_filter_push(mv[i as int], p);
        }
        if !str_eq(m.contact.email.as_str(), my_email) {
            let l = label_of(m);
            let ghost before = views(labels@);
            labels.push(l);
            assert(views(labels@) =~= before.push(member_label(mv[i as int])));
            assert(mv.take(i + 1).filter(p).map_values(|m: MemberView| member_label(m))
                =~= mv.take(i as int).filter(p).map_values(|m: MemberView| member_label(m)).push(
                member_label(mv[i as int]),
            ));
        } else {
            assert(mv.take(i + 1).filter(p) == mv.take(i as int).filter(p));
        }
        i = i + 1;
    }
    assert(mv.take(conv.members.len() as int) =~= mv);
    assert(other_members(mv, my_email@) == mv.filter(p));
    let ghost o = mv.filter(p);
    assert(views(labels@) == o.map_values(|m: MemberView| member_label(m)));
    assert(views(labels@).len() == labels.len());
    if labels.len() == 1 {
        assert(views(labels@)[0] == labels@[0]@);
    }
    if labels.len() == 0 {
        owned("Saved Messages")
    } else if labels.len() == 1 {
        string_of(&labels[0])
    } else {
        let sep = chars_of(", ");
        let all = join_chars(&labels, &sep);
        string_of(&all)
    }
}

/// The upper-case form of `c` (`char::to_uppercase`).
pub uninterp spec fn char_uppercase(c: char) -> Seq<char>;

/// The upper-case form of an ASCII character.
pub open spec fn ascii_upper(c: char) -> char {
    if 'a' <= c <= 'z' {
        ((c as u32) - 32) as char
    } else {
        c
    }
}

/// The upper-case form of `c`, by `char::to_uppercase`; for an ASCII
/// character it is that character's ASCII upper case, as the standard
/// library documents. Beyond ASCII, the Unicode case mapping is not stated.
#[verifier::external_body]
fn uppercase_of(c: char) -> (r: Vec<char>)
    ensures
        r@ == char_uppercase(c),
        (c as u32) < 128 ==> r@ == seq![ascii_upper(c)],
{
    c.to_uppercase().collect()
}

/// The initials shown in a conversation's avatar for a title `name`.
pub open spec fn avatar_letters(name: Seq<char>) -> Seq<char> {
    let w = words_of(name);
    if w.len() == 0 {
        "?"@
    } else if w.len() == 1 {
        char_uppercase(w[0][0])
    } else {
        char_uppercase(w[0][0]) + char_uppercase(w[w.len() - 1][0])
    }
}

/// Every word of `name` starts with an ASCII character.
pub open spec fn initials_ascii(name: Seq<char>) -> bool {
    forall|k: int| 0 <= k < words_of(name).len() ==> (#[trigger] words_of(name)[k][0] as u32) < 128
}

/// `avatar_letters` for initials that are ASCII: their ASCII capitals.
pub open spec fn ascii_avatar_letters(name: Seq<char>) -> Seq<char> {
    let w = words_of(name);
    if w.len() == 0 {
        "?"@
    } else if w.len() == 1 {
        seq![ascii_upper(w[0][0])]
    } else {
        seq![ascii_upper(w[0][0]), ascii_upper(w[w.len() - 1][0])]
    }
}

/// The initials for a title: "?" when it has no word, the first letter of
/// its only word, or the first letters of its first and last words, in
/// upper case (ASCII letters as their ASCII capitals).
pub fn make_avatar_letters(name: &str) -> (r: String)
    ensures
        r@ == avatar_letters(name@),
        initials_ascii(name@) ==> r@ == ascii_avatar_letters(name@),
{
    let v = chars_of(name);
    let w = words(&v);
    proof {
        lemma_words_nonempty(v@);
    }
    if w.len() == 0 {
        owned("?")
    } else if w.len() == 1 {
        assert(w@[0]@ == words_of(name@)[0]);
        let u = uppercase_of(w[0][0]);
        proof {
            if initials_ascii(name@) {
                assert((words_of(name@)[0][0] as u32) < 128);
            }
        }
        string_of(&u)
    } else {
        let n = w.len();
        assert(w@[0]@ == words_of(name@)[0]);
        assert(w@[n - 1]@ == words_of(name@)[n - 1]);
        let mut u = uppercase_of(w[0][0]);
        let l = uppercase_of(w[n - 1][0]);
        proof {
            if initials_ascii(name@) {
                assert((words_of(name@)[0][0] as u32) < 128);
                assert((words_of(name@)[n - 1][0] as u32) < 128);
            }
        }
        let ghost before = u@;
        extend_chars(&mut u, &l);
        proof {
            if initials_ascii(name@) {
                assert(u@ =~= seq![ascii_upper(words_of(name@)[0][0]), ascii_upper(words_of(name@)[n - 1][0])]);
            }
        }
        string_of(&u)
    }
}

/// A conversation as the conversation list shows it.
#[derive(Debug, Clone)]
pub struct ConversationListItem {
    pub id: i64,
    pub kind: ConversationKind,
    pub display_name: String,
    pub avatar_letters: String,
    pub last_message_preview: Option<String>,
    pub last_message_at: Option<UtcTime>,
    pub unread_count: i64,
    pub members: Vec<ConversationMember>,
}

impl ConversationListItem {
    /// The list entry of `conv` for the user with address `my_email`.
    pub fn from_conversation(conv: &Conversation, my_email: &str) -> (r: Self)
        ensures
            r.id == conv.id,
            r.kind == conv.kind,
            r.display_name@ == conversation_title(conv@.members, my_email@),
            r.avatar_letters@ == avatar_letters(conversation_title(conv@.members, my_email@)),
            opt_view(r.last_message_preview) == opt_view(conv.last_message_preview),
            r.last_message_at == conv.last_message_at,
            r.unread_count == conv.unread_count,
            member_views(r.members@) == member_views(conv.members@),
    {
        let display_name = conversation_display_name(conv, my_email);
        let avatar_letters = make_avatar_letters(display_name.as_str());
        Self {
            id: conv.id,
            kind: conv.kind,
            display_name,
            avatar_letters,
            last_message_preview: copy_opt_string(&conv.last_message_preview),
            last_message_at: conv.last_message_at,
            unread_count: conv.unread_count,
            members: copy_members(&conv.members),
        }
    }
}

} // verus!
