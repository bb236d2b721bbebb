use meridian_mail::stamp::UtcTime;
use meridian_mail::db::{Database, InsertMessage};
use meridian_mail::error::{AppError, DbError};
use meridian_mail::models::{ConversationKind, MemberRole, NewAccount};

fn make_db() -> Database {
    Database::open_in_memory().expect("in-memory db")
}

fn new_account(email: &str) -> NewAccount {
    NewAccount {
        email: email.to_string(),
        display_name: None,
        imap_host: "imap.example.com".to_string(),
        imap_port: 993,
        smtp_host: "smtp.example.com".to_string(),
        smtp_port: 587,
        password: "secret".to_string(),
    }
}

fn message(conv: i64, thread: i64, account: i64, mid: &str, secs: i64) -> InsertMessage {
    InsertMessage {
        conversation_id: conv,
        thread_id: thread,
        account_id: account,
        message_id: mid.to_string(),
        in_reply_to: None,
        from_email: "alice@example.com".to_string(),
        from_name: Some("Alice".to_string()),
        subject: Some("Hello".to_string()),
        body_text: Some("Hi Bob!".to_string()),
        body_html: None,
        sent_at: UtcTime::from_secs(secs),
        is_outgoing: false,
        is_read: false,
        raw_headers: None,
    }
}

#[test]
fn test_schema_creates_ok() {
    let db = make_db();
    let accounts = db.list_accounts().unwrap();
    assert!(accounts.is_empty());
}

#[test]
fn test_upsert_contact() {
    let mut db = make_db();
    let id1 = db.upsert_contact("alice@example.com", Some("Alice")).unwrap();
    let id2 = db.upsert_contact("alice@example.com", None).unwrap();
    assert_eq!(id1, id2, "upsert should return same id");

    let contact = db.get_contact_by_email("alice@example.com").unwrap().unwrap();
    assert_eq!(contact.display_name, Some("Alice".to_string()));
}

#[test]
fn test_create_conversation_and_members() {
    let mut db = make_db();
    let alice_id = db.upsert_contact("alice@example.com", Some("Alice")).unwrap();
    let bob_id = db.upsert_contact("bob@example.com", Some("Bob")).unwrap();

    let conv_id = db.create_conversation(&ConversationKind::Direct).unwrap();
    db.add_conversation_member(conv_id, alice_id, &MemberRole::To).unwrap();
    db.add_conversation_member(conv_id, bob_id, &MemberRole::To).unwrap();

    let members = db.get_conversation_members(conv_id).unwrap();
    assert_eq!(members.len(), 2);
}

#[test]
fn test_message_exists() {
    let mut db = make_db();
    let alice_id = db.upsert_contact("alice@example.com", None).unwrap();
    let bob_id = db.upsert_contact("bob@example.com", None).unwrap();

    let acc = new_account("bob@example.com");
    let acc_id = db.insert_account(&acc, "keychain-ref-1").unwrap();

    let conv_id = db.create_conversation(&ConversationKind::Direct).unwrap();
    db.add_conversation_member(conv_id, alice_id, &MemberRole::To).unwrap();
    db.add_conversation_member(conv_id, bob_id, &MemberRole::To).unwrap();
    let thread_id = db.create_thread(conv_id, "Hello", "Hello").unwrap();

    assert!(!db.message_exists("<msg1@example.com>").unwrap());

    let insert = message(conv_id, thread_id, acc_id, "<msg1@example.com>", chrono::Utc::now().timestamp());
    db.insert_message(&insert).unwrap();
    assert!(db.message_exists("<msg1@example.com>").unwrap());
}

#[test]
fn inserting_a_stored_message_id_changes_nothing() {
    let mut db = make_db();
    let acc_id = db.insert_account(&new_account("bob@example.com"), "ref").unwrap();
    let conv_id = db.create_conversation(&ConversationKind::Direct).unwrap();
    let thread_id = db.create_thread(conv_id, "Hello", "Hello").unwrap();
    let first = db.insert_message(&message(conv_id, thread_id, acc_id, "<m@x>", 100)).unwrap();
    let again = db.insert_message(&message(conv_id, thread_id, acc_id, "<m@x>", 200)).unwrap();
    assert_eq!(first, again);
    let msgs = db.get_messages_for_conversation(conv_id, None, None).unwrap();
    assert_eq!(msgs.len(), 1);
    assert_eq!(msgs[0].sent_at, UtcTime::from_secs(100));
}

#[test]
fn message_with_unknown_thread_is_refused() {
    let mut db = make_db();
    let acc_id = db.insert_account(&new_account("bob@example.com"), "ref").unwrap();
    let conv_id = db.create_conversation(&ConversationKind::Direct).unwrap();
    let r = db.insert_message(&message(conv_id, 42, acc_id, "<m@x>", 1));
    assert!(matches!(r, Err(AppError::Database(DbError::ForeignKeyViolation))));
}

#[test]
fn create_thread_returns_existing_thread_for_same_subject() {
    let mut db = make_db();
    let conv_id = db.create_conversation(&ConversationKind::Group).unwrap();
    let t1 = db.create_thread(conv_id, "Re: Plans", "Plans").unwrap();
    let t2 = db.create_thread(conv_id, "Plans", "Plans").unwrap();
    let t3 = db.create_thread(conv_id, "Other", "Other").unwrap();
    assert_eq!(t1, t2);
    assert_ne!(t1, t3);
    assert_eq!(db.get_thread(t1).unwrap().subject, "Re: Plans");
}

#[test]
fn adding_a_member_twice_keeps_one_membership() {
    let mut db = make_db();
    let a = db.upsert_contact("a@x", None).unwrap();
    let conv_id = db.create_conversation(&ConversationKind::Group).unwrap();
    db.add_conversation_member(conv_id, a, &MemberRole::To).unwrap();
    db.add_conversation_member(conv_id, a, &MemberRole::Cc).unwrap();
    let members = db.get_conversation_members(conv_id).unwrap();
    assert_eq!(members.len(), 1);
    assert_eq!(members[0].role, MemberRole::To);
}

#[test]
fn member_of_unknown_conversation_is_refused() {
    let mut db = make_db();
    let a = db.upsert_contact("a@x", None).unwrap();
    let r = db.add_conversation_member(7, a, &MemberRole::To);
    assert!(matches!(r, Err(AppError::Database(DbError::ForeignKeyViolation))));
}

#[test]
fn mark_conversation_read_clears_unread() {
    let mut db = make_db();
    let acc_id = db.insert_account(&new_account("bob@example.com"), "ref").unwrap();
    let conv_id = db.create_conversation(&ConversationKind::Direct).unwrap();
    let thread_id = db.create_thread(conv_id, "Hello", "Hello").unwrap();
    db.insert_message(&message(conv_id, thread_id, acc_id, "<a@x>", 1)).unwrap();
    db.insert_message(&message(conv_id, thread_id, acc_id, "<b@x>", 2)).unwrap();
    db.increment_unread(conv_id).unwrap();
    db.increment_unread(conv_id).unwrap();
    db.mark_conversation_read(conv_id).unwrap();
    let msgs = db.get_messages_for_conversation(conv_id, None, None).unwrap();
    assert!(msgs.iter().all(|m| m.is_read));
    let convs = db.list_conversations(acc_id).unwrap();
    assert_eq!(convs.len(), 1);
    assert_eq!(convs[0].unread_count, 0);
}

#[test]
fn delete_conversation_removes_its_messages() {
    let mut db = make_db();
    let acc_id = db.insert_account(&new_account("bob@example.com"), "ref").unwrap();
    let conv_id = db.create_conversation(&ConversationKind::Direct).unwrap();
    let thread_id = db.create_thread(conv_id, "Hello", "Hello").unwrap();
    db.insert_message(&message(conv_id, thread_id, acc_id, "<a@x>", 1)).unwrap();
    db.delete_conversation(conv_id).unwrap();
    assert!(!db.message_exists("<a@x>").unwrap());
    assert!(db.get_thread(thread_id).is_err());
    assert!(db.list_conversations(acc_id).unwrap().is_empty());
}

#[test]
fn messages_page_is_in_sending_order() {
    let mut db = make_db();
    let acc_id = db.insert_account(&new_account("bob@example.com"), "ref").unwrap();
    let conv_id = db.create_conversation(&ConversationKind::Direct).unwrap();
    let thread_id = db.create_thread(conv_id, "Hello", "Hello").unwrap();
    db.insert_message(&message(conv_id, thread_id, acc_id, "<late@x>", 300)).unwrap();
    db.insert_message(&message(conv_id, thread_id, acc_id, "<early@x>", 100)).unwrap();
    let msgs = db.get_messages_for_conversation(conv_id, Some(10), None).unwrap();
    assert_eq!(msgs.len(), 2);
    assert_eq!(msgs[0].message_id, "<early@x>");
    assert_eq!(msgs[1].message_id, "<late@x>");
}

#[test]
fn messages_within_one_second_keep_their_sub_second_order() {
    let mut db = make_db();
    let acc_id = db.insert_account(&new_account("bob@example.com"), "ref").unwrap();
    let conv_id = db.create_conversation(&ConversationKind::Direct).unwrap();
    let thread_id = db.create_thread(conv_id, "Hello", "Hello").unwrap();
    let mut late = message(conv_id, thread_id, acc_id, "<late@x>", 100);
    late.sent_at = UtcTime { secs: 100, nanos: 900 };
    let mut early = message(conv_id, thread_id, acc_id, "<early@x>", 100);
    early.sent_at = UtcTime { secs: 100, nanos: 100 };
    db.insert_message(&late).unwrap();
    db.insert_message(&early).unwrap();
    let msgs = db.get_messages_for_conversation(conv_id, Some(10), None).unwrap();
    assert_eq!(msgs[0].message_id, "<early@x>");
    assert_eq!(msgs[1].message_id, "<late@x>");
    assert_eq!(db.get_references_for_message_id("<late@x>").unwrap(), vec!["<early@x>".to_string()]);
    assert!(db.get_references_for_message_id("<early@x>").unwrap().is_empty());
}

#[test]
fn unknown_account_is_reported() {
    let db = make_db();
    assert!(matches!(db.get_account(5), Err(AppError::Database(DbError::NoRows))));
}

#[test]
fn duplicate_account_email_is_refused() {
    let mut db = make_db();
    db.insert_account(&new_account("bob@example.com"), "ref").unwrap();
    let r = db.insert_account(&new_account("bob@example.com"), "ref2");
    assert!(matches!(r, Err(AppError::Database(DbError::UniqueViolation))));
}

#[test]
fn search_contacts_matches_name_or_address() {
    let mut db = make_db();
    db.upsert_contact("alice@example.com", Some("Alice")).unwrap();
    db.upsert_contact("bob@example.com", Some("Bob")).unwrap();
    let found = db.search_contacts("ali").unwrap();
    assert_eq!(found.len(), 1);
    assert_eq!(found[0].email, "alice@example.com");
}

#[test]
fn exported_tables_are_restored_whole() {
    let mut db = make_db();
    let acc = db.insert_account(&new_account("me@example.com"), "ref").unwrap();
    let conv = db.create_conversation(&ConversationKind::Direct).unwrap();
    let thread = db.create_thread(conv, "Hello", "hello").unwrap();
    db.insert_message(&message(conv, thread, acc, "<m1@example.com>", 100)).unwrap();
    let tables = db.export();
    assert_eq!(tables.accounts.len(), 1);
    assert_eq!(tables.messages.len(), 1);
    let restored = Database::restore(tables).expect("consistent tables");
    assert!(restored.message_exists("<m1@example.com>").unwrap());
    assert_eq!(restored.get_account(acc).unwrap().email, "me@example.com");
}

#[test]
fn tables_with_a_dangling_reference_are_refused() {
    let mut db = make_db();
    let acc = db.insert_account(&new_account("me@example.com"), "ref").unwrap();
    let conv = db.create_conversation(&ConversationKind::Direct).unwrap();
    let thread = db.create_thread(conv, "Hello", "hello").unwrap();
    db.insert_message(&message(conv, thread, acc, "<m1@example.com>", 100)).unwrap();
    let mut tables = db.export();
    tables.threads.clear();
    assert!(Database::restore(tables).is_none());
}

#[test]
fn tables_with_a_repeated_address_are_refused() {
    let mut db = make_db();
    db.insert_account(&new_account("me@example.com"), "ref").unwrap();
    let mut tables = db.export();
    let mut copy = tables.accounts[0].clone();
    copy.id = 2;
    tables.seq_account = 2;
    tables.accounts.push(copy);
    assert!(Database::restore(tables).is_none());
}

#[test]
fn deleting_an_account_removes_its_messages_and_empty_conversations() {
    let mut db = make_db();
    let acc = db.insert_account(&new_account("me@example.com"), "ref").unwrap();
    let other = db.insert_account(&new_account("other@example.com"), "ref2").unwrap();
    let conv = db.create_conversation(&ConversationKind::Direct).unwrap();
    let thread = db.create_thread(conv, "Hello", "hello").unwrap();
    let mine = db.insert_message(&message(conv, thread, acc, "<m1@example.com>", 100)).unwrap();
    let theirs = db.insert_message(&message(conv, thread, other, "<m2@example.com>", 200)).unwrap();
    let lone = db.create_conversation(&ConversationKind::Direct).unwrap();
    let lone_thread = db.create_thread(lone, "Alone", "alone").unwrap();
    db.insert_message(&message(lone, lone_thread, acc, "<m3@example.com>", 300)).unwrap();
    db.delete_account(acc).unwrap();
    assert!(db.get_message_by_id(mine).is_err());
    assert!(db.get_message_by_id(theirs).is_ok());
    assert!(!db.message_exists("<m3@example.com>").unwrap());
    assert!(db.get_conversation_members(lone).unwrap().is_empty());
    assert!(matches!(db.get_account(acc), Err(AppError::Database(DbError::NoRows))));
    assert!(matches!(db.delete_account(acc), Err(AppError::AccountNotFound(_))));
}

#[test]
fn references_are_the_messages_sent_before() {
    let mut db = make_db();
    let acc = db.insert_account(&new_account("me@example.com"), "ref").unwrap();
    let conv = db.create_conversation(&ConversationKind::Direct).unwrap();
    let thread = db.create_thread(conv, "Hello", "hello").unwrap();
    db.insert_message(&message(conv, thread, acc, "<a@x>", 100)).unwrap();
    db.insert_message(&message(conv, thread, acc, "<b@x>", 200)).unwrap();
    db.insert_message(&message(conv, thread, acc, "<c@x>", 200)).unwrap();
    assert_eq!(db.get_references_for_message_id("<c@x>").unwrap(), vec!["<a@x>".to_string()]);
    assert!(db.get_references_for_message_id("<none@x>").unwrap().is_empty());
}

#[test]
fn group_lookup_ignores_dialogues() {
    let mut db = make_db();
    let a = db.upsert_contact("a@x", None).unwrap();
    let b = db.upsert_contact("b@x", None).unwrap();
    let dialogue = db.create_conversation(&ConversationKind::Direct).unwrap();
    db.add_conversation_member(dialogue, a, &MemberRole::To).unwrap();
    db.add_conversation_member(dialogue, b, &MemberRole::To).unwrap();
    assert_eq!(db.find_group_conversation(&[a, b]).unwrap(), None);
    let group = db.create_conversation(&ConversationKind::Group).unwrap();
    db.add_conversation_member(group, a, &MemberRole::To).unwrap();
    db.add_conversation_member(group, b, &MemberRole::To).unwrap();
    assert_eq!(db.find_group_conversation(&[a, b]).unwrap(), Some(group));
}
