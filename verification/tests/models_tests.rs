use meridian_mail::stamp::UtcTime;
use meridian_mail::models::{
    make_avatar_letters, Contact, Conversation, ConversationKind, ConversationListItem,
    ConversationMember, MemberRole,
};

#[test]
fn kinds_and_roles_have_stored_names() {
    assert_eq!(ConversationKind::Direct.as_str(), "direct");
    assert_eq!(ConversationKind::Group.as_str(), "group");
    assert_eq!(ConversationKind::Channel.as_str(), "channel");
    assert_eq!(MemberRole::To.as_str(), "to");
    assert_eq!(MemberRole::Cc.as_str(), "cc");
    assert_eq!(MemberRole::Bcc.as_str(), "bcc");
}

#[test]
fn stored_names_read_back() {
    for k in [ConversationKind::Direct, ConversationKind::Group, ConversationKind::Channel] {
        assert_eq!(ConversationKind::try_from_str(k.as_str()).unwrap(), k);
    }
    for r in [MemberRole::To, MemberRole::Cc, MemberRole::Bcc] {
        assert_eq!(MemberRole::try_from_str(r.as_str()).unwrap(), r);
    }
    assert!(ConversationKind::try_from_str("other").is_err());
}

#[test]
fn avatar_letters_take_first_and_last_initials() {
    assert_eq!(make_avatar_letters("alice smith"), "AS");
    assert_eq!(make_avatar_letters("  bob  "), "B");
    assert_eq!(make_avatar_letters("ana maria lopez"), "AL");
    assert_eq!(make_avatar_letters(""), "?");
    assert_eq!(make_avatar_letters("émile zola"), "ÉZ");
}

fn member(email: &str, name: Option<&str>) -> ConversationMember {
    ConversationMember {
        contact: Contact {
            id: 1,
            email: email.to_string(),
            display_name: name.map(|s| s.to_string()),
            avatar_url: None,
            last_seen: None,
        },
        role: MemberRole::To,
    }
}

#[test]
fn list_item_is_named_after_the_other_people() {
    let conv = Conversation {
        id: 3,
        kind: ConversationKind::Direct,
        subject_hint: None,
        last_message_at: Some(UtcTime::from_secs(10)),
        unread_count: 2,
        members: vec![member("me@x", None), member("bob@x", Some("Bob Brown"))],
        last_message_preview: Some("hi".to_string()),
    };
    let item = ConversationListItem::from_conversation(&conv, "me@x");
    assert_eq!(item.display_name, "Bob Brown");
    assert_eq!(item.avatar_letters, "BB");
    assert_eq!(item.unread_count, 2);
    assert_eq!(item.last_message_preview.as_deref(), Some("hi"));
}
