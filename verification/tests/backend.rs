use signal_cli::attachments::safe_download_name;
use signal_cli::backend::{
    attachment_catalog, chat_attachments, conversations, data_message_body, display_message,
    history, latest_messages, matching_conversations, network_event, outgoing_message, reversed,
    sender_name, sent_message, sync_pending, AttachmentIdentifier, AttachmentPointer,
    ChatAttachment, ChatMessage, ChatMessages, Content, ContentBody, Conversation,
    ConversationId, DataMessage, EditMessage, MessageKind, NetworkEvent, PollCreate, Reaction,
    Received, Sent, ServiceId, Sticker, StoredContact, StoredGroup, StoredMessage, Wait,
    HISTORY_LIMIT, STREAM_ENDED,
};
use signal_cli::qr::transparent_qr;

fn service(text: &str) -> ServiceId {
    ServiceId { text: text.into() }
}

fn group(byte: u8, title: &str) -> Conversation {
    Conversation {
        id: ConversationId::Group([byte; 32]),
        title: title.into(),
        subtitle: String::new(),
        group_revision: Some(byte.into()),
    }
}

#[test]
fn qr_uses_terminal_background_without_ansi_colors() {
    let rendered = transparent_qr("sgnl://linkdevice?uuid=test&pub_key=test").unwrap();
    assert!(rendered.contains("██"));
    assert!(!rendered.contains("\u{1b}["));
}

#[test]
fn every_cell_of_a_code_has_its_place() {
    let drawn = transparent_qr("x").unwrap();
    let lines: Vec<Vec<char>> = drawn.lines().map(|line| line.chars().collect()).collect();
    assert_eq!(lines.len(), 25);
    assert!(lines.iter().all(|line| line.len() == 50));
    assert!(lines[1].iter().all(|c| *c == ' '));
    let corner: String = lines[2][4..20].iter().collect();
    assert_eq!(corner, "██████████████  ");
    let below: String = lines[3][4..18].iter().collect();
    assert_eq!(below, "██          ██");
}

#[test]
fn a_text_that_is_too_long_has_no_code() {
    assert_eq!(
        transparent_qr(&"x".repeat(4_000)),
        Err("encode provisioning QR code: data too long".into())
    );
}

#[test]
fn stable_group_id_is_hex_prefixed() {
    assert_eq!(
        ConversationId::Group([42; 32]).stable_id(),
        format!("group:{}", "2a".repeat(32))
    );
}

#[test]
fn matching_prefers_an_exact_stable_id() {
    let conversations = vec![group(1, "Emilian"), group(2, "Emilian family")];
    assert_eq!(matching_conversations(&conversations, "emilian").len(), 2);
    assert_eq!(
        matching_conversations(&conversations, &conversations[0].id.stable_id()).len(),
        1
    );
}

#[test]
fn text_preserves_attachment_metadata() {
    let data = DataMessage {
        body: Some("caption".into()),
        attachments: vec![AttachmentPointer::default()],
        ..Default::default()
    };
    assert_eq!(
        data_message_body(&data, false),
        Some((
            "caption".into(),
            MessageKind::Text,
            vec![AttachmentPointer::default()]
        ))
    );
}

#[test]
fn renders_common_non_text_placeholders() {
    let reaction = DataMessage {
        reaction: Some(Reaction {
            emoji: Some("👍".into()),
            remove: None,
        }),
        ..Default::default()
    };
    assert_eq!(
        data_message_body(&reaction, false),
        Some(("[reaction 👍]".into(), MessageKind::Reaction, Vec::new()))
    );

    let attachment = DataMessage {
        attachments: vec![AttachmentPointer::default(), AttachmentPointer::default()],
        ..Default::default()
    };
    assert_eq!(
        data_message_body(&attachment, false),
        Some((
            String::new(),
            MessageKind::Attachment,
            vec![AttachmentPointer::default(), AttachmentPointer::default()]
        ))
    );

    let poll = DataMessage {
        poll_create: Some(PollCreate {
            question: Some("Lunch?".into()),
        }),
        ..Default::default()
    };
    assert_eq!(
        data_message_body(&poll, false),
        Some(("[poll: Lunch?]".into(), MessageKind::Poll, Vec::new()))
    );
}

#[test]
fn transport_only_data_is_omitted() {
    assert_eq!(data_message_body(&DataMessage::default(), false), None);
}

fn photo() -> AttachmentPointer {
    AttachmentPointer {
        digest: Some(vec![0xab; 32]),
        file_name: Some("photo.jpg".into()),
        content_type: Some("image/jpeg".into()),
        size: Some(2_000_000),
        width: Some(1_600),
        height: Some(1_200),
        ..Default::default()
    }
}

#[test]
fn attachment_metadata_and_preview_limits_are_preserved() {
    let attachment = chat_attachments(42, &[photo()]).remove(0);
    assert_eq!(attachment.key, "ab".repeat(32));
    assert_eq!(attachment.display_name(), "photo.jpg");
    assert!(attachment.can_preview());

    let mut oversized = attachment;
    oversized.width = Some(10_000);
    oversized.height = Some(10_000);
    assert!(!oversized.can_preview());
}

fn content(body: ContentBody) -> Content {
    Content {
        sender: service("sender"),
        destination: service("destination"),
        sender_device: 2,
        timestamp: 77,
        body,
    }
}

fn text_data(text: &str) -> DataMessage {
    DataMessage {
        body: Some(text.into()),
        timestamp: Some(99),
        ..Default::default()
    }
}

fn stored(text: &str) -> Result<StoredMessage, String> {
    Ok(StoredMessage {
        content: content(ContentBody::DataMessage(text_data(text))),
        sender_name: None,
    })
}

#[test]
fn messages_are_shown_with_their_sender() {
    let incoming = content(ContentBody::DataMessage(text_data("hi")));
    let shown = display_message(&incoming, &Some("Vera".into())).unwrap();
    assert!(!shown.mine);
    assert_eq!(shown.body, "hi");
    assert_eq!(shown.sender, Some("Vera".into()));

    let own = content(ContentBody::SynchronizeMessage(Some(Sent {
        destination_service_id: None,
        timestamp: Some(55),
        message: Some(text_data("mine")),
        edit_message: None,
        story_message: false,
    })));
    let shown = display_message(&own, &None).unwrap();
    assert!(shown.mine);
    assert_eq!(shown.sender, None);
    assert_eq!(shown.body, "mine");

    assert!(display_message(&content(ContentBody::TypingMessage), &None).is_none());
    assert!(display_message(&content(ContentBody::ReceiptMessage), &None).is_none());
}

#[test]
fn edits_calls_and_stories_have_placeholders() {
    let edit = content(ContentBody::EditMessage(EditMessage {
        data_message: Some(text_data("better")),
    }));
    let shown = display_message(&edit, &None).unwrap();
    assert_eq!(shown.kind, MessageKind::Edited);
    assert!(shown.body.contains("better"));

    let call = display_message(&content(ContentBody::CallMessage), &None).unwrap();
    assert_eq!(call.kind, MessageKind::Call);
    let story = display_message(&content(ContentBody::StoryMessage), &None).unwrap();
    assert_eq!(story.kind, MessageKind::Story);
}

#[test]
fn other_kinds_of_data_have_placeholders() {
    let kind = |data: DataMessage| data_message_body(&data, false).map(|(_, kind, _)| kind);
    assert_eq!(
        kind(DataMessage {
            delete: true,
            ..Default::default()
        }),
        Some(MessageKind::Deleted)
    );
    assert_eq!(
        kind(DataMessage {
            payment: true,
            ..Default::default()
        }),
        Some(MessageKind::Payment)
    );
    assert_eq!(
        kind(DataMessage {
            sticker: Some(Sticker { emoji: None }),
            ..Default::default()
        }),
        Some(MessageKind::Sticker)
    );
    assert_eq!(
        kind(DataMessage {
            contact: true,
            ..Default::default()
        }),
        Some(MessageKind::Contact)
    );
    assert_eq!(
        kind(DataMessage {
            gift_badge: true,
            ..Default::default()
        }),
        Some(MessageKind::NonText)
    );
}

#[test]
fn every_kind_has_its_word() {
    let words: Vec<&str> = [
        MessageKind::Text,
        MessageKind::Attachment,
        MessageKind::Sticker,
        MessageKind::Reaction,
        MessageKind::Deleted,
        MessageKind::Edited,
        MessageKind::Poll,
        MessageKind::Payment,
        MessageKind::Contact,
        MessageKind::Call,
        MessageKind::Story,
    ]
    .iter()
    .map(|kind| kind.word())
    .collect();
    assert_eq!(
        words,
        vec![
            "text",
            "attachment",
            "sticker",
            "reaction",
            "deleted",
            "edited",
            "poll",
            "payment",
            "contact",
            "call",
            "story"
        ]
    );
}

#[test]
fn conversations_are_listed_by_name() {
    let contact = |text: &str, phone: Option<&str>, name: &str| StoredContact {
        service_id: service(text),
        phone_number: phone.map(str::to_owned),
        name: name.into(),
    };
    let list = conversations(
        &vec![
            contact("a", Some("+491"), "vera"),
            contact("b", Some("+492"), " "),
        ],
        &vec![StoredGroup {
            key: [7; 32],
            title: "Alpha".into(),
            members: 3,
            revision: 9,
        }],
    );
    let titles: Vec<&str> = list.iter().map(|chat| chat.title.as_str()).collect();
    assert_eq!(titles, vec!["+492", "Alpha", "vera"]);
    assert_eq!(list[1].subtitle, "3 members");
    assert_eq!(list[1].group_revision, Some(9));
    assert_eq!(list[2].subtitle, "+491");
}

#[test]
fn a_contact_is_found_by_its_identity() {
    let chat = Conversation {
        id: ConversationId::Contact(service("0b9240d8-ae86-42dd-bb03-df2805b010b7")),
        title: "Vera".into(),
        subtitle: "+49123".into(),
        group_revision: None,
    };
    assert_eq!(
        chat.id.stable_id(),
        "contact:0b9240d8-ae86-42dd-bb03-df2805b010b7"
    );
    assert_eq!(chat.id.kind(), "contact");
    assert_eq!(group(1, "x").id.kind(), "group");
    let list = vec![chat, group(3, "Group")];
    assert_eq!(matching_conversations(&list, "VERA").len(), 1);
    assert_eq!(matching_conversations(&list, "nobody").len(), 0);
    assert!(list[0].id.same(&list[0].id));
    assert!(!list[0].id.same(&list[1].id));
}

#[test]
fn the_latest_messages_come_in_the_order_of_time() {
    let list = vec![stored("newest"), stored("older"), stored("oldest")];
    let latest = latest_messages(&list, 2).unwrap();
    let bodies: Vec<&str> = latest.iter().map(|message| message.body.as_str()).collect();
    assert_eq!(bodies.len(), 2);
    assert!(bodies.contains(&"newest") && bodies.contains(&"older"));
    assert_eq!(history(&list).unwrap().len(), 3);
    assert_eq!(HISTORY_LIMIT, 250);
    let broken = vec![Err("broken store".to_string())];
    assert_eq!(latest_messages(&broken, 2).unwrap_err(), "broken store");
    let back = reversed(&latest);
    assert_eq!(back[0], latest[1]);
    assert_eq!(back[1], latest[0]);
}

#[test]
fn a_sent_message_reads_back_as_it_was_shown() {
    let chat = group(5, "Plans");
    let data = outgoing_message(&chat, "see you", 123);
    assert_eq!(data.body, Some("see you".into()));
    assert_eq!(data.timestamp, Some(123));
    let context = data.group_v2.as_ref().unwrap();
    assert_eq!(context.master_key, vec![5; 32]);
    assert_eq!(context.revision, Some(5));
    let shown = sent_message("see you".into(), 123);
    assert!(shown.mine);
    assert_eq!((shown.body.as_str(), shown.timestamp), ("see you", 123));
}

#[test]
fn what_arrives_becomes_an_event() {
    let id = || ConversationId::Group([1; 32]);
    assert_eq!(
        network_event(Received::Content {
            conversation: Ok(id()),
            body: ContentBody::DataMessage(text_data("x")),
        }),
        NetworkEvent::Message {
            conversation: id(),
            incoming: true
        }
    );
    assert_eq!(
        network_event(Received::Content {
            conversation: Ok(id()),
            body: ContentBody::SynchronizeMessage(None),
        }),
        NetworkEvent::Message {
            conversation: id(),
            incoming: false
        }
    );
    assert_eq!(
        network_event(Received::Contacts),
        NetworkEvent::ConversationsChanged
    );
    assert_eq!(
        network_event(Received::QueueEmpty),
        NetworkEvent::QueueEmpty
    );
    assert_eq!(sync_pending(Some(NetworkEvent::QueueEmpty)), Wait::Done);
    assert_eq!(
        sync_pending(Some(NetworkEvent::ConversationsChanged)),
        Wait::Pending
    );
    assert_eq!(sync_pending(None), Wait::Failed(STREAM_ENDED.into()));
}

#[test]
fn files_that_can_be_fetched_have_an_identity() {
    let mut pointer = photo();
    pointer.key = Some(vec![1; 64]);
    pointer.attachment_identifier = Some(AttachmentIdentifier::CdnKey("abc".into()));
    let whole = chat_attachments(1, &[pointer]).remove(0);
    assert_eq!(whole.download_id(), Some("ab".repeat(32)));
    let partial = chat_attachments(1, &[photo()]).remove(0);
    assert_eq!(partial.download_id(), None);
}

fn message(timestamp: u64, attachments: Vec<ChatAttachment>) -> ChatMessage {
    ChatMessage {
        timestamp,
        mine: false,
        sender: None,
        body: String::new(),
        kind: MessageKind::Attachment,
        attachments,
    }
}

#[test]
fn the_catalog_lists_the_newest_files_first() {
    let mut pointer = photo();
    pointer.key = Some(vec![1; 64]);
    pointer.attachment_identifier = Some(AttachmentIdentifier::CdnId(4));
    let file = |time| chat_attachments(time, &[pointer.clone()]);
    let list = attachment_catalog(&vec![ChatMessages {
        chat: group(1, "Chat"),
        messages: vec![message(10, file(10)), message(30, file(30))],
    }]);
    let times: Vec<u64> = list.iter().map(|found| found.timestamp).collect();
    assert_eq!(times, vec![30, 10]);
}

#[test]
fn saved_files_stay_in_their_directory() {
    let mut pointer = photo();
    pointer.file_name = Some("../../etc/passwd".into());
    let name = safe_download_name(&chat_attachments(1, &[pointer]).remove(0));
    assert!(!name.contains('/'));
    let mut pointer = photo();
    pointer.file_name = Some("..".into());
    assert_eq!(
        safe_download_name(&chat_attachments(1, &[pointer]).remove(0)),
        "attachment"
    );
}

#[test]
fn senders_without_a_name_are_known_by_their_identity() {
    let incoming = content(ContentBody::DataMessage(text_data("hi")));
    assert_eq!(sender_name(&incoming, &Some("Vera".into())), "Vera");
    let anonymous = sender_name(&incoming, &None);
    assert!(!anonymous.is_empty());
}
