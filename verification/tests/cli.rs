use signal_cli::backend::{
    AttachmentIdentifier, AttachmentOccurrence, AttachmentPointer, ChatAttachment, ChatMessage,
    ChatMessages, Conversation, ConversationId, MessageKind, ServiceId,
};
use signal_cli::cli::{
    blue, body_for_human, brief_json, brief_message_name, brief_messages, brief_rows,
    brief_stamps, color_enabled, downloaded_json, downloaded_text, human_size, list_json,
    list_text, message_content, message_json, message_row, message_stamps, pad_to_width,
    positive_usize, read_heading, read_json, read_rows, render_message_rows, resolve_attachment,
    resolve_one, run, sent_json, sent_text, sync_warning, Command, CommandError, FileError,
    HumanMessageRow, LimitError, Request, ResolveError, DEFAULT_LIMIT,
};
use signal_cli::json::Json;

fn occurrence(byte: u8, name: &str, timestamp: u64) -> AttachmentOccurrence {
    let pointer = AttachmentPointer {
        digest: Some(vec![byte; 32]),
        key: Some(vec![byte; 64]),
        attachment_identifier: Some(AttachmentIdentifier::CdnId(1)),
        file_name: Some(name.into()),
        size: Some(1_024),
        ..Default::default()
    };
    AttachmentOccurrence {
        chat: Conversation {
            id: ConversationId::Group([byte; 32]),
            title: format!("Chat {byte}"),
            subtitle: String::new(),
            group_revision: Some(1),
        },
        timestamp,
        attachment: ChatAttachment {
            key: hex::encode(pointer.digest.as_ref().unwrap()),
            file_name: pointer.file_name.clone(),
            content_type: Some("application/pdf".into()),
            size: pointer.size,
            width: None,
            height: None,
            pointer,
        },
    }
}

#[test]
fn cli_limit_must_be_positive() {
    assert_eq!(positive_usize("15").unwrap(), 15);
    assert!(positive_usize("0").is_err());
    assert!(positive_usize("nope").is_err());
}

#[test]
fn cli_json_message_contract_contains_machine_and_human_timestamps() {
    let file = occurrence(0xab, "Report.pdf", 1).attachment;
    let value = message_json(&ChatMessage {
        timestamp: 1_786_185_000_123,
        mine: true,
        sender: None,
        body: "hello".into(),
        kind: MessageKind::Text,
        attachments: vec![file],
    });
    assert_eq!(value.u64_at("timestamp_ms"), Some(1_786_185_000_123_u64));
    assert_eq!(value.str_at("direction").unwrap(), "sent");
    assert_eq!(value.str_at("sender").unwrap(), "you");
    assert_eq!(value.str_at("kind").unwrap(), "text");
    let attachment = &value.array_at("attachments").unwrap()[0];
    assert_eq!(attachment.get("id"), Some(&Json::Text("ab".repeat(32))));
    assert_eq!(attachment.get("size"), Some(&Json::Number(1_024)));
}

#[test]
fn file_resolution_prefers_ids_and_deduplicates_repeats() {
    let newest = occurrence(1, "Report.pdf", 30);
    let repeated = occurrence(1, "Report.pdf", 20);
    let other = occurrence(2, "Report-final.pdf", 10);
    let catalog = vec![newest, repeated, other];

    let id = "01".repeat(32).to_uppercase();
    assert_eq!(resolve_attachment(&catalog, &id).unwrap().timestamp, 30);
    assert!(resolve_attachment(&catalog, "report").is_err());

    let only_repeat = &catalog[..2];
    assert_eq!(
        resolve_attachment(only_repeat, "REPORT").unwrap().timestamp,
        30
    );
}

fn row(datetime: &str, name: &str, content: &[&str], incoming: bool) -> HumanMessageRow {
    HumanMessageRow {
        datetime: datetime.into(),
        name: name.into(),
        content: content.iter().map(|line| line.to_string()).collect(),
        incoming,
    }
}

#[test]
fn human_messages_render_in_aligned_columns() {
    let rows = vec![
        row("08 Aug 15:21", "you", &["Hallo"], false),
        row(
            "08 Aug 15:22",
            "Emilian",
            &["Wie geht es dir?", "zweite Zeile"],
            true,
        ),
    ];
    assert_eq!(
        render_message_rows(&rows, false),
        "08 Aug 15:21  you      Hallo\n".to_owned()
            + "08 Aug 15:22  Emilian  Wie geht es dir?\n"
            + "                       zweite Zeile\n"
    );
}

fn incoming(sender: Option<&str>, mine: bool) -> ChatMessage {
    ChatMessage {
        timestamp: 1,
        mine,
        sender: sender.map(str::to_owned),
        body: "Hello".into(),
        kind: MessageKind::Text,
        attachments: Vec::new(),
    }
}

#[test]
fn brief_uses_human_chat_and_sender_names() {
    let direct = Conversation {
        id: ConversationId::Contact(ServiceId {
            text: "0b9240d8-ae86-42dd-bb03-df2805b010b7".into(),
        }),
        title: "Vera Scheel".into(),
        subtitle: String::new(),
        group_revision: None,
    };
    let group = Conversation {
        id: ConversationId::Group([3; 32]),
        title: "Weekend plans".into(),
        subtitle: String::new(),
        group_revision: Some(1),
    };
    let known = incoming(Some("Birgit Mallmann"), false);
    assert_eq!(brief_message_name(&direct, &known), "Vera Scheel");
    assert_eq!(
        brief_message_name(&group, &known),
        "Weekend plans · Birgit Mallmann"
    );

    let unknown = incoming(None, false);
    assert_eq!(
        brief_message_name(&group, &unknown),
        "Weekend plans · Unknown contact"
    );

    let sent = incoming(None, true);
    assert_eq!(brief_message_name(&direct, &sent), "you → Vera Scheel");
}

#[test]
fn color_is_applied_only_to_incoming_name_and_content() {
    let rows = vec![
        row("08 Aug 15:21", "you", &["mine"], false),
        row("08 Aug 15:22", "Emilian", &["theirs"], true),
    ];
    let rendered = render_message_rows(&rows, true);
    assert!(rendered.contains("you      mine"));
    assert!(rendered.contains("\x1b[38;2;70;130;255mEmilian\x1b[0m"));
    assert!(rendered.contains("\x1b[38;2;70;130;255mtheirs\x1b[0m"));
}

#[test]
fn colors_add_nothing_but_escapes() {
    let rows = vec![
        row("08 Aug 15:21", "you", &["mine", "more"], false),
        row("08 Aug 15:22", "Emilian", &["theirs", "", "end"], true),
    ];
    let colorful = render_message_rows(&rows, true);
    let plain = render_message_rows(&rows, false);
    assert_ne!(colorful, plain);
    assert_eq!(
        colorful
            .replace("\x1b[38;2;70;130;255m", "")
            .replace("\x1b[0m", ""),
        plain
    );
    assert_eq!(plain.matches('\n').count(), 5);
    assert_eq!(
        colorful.lines().take(2).collect::<Vec<_>>(),
        plain.lines().take(2).collect::<Vec<_>>()
    );
    assert!(colorful
        .lines()
        .skip(2)
        .all(|line| !line.starts_with('\x1b') && line.contains('\x1b')));
}

#[test]
fn limit_must_be_positive() {
    assert_eq!(positive_usize("15").unwrap(), 15);
    assert!(positive_usize("0").is_err());
    assert!(positive_usize("nope").is_err());
}

#[test]
fn json_message_contract_contains_machine_and_human_timestamps() {
    let value = message_json(&ChatMessage {
        timestamp: 1_786_185_000_123,
        mine: true,
        sender: None,
        body: "hello".into(),
        kind: MessageKind::Text,
        attachments: Vec::new(),
    });
    assert_eq!(value.u64_at("timestamp_ms"), Some(1_786_185_000_123_u64));
    assert_eq!(value.str_at("direction").unwrap(), "sent");
    assert_eq!(value.str_at("sender").unwrap(), "you");
    assert_eq!(value.str_at("kind").unwrap(), "text");
}

fn chat(byte: u8, title: &str) -> Conversation {
    Conversation {
        id: ConversationId::Group([byte; 32]),
        title: title.into(),
        subtitle: "2 members".into(),
        group_revision: Some(1),
    }
}

#[test]
fn limits_that_are_refused_say_why() {
    assert_eq!(positive_usize("0"), Err(LimitError::Zero));
    assert_eq!(positive_usize("-1"), Err(LimitError::NoNumber));
    assert_ne!(LimitError::Zero.message(), LimitError::NoNumber.message());
    assert_eq!(DEFAULT_LIMIT, 15);
}

#[test]
fn sizes_are_rounded_as_floating_point_numbers_are() {
    let expected = |size: u32| {
        let units = ["B", "KiB", "MiB", "GiB"];
        let mut value = f64::from(size);
        let mut unit = 0;
        while value >= 1024.0 && unit < 3 {
            value /= 1024.0;
            unit += 1;
        }
        if unit == 0 {
            format!("{} B", size)
        } else {
            format!("{value:.1} {}", units[unit])
        }
    };
    let mut size: u64 = 1;
    while size <= u64::from(u32::MAX) {
        assert_eq!(human_size(Some(size as u32)), expected(size as u32));
        size += size / 977 + 7;
    }
    for size in [0, 1_023, 1_024, 1_280, 1_792, 1_048_575, 1_048_576, u32::MAX] {
        assert_eq!(human_size(Some(size)), expected(size));
    }
}

#[test]
fn chats_are_found_by_name_or_id() {
    let list = vec![chat(1, "Emilian"), chat(2, "Emilian family")];
    assert_eq!(resolve_one(&list, "family").unwrap().title, "Emilian family");
    assert_eq!(
        resolve_one(&list, &list[0].id.stable_id()).unwrap().title,
        "Emilian"
    );
    assert_eq!(resolve_one(&list, ""), Err(ResolveError::EmptyQuery));
    let none = resolve_one(&list, "x\"y").unwrap_err();
    assert_eq!(
        none.message(),
        "no chat matches \"x\\\"y\"; run `signal list` to see available chats"
    );
    let many = resolve_one(&list, "emilian").unwrap_err();
    assert_eq!(
        many.message(),
        format!(
            "multiple chats match \"emilian\"; use one of these stable IDs:\n  {}  Emilian\n  {}  Emilian family",
            list[0].id.stable_id(),
            list[1].id.stable_id()
        )
    );
}

#[test]
fn files_that_are_not_found_say_why() {
    let catalog = vec![
        occurrence(1, "Report.pdf", 30),
        occurrence(2, "Report-final.pdf", 10),
    ];
    let empty = resolve_attachment(&catalog, "").unwrap_err();
    assert!(empty.stamps().is_empty());
    assert_eq!(empty.message(&empty.stamps()), "file query cannot be empty");
    let none = resolve_attachment(&catalog, "zip").unwrap_err();
    assert_eq!(
        none.message(&none.stamps()),
        "no downloadable file matches \"zip\"; use `signal read` or `signal brief` to see file IDs"
    );
    let many = resolve_attachment(&catalog, "report").unwrap_err();
    assert!(matches!(&many, FileError::Ambiguous { files, .. } if files.len() == 2));
    assert_eq!(many.stamps().len(), 2);
    let stamps = vec!["then".to_string(), "now".to_string()];
    assert_eq!(
        many.message(&stamps),
        format!(
            "multiple files match \"report\"; use one of these IDs:\n  {}  Report.pdf  1.0 KiB  Chat 1  then\n  {}  Report-final.pdf  1.0 KiB  Chat 2  now",
            "01".repeat(32),
            "02".repeat(32)
        )
    );
    assert_eq!(many.stamps().len(), 2);
}

#[test]
fn commands_become_requests() {
    let list = vec![chat(1, "Anna")];
    assert_eq!(run(Command::List, &list), Ok(Request::List));
    assert_eq!(
        run(Command::Brief { limit: 3 }, &list),
        Ok(Request::Brief { limit: 3 })
    );
    assert_eq!(
        run(
            Command::Send {
                chat: "anna".into(),
                message: String::new()
            },
            &list
        ),
        Err(CommandError::EmptyMessage)
    );
    assert_eq!(
        CommandError::EmptyMessage.message(),
        "message cannot be empty"
    );
    match run(
        Command::Send {
            chat: "anna".into(),
            message: " hi ".into(),
        },
        &list,
    ) {
        Ok(Request::Send { chat, message }) => {
            assert_eq!((chat.title.as_str(), message.as_str()), ("Anna", " hi "));
        }
        other => panic!("not sent: {other:?}"),
    }
    let read = Command::Read {
        chat: "nobody".into(),
        since: None,
        until: None,
        limit: 1,
    };
    let error = run(read, &list).unwrap_err();
    assert!(matches!(
        error,
        CommandError::Chat(ResolveError::NoMatch { .. })
    ));
    assert!(sync_warning("timeout").contains("(timeout)"));
}

#[test]
fn chats_are_listed() {
    let list = vec![chat(1, "Anna"), chat(2, "Berta")];
    assert_eq!(
        list_text(&list),
        format!(
            "{}  Anna  2 members\n{}  Berta  2 members\n",
            list[0].id.stable_id(),
            list[1].id.stable_id()
        )
    );
    let value = list_json(&list);
    let chats = value.array_at("chats").unwrap();
    assert_eq!(chats.len(), 2);
    assert_eq!(chats[1].str_at("name").unwrap(), "Berta");
    assert_eq!(chats[1].str_at("kind").unwrap(), "group");
}

fn text_message(timestamp: u64, body: &str) -> ChatMessage {
    ChatMessage {
        timestamp,
        mine: false,
        sender: Some("Tom".into()),
        body: body.into(),
        kind: MessageKind::Text,
        attachments: Vec::new(),
    }
}

#[test]
fn the_newest_messages_of_all_chats_are_shown() {
    let chats = vec![
        ChatMessages {
            chat: chat(2, "Berta"),
            messages: vec![text_message(10, "old"), text_message(30, "b")],
        },
        ChatMessages {
            chat: chat(1, "Anna"),
            messages: vec![text_message(30, "z"), text_message(30, "a")],
        },
    ];
    let bodies = |limit| {
        brief_messages(&chats, limit)
            .iter()
            .map(|entry| entry.message.body.clone())
            .collect::<Vec<_>>()
    };
    assert_eq!(bodies(9), vec!["a", "z", "b", "old"]);
    assert_eq!(bodies(2), vec!["a", "z"]);
    let list = brief_messages(&chats, 1);
    let value = brief_json(&list, &brief_stamps(&list));
    let first = &value.array_at("messages").unwrap()[0];
    assert_eq!(
        first.get("chat").unwrap().str_at("name").unwrap(),
        "Anna"
    );
    assert_eq!(first.str_at("body").unwrap(), "a");
    assert_eq!(brief_rows(&list)[0].name, "Anna · Tom");
}

#[test]
fn messages_of_a_chat_are_read() {
    let chat = chat(1, "Anna");
    let messages = vec![text_message(10, "one\ntwo")];
    let value = read_json(&chat, &messages, &message_stamps(&messages));
    assert_eq!(
        value.get("chat").unwrap().str_at("name").unwrap(),
        "Anna"
    );
    assert_eq!(value.array_at("messages").unwrap().len(), 1);
    assert_eq!(
        read_heading(&chat),
        format!("Anna  {}\n\n", chat.id.stable_id())
    );
    let rows = read_rows(&messages);
    assert_eq!(rows[0].name, "Tom");
    assert_eq!(rows[0].content, vec!["one", "two"]);
    assert!(rows[0].incoming);
    assert_eq!(message_row(&messages[0], "Tom".into()), rows[0]);
    assert_eq!(body_for_human(&messages[0]), "one\n    two");
}

#[test]
fn files_are_listed_below_their_message() {
    let mut message = text_message(10, "");
    assert_eq!(message_content(&message), vec![""]);
    message.attachments.push(occurrence(1, "Report.pdf", 1).attachment);
    assert_eq!(
        message_content(&message),
        vec![format!(
            "file {} · Report.pdf · 1.0 KiB · application/pdf",
            "01".repeat(32)
        )]
    );
    assert_eq!(body_for_human(&message), "[1 attachment]");
}

#[test]
fn what_was_done_is_reported() {
    let chat = chat(1, "Anna");
    let message = text_message(10, "hi");
    assert_eq!(
        sent_text(&chat, "now"),
        format!("sent to Anna ({}) at now\n", chat.id.stable_id())
    );
    let value = sent_json(&chat, &message, "now");
    assert_eq!(value.get("sent"), Some(&Json::Bool(true)));
    assert_eq!(
        value.get("message").unwrap().str_at("timestamp").unwrap(),
        "now"
    );
    let file = occurrence(1, "Report.pdf", 30);
    assert_eq!(
        downloaded_text(&file, "/tmp/Report.pdf"),
        format!(
            "downloaded Report.pdf (1.0 KiB, {}) from Chat 1 to /tmp/Report.pdf\n",
            "01".repeat(32)
        )
    );
    let value = downloaded_json(&file, "/tmp/Report.pdf", "now");
    assert_eq!(value.str_at("path").unwrap(), "/tmp/Report.pdf");
    let inner = value.get("file").unwrap();
    assert_eq!(inner.u64_at("timestamp_ms"), Some(30));
    assert_eq!(inner.str_at("name").unwrap(), "Report.pdf");
}

#[test]
fn columns_count_cells_and_not_characters() {
    assert_eq!(pad_to_width("漢", 4), "漢  ");
    assert_eq!(pad_to_width("abcd", 2), "abcd");
    assert_eq!(blue(String::new(), true), "");
    assert!(color_enabled(true, false, Some("xterm")));
    assert!(!color_enabled(true, false, Some("dumb")));
    assert!(!color_enabled(true, true, None));
    assert!(!color_enabled(false, false, None));
}
