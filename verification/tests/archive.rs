use signal_cli::archive::{
    account_texts, archive_attachment, archive_content, archive_message, contact_name,
    import_plan, recipient_aci, recipient_thread, restore_recipients, Identities, ImportStep,
    Restored, CHECKPOINT_INTERVAL, LAST_MILLISECOND, TIMESTAMP_OUT_OF_RANGE,
};
use signal_cli::backend::{
    AttachmentIdentifier, ContentBody, ConversationId, DataMessage, ServiceId,
};
use signal_cli::json::Json;

fn obj(fields: Vec<(&str, Json)>) -> Json {
    Json::Object(
        fields
            .into_iter()
            .map(|(name, value)| (name.to_owned(), value))
            .collect(),
    )
}

fn text(value: &str) -> Json {
    Json::Text(value.into())
}

fn service(text: &str) -> ServiceId {
    ServiceId { text: text.into() }
}

fn known() -> Identities {
    Identities {
        entries: vec![
            ("ACI-VERA".into(), service("aci-vera")),
            ("ACI-TOM".into(), service("aci-tom")),
        ],
    }
}

#[test]
fn canonical_recipients_use_human_names_and_stable_threads() {
    let contact = obj(vec![
        ("profile_given_name", text("Vera")),
        ("profile_family_name", text("Scheel")),
        ("e164", text("+49123")),
    ]);
    assert_eq!(contact_name(&contact), "Vera Scheel");
    assert_eq!(
        contact_name(&obj(vec![("e164", text("+49123"))])),
        "+49123"
    );
    assert_eq!(contact_name(&obj(vec![])), "Unknown contact");

    let group = obj(vec![(
        "Group",
        obj(vec![("master_key", text(&"2a".repeat(32)))]),
    )]);
    assert_eq!(
        recipient_thread(&known(), &group),
        Some(ConversationId::Group([42; 32]))
    );
}

#[test]
fn canonical_messages_keep_text_and_use_existing_placeholders() {
    let standard = obj(vec![(
        "Standard",
        obj(vec![
            ("text", obj(vec![("text", text("hello"))])),
            ("attachments", Json::Array(vec![])),
        ]),
    )]);
    assert_eq!(
        archive_message(Some(&standard)),
        Some(("hello".into(), Vec::new()))
    );
    assert_eq!(
        archive_message(Some(&obj(vec![("RemoteDeleted", Json::Null)]))),
        Some(("[message deleted]".into(), Vec::new()))
    );
    assert_eq!(
        archive_message(Some(&obj(vec![("Poll", obj(vec![]))]))),
        Some(("[poll]".into(), Vec::new()))
    );
    assert_eq!(archive_message(Some(&obj(vec![]))), None);
    assert_eq!(archive_message(None), None);
}

#[test]
fn nicknames_and_system_names_stand_in_for_profile_names() {
    let nickname = obj(vec![
        ("profile_given_name", text(" ")),
        (
            "nickname",
            obj(vec![
                ("given_name", text("Vee")),
                ("family_name", text("")),
            ]),
        ),
        ("system_given_name", text("V.")),
    ]);
    assert_eq!(contact_name(&nickname), "Vee");
    let system = obj(vec![
        ("system_given_name", text("V.")),
        ("system_family_name", text("S.")),
        ("e164", text("+49123")),
    ]);
    assert_eq!(contact_name(&system), "V. S.");
}

fn contact(aci: &str) -> Json {
    obj(vec![(
        "Contact",
        obj(vec![
            ("aci", text(aci)),
            ("profile_key", text("0a0b")),
            ("profile_given_name", text("Vera")),
        ]),
    )])
}

fn group() -> Json {
    let member = |aci: &str, role: &str| {
        obj(vec![
            ("user_id", text(aci)),
            ("role", text(role)),
            ("joined_at_version", Json::Number(2)),
        ])
    };
    obj(vec![(
        "Group",
        obj(vec![
            ("master_key", text(&"2a".repeat(32))),
            (
                "snapshot",
                obj(vec![
                    ("title", text(" ")),
                    ("version", Json::Number(7)),
                    ("description", text("about")),
                    (
                        "members",
                        Json::Array(vec![
                            member("ACI-VERA", "Administrator"),
                            member("nobody", "Default"),
                            member("ACI-TOM", "Default"),
                        ]),
                    ),
                ]),
            ),
        ]),
    )])
}

#[test]
fn recipients_are_restored_with_their_members() {
    let backup = obj(vec![(
        "recipients",
        Json::Array(vec![
            contact("ACI-VERA"),
            contact("unreadable"),
            group(),
            obj(vec![("Self", Json::Null)]),
        ]),
    )]);
    let restored = restore_recipients(&known(), &backup);
    assert_eq!(restored.len(), 2);
    assert_eq!(
        restored[0],
        Restored::Contact {
            aci: service("aci-vera"),
            name: "Vera".into(),
            profile_key: vec![0x0a, 0x0b],
        }
    );
    match &restored[1] {
        Restored::Group {
            master_key,
            title,
            revision,
            members,
            description,
        } => {
            assert_eq!(*master_key, [42; 32]);
            assert_eq!(title, "Unnamed group");
            assert_eq!(*revision, 7);
            assert_eq!(description.as_deref(), Some("about"));
            assert_eq!(members.len(), 2);
            assert!(members[0].administrator && !members[1].administrator);
            assert_eq!(members[1].aci, service("aci-tom"));
            assert_eq!(members[1].joined_at_revision, 2);
        }
        other => panic!("not a group: {other:?}"),
    }
    let mut asked = account_texts(&backup);
    asked.sort();
    asked.dedup();
    assert!(asked.contains(&"ACI-VERA".to_string()));
    assert!(asked.contains(&"ACI-TOM".to_string()));
    assert!(asked.contains(&"unreadable".to_string()));
}

#[test]
fn a_restored_contact_has_its_thread() {
    assert_eq!(
        recipient_thread(&known(), &contact("ACI-TOM")),
        Some(ConversationId::Contact(service("aci-tom")))
    );
    assert_eq!(recipient_thread(&known(), &contact("unreadable")), None);
    assert_eq!(
        recipient_aci(&known(), &contact("ACI-TOM")),
        Some(service("aci-tom"))
    );
    assert_eq!(recipient_aci(&known(), &group()), None);
}

fn attachment() -> Json {
    obj(vec![(
        "pointer",
        obj(vec![
            ("content_type", text("image/png")),
            ("file_name", text("a.png")),
            ("width", Json::Number(5)),
            ("height", Json::Number(6)),
            (
                "locator_info",
                obj(vec![(
                    "LocatorInfo",
                    obj(vec![
                        ("key", text("0102")),
                        (
                            "integrity_check",
                            obj(vec![(
                                "EncryptedDigest",
                                obj(vec![("digest", text("ff"))]),
                            )]),
                        ),
                        (
                            "transit",
                            obj(vec![
                                ("cdn_key", text("place")),
                                ("cdn_number", Json::Number(3)),
                            ]),
                        ),
                        ("plaintext_size", Json::Number(99)),
                    ]),
                )]),
            ),
        ]),
    )])
}

#[test]
fn attachments_keep_what_is_needed_to_fetch_them() {
    let pointer = archive_attachment(&attachment()).unwrap();
    assert_eq!(pointer.key, Some(vec![1, 2]));
    assert_eq!(pointer.digest, Some(vec![255]));
    assert_eq!(pointer.cdn_number, Some(3));
    assert_eq!(pointer.size, Some(99));
    assert_eq!(
        pointer.attachment_identifier,
        Some(AttachmentIdentifier::CdnKey("place".into()))
    );
    assert_eq!((pointer.width, pointer.height), (Some(5), Some(6)));
    assert_eq!(archive_attachment(&obj(vec![])), None);
    let only_file = obj(vec![(
        "Standard",
        obj(vec![("attachments", Json::Array(vec![attachment()]))]),
    )]);
    let (body, files) = archive_message(Some(&only_file)).unwrap();
    assert_eq!(body, "");
    assert_eq!(files, vec![pointer]);
}

fn item(sent_at: u64, outgoing: bool) -> Json {
    obj(vec![
        ("sent_at", Json::Number(sent_at)),
        (
            "message",
            obj(vec![(
                "Standard",
                obj(vec![("text", obj(vec![("text", text("hello"))]))]),
            )]),
        ),
        (
            "direction",
            obj(vec![(
                if outgoing { "Outgoing" } else { "Incoming" },
                obj(vec![]),
            )]),
        ),
        ("author", contact("ACI-TOM")),
    ])
}

#[test]
fn archived_messages_name_their_sender_and_receiver() {
    let me = service("me");
    let thread = ConversationId::Contact(service("aci-vera"));
    let content = archive_content(&known(), &item(5, true), &thread, &me)
        .unwrap()
        .unwrap();
    assert_eq!(content.sender, me);
    assert_eq!(content.destination, service("aci-vera"));
    assert!(matches!(
        content.body,
        ContentBody::SynchronizeMessage(Some(_))
    ));

    let group = ConversationId::Group([42; 32]);
    let content = archive_content(&known(), &item(5, false), &group, &me)
        .unwrap()
        .unwrap();
    assert_eq!(content.sender, service("aci-tom"));
    assert_eq!(content.destination, me);
    match content.body {
        ContentBody::DataMessage(DataMessage {
            group_v2: Some(context),
            body,
            timestamp,
            ..
        }) => {
            assert_eq!(context.master_key, vec![42; 32]);
            assert_eq!(body.as_deref(), Some("hello"));
            assert_eq!(timestamp, Some(5));
        }
        other => panic!("not a data message: {other:?}"),
    }
}

#[test]
fn archived_times_must_exist() {
    let me = service("me");
    let thread = ConversationId::Group([1; 32]);
    let at = |time: u64| archive_content(&known(), &item(time, true), &thread, &me);
    assert!(at(LAST_MILLISECOND as u64).is_ok());
    assert_eq!(
        at(LAST_MILLISECOND as u64 + 1),
        Err(TIMESTAMP_OUT_OF_RANGE.into())
    );
    let untimed = obj(vec![("message", obj(vec![("Poll", obj(vec![]))]))]);
    assert_eq!(archive_content(&known(), &untimed, &thread, &me), Ok(None));
}

fn chat(items: Vec<Json>) -> Json {
    obj(vec![
        ("recipient", contact("ACI-VERA")),
        ("items", Json::Array(items)),
    ])
}

#[test]
fn imports_count_what_they_store() {
    let me = service("me");
    let items: Vec<Json> = (0..CHECKPOINT_INTERVAL + 1)
        .map(|time| item(time, false))
        .collect();
    let backup = obj(vec![("chats", Json::Array(vec![chat(items)]))]);
    let plan = import_plan(&known(), &me, &backup);
    let saved = plan
        .steps
        .iter()
        .filter(|step| matches!(step, ImportStep::Save { .. }))
        .count() as u64;
    assert_eq!(saved, plan.imported_messages);
    let empty = import_plan(&known(), &me, &obj(vec![]));
    assert_eq!(empty.imported_messages, 0);
    assert!(empty.steps.is_empty());
    assert!(!empty.failed);
}
