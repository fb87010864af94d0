use std::sync::Arc;

use signal_cli::app::{Action, App, Key, KeyCode, LayoutMode, Screen, NO_CHATS};
use signal_cli::attachments::{AttachmentEvent, AttachmentState, Picture};
use signal_cli::backend::{
    AttachmentPointer, ChatAttachment, ChatMessage, Conversation, ConversationId, MessageKind,
    NetworkEvent,
};
use signal_cli::sync::SyncReport;

fn group(byte: u8, title: &str) -> Conversation {
    Conversation {
        id: ConversationId::Group([byte; 32]),
        title: title.into(),
        subtitle: String::new(),
        group_revision: Some(1),
    }
}

fn app() -> App {
    let mut app = App::new(None);
    app.refresh_conversations(vec![group(1, "Anna"), group(2, "Berta"), group(3, "Anton")]);
    app
}

fn press(code: KeyCode) -> Key {
    Key {
        code,
        pressed: true,
        control: false,
        alt: false,
        shift: false,
    }
}

fn control(c: char) -> Key {
    Key {
        control: true,
        ..press(KeyCode::Char(c))
    }
}

fn message(text: &str) -> ChatMessage {
    ChatMessage {
        timestamp: 1,
        mine: true,
        sender: None,
        body: text.into(),
        kind: MessageKind::Text,
        attachments: Vec::new(),
    }
}

fn open(app: &mut App) {
    match app.handle_key(press(KeyCode::Enter)) {
        Action::Load {
            conversation,
            focus_chat,
        } => {
            assert!(focus_chat);
            app.loaded(&conversation, Vec::new(), focus_chat, None);
        }
        other => panic!("nothing to load: {other:?}"),
    }
}

#[test]
fn a_new_interface_shows_the_list() {
    let mut app = App::new(Some("Updated".into()));
    assert_eq!(app.screen, Screen::Conversations);
    assert_eq!(app.status, "Connecting…");
    assert_eq!(app.update_notice.as_deref(), Some("Updated"));
    app.set_update_notice(None);
    assert_eq!(app.update_notice, None);
    assert!(matches!(
        app.handle_key(press(KeyCode::Enter)),
        Action::Nothing
    ));
    assert_eq!(app.status, NO_CHATS);
}

#[test]
fn typing_searches_the_list() {
    let mut app = app();
    for c in "an".chars() {
        app.handle_key(press(KeyCode::Char(c)));
    }
    assert_eq!(app.search, "an");
    assert_eq!(app.filtered_conversation_indices(), vec![0, 2]);
    app.handle_key(press(KeyCode::Down));
    assert_eq!(app.selected, 2);
    assert_eq!(app.filtered_selection(), Some(1));
    app.handle_key(press(KeyCode::Char('n')));
    assert_eq!(app.selected, 0);
    assert_eq!(app.selected_conversation().unwrap().title, "Anna");
    assert!(matches!(
        app.handle_key(press(KeyCode::Esc)),
        Action::Nothing
    ));
    assert_eq!(app.search, "");
    assert!(matches!(app.handle_key(press(KeyCode::Esc)), Action::Quit));
}

#[test]
fn the_search_line_is_edited_by_characters() {
    let mut app = app();
    for c in "aéz".chars() {
        app.handle_key(press(KeyCode::Char(c)));
    }
    assert_eq!(app.search_cursor, 4);
    app.handle_key(press(KeyCode::Left));
    app.handle_key(press(KeyCode::Backspace));
    assert_eq!((app.search.as_str(), app.search_cursor), ("az", 1));
    app.handle_key(press(KeyCode::Delete));
    assert_eq!((app.search.as_str(), app.search_cursor), ("a", 1));
    app.handle_key(press(KeyCode::Home));
    assert_eq!(app.search_cursor, 0);
    app.handle_key(press(KeyCode::Right));
    assert_eq!(app.search_cursor, 1);
    app.handle_key(press(KeyCode::Home));
    app.handle_key(press(KeyCode::End));
    assert_eq!(app.search_cursor, 1);
}

#[test]
fn control_c_leaves_from_everywhere() {
    let mut app = app();
    assert!(matches!(app.handle_key(control('c')), Action::Quit));
    app.handle_key(control('d'));
    assert_eq!(app.screen, Screen::DisconnectConfirm);
    assert!(matches!(app.handle_key(control('c')), Action::Quit));
    let released = Key {
        pressed: false,
        ..control('c')
    };
    assert!(matches!(app.handle_key(released), Action::Nothing));
}

#[test]
fn disconnecting_is_confirmed() {
    let mut app = app();
    app.handle_key(control('d'));
    assert!(matches!(
        app.handle_key(press(KeyCode::Char('y'))),
        Action::Nothing
    ));
    app.handle_key(control('n'));
    assert_eq!(app.screen, Screen::Conversations);
    app.handle_key(control('d'));
    assert!(matches!(app.handle_key(control('y')), Action::Disconnect));
    assert!(!app.disconnect_finished(Some("busy".into())));
    assert_eq!(app.status, "Disconnect failed: busy");
    assert_eq!(app.screen, Screen::Conversations);
    assert!(app.disconnect_finished(None));
    assert!(app.disconnected);
}

#[test]
fn a_message_is_trimmed_sent_and_shown() {
    let mut app = app();
    open(&mut app);
    assert_eq!(app.screen, Screen::Chat);
    assert_eq!(app.status, "Connected");
    assert!(matches!(
        app.handle_key(press(KeyCode::Enter)),
        Action::Nothing
    ));
    for c in " hi ".chars() {
        app.handle_key(press(KeyCode::Char(c)));
    }
    match app.handle_key(press(KeyCode::Enter)) {
        Action::Send { conversation, text } => {
            assert_eq!(conversation.title, "Anna");
            assert_eq!(text, "hi");
        }
        other => panic!("nothing is sent: {other:?}"),
    }
    assert!(app.sending);
    assert!(matches!(
        app.handle_key(press(KeyCode::Enter)),
        Action::Nothing
    ));
    app.send_finished(Err("offline".into()));
    assert_eq!(app.status, "Send failed: offline");
    assert_eq!(app.input, " hi ");
    app.send_finished(Ok(message("hi")));
    assert_eq!(app.messages.last().unwrap().body, "hi");
    assert_eq!((app.input.as_str(), app.cursor), ("", 0));
    assert_eq!(app.status, "Sent");
}

#[test]
fn backspace_takes_back_what_was_typed() {
    let mut app = app();
    open(&mut app);
    app.handle_key(press(KeyCode::Char('a')));
    app.handle_key(press(KeyCode::Char('€')));
    assert_eq!(app.cursor, 4);
    app.handle_key(press(KeyCode::Backspace));
    assert_eq!((app.input.as_str(), app.cursor), ("a", 1));
    app.handle_key(press(KeyCode::PageUp));
    assert_eq!(app.scroll, 5);
    app.handle_key(press(KeyCode::PageDown));
    app.handle_key(press(KeyCode::PageDown));
    assert_eq!(app.scroll, 0);
    app.handle_key(press(KeyCode::Esc));
    assert_eq!(app.screen, Screen::Conversations);
}

#[test]
fn a_chat_that_cannot_be_remembered_is_shown() {
    let mut app = app();
    let chat = group(2, "Berta");
    app.loaded(&chat, Vec::new(), false, Some("disk full".into()));
    assert_eq!(
        app.status,
        "Connected · could not remember chat: disk full"
    );
    assert_eq!(app.opened_conversation().unwrap().title, "Berta");
    assert_eq!(app.screen, Screen::Conversations);
}

#[test]
fn a_wide_terminal_shows_a_chat_at_once() {
    let mut app = app();
    assert!(matches!(app.handle_resize(100), Action::Nothing));
    assert!(matches!(
        app.handle_resize(140),
        Action::Load {
            focus_chat: false,
            ..
        }
    ));
    assert_eq!(app.layout_mode(), LayoutMode::Wide);
    assert!(matches!(app.ensure_wide_chat(), Action::Load { .. }));
    app.loaded(&group(1, "Anna"), Vec::new(), false, None);
    assert!(matches!(app.ensure_wide_chat(), Action::Nothing));
}

#[test]
fn a_refresh_keeps_the_selection_with_its_chat() {
    let mut app = app();
    app.handle_key(press(KeyCode::Down));
    open(&mut app);
    app.refresh_conversations(vec![group(9, "New"), group(2, "Berta")]);
    assert_eq!(app.selected, 1);
    assert!(app.opened_conversation().is_some());
    app.refresh_conversations(vec![group(9, "New")]);
    assert_eq!(app.selected, 0);
    assert!(app.opened_conversation().is_none());
    assert!(app.messages.is_empty());
    app.refresh_conversations(vec![group(4, "X"), group(5, "Y")]);
    app.select_remembered(Some(&ConversationId::Group([5; 32])));
    assert_eq!(app.selected, 1);
}

#[test]
fn a_synchronization_is_reported() {
    let mut app = app();
    assert!(matches!(
        app.handle_key(control('s')),
        Action::StopReceiver
    ));
    assert_eq!(app.status, "Sync unavailable");
    app.sync_available = true;
    assert!(matches!(app.handle_key(control('s')), Action::StartSync));
    assert_eq!(app.status, "Syncing contacts and queued messages…");
    assert!(matches!(app.handle_key(control('s')), Action::Nothing));
    assert_eq!(app.status, "Sync already in progress");
    open(&mut app);
    let reload = app.sync_refreshed(Ok(vec![group(1, "Anna")]));
    assert_eq!(reload.unwrap().title, "Anna");
    assert!(!app.syncing);
    let report = |received, contacts| SyncReport {
        received_messages: received,
        contacts_updated: contacts,
        ..Default::default()
    };
    app.finish_pending_sync(Ok(report(1, true)), None, Some(Ok(vec![message("new")])));
    assert_eq!(
        app.status,
        "Sync complete · 1 queued message · contacts updated"
    );
    assert_eq!(app.messages.len(), 1);
    app.finish_pending_sync(Ok(report(2, false)), None, None);
    assert_eq!(
        app.status,
        "Sync complete · 2 queued messages · contacts unchanged"
    );
    app.finish_pending_sync(Err("lost".into()), Some("x".into()), None);
    assert_eq!(app.status, "Sync failed: lost");
    app.finish_pending_sync(Ok(report(0, false)), Some("store".into()), None);
    assert_eq!(app.status, "Sync refresh failed: store");
    app.finish_pending_sync(Ok(report(0, false)), None, Some(Err("chat".into())));
    assert_eq!(app.status, "Sync finished; chat refresh failed: chat");
    assert!(app.sync_refreshed(Err("store".into())).is_none());
}

#[test]
fn events_of_the_network_change_the_interface() {
    let mut app = app();
    open(&mut app);
    let event = |byte| NetworkEvent::Message {
        conversation: ConversationId::Group([byte; 32]),
        incoming: true,
    };
    assert!(matches!(app.handle_network(event(2)), Action::Nothing));
    assert_eq!(app.status, "New message");
    assert!(matches!(
        app.handle_network(event(1)),
        Action::Reload { .. }
    ));
    app.scroll = 9;
    app.reloaded(vec![message("again")]);
    assert_eq!((app.scroll, app.status.as_str()), (0, "New message"));
    assert!(matches!(
        app.handle_network(NetworkEvent::ConversationsChanged),
        Action::Refresh
    ));
    app.contacts_synced();
    assert_eq!(app.status, "Contacts synced");
    app.handle_network(NetworkEvent::QueueEmpty);
    assert_eq!(app.status, "Connected");
    app.handle_network(NetworkEvent::Error("broken".into()));
    assert_eq!(app.status, "broken");
}

fn picture_message(key: &str) -> ChatMessage {
    let mut with_picture = message("");
    with_picture.attachments.push(ChatAttachment {
        key: key.into(),
        file_name: None,
        content_type: Some("image/png".into()),
        size: Some(10),
        width: Some(2),
        height: Some(2),
        pointer: AttachmentPointer {
            digest: Some(vec![1; 32]),
            ..Default::default()
        },
    });
    with_picture
}

#[test]
fn pictures_are_asked_for_once() {
    let mut app = app();
    app.loaded(&group(1, "Anna"), vec![picture_message("a")], true, None);
    let keys = vec!["a".to_string(), "a".to_string(), "b".to_string()];
    let queued = app.queue_visible_images(&keys);
    assert_eq!(queued.len(), 1);
    assert_eq!(queued[0].key, "a");
    assert_eq!(app.attachment_state("a"), AttachmentState::Loading);
    assert!(app.queue_visible_images(&keys).is_empty());
    let picture = Arc::new(Picture {
        width: 1,
        height: 1,
        rgba: vec![1, 2, 3, 4],
    });
    app.handle_attachment(AttachmentEvent {
        key: "a".into(),
        result: Ok(picture.clone()),
    });
    assert_eq!(app.attachment_state("a"), AttachmentState::Ready(picture));
    app.handle_attachment(AttachmentEvent {
        key: "b".into(),
        result: Err("gone".into()),
    });
    assert_eq!(
        app.attachment_state("b"),
        AttachmentState::Failed("gone".into())
    );
    app.reloaded(vec![picture_message("b")]);
    assert_eq!(app.attachment_state("a"), AttachmentState::NotRequested);
    assert_eq!(
        app.attachment_state("b"),
        AttachmentState::Failed("gone".into())
    );
}
