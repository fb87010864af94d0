use std::sync::Arc;

use signal_cli::app::{App, Screen};
use signal_cli::attachments::{AttachmentEvent, Picture};
use signal_cli::backend::{
    AttachmentPointer, ChatAttachment, ChatMessage, Conversation, ConversationId, MessageKind,
};
use signal_cli::cli::human_size;
use signal_cli::ui::{
    accent, chat_header, chat_parts, composer_cursor, conversation_list, disconnect_warning,
    fit_window, footer, frame_style, friendly_type, image_failure, image_height, message_area,
    message_elements, message_times, muted, narrow_chat_parts, page, primary, render_messages,
    render_search, shell, sidebar_parts, status_spans, wide_columns, Color, Drawn, MessageElement,
    MessagesPane, Page, Rect, Span, SIDEBAR_WIDTH,
};
use signal_cli::wrap::wrap_text;

#[test]
fn ui_wraps_at_word_boundaries() {
    assert_eq!(wrap_text("one two three", 7), vec!["one two", "three"]);
}

#[test]
fn ui_preserves_explicit_newlines() {
    assert_eq!(wrap_text("one\ntwo", 20), vec!["one", "two"]);
}

#[test]
fn ui_neutral_styles_follow_the_terminal_theme() {
    assert_eq!(primary().fg, Some(Color::Reset));
    assert_eq!(muted().fg, Some(Color::Reset));
    assert!(muted().dim);
}

#[test]
fn ui_wide_layout_has_fixed_32_column_sidebar() {
    let (_, body, _) = shell(Rect {
        x: 0,
        y: 0,
        width: 120,
        height: 40,
    });
    let (sidebar, chat) = wide_columns(body);
    assert_eq!(sidebar.width, SIDEBAR_WIDTH);
    assert_eq!(chat.width, 120 - SIDEBAR_WIDTH);
    assert_eq!(chat.x, SIDEBAR_WIDTH);
}

#[test]
fn ui_connected_status_omits_device_name() {
    let spans = status_spans("Connected to Signal CLI");
    let rendered = spans
        .iter()
        .map(|span| span.content.as_str())
        .collect::<String>();
    assert_eq!(rendered, "● Connected");
}

#[test]
fn attachment_metadata_is_human_readable() {
    assert_eq!(human_size(Some(2_516_582)), "2.4 MiB");
    assert_eq!(human_size(None), "unknown size");
    assert_eq!(friendly_type(Some("application/pdf")), "PDF");
    assert_eq!(friendly_type(Some("video/mp4")), "MP4 video");
    assert_eq!(
        image_failure("decode image: bad data"),
        "unsupported or malformed image"
    );
}

#[test]
fn inline_images_fit_the_balanced_height_limit() {
    let pointer = AttachmentPointer {
        digest: Some(vec![1; 32]),
        content_type: Some("image/png".into()),
        width: Some(800),
        height: Some(400),
        ..Default::default()
    };
    let attachment = ChatAttachment {
        key: "image".into(),
        file_name: Some("image.png".into()),
        content_type: pointer.content_type.clone(),
        size: Some(1_024),
        width: pointer.width,
        height: pointer.height,
        pointer,
    };
    assert_eq!(image_height(&attachment, 80, (10, 20)), 8);
    assert!(image_height(&attachment, 20, (10, 20)) <= 12);
}

#[test]
fn wraps_at_word_boundaries() {
    assert_eq!(wrap_text("one two three", 7), vec!["one two", "three"]);
}

#[test]
fn preserves_explicit_newlines() {
    assert_eq!(wrap_text("one\ntwo", 20), vec!["one", "two"]);
}

#[test]
fn neutral_styles_follow_the_terminal_theme() {
    assert_eq!(primary().fg, Some(Color::Reset));
    assert_eq!(muted().fg, Some(Color::Reset));
    assert!(muted().dim);
}

#[test]
fn wide_layout_has_fixed_32_column_sidebar() {
    let area = Rect {
        x: 0,
        y: 0,
        width: 120,
        height: 40,
    };
    let (sidebar, chat) = wide_columns(shell(area).1);
    assert_eq!(sidebar.width, SIDEBAR_WIDTH);
    assert_eq!(chat.width, 120 - SIDEBAR_WIDTH);
    assert_eq!(chat.x, SIDEBAR_WIDTH);
}

#[test]
fn connected_status_omits_device_name() {
    let mut rendered = String::new();
    for span in status_spans("Connected to Signal CLI") {
        rendered.push_str(&span.content);
    }
    assert_eq!(rendered, "● Connected");
}

fn app_with(titles: &[&str]) -> App {
    let mut app = App::new(None);
    let list = titles
        .iter()
        .enumerate()
        .map(|(index, title)| Conversation {
            id: ConversationId::Group([index as u8; 32]),
            title: title.to_string(),
            subtitle: "2 members".into(),
            group_revision: Some(1),
        })
        .collect();
    app.refresh_conversations(list);
    app
}

fn area(width: u16, height: u16) -> Rect {
    Rect {
        x: 0,
        y: 0,
        width,
        height,
    }
}

fn shown(spans: &[Span]) -> String {
    spans.iter().map(|span| span.content.as_str()).collect()
}

#[test]
fn the_screen_is_divided_into_rows() {
    let (head, body, foot) = shell(area(80, 24));
    assert_eq!((head.y, head.height), (0, 3));
    assert_eq!((body.y, body.height), (3, 19));
    assert_eq!((foot.y, foot.height), (22, 2));
    let (search, list) = sidebar_parts(body);
    assert_eq!((search.height, list.y, list.height), (3, 6, 16));
    let (messages, input) = chat_parts(body);
    assert_eq!((messages.height, input.y, input.height), (15, 18, 4));
    let (head, messages, input, foot) = narrow_chat_parts(area(80, 24));
    assert_eq!((head.height, messages.height), (3, 15));
    assert_eq!((input.y, foot.y), (18, 22));
}

fn rows_inside(part: Rect, area: Rect) -> bool {
    part.x == area.x
        && part.width == area.width
        && area.y <= part.y
        && part.y + part.height <= area.y + area.height
}

#[test]
fn parts_lie_inside_areas_of_any_size() {
    for height in 0..16 {
        let all = Rect {
            x: 3,
            y: 7,
            width: 20,
            height,
        };
        let (head, body, foot) = shell(all);
        let (search, list) = sidebar_parts(all);
        let (messages, input) = chat_parts(all);
        let (first, second, third, last) = narrow_chat_parts(all);
        for part in [
            head, body, foot, search, list, messages, input, first, second, third, last,
        ] {
            assert!(rows_inside(part, all));
        }
    }
    for width in 0..40 {
        let all = Rect {
            x: 3,
            y: 7,
            width,
            height: 5,
        };
        let (sidebar, chat) = wide_columns(all);
        for part in [sidebar, chat] {
            assert_eq!((part.y, part.height), (7, 5));
            assert!(3 <= part.x && part.x + part.width <= 3 + width);
        }
    }
}

#[test]
fn messages_stand_inside_their_frame() {
    let inside = |x, y, width, height| {
        let content = message_area(Rect {
            x,
            y,
            width,
            height,
        });
        (content.x, content.y, content.width, content.height)
    };
    assert_eq!(inside(32, 3, 88, 30), (34, 4, 84, 29));
    assert_eq!(inside(0, 0, 3, 1), (2, 1, 0, 0));
    assert_eq!(inside(0, 5, 3, 0), (2, 5, 0, 0));
    assert_eq!(inside(65_534, 65_535, 1, 1), (65_535, 65_535, 0, 0));
}

#[test]
fn the_page_follows_the_screen_and_the_width() {
    let mut app = app_with(&["Anna"]);
    app.terminal_width = 80;
    assert_eq!(page(&app), Page::List);
    app.screen = Screen::Chat;
    assert_eq!(page(&app), Page::Chat);
    assert!(shown(&footer(&app)).contains("esc chats"));
    app.terminal_width = 120;
    assert_eq!(page(&app), Page::Both);
    assert!(shown(&footer(&app)).contains("esc sidebar"));
    app.screen = Screen::Conversations;
    assert_eq!(page(&app), Page::Both);
    assert!(shown(&footer(&app)).starts_with("type search   ↑↓ move"));
    app.screen = Screen::DisconnectConfirm;
    assert_eq!(page(&app), Page::Confirm);
    assert_eq!(
        shown(&footer(&app)),
        "ctrl-y Disconnect and erase local data   esc/ctrl-n Cancel"
    );
    assert_eq!(disconnect_warning().len(), 4);
}

#[test]
fn headers_name_the_chat() {
    let mut app = app_with(&["Anna"]);
    assert_eq!(shown(&chat_header(&app, true)), "● signal  Signal");
    app.loaded(&clone_of(&app, 0), Vec::new(), true, None);
    assert_eq!(shown(&chat_header(&app, false)), "Anna");
}

fn clone_of(app: &App, index: usize) -> Conversation {
    app.conversations[index].clone()
}

#[test]
fn the_list_marks_the_selected_chat() {
    let mut app = app_with(&["Anna", "Berta"]);
    app.selected = 1;
    let list = conversation_list(&app, true, true);
    assert_eq!(list.items.len(), 2);
    assert_eq!(shown(&list.items[0][0]), "  Anna");
    assert_eq!(shown(&list.items[1][0]), "› Berta");
    assert_eq!(shown(&list.items[1][1]), "  2 members");
    assert!(list.right_border);
    assert_eq!(list.padding, 1);
    assert_eq!(list.border_style, accent());
    app.search = "zz".into();
    let list = conversation_list(&app, false, false);
    assert_eq!(shown(&list.items[0][0]), "No chats match \"zz\"");
    assert_eq!((list.right_border, list.padding), (false, 2));
    assert_eq!(frame_style(false), muted());
    let empty = conversation_list(&app_with(&[]), false, false);
    assert_eq!(shown(&empty.items[0][0]), "No conversations synced yet");
}

#[test]
fn the_search_line_shows_what_stands_before_the_cursor() {
    let mut app = app_with(&["Anna"]);
    let search = render_search(&app, area(20, 3), true);
    assert_eq!(shown(&search.spans), "Search chats…");
    assert_eq!(search.cursor, Some((2, 1)));
    app.search = "abcdefgh".into();
    app.search_cursor = 8;
    let search = render_search(&app, area(9, 3), true);
    assert_eq!(shown(&search.spans), "defgh");
    assert_eq!(search.cursor, Some((7, 1)));
    app.search = "漢字".into();
    app.search_cursor = 6;
    let search = render_search(&app, area(7, 3), false);
    assert_eq!(shown(&search.spans), "字");
    assert_eq!(search.cursor, None);
    app.search = "a\u{7}b".into();
    app.search_cursor = 3;
    let search = render_search(&app, area(20, 3), true);
    assert_eq!(search.cursor, Some((4, 1)));
    assert_eq!(fit_window(&vec![1, 2, 2], 4), (1, 4));
    assert_eq!(fit_window(&vec![5], 4), (1, 0));
}

#[test]
fn the_cursor_stands_behind_what_was_typed() {
    let mut app = app_with(&["Anna"]);
    assert_eq!(composer_cursor(&app, area(20, 4), true), None);
    app.loaded(&clone_of(&app, 0), Vec::new(), true, None);
    app.input = "äb".into();
    app.cursor = 2;
    assert_eq!(composer_cursor(&app, area(20, 4), true), Some((3, 1)));
    assert_eq!(composer_cursor(&app, area(20, 4), false), None);
}

fn message(body: &str, attachments: Vec<ChatAttachment>) -> ChatMessage {
    ChatMessage {
        timestamp: 0,
        mine: false,
        sender: None,
        body: body.into(),
        kind: MessageKind::Text,
        attachments,
    }
}

fn picture(key: &str) -> ChatAttachment {
    ChatAttachment {
        key: key.into(),
        file_name: Some("a.png".into()),
        content_type: Some("image/png".into()),
        size: Some(1_024),
        width: Some(800),
        height: Some(400),
        pointer: AttachmentPointer {
            digest: Some(vec![1; 32]),
            ..Default::default()
        },
    }
}

#[test]
fn messages_become_rows() {
    let mut app = app_with(&["Anna"]);
    let files = vec![picture("1"), picture("2"), picture("3"), picture("4")];
    app.loaded(
        &clone_of(&app, 0),
        vec![message("one two three", files)],
        true,
        None,
    );
    let times = vec!["10:00".to_string()];
    let elements = message_elements(&app, "Anna", &times, 7, Some((10, 20)));
    let lines: Vec<String> = elements
        .iter()
        .map(|element| match element {
            MessageElement::Text(spans) => shown(spans),
            MessageElement::Image { key, .. } => format!("<{key}>"),
        })
        .collect();
    assert_eq!(
        lines,
        vec![
            "Anna  10:00",
            "one two",
            "three",
            "<1>",
            "📎 a.png · PNG · 1.0 KiB",
            "<2>",
            "📎 a.png · PNG · 1.0 KiB",
            "<3>",
            "📎 a.png · PNG · 1.0 KiB",
            "📎 a.png · PNG · 1.0 KiB",
            ""
        ]
    );
    assert!(elements.iter().all(|element| element.height() >= 1));
    let plain = message_elements(&app, "Anna", &times, 7, None);
    assert!(plain
        .iter()
        .all(|element| matches!(element, MessageElement::Text(_))));
    assert_eq!(message_times(&app).len(), 1);
}

#[test]
fn the_newest_rows_are_drawn() {
    let mut app = app_with(&["Anna"]);
    assert_eq!(
        render_messages(&app, &Vec::new(), area(40, 5), None),
        MessagesPane::NoChat
    );
    let chat = clone_of(&app, 0);
    app.loaded(&chat, Vec::new(), true, None);
    assert_eq!(
        render_messages(&app, &Vec::new(), area(40, 5), None),
        MessagesPane::NoMessages
    );
    let list = vec![message("first", vec![]), message("last", vec![])];
    app.loaded(&chat, list, true, None);
    let times = vec!["10:00".to_string(), "10:01".to_string()];
    let rows = |app: &App| match render_messages(app, &times, area(40, 3), None) {
        MessagesPane::Messages(pane) => pane
            .drawings
            .iter()
            .map(|drawing| match &drawing.drawn {
                Drawn::Line(spans) => shown(spans),
                Drawn::Picture { key, .. } => key.clone(),
            })
            .collect::<Vec<_>>(),
        other => panic!("no messages: {other:?}"),
    };
    assert_eq!(rows(&app), vec!["Anna  10:01", "last", ""]);
    app.scroll = 2;
    assert_eq!(rows(&app), vec!["first", "", "Anna  10:01"]);
    app.scroll = u16::MAX;
    assert_eq!(rows(&app), vec!["Anna  10:00", "first", ""]);
}

#[test]
fn pictures_in_view_are_asked_for() {
    let mut app = app_with(&["Anna"]);
    let chat = clone_of(&app, 0);
    app.loaded(&chat, vec![message("", vec![picture("p")])], true, None);
    let times = vec!["10:00".to_string()];
    let pane = |app: &App, height: u16| {
        match render_messages(app, &times, area(40, height), Some((10, 20))) {
            MessagesPane::Messages(pane) => pane,
            other => panic!("no messages: {other:?}"),
        }
    };
    let loading = pane(&app, 30);
    assert_eq!(loading.visible_images, vec!["p"]);
    assert!(loading.drawings.iter().any(
        |drawing| matches!(&drawing.drawn, Drawn::Line(spans) if shown(spans) == "Loading a.png…")
    ));
    app.handle_attachment(AttachmentEvent {
        key: "p".into(),
        result: Ok(Arc::new(Picture {
            width: 1,
            height: 1,
            rgba: vec![0; 4],
        })),
    });
    let drawn = pane(&app, 30);
    let drawing = drawn
        .drawings
        .iter()
        .find(|drawing| matches!(drawing.drawn, Drawn::Picture { .. }))
        .unwrap();
    assert_eq!(drawing.area.width, 16);
    let cut = pane(&app, 4);
    assert!(cut.drawings.iter().any(
        |drawing| matches!(&drawing.drawn, Drawn::Line(spans) if shown(spans) == "[image continues…]")
    ));
    app.handle_attachment(AttachmentEvent {
        key: "p".into(),
        result: Err("decode image: bad".into()),
    });
    let failed = pane(&app, 30);
    assert!(failed.drawings.iter().any(|drawing| matches!(
        &drawing.drawn,
        Drawn::Line(spans)
            if shown(spans) == "Image unavailable: a.png · unsupported or malformed image"
    )));
}

#[test]
fn failures_and_types_have_their_words() {
    assert_eq!(
        image_failure("image exceeds the 50 MiB limit"),
        "image is larger than 50 MiB"
    );
    assert_eq!(
        image_failure("over the 40 megapixel limit"),
        "image is larger than 40 megapixels"
    );
    assert_eq!(image_failure("offline"), "could not load preview");
    assert_eq!(friendly_type(None), "unknown type");
    assert_eq!(friendly_type(Some(" image/jpeg ; q=1")), "JPEG");
    assert_eq!(friendly_type(Some("text/x-rust")), "text/x-rust");
    let mut unknown = picture("u");
    unknown.width = None;
    assert_eq!(image_height(&unknown, 80, (10, 20)), 8);
}
