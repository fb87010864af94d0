use signal_cli::app::{
    matching_conversation_indices, moved_selection, reconciled_selection, remembered_selection,
    LayoutMode, Screen, WIDE_BREAKPOINT,
};
use signal_cli::backend::{Conversation, ConversationId};

fn group(byte: u8, title: &str, subtitle: &str) -> Conversation {
    Conversation {
        id: ConversationId::Group([byte; 32]),
        title: title.into(),
        subtitle: subtitle.into(),
        group_revision: Some(1),
    }
}

#[test]
fn app_screens_are_distinct() {
    assert_ne!(Screen::Chat, Screen::Conversations);
    assert_ne!(Screen::DisconnectConfirm, Screen::Conversations);
}

#[test]
fn app_layout_switches_at_120_columns() {
    assert_eq!(WIDE_BREAKPOINT, 120);
    assert_eq!(LayoutMode::for_width(119), LayoutMode::Narrow);
    assert_eq!(LayoutMode::for_width(120), LayoutMode::Wide);
    assert_eq!(LayoutMode::for_width(200), LayoutMode::Wide);
}

#[test]
fn app_remembered_chat_is_selected_with_first_chat_fallback() {
    let conversations = vec![group(1, "One", ""), group(2, "Two", "")];
    assert_eq!(
        remembered_selection(&conversations, Some(&ConversationId::Group([2; 32]))),
        1
    );
    assert_eq!(
        remembered_selection(&conversations, Some(&ConversationId::Group([9; 32]))),
        0
    );
    assert_eq!(remembered_selection(&conversations, None), 0);
}

#[test]
fn search_matches_names_and_subtitles_case_insensitively() {
    let conversations = vec![
        group(1, "Family Plans", "4 members"),
        group(2, "Vera Scheel", "+49 152 123456"),
    ];

    assert_eq!(
        matching_conversation_indices(&conversations, "fAmIlY"),
        vec![0]
    );
    assert_eq!(
        matching_conversation_indices(&conversations, "152"),
        vec![1]
    );
    assert_eq!(
        matching_conversation_indices(&conversations, "missing"),
        Vec::<usize>::new()
    );
    assert_eq!(
        matching_conversation_indices(&conversations, ""),
        vec![0, 1]
    );
}

#[test]
fn filtered_selection_is_preserved_or_moves_to_the_first_match() {
    let matches = vec![1, 3, 5];
    assert_eq!(reconciled_selection(&matches, 3), Some(3));
    assert_eq!(reconciled_selection(&matches, 2), Some(1));
    assert_eq!(reconciled_selection(&[], 2), None);
    assert_eq!(moved_selection(&matches, 1, true), Some(3));
    assert_eq!(moved_selection(&matches, 5, true), Some(5));
    assert_eq!(moved_selection(&matches, 3, false), Some(1));
    assert_eq!(moved_selection(&matches, 1, false), Some(1));
}

#[test]
fn screens_are_distinct() {
    assert_ne!(Screen::Chat, Screen::Conversations);
    assert_ne!(Screen::DisconnectConfirm, Screen::Conversations);
}

#[test]
fn layout_switches_at_120_columns() {
    assert_eq!(WIDE_BREAKPOINT, 120);
    assert_eq!(LayoutMode::for_width(119), LayoutMode::Narrow);
    assert_eq!(LayoutMode::for_width(120), LayoutMode::Wide);
    assert_eq!(LayoutMode::for_width(200), LayoutMode::Wide);
}

#[test]
fn remembered_chat_is_selected_with_first_chat_fallback() {
    let conversations = vec![group(1, "One", ""), group(2, "Two", "")];
    let remembered = |byte: u8| ConversationId::Group([byte; 32]);
    assert_eq!(
        remembered_selection(&conversations, Some(&remembered(2))),
        1
    );
    assert_eq!(
        remembered_selection(&conversations, Some(&remembered(9))),
        0
    );
    assert_eq!(remembered_selection(&conversations, None), 0);
}
