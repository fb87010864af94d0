//! The terminal interface: what it holds, and what each key, each reply and
//! each event does to it.
//!
//! The interface itself does no work outside of its own state. A step that
//! needs any hands out an [`Action`]; what came of it is handed back to the
//! method that names it.
use vstd::prelude::*;

use crate::attachments::{loaded_state, AttachmentEvent, AttachmentState, AttachmentStateView};
use crate::backend::{
    attachment_views, conversation_views, message_views, ChatAttachment, ChatAttachmentView,
    ChatMessage, ChatMessageView, Conversation, ConversationId, ConversationIdView, ConversationView,
    NetworkEvent, NetworkEventView,
};
use crate::edit::{
    backspace, byte_len, delete, editing_keeps_cursor_valid, insert_char, left_of, length,
    lemma_cursor_range, lemma_offset_ends, right_of, Line,
};
use crate::number::{decimal, decimal_text};
use crate::states::{state_in, StateTable};
use crate::sync::{SyncReport, SyncReportView};
use crate::text::{
    contains, has_part, lemma_texts_push, lowercase, lowercased, optional,
    same_text, texts, trim, trimmed,
};

verus! {

/// The width from which on the list and the chat stand side by side.
pub const WIDE_BREAKPOINT: u16 = 120;

#[derive(Debug, Clone, Copy, PartialEq, Eq, Structural)]
pub enum LayoutMode {
    Narrow,
    Wide,
}

pub open spec fn layout_for(width: u16) -> LayoutMode {
    if width >= WIDE_BREAKPOINT {
        LayoutMode::Wide
    } else {
        LayoutMode::Narrow
    }
}

impl LayoutMode {
    pub fn for_width(width: u16) -> (mode: LayoutMode)
        ensures
            mode == layout_for(width),
    {
        if width >= WIDE_BREAKPOINT {
            LayoutMode::Wide
        } else {
            LayoutMode::Narrow
        }
    }
}

#[derive(Debug, Clone, Copy, PartialEq, Eq, Structural)]
pub enum Screen {
    Conversations,
    Chat,
    DisconnectConfirm,
}

// ---------------------------------------------------------------------------
// Search and selection
// ---------------------------------------------------------------------------

/// Whether a conversation matches a search: its title or its subtitle holds the
/// query, without regard to case.
pub open spec fn search_matches(conversation: ConversationView, query: Seq<char>) -> bool {
    ||| lowercase(query).len() == 0
    ||| has_part(lowercase(conversation.title), lowercase(query))
    ||| has_part(lowercase(conversation.subtitle), lowercase(query))
}

/// The indices of the conversations that match a search.
pub open spec fn matching_indices(list: Seq<ConversationView>, query: Seq<char>) -> Seq<int>
    decreases list.len(),
{
    if list.len() == 0 {
        Seq::empty()
    } else {
        let before = matching_indices(list.drop_last(), query);
        if search_matches(list.last(), query) {
            before.push(list.len() - 1)
        } else {
            before
        }
    }
}

pub open spec fn ints(list: Seq<usize>) -> Seq<int> {
    list.map_values(|index: usize| index as int)
}

/// The indices of a search go up, stay within the list, and are those of the
/// conversations that match and of no others.
pub proof fn search_finds_every_match(list: Seq<ConversationView>, query: Seq<char>)
    ensures
        forall|i: int|
            0 <= i < matching_indices(list, query).len() ==> 0 <= #[trigger] matching_indices(
                list,
                query,
            )[i] < list.len(),
        forall|i: int, j: int|
            0 <= i < j < matching_indices(list, query).len() ==> #[trigger] matching_indices(
                list,
                query,
            )[i] < #[trigger] matching_indices(list, query)[j],
        forall|index: int|
            0 <= index < list.len() ==> (#[trigger] matching_indices(list, query).contains(index)
                <==> search_matches(list[index], query)),
    decreases list.len(),
{
    if list.len() > 0 {
        let fewer = list.drop_last();
        search_finds_every_match(fewer, query);
        let before = matching_indices(fewer, query);
        let all = matching_indices(list, query);
        assert forall|index: int| 0 <= index < list.len() implies (#[trigger] all.contains(index)
            <==> search_matches(list[index], query)) by {
            if index < fewer.len() {
                assert(fewer[index] == list[index]);
                if before.contains(index) {
                    let i = choose|i: int| 0 <= i < before.len() && before[i] == index;
                    assert(all[i] == index);
                }
                if all.contains(index) {
                    let i = choose|i: int| 0 <= i < all.len() && all[i] == index;
                    assert(i < before.len());
                    assert(before[i] == index);
                }
            } else {
                if search_matches(list.last(), query) {
                    assert(all[before.len() as int] == index);
                } else if all.contains(index) {
                    let i = choose|i: int| 0 <= i < all.len() && all[i] == index;
                    assert(before[i] < fewer.len());
                }
            }
        }
    }
}

/// The indices of a list of some length.
pub open spec fn all_indices(count: nat) -> Seq<int> {
    Seq::new(count, |i: int| i)
}

/// The indices of the conversations that match a search. An empty search matches
/// them all.
pub fn matching_conversation_indices(conversations: &[Conversation], query: &str) -> (indices: Vec<
    usize,
>)
    ensures
        ints(indices@) == matching_indices(conversation_views(conversations@), query@),
        query@.len() == 0 ==> ints(indices@) == all_indices(conversations@.len()),
{
    let ghost views = conversation_views(conversations@);
    let lower = lowercased(query);
    let everything = lower.as_str().is_empty();
    let mut indices: Vec<usize> = Vec::new();
    assert(ints(indices@) =~= matching_indices(views.take(0), query@));
    for i in 0..conversations.len()
        invariant
            views == conversation_views(conversations@),
            lower@ == lowercase(query@),
            everything == (lower@.len() == 0),
            ints(indices@) == matching_indices(views.take(i as int), query@),
            query@.len() == 0 ==> everything && ints(indices@) == all_indices(i as nat),
    {
        assert(views.take(i + 1).drop_last() =~= views.take(i as int));
        assert(views.take(i + 1).last() == conversations@[i as int]@);
        let title = lowercased(conversations[i].title.as_str());
        let subtitle = lowercased(conversations[i].subtitle.as_str());
        if everything || contains(title.as_str(), lower.as_str()) || contains(
            subtitle.as_str(),
            lower.as_str(),
        ) {
            let ghost before = ints(indices@);
            indices.push(i);
            assert(ints(indices@) =~= before.push(i as int));
            assert(all_indices(i as nat).push(i as int) =~= all_indices((i + 1) as nat));
        }
    }
    assert(views.take(views.len() as int) =~= views);
    indices
}

/// The place of an index in a list, from `from` on.
pub open spec fn place_in(indices: Seq<int>, index: int, from: int) -> Option<int>
    decreases indices.len() - from,
{
    if from < 0 || from >= indices.len() {
        None
    } else if indices[from] == index {
        Some(from)
    } else {
        place_in(indices, index, from + 1)
    }
}

proof fn lemma_place_in(indices: Seq<int>, index: int, from: int)
    requires
        0 <= from,
    ensures
        match place_in(indices, index, from) {
            Some(place) => from <= place < indices.len() && indices[place] == index,
            None => forall|i: int| from <= i < indices.len() ==> #[trigger] indices[i] != index,
        },
    decreases indices.len() - from,
{
    if from < indices.len() && indices[from] != index {
        lemma_place_in(indices, index, from + 1);
    }
}

/// The place of an index in a list.
fn position(indices: &[usize], index: usize) -> (place: Option<usize>)
    ensures
        place_in(ints(indices@), index as int, 0) == (match place {
            Some(place) => Some(place as int),
            None => None,
        }),
        place is Some ==> place->0 < indices@.len() && indices@[place->0 as int] == index,
{
    for i in 0..indices.len()
        invariant
            place_in(ints(indices@), index as int, 0) == place_in(
                ints(indices@),
                index as int,
                i as int,
            ),
    {
        assert(ints(indices@)[i as int] == indices@[i as int]);
        if indices[i] == index {
            return Some(i);
        }
    }
    None
}

/// The selection after the search has changed: it stays where it still matches,
/// else it goes to the first match.
pub open spec fn reconciled(indices: Seq<int>, selected: int) -> Option<int> {
    if indices.contains(selected) {
        Some(selected)
    } else if indices.len() > 0 {
        Some(indices[0])
    } else {
        None
    }
}

/// The selection after the search has changed.
pub fn reconciled_selection(indices: &[usize], selected: usize) -> (result: Option<usize>)
    ensures
        reconciled(ints(indices@), selected as int) == (match result {
            Some(index) => Some(index as int),
            None => None,
        }),
{
    proof {
        lemma_place_in(ints(indices@), selected as int, 0);
    }
    match position(indices, selected) {
        Some(place) => {
            assert(ints(indices@)[place as int] == selected);
            Some(selected)
        },
        None => if indices.len() > 0 {
            assert(ints(indices@)[0] == indices@[0]);
            Some(indices[0])
        } else {
            None
        },
    }
}

/// The selection one match further down or up; none where the selection is no
/// match.
pub open spec fn moved(indices: Seq<int>, selected: int, down: bool) -> Option<int> {
    match place_in(indices, selected, 0) {
        Some(place) => Some(
            indices[if down {
                if place + 1 < indices.len() {
                    place + 1
                } else {
                    place
                }
            } else if place > 0 {
                place - 1
            } else {
                0
            }],
        ),
        None => None,
    }
}

/// The selection one match further down or up.
pub fn moved_selection(indices: &[usize], selected: usize, down: bool) -> (result: Option<usize>)
    ensures
        moved(ints(indices@), selected as int, down) == (match result {
            Some(index) => Some(index as int),
            None => None,
        }),
{
    match position(indices, selected) {
        Some(place) => {
            let next: usize = if down {
                if indices.len() - place > 1 {
                    place + 1
                } else {
                    place
                }
            } else if place > 0 {
                place - 1
            } else {
                0
            };
            assert(ints(indices@)[next as int] == indices@[next as int]);
            Some(indices[next])
        },
        None => None,
    }
}

/// The index of the first conversation from `from` on with the given identity.
pub open spec fn index_with_id(
    list: Seq<ConversationView>,
    id: ConversationIdView,
    from: int,
) -> Option<int>
    decreases list.len() - from,
{
    if from < 0 || from >= list.len() {
        None
    } else if list[from].id == id {
        Some(from)
    } else {
        index_with_id(list, id, from + 1)
    }
}

pub proof fn lemma_index_with_id(list: Seq<ConversationView>, id: ConversationIdView, from: int)
    requires
        0 <= from,
    ensures
        match index_with_id(list, id, from) {
            Some(index) => from <= index < list.len() && list[index].id == id,
            None => forall|i: int| from <= i < list.len() ==> (#[trigger] list[i]).id != id,
        },
    decreases list.len() - from,
{
    if from < list.len() && list[from].id != id {
        lemma_index_with_id(list, id, from + 1);
    }
}

/// The index of the first conversation with the given identity.
pub fn find_conversation(conversations: &[Conversation], id: &ConversationId) -> (found: Option<
    usize,
>)
    ensures
        index_with_id(conversation_views(conversations@), id@, 0) == (match found {
            Some(index) => Some(index as int),
            None => None,
        }),
        found is Some ==> found->0 < conversations@.len() && conversations@[found->0 as int].id@
            == id@,
{
    let ghost views = conversation_views(conversations@);
    for i in 0..conversations.len()
        invariant
            views == conversation_views(conversations@),
            index_with_id(views, id@, 0) == index_with_id(views, id@, i as int),
    {
        assert(views[i as int] == conversations@[i as int]@);
        if conversations[i].id.same(id) {
            return Some(i);
        }
    }
    None
}

/// The selection at the start: the remembered chat, or the first.
pub open spec fn remembered(list: Seq<ConversationView>, id: Option<ConversationIdView>) -> int {
    match id {
        Some(id) => match index_with_id(list, id, 0) {
            Some(index) => index,
            None => 0,
        },
        None => 0,
    }
}

/// The selection at the start: the remembered chat, or the first.
pub fn remembered_selection(
    conversations: &[Conversation],
    remembered_id: Option<&ConversationId>,
) -> (selected: usize)
    ensures
        selected == remembered(
            conversation_views(conversations@),
            match remembered_id {
                Some(id) => Some(id@),
                None => None,
            },
        ),
        conversations@.len() > 0 ==> selected < conversations@.len(),
        conversations@.len() == 0 ==> selected == 0,
{
    match remembered_id {
        Some(id) => match find_conversation(conversations, id) {
            Some(index) => index,
            None => 0,
        },
        None => 0,
    }
}

// ---------------------------------------------------------------------------
// State
// ---------------------------------------------------------------------------

/// The state of the terminal interface.
#[derive(Debug)]
pub struct App {
    pub conversations: Vec<Conversation>,
    /// The index of the selected conversation.
    pub selected: usize,
    pub search: String,
    pub search_cursor: usize,
    pub sidebar_offset: usize,
    /// The conversation whose messages are shown.
    pub opened: Option<ConversationId>,
    pub messages: Vec<ChatMessage>,
    pub input: String,
    pub cursor: usize,
    pub scroll: u16,
    pub screen: Screen,
    pub status: String,
    pub sending: bool,
    pub terminal_width: u16,
    /// Whether a synchronization can be started.
    pub sync_available: bool,
    pub syncing: bool,
    pub disconnected: bool,
    pub attachment_states: StateTable,
    pub update_notice: Option<String>,
}

#[verifier::ext_equal]
pub struct AppView {
    pub conversations: Seq<ConversationView>,
    pub selected: int,
    pub search: Line,
    pub sidebar_offset: nat,
    pub opened: Option<ConversationIdView>,
    pub messages: Seq<ChatMessageView>,
    pub input: Line,
    pub scroll: u16,
    pub screen: Screen,
    pub status: Seq<char>,
    pub sending: bool,
    pub terminal_width: u16,
    pub sync_available: bool,
    pub syncing: bool,
    pub disconnected: bool,
    pub attachment_states: Map<Seq<char>, AttachmentStateView>,
    pub update_notice: Option<Seq<char>>,
}

impl View for App {
    type V = AppView;

    open spec fn view(&self) -> AppView {
        AppView {
            conversations: conversation_views(self.conversations@),
            selected: self.selected as int,
            search: Line { text: self.search@, cursor: self.search_cursor as nat },
            sidebar_offset: self.sidebar_offset as nat,
            opened: match self.opened {
                Some(id) => Some(id@),
                None => None,
            },
            messages: message_views(self.messages@),
            input: Line { text: self.input@, cursor: self.cursor as nat },
            scroll: self.scroll,
            screen: self.screen,
            status: self.status@,
            sending: self.sending,
            terminal_width: self.terminal_width,
            sync_available: self.sync_available,
            syncing: self.syncing,
            disconnected: self.disconnected,
            attachment_states: self.attachment_states@,
            update_notice: optional(self.update_notice),
        }
    }
}

impl AppView {
    /// What holds of the interface at all times: both cursors stand between two
    /// characters, the selection is within the list, and the chat that is shown
    /// is in the list.
    pub open spec fn valid(self) -> bool {
        &&& self.search.valid()
        &&& self.input.valid()
        &&& 0 <= self.selected
        &&& (self.selected < self.conversations.len() || self.conversations.len() == 0
            && self.selected == 0)
        &&& (self.opened is Some ==> index_with_id(self.conversations, self.opened->0, 0) is Some)
    }

    pub open spec fn layout(self) -> LayoutMode {
        layout_for(self.terminal_width)
    }

    /// The indices of the conversations that match the search.
    pub open spec fn filtered(self) -> Seq<int> {
        matching_indices(self.conversations, self.search.text)
    }

    pub open spec fn selected_conversation(self) -> Option<ConversationView> {
        if self.filtered().contains(self.selected) {
            Some(self.conversations[self.selected])
        } else {
            None
        }
    }

    pub open spec fn opened_conversation(self) -> Option<ConversationView> {
        match self.opened {
            Some(id) => match index_with_id(self.conversations, id, 0) {
                Some(index) => Some(self.conversations[index]),
                None => None,
            },
            None => None,
        }
    }

    /// The interface after the search has changed.
    pub open spec fn reconcile(self) -> AppView {
        match reconciled(self.filtered(), self.selected) {
            Some(selected) => if selected != self.selected {
                AppView { selected, sidebar_offset: 0, ..self }
            } else {
                self
            },
            None => AppView { sidebar_offset: 0, ..self },
        }
    }

    /// The interface with the search changed.
    pub open spec fn with_search(self, search: Line) -> AppView {
        (AppView { search, ..self }).reconcile()
    }

    /// The interface with the selection moved down or up.
    pub open spec fn move_selection(self, down: bool) -> AppView {
        match moved(self.filtered(), self.selected, down) {
            Some(selected) => AppView { selected, ..self },
            None => if self.filtered().len() > 0 {
                AppView { selected: self.filtered()[0], sidebar_offset: 0, ..self }
            } else {
                self
            },
        }
    }

    pub open spec fn with_status(self, status: Seq<char>) -> AppView {
        AppView { status, ..self }
    }
}

/// The keys of all attachments in a list of messages.
pub open spec fn attachment_keys(messages: Seq<ChatMessageView>) -> Seq<Seq<char>>
    decreases messages.len(),
{
    if messages.len() == 0 {
        Seq::empty()
    } else {
        attachment_keys(messages.drop_last()) + messages.last().attachments.map_values(
            |attachment: ChatAttachmentView| attachment.key,
        )
    }
}

/// Work that the interface wants done.
#[derive(Debug)]
pub enum Action {
    Nothing,
    Quit,
    /// Stop receiving.
    StopReceiver,
    /// Stop receiving and synchronize.
    StartSync,
    /// Read the list of conversations again.
    Refresh,
    /// Read the messages of a conversation in order to show them.
    Load { conversation: Conversation, focus_chat: bool },
    /// Read the messages of the shown conversation again.
    Reload { conversation: Conversation },
    Send { conversation: Conversation, text: String },
    /// Erase everything that is stored on this device.
    Disconnect,
}

pub enum ActionView {
    Nothing,
    Quit,
    StopReceiver,
    StartSync,
    Refresh,
    Load { conversation: ConversationView, focus_chat: bool },
    Reload { conversation: ConversationView },
    Send { conversation: ConversationView, text: Seq<char> },
    Disconnect,
}

impl View for Action {
    type V = ActionView;

    open spec fn view(&self) -> ActionView {
        match self {
            Action::Nothing => ActionView::Nothing,
            Action::Quit => ActionView::Quit,
            Action::StopReceiver => ActionView::StopReceiver,
            Action::StartSync => ActionView::StartSync,
            Action::Refresh => ActionView::Refresh,
            Action::Load { conversation, focus_chat } => ActionView::Load {
                conversation: conversation@,
                focus_chat: *focus_chat,
            },
            Action::Reload { conversation } => ActionView::Reload { conversation: conversation@ },
            Action::Send { conversation, text } => ActionView::Send {
                conversation: conversation@,
                text: text@,
            },
            Action::Disconnect => ActionView::Disconnect,
        }
    }
}

pub open spec fn conversation_ref_view(conversation: Option<&Conversation>) -> Option<
    ConversationView,
> {
    match conversation {
        Some(conversation) => Some(conversation@),
        None => None,
    }
}

impl App {
    pub fn new(update_notice: Option<String>) -> (app: App)
        ensures
            app@.valid(),
            app@ == (AppView {
                conversations: Seq::empty(),
                selected: 0,
                search: Line::empty(),
                sidebar_offset: 0,
                opened: None,
                messages: Seq::empty(),
                input: Line::empty(),
                scroll: 0,
                screen: Screen::Conversations,
                status: "Connecting…"@,
                sending: false,
                terminal_width: 0,
                sync_available: false,
                syncing: false,
                disconnected: false,
                attachment_states: Map::empty(),
                update_notice: optional(update_notice),
            }),
    {
        let app = App {
            conversations: Vec::new(),
            selected: 0,
            search: String::new(),
            search_cursor: 0,
            sidebar_offset: 0,
            opened: None,
            messages: Vec::new(),
            input: String::new(),
            cursor: 0,
            scroll: 0,
            screen: Screen::Conversations,
            status: "Connecting…".to_owned(),
            sending: false,
            terminal_width: 0,
            sync_available: false,
            syncing: false,
            disconnected: false,
            attachment_states: StateTable::new(),
            update_notice,
        };
        proof {
            lemma_offset_ends(Seq::empty());
            assert(app.search@ =~= Seq::<char>::empty());
            assert(app.input@ =~= Seq::<char>::empty());
            assert(app@.conversations =~= Seq::<ConversationView>::empty());
            assert(app@.messages =~= Seq::<ChatMessageView>::empty());
        }
        app
    }

    pub fn attachment_state(&self, key: &str) -> (state: AttachmentState)
        ensures
            state@ == state_in(self@.attachment_states, key@),
    {
        self.attachment_states.get(key)
    }

    pub fn filtered_conversation_indices(&self) -> (indices: Vec<usize>)
        ensures
            ints(indices@) == self@.filtered(),
            self@.search.text.len() == 0 ==> ints(indices@) == all_indices(
                self@.conversations.len(),
            ),
    {
        matching_conversation_indices(self.conversations.as_slice(), self.search.as_str())
    }

    /// The place of the selection among the conversations that match.
    pub fn filtered_selection(&self) -> (place: Option<usize>)
        ensures
            place_in(self@.filtered(), self@.selected, 0) == (match place {
                Some(place) => Some(place as int),
                None => None,
            }),
    {
        let indices = self.filtered_conversation_indices();
        position(indices.as_slice(), self.selected)
    }

    pub fn selected_conversation(&self) -> (conversation: Option<&Conversation>)
        ensures
            conversation_ref_view(conversation) == self@.selected_conversation(),
    {
        let indices = self.filtered_conversation_indices();
        proof {
            search_finds_every_match(self@.conversations, self@.search.text);
            lemma_place_in(self@.filtered(), self@.selected, 0);
        }
        match position(indices.as_slice(), self.selected) {
            Some(place) => {
                assert(self@.filtered()[place as int] == self.selected);
                Some(&self.conversations[self.selected])
            },
            None => None,
        }
    }

    pub fn opened_conversation(&self) -> (conversation: Option<&Conversation>)
        ensures
            conversation_ref_view(conversation) == self@.opened_conversation(),
    {
        match &self.opened {
            Some(id) => match find_conversation(self.conversations.as_slice(), id) {
                Some(index) => Some(&self.conversations[index]),
                None => None,
            },
            None => None,
        }
    }

    pub fn layout_mode(&self) -> (mode: LayoutMode)
        ensures
            mode == self@.layout(),
    {
        LayoutMode::for_width(self.terminal_width)
    }

    fn reconcile_search_selection(&mut self)
        ensures
            final(self)@ == old(self)@.reconcile(),
    {
        let indices = self.filtered_conversation_indices();
        match reconciled_selection(indices.as_slice(), self.selected) {
            Some(selected) => {
                if selected != self.selected {
                    self.selected = selected;
                    self.sidebar_offset = 0;
                }
            },
            None => {
                self.sidebar_offset = 0;
            },
        }
    }

    fn move_sidebar_selection(&mut self, down: bool)
        ensures
            final(self)@ == old(self)@.move_selection(down),
    {
        let indices = self.filtered_conversation_indices();
        match moved_selection(indices.as_slice(), self.selected, down) {
            Some(selected) => {
                self.selected = selected;
            },
            None => {
                if indices.len() > 0 {
                    assert(ints(indices@)[0] == indices@[0]);
                    self.selected = indices[0];
                    self.sidebar_offset = 0;
                }
            },
        }
    }
}

proof fn lemma_reconcile_valid(app: AppView)
    requires
        app.valid(),
    ensures
        app.reconcile().valid(),
        app.move_selection(true).valid(),
        app.move_selection(false).valid(),
{
    search_finds_every_match(app.conversations, app.search.text);
    lemma_place_in(app.filtered(), app.selected, 0);
    let indices = app.filtered();
    if indices.contains(app.selected) {
        let i = choose|i: int| 0 <= i < indices.len() && indices[i] == app.selected;
        assert(0 <= indices[i] < app.conversations.len());
    }
    if indices.len() > 0 {
        assert(0 <= indices[0] < app.conversations.len());
    }
}

/// After a change of the search the selection is a match wherever there is one.
pub proof fn selection_follows_the_search(app: AppView, search: Line)
    requires
        matching_indices(app.conversations, search.text).len() > 0,
    ensures
        app.with_search(search).selected_conversation() is Some,
        search_matches(
            app.with_search(search).conversations[app.with_search(search).selected],
            search.text,
        ),
{
    let indices = matching_indices(app.conversations, search.text);
    search_finds_every_match(app.conversations, search.text);
    assert(indices.contains(indices[0]));
    assert(0 <= indices[0] < app.conversations.len());
    let next = app.with_search(search);
    assert(indices.contains(next.selected));
    let i = choose|i: int| 0 <= i < indices.len() && indices[i] == next.selected;
    assert(0 <= indices[i] < app.conversations.len());
}

// ---------------------------------------------------------------------------
// Opening a chat
// ---------------------------------------------------------------------------

pub const NO_CHATS: &'static str =
    "No chats yet — leave Signal open on your phone while contacts sync";

impl AppView {
    /// Asks for the messages of the selected conversation.
    pub open spec fn load_selected(self, focus_chat: bool) -> (AppView, ActionView) {
        match self.selected_conversation() {
            Some(conversation) => (self, ActionView::Load { conversation, focus_chat }),
            None => (self.with_status(NO_CHATS@), ActionView::Nothing),
        }
    }

    /// In a wide terminal some chat is shown as soon as there is one.
    pub open spec fn ensure_wide_chat(self) -> (AppView, ActionView) {
        if self.layout() == LayoutMode::Wide && self.opened is None && self.conversations.len() > 0
            && self.screen != Screen::DisconnectConfirm {
            self.load_selected(false)
        } else {
            (self, ActionView::Nothing)
        }
    }

    /// The interface at a new width. On becoming wide it shows some chat.
    pub open spec fn resized(self, width: u16) -> (AppView, ActionView) {
        let resized = AppView { terminal_width: width, ..self };
        if self.layout() == LayoutMode::Narrow && resized.layout() == LayoutMode::Wide {
            resized.ensure_wide_chat()
        } else {
            (resized, ActionView::Nothing)
        }
    }

    /// The interface once the loading of an attachment has ended in some state.
    pub open spec fn attachment_finished(
        self,
        key: Seq<char>,
        state: AttachmentStateView,
    ) -> AppView {
        AppView { attachment_states: self.attachment_states.insert(key, state), ..self }
    }

    /// The interface without the states of attachments that are not shown.
    pub open spec fn retain_states(self) -> AppView {
        AppView {
            attachment_states: self.attachment_states.restrict(
                attachment_keys(self.messages).to_set(),
            ),
            ..self
        }
    }

    /// The interface once the messages of a conversation are there.
    pub open spec fn loaded(
        self,
        conversation: ConversationView,
        messages: Seq<ChatMessageView>,
        focus_chat: bool,
        remembered_error: Option<Seq<char>>,
    ) -> AppView {
        AppView {
            opened: Some(conversation.id),
            scroll: 0,
            screen: if focus_chat {
                Screen::Chat
            } else {
                self.screen
            },
            status: match remembered_error {
                None => "Connected"@,
                Some(error) => "Connected · could not remember chat: "@ + error,
            },
            ..(AppView { messages, ..self }).retain_states()
        }
    }

    /// The interface with a new list of conversations. The selection and the
    /// shown chat stay with their conversations.
    pub open spec fn refreshed(self, conversations: Seq<ConversationView>) -> AppView {
        let selected = if self.selected < self.conversations.len() {
            match index_with_id(conversations, self.conversations[self.selected].id, 0) {
                Some(index) => index,
                None => 0,
            }
        } else if self.selected < conversations.len() {
            self.selected
        } else if conversations.len() > 0 {
            conversations.len() - 1
        } else {
            0
        };
        let opened = match self.opened {
            Some(id) => match index_with_id(conversations, id, 0) {
                Some(_) => Some(id),
                None => None,
            },
            None => None,
        };
        let next = (AppView { conversations, selected, ..self }).reconcile();
        AppView {
            opened,
            messages: match opened {
                Some(_) => next.messages,
                None => Seq::empty(),
            },
            ..next
        }
    }
}

fn push_keys(keys: &mut Vec<String>, message: &ChatMessage)
    ensures
        texts(final(keys)@) == texts(old(keys)@) + message@.attachments.map_values(
            |attachment: ChatAttachmentView| attachment.key,
        ),
{
    let ghost before = texts(keys@);
    let ghost more = message@.attachments.map_values(
        |attachment: ChatAttachmentView| attachment.key,
    );
    assert(before + more.take(0) =~= before);
    for i in 0..message.attachments.len()
        invariant
            more == message@.attachments.map_values(
                |attachment: ChatAttachmentView| attachment.key,
            ),
            texts(keys@) == before + more.take(i as int),
    {
        let key = message.attachments[i].key.clone();
        proof {
            lemma_texts_push(keys@, key);
        }
        keys.push(key);
        assert(more.take(i + 1) =~= more.take(i as int).push(key@));
        assert(texts(keys@) =~= before + more.take(i + 1));
    }
    assert(more.take(more.len() as int) =~= more);
}

impl App {
    /// The keys of all attachments in the chat that is shown.
    pub fn shown_keys(&self) -> (keys: Vec<String>)
        ensures
            texts(keys@) == attachment_keys(self@.messages),
    {
        let ghost views = self@.messages;
        let mut keys: Vec<String> = Vec::new();
        assert(texts(keys@) =~= attachment_keys(views.take(0)));
        for i in 0..self.messages.len()
            invariant
                views == message_views(self.messages@),
                texts(keys@) == attachment_keys(views.take(i as int)),
        {
            assert(views.take(i + 1).drop_last() =~= views.take(i as int));
            assert(views.take(i + 1).last() == self.messages@[i as int]@);
            push_keys(&mut keys, &self.messages[i]);
        }
        assert(views.take(views.len() as int) =~= views);
        keys
    }

    fn retain_current_attachment_states(&mut self)
        ensures
            final(self)@ == old(self)@.retain_states(),
    {
        let keys = self.shown_keys();
        self.attachment_states.retain(&keys);
    }

    /// Asks for the messages of the selected conversation.
    pub fn load_selected(&mut self, focus_chat: bool) -> (action: Action)
        ensures
            (final(self)@, action@) == old(self)@.load_selected(focus_chat),
            old(self)@.valid() ==> final(self)@.valid(),
    {
        let selected = match self.selected_conversation() {
            Some(conversation) => Some(conversation.clone()),
            None => None,
        };
        match selected {
            Some(conversation) => Action::Load { conversation, focus_chat },
            None => {
                self.status = NO_CHATS.to_owned();
                Action::Nothing
            },
        }
    }

    /// Shows the messages of a conversation, once they are there; with the
    /// reason why the conversation could not be remembered, if there is one.
    pub fn loaded(
        &mut self,
        conversation: &Conversation,
        messages: Vec<ChatMessage>,
        focus_chat: bool,
        remembered_error: Option<String>,
    )
        requires
            old(self)@.valid(),
            index_with_id(old(self)@.conversations, conversation@.id, 0) is Some,
        ensures
            final(self)@ == old(self)@.loaded(
                conversation@,
                message_views(messages@),
                focus_chat,
                optional(remembered_error),
            ),
            final(self)@.valid(),
    {
        self.messages = messages;
        self.retain_current_attachment_states();
        self.opened = Some(conversation.id.clone());
        self.scroll = 0;
        if focus_chat {
            self.screen = Screen::Chat;
        }
        self.status = match remembered_error {
            None => "Connected".to_owned(),
            Some(error) => {
                let mut text: String = "Connected · could not remember chat: ".to_owned();
                text.push_str(error.as_str());
                text
            },
        };
    }

    /// In a wide terminal, asks for the messages of some chat as long as none
    /// is shown.
    pub fn ensure_wide_chat(&mut self) -> (action: Action)
        ensures
            (final(self)@, action@) == old(self)@.ensure_wide_chat(),
            old(self)@.valid() ==> final(self)@.valid(),
    {
        if self.layout_mode() == LayoutMode::Wide && self.opened.is_none()
            && self.conversations.len() > 0 && self.screen != Screen::DisconnectConfirm {
            self.load_selected(false)
        } else {
            Action::Nothing
        }
    }

    /// Takes in a new width of the terminal.
    pub fn handle_resize(&mut self, width: u16) -> (action: Action)
        ensures
            (final(self)@, action@) == old(self)@.resized(width),
            old(self)@.valid() ==> final(self)@.valid(),
    {
        let previous = self.layout_mode();
        self.terminal_width = width;
        if previous == LayoutMode::Narrow && self.layout_mode() == LayoutMode::Wide {
            self.ensure_wide_chat()
        } else {
            Action::Nothing
        }
    }

    /// Takes in a new list of conversations.
    #[verifier::spinoff_prover]
    pub fn refresh_conversations(&mut self, conversations: Vec<Conversation>)
        requires
            old(self)@.valid(),
        ensures
            final(self)@ == old(self)@.refreshed(conversation_views(conversations@)),
            final(self)@.valid(),
    {
        let ghost before = self@;
        let ghost list = conversation_views(conversations@);
        let selected_id = if self.selected < self.conversations.len() {
            Some(self.conversations[self.selected].id.clone())
        } else {
            None
        };
        self.conversations = conversations;
        match selected_id {
            Some(id) => {
                proof {
                    lemma_index_with_id(list, id@, 0);
                }
                self.selected = match find_conversation(self.conversations.as_slice(), &id) {
                    Some(index) => index,
                    None => 0,
                };
            },
            None => {
                if self.selected >= self.conversations.len() {
                    self.selected = if self.conversations.len() > 0 {
                        self.conversations.len() - 1
                    } else {
                        0
                    };
                }
            },
        }
        let ghost start = self@;
        assert(start.conversations == list);
        assert(start == (AppView { conversations: list, selected: start.selected, ..before }));
        self.reconcile_search_selection();
        let ghost next = self@;
        assert(next == start.reconcile());
        proof {
            let closed_start = AppView { opened: None, ..start };
            assert(closed_start.valid());
            lemma_reconcile_valid(closed_start);
            assert(closed_start.reconcile() == (AppView { opened: None, ..next }));
        }
        let keep = match &self.opened {
            Some(id) => find_conversation(self.conversations.as_slice(), id).is_some(),
            None => false,
        };
        if !keep {
            self.opened = None;
            self.messages = Vec::new();
            assert(self@.messages =~= Seq::<ChatMessageView>::empty());
            assert(self@ == (AppView { opened: None, messages: Seq::empty(), ..next }));
        } else {
            assert(self@ == next);
        }
    }

    /// Selects the chat that was shown last, where it is still there.
    pub fn select_remembered(&mut self, remembered_id: Option<&ConversationId>)
        requires
            old(self)@.valid(),
        ensures
            final(self)@ == (AppView {
                selected: remembered(
                    old(self)@.conversations,
                    match remembered_id {
                        Some(id) => Some(id@),
                        None => None,
                    },
                ),
                ..old(self)@
            }),
            final(self)@.valid(),
    {
        self.selected = remembered_selection(self.conversations.as_slice(), remembered_id);
    }
}

/// With no search, a refresh keeps the selected conversation selected wherever
/// it is still in the list, and the shown chat shown.
pub proof fn refresh_keeps_the_selection(app: AppView, conversations: Seq<ConversationView>)
    requires
        app.valid(),
        lowercase(app.search.text).len() == 0,
        app.selected < app.conversations.len(),
        index_with_id(conversations, app.conversations[app.selected].id, 0) is Some,
    ensures
        ({
            let next = app.refreshed(conversations);
            &&& next.selected_conversation() is Some
            &&& next.selected_conversation()->0.id == app.conversations[app.selected].id
            &&& app.opened is Some && index_with_id(conversations, app.opened->0, 0) is Some
                ==> next.opened == app.opened && next.messages == app.messages
        }),
{
    let id = app.conversations[app.selected].id;
    lemma_index_with_id(conversations, id, 0);
    let index = index_with_id(conversations, id, 0)->0;
    search_finds_every_match(conversations, app.search.text);
    assert(search_matches(conversations[index], app.search.text));
    assert(matching_indices(conversations, app.search.text).contains(index));
}

// ---------------------------------------------------------------------------
// Keys
// ---------------------------------------------------------------------------

/// A key of the keyboard, as far as the interface tells them apart.
#[derive(Debug, Clone, Copy, PartialEq, Eq, Structural)]
pub enum KeyCode {
    Char(char),
    Enter,
    Esc,
    Backspace,
    Delete,
    Left,
    Right,
    Up,
    Down,
    Home,
    End,
    PageUp,
    PageDown,
    Other,
}

/// A key event.
#[derive(Debug, Clone, Copy, PartialEq, Eq, Structural)]
pub struct Key {
    pub code: KeyCode,
    /// Whether the key was pressed, and not released or held.
    pub pressed: bool,
    pub control: bool,
    pub alt: bool,
    pub shift: bool,
}

impl AppView {
    /// Starts a synchronization, unless one is under way.
    pub open spec fn start_sync(self) -> (AppView, ActionView) {
        if self.syncing {
            (self.with_status("Sync already in progress"@), ActionView::Nothing)
        } else if !self.sync_available {
            (self.with_status("Sync unavailable"@), ActionView::StopReceiver)
        } else {
            (
                AppView {
                    syncing: true,
                    status: "Syncing contacts and queued messages…"@,
                    ..self
                },
                ActionView::StartSync,
            )
        }
    }

    /// Sends what was typed, where it says anything and nothing is being sent.
    pub open spec fn send_input(self) -> (AppView, ActionView) {
        let text = trimmed(self.input.text);
        match self.opened_conversation() {
            Some(conversation) => if text.len() == 0 || self.sending {
                (self, ActionView::Nothing)
            } else {
                (
                    AppView { sending: true, status: "Sending…"@, ..self },
                    ActionView::Send { conversation, text },
                )
            },
            None => (self, ActionView::Nothing),
        }
    }

    /// A key in the list of conversations.
    pub open spec fn list_key(self, key: Key) -> (AppView, ActionView) {
        match key.code {
            KeyCode::Esc => if self.search.text.len() > 0 {
                (self.with_search(Line::empty()), ActionView::Nothing)
            } else {
                (self, ActionView::Quit)
            },
            KeyCode::Up => (self.move_selection(false), ActionView::Nothing),
            KeyCode::Down => (self.move_selection(true), ActionView::Nothing),
            KeyCode::Enter => self.load_selected(true),
            KeyCode::Char(c) => if key.control && c == 'r' {
                (self, ActionView::Refresh)
            } else if key.control && c == 'd' {
                (AppView { screen: Screen::DisconnectConfirm, ..self }, ActionView::Nothing)
            } else if !key.control && !key.alt {
                (self.with_search(self.search.insert(c)), ActionView::Nothing)
            } else {
                (self, ActionView::Nothing)
            },
            KeyCode::Backspace => if self.search.cursor == 0 {
                (self, ActionView::Nothing)
            } else {
                (self.with_search(self.search.backspace()), ActionView::Nothing)
            },
            KeyCode::Delete => if self.search.cursor == byte_len(self.search.text) {
                (self, ActionView::Nothing)
            } else {
                (self.with_search(self.search.delete()), ActionView::Nothing)
            },
            KeyCode::Left => (AppView { search: self.search.left(), ..self }, ActionView::Nothing),
            KeyCode::Right => (AppView { search: self.search.right(), ..self }, ActionView::Nothing),
            KeyCode::Home => (AppView { search: self.search.home(), ..self }, ActionView::Nothing),
            KeyCode::End => (AppView { search: self.search.end(), ..self }, ActionView::Nothing),
            _ => (self, ActionView::Nothing),
        }
    }

    pub open spec fn with_input(self, input: Line) -> (AppView, ActionView) {
        (AppView { input, ..self }, ActionView::Nothing)
    }

    /// A key in a chat.
    pub open spec fn chat_key(self, key: Key) -> (AppView, ActionView) {
        match key.code {
            KeyCode::Esc => (
                AppView { screen: Screen::Conversations, ..self },
                ActionView::Nothing,
            ),
            KeyCode::PageUp => (
                AppView {
                    scroll: if self.scroll <= u16::MAX - 5 {
                        (self.scroll + 5) as u16
                    } else {
                        u16::MAX
                    },
                    ..self
                },
                ActionView::Nothing,
            ),
            KeyCode::PageDown => (
                AppView {
                    scroll: if self.scroll >= 5 {
                        (self.scroll - 5) as u16
                    } else {
                        0
                    },
                    ..self
                },
                ActionView::Nothing,
            ),
            KeyCode::Enter => if key.shift {
                (self, ActionView::Nothing)
            } else {
                self.send_input()
            },
            KeyCode::Char(c) => self.with_input(self.input.insert(c)),
            KeyCode::Backspace => self.with_input(self.input.backspace()),
            KeyCode::Delete => self.with_input(self.input.delete()),
            KeyCode::Left => self.with_input(self.input.left()),
            KeyCode::Right => self.with_input(self.input.right()),
            KeyCode::Home => self.with_input(self.input.home()),
            KeyCode::End => self.with_input(self.input.end()),
            _ => (self, ActionView::Nothing),
        }
    }

    /// A key while the interface asks whether to disconnect.
    pub open spec fn confirm_key(self, key: Key) -> (AppView, ActionView) {
        if key.control && key.code == KeyCode::Char('y') {
            (self, ActionView::Disconnect)
        } else if key.code == KeyCode::Esc || key.control && key.code == KeyCode::Char('n') {
            (AppView { screen: Screen::Conversations, ..self }, ActionView::Nothing)
        } else {
            (self, ActionView::Nothing)
        }
    }

    /// A key event.
    pub open spec fn key(self, key: Key) -> (AppView, ActionView) {
        if !key.pressed {
            (self, ActionView::Nothing)
        } else if key.control && key.code == KeyCode::Char('c') {
            (self, ActionView::Quit)
        } else if self.screen != Screen::DisconnectConfirm && key.control && key.code
            == KeyCode::Char('s') {
            self.start_sync()
        } else {
            match self.screen {
                Screen::Conversations => self.list_key(key),
                Screen::Chat => self.chat_key(key),
                Screen::DisconnectConfirm => self.confirm_key(key),
            }
        }
    }
}

impl App {
    /// Starts a synchronization, unless one is under way.
    fn start_pending_sync(&mut self) -> (action: Action)
        ensures
            (final(self)@, action@) == old(self)@.start_sync(),
    {
        if self.syncing {
            self.status = "Sync already in progress".to_owned();
            Action::Nothing
        } else if !self.sync_available {
            self.status = "Sync unavailable".to_owned();
            Action::StopReceiver
        } else {
            self.syncing = true;
            self.status = "Syncing contacts and queued messages…".to_owned();
            Action::StartSync
        }
    }

    /// Sends what was typed, where it says anything and nothing is being sent.
    fn send_input(&mut self) -> (action: Action)
        ensures
            (final(self)@, action@) == old(self)@.send_input(),
    {
        let text = trim(self.input.as_str());
        let opened = match self.opened_conversation() {
            Some(conversation) => Some(conversation.clone()),
            None => None,
        };
        match opened {
            Some(conversation) => if text.as_str().is_empty() || self.sending {
                Action::Nothing
            } else {
                self.sending = true;
                self.status = "Sending…".to_owned();
                Action::Send { conversation, text }
            },
            None => Action::Nothing,
        }
    }

    fn insert_search_char(&mut self, c: char)
        requires
            old(self)@.search.valid(),
        ensures
            final(self)@ == old(self)@.with_search(old(self)@.search.insert(c)),
    {
        insert_char(&mut self.search, &mut self.search_cursor, c);
        self.reconcile_search_selection();
    }

    fn remove_search_char_before_cursor(&mut self)
        requires
            old(self)@.search.valid(),
        ensures
            final(self)@ == (if old(self)@.search.cursor == 0 {
                old(self)@
            } else {
                old(self)@.with_search(old(self)@.search.backspace())
            }),
    {
        if self.search_cursor == 0 {
            return;
        }
        backspace(&mut self.search, &mut self.search_cursor);
        self.reconcile_search_selection();
    }

    fn remove_search_char_at_cursor(&mut self)
        requires
            old(self)@.search.valid(),
        ensures
            final(self)@ == (if old(self)@.search.cursor == byte_len(old(self)@.search.text) {
                old(self)@
            } else {
                old(self)@.with_search(old(self)@.search.delete())
            }),
    {
        proof {
            lemma_cursor_range(self.search@, self.search_cursor as nat);
        }
        if self.search_cursor >= length(self.search.as_str()) {
            return;
        }
        let cursor: usize = self.search_cursor;
        delete(&mut self.search, cursor);
        self.reconcile_search_selection();
    }

    fn clear_search(&mut self)
        ensures
            final(self)@ == old(self)@.with_search(Line::empty()),
    {
        self.search = String::new();
        self.search_cursor = 0;
        assert(self@.search =~= Line::empty());
        self.reconcile_search_selection();
    }

    /// A key in the list of conversations.
    fn list_key(&mut self, key: Key) -> (action: Action)
        requires
            old(self)@.valid(),
        ensures
            (final(self)@, action@) == old(self)@.list_key(key),
    {
        match key.code {
            KeyCode::Esc => if !self.search.as_str().is_empty() {
                self.clear_search();
                Action::Nothing
            } else {
                Action::Quit
            },
            KeyCode::Up => {
                self.move_sidebar_selection(false);
                Action::Nothing
            },
            KeyCode::Down => {
                self.move_sidebar_selection(true);
                Action::Nothing
            },
            KeyCode::Enter => self.load_selected(true),
            KeyCode::Char(c) => if key.control && c == 'r' {
                Action::Refresh
            } else if key.control && c == 'd' {
                self.screen = Screen::DisconnectConfirm;
                Action::Nothing
            } else if !key.control && !key.alt {
                self.insert_search_char(c);
                Action::Nothing
            } else {
                Action::Nothing
            },
            KeyCode::Backspace => {
                self.remove_search_char_before_cursor();
                Action::Nothing
            },
            KeyCode::Delete => {
                self.remove_search_char_at_cursor();
                Action::Nothing
            },
            KeyCode::Left => {
                self.search_cursor = left_of(self.search.as_str(), self.search_cursor);
                Action::Nothing
            },
            KeyCode::Right => {
                self.search_cursor = right_of(self.search.as_str(), self.search_cursor);
                Action::Nothing
            },
            KeyCode::Home => {
                self.search_cursor = 0;
                Action::Nothing
            },
            KeyCode::End => {
                self.search_cursor = length(self.search.as_str());
                Action::Nothing
            },
            _ => Action::Nothing,
        }
    }

    /// A key in a chat.
    fn chat_key(&mut self, key: Key) -> (action: Action)
        requires
            old(self)@.valid(),
        ensures
            (final(self)@, action@) == old(self)@.chat_key(key),
    {
        match key.code {
            KeyCode::Esc => {
                self.screen = Screen::Conversations;
                Action::Nothing
            },
            KeyCode::PageUp => {
                self.scroll = self.scroll.saturating_add(5);
                Action::Nothing
            },
            KeyCode::PageDown => {
                self.scroll = self.scroll.saturating_sub(5);
                Action::Nothing
            },
            KeyCode::Enter => if key.shift {
                Action::Nothing
            } else {
                self.send_input()
            },
            KeyCode::Char(c) => {
                insert_char(&mut self.input, &mut self.cursor, c);
                Action::Nothing
            },
            KeyCode::Backspace => {
                backspace(&mut self.input, &mut self.cursor);
                Action::Nothing
            },
            KeyCode::Delete => {
                let cursor: usize = self.cursor;
                delete(&mut self.input, cursor);
                Action::Nothing
            },
            KeyCode::Left => {
                self.cursor = left_of(self.input.as_str(), self.cursor);
                Action::Nothing
            },
            KeyCode::Right => {
                self.cursor = right_of(self.input.as_str(), self.cursor);
                Action::Nothing
            },
            KeyCode::Home => {
                self.cursor = 0;
                Action::Nothing
            },
            KeyCode::End => {
                self.cursor = length(self.input.as_str());
                Action::Nothing
            },
            _ => Action::Nothing,
        }
    }

    /// A key while the interface asks whether to disconnect.
    fn confirm_key(&mut self, key: Key) -> (action: Action)
        ensures
            (final(self)@, action@) == old(self)@.confirm_key(key),
    {
        if key.control && key.code == KeyCode::Char('y') {
            Action::Disconnect
        } else if key.code == KeyCode::Esc || (key.control && key.code == KeyCode::Char('n')) {
            self.screen = Screen::Conversations;
            Action::Nothing
        } else {
            Action::Nothing
        }
    }

    /// Takes in a key event.
    pub fn handle_key(&mut self, key: Key) -> (action: Action)
        requires
            old(self)@.valid(),
        ensures
            (final(self)@, action@) == old(self)@.key(key),
            final(self)@.valid(),
    {
        proof {
            keys_keep_the_interface_valid(self@, key);
        }
        if !key.pressed {
            return Action::Nothing;
        }
        if key.control && key.code == KeyCode::Char('c') {
            return Action::Quit;
        }
        if self.screen != Screen::DisconnectConfirm && key.control && key.code == KeyCode::Char(
            's',
        ) {
            return self.start_pending_sync();
        }
        match self.screen {
            Screen::Conversations => self.list_key(key),
            Screen::Chat => self.chat_key(key),
            Screen::DisconnectConfirm => self.confirm_key(key),
        }
    }
}

proof fn lemma_list_key_valid(app: AppView, key: Key)
    requires
        app.valid(),
    ensures
        app.list_key(key).0.valid(),
{
    match key.code {
        KeyCode::Char(c) => {
            editing_keeps_cursor_valid(app.search, c);
            lemma_reconcile_valid(AppView { search: app.search.insert(c), ..app });
        },
        KeyCode::Esc => {
            editing_keeps_cursor_valid(app.search, ' ');
            lemma_reconcile_valid(AppView { search: Line::empty(), ..app });
        },
        KeyCode::Backspace => {
            editing_keeps_cursor_valid(app.search, ' ');
            lemma_reconcile_valid(AppView { search: app.search.backspace(), ..app });
        },
        KeyCode::Delete => {
            editing_keeps_cursor_valid(app.search, ' ');
            lemma_reconcile_valid(AppView { search: app.search.delete(), ..app });
        },
        _ => {
            editing_keeps_cursor_valid(app.search, ' ');
            lemma_reconcile_valid(app);
        },
    }
}

proof fn lemma_chat_key_valid(app: AppView, key: Key)
    requires
        app.valid(),
    ensures
        app.chat_key(key).0.valid(),
{
    let c = match key.code {
        KeyCode::Char(c) => c,
        _ => ' ',
    };
    editing_keeps_cursor_valid(app.input, c);
}

/// No key leaves a cursor inside a character, the selection outside the list,
/// or a chat shown that is not in the list.
pub proof fn keys_keep_the_interface_valid(app: AppView, key: Key)
    requires
        app.valid(),
    ensures
        app.key(key).0.valid(),
{
    match app.screen {
        Screen::Conversations => {
            lemma_list_key_valid(app, key);
        },
        Screen::Chat => {
            lemma_chat_key_valid(app, key);
        },
        Screen::DisconnectConfirm => {},
    }
}

/// Control and C leave the interface from every screen, and change nothing.
pub proof fn control_c_quits(app: AppView, key: Key)
    requires
        key.pressed,
        key.control,
        key.code == KeyCode::Char('c'),
    ensures
        app.key(key) == (app, ActionView::Quit),
{
}

/// A character typed into a chat and a backspace leave everything as it was.
pub proof fn backspace_undoes_typing(app: AppView, typed: Key, back: Key, c: char)
    requires
        app.valid(),
        app.screen == Screen::Chat,
        typed.pressed && !typed.control && typed.code == KeyCode::Char(c),
        back.pressed && back.code == KeyCode::Backspace,
    ensures
        app.key(typed).0.key(back).0 == app,
{
    crate::edit::backspace_undoes_insert(app.input, c);
}

/// Nothing but Control and Y, asked for confirmation, disconnects.
pub proof fn disconnecting_needs_confirmation(app: AppView, key: Key)
    requires
        app.key(key).1 is Disconnect,
    ensures
        app.screen == Screen::DisconnectConfirm,
        key.control,
        key.code == KeyCode::Char('y'),
{
}

/// What is sent is never blank, and goes to the chat that is shown.
pub proof fn only_text_is_sent(app: AppView, key: Key)
    requires
        app.key(key).1 is Send,
    ensures
        app.key(key).1->Send_text == trimmed(app.input.text),
        !crate::text::is_blank(app.input.text),
        app.opened == Some(app.key(key).1->Send_conversation.id),
        !app.sending,
{
    crate::text::lemma_blank(app.input.text);
    lemma_index_with_id(app.conversations, app.opened->0, 0);
}

// ---------------------------------------------------------------------------
// Replies and events
// ---------------------------------------------------------------------------

/// The reply to a request: what was asked for, or why it failed.
pub open spec fn reply_text(prefix: Seq<char>, error: Seq<char>) -> Seq<char> {
    prefix + error
}

fn prefixed(prefix: &str, error: &str) -> (text: String)
    ensures
        text@ == reply_text(prefix@, error@),
{
    let mut text: String = prefix.to_owned();
    text.push_str(error);
    text
}

/// What a finished synchronization is reported as.
pub open spec fn sync_summary(report: SyncReportView) -> Seq<char> {
    "Sync complete · "@ + decimal(report.received_messages) + " queued message"@ + (
    if report.received_messages == 1 {
        ""@
    } else {
        "s"@
    }) + " · "@ + (if report.contacts_updated {
        "contacts updated"@
    } else {
        "contacts unchanged"@
    })
}

fn summary_of(report: &SyncReport) -> (text: String)
    ensures
        text@ == sync_summary(report@),
{
    let mut text: String = "Sync complete · ".to_owned();
    text.push_str(decimal_text(report.received_messages).as_str());
    text.push_str(" queued message");
    text.push_str(
        if report.received_messages == 1 {
            ""
        } else {
            "s"
        },
    );
    text.push_str(" · ");
    text.push_str(
        if report.contacts_updated {
            "contacts updated"
        } else {
            "contacts unchanged"
        },
    );
    text
}

impl AppView {
    /// The interface once a message is sent, or could not be.
    pub open spec fn send_finished(self, result: Result<ChatMessageView, Seq<char>>) -> AppView {
        match result {
            Ok(message) => AppView {
                messages: self.messages.push(message),
                scroll: 0,
                input: Line::empty(),
                status: "Sent"@,
                sending: false,
                ..self
            },
            Err(error) => AppView {
                status: reply_text("Send failed: "@, error),
                sending: false,
                ..self
            },
        }
    }

    /// The interface once everything is erased, or could not be; and whether to
    /// leave it.
    pub open spec fn disconnect_finished(self, error: Option<Seq<char>>) -> (AppView, bool) {
        match error {
            None => (AppView { disconnected: true, ..self }, true),
            Some(error) => (
                AppView {
                    status: reply_text("Disconnect failed: "@, error),
                    screen: Screen::Conversations,
                    ..self
                },
                false,
            ),
        }
    }

    /// The interface once a synchronization is over and the list of
    /// conversations was read again; and the chat to read again, if any.
    pub open spec fn sync_refreshed(
        self,
        refresh: Result<Seq<ConversationView>, Seq<char>>,
    ) -> (AppView, Option<ConversationView>) {
        let idle = AppView { syncing: false, ..self };
        match refresh {
            Ok(conversations) => {
                let next = idle.refreshed(conversations);
                (next, next.opened_conversation())
            },
            Err(_) => (idle, None),
        }
    }

    /// The interface after a synchronization, with the outcome of reading the
    /// shown chat again.
    pub open spec fn sync_finished(
        self,
        result: Result<SyncReportView, Seq<char>>,
        refresh_error: Option<Seq<char>>,
        reload: Option<Result<Seq<ChatMessageView>, Seq<char>>>,
    ) -> AppView {
        match reload {
            Some(Err(error)) => self.with_status(
                reply_text("Sync finished; chat refresh failed: "@, error),
            ),
            _ => {
                let next = match reload {
                    Some(Ok(messages)) => AppView { messages, ..self },
                    _ => self,
                };
                next.with_status(
                    match (result, refresh_error) {
                        (Err(error), _) => reply_text("Sync failed: "@, error),
                        (Ok(_), Some(error)) => reply_text("Sync refresh failed: "@, error),
                        (Ok(report), None) => sync_summary(report),
                    },
                )
            },
        }
    }

    /// The interface on an event of the network, and what it wants done.
    pub open spec fn network(self, event: NetworkEventView) -> (AppView, ActionView) {
        match event {
            NetworkEventView::Message { conversation, .. } => if self.opened == Some(conversation)
                && self.opened_conversation() is Some {
                (self, ActionView::Reload { conversation: self.opened_conversation()->0 })
            } else {
                (self.with_status("New message"@), ActionView::Nothing)
            },
            NetworkEventView::ConversationsChanged => (self, ActionView::Refresh),
            NetworkEventView::QueueEmpty => (self.with_status("Connected"@), ActionView::Nothing),
            NetworkEventView::Error(error) => (self.with_status(error), ActionView::Nothing),
        }
    }

    /// The interface once the shown chat was read again after a new message.
    pub open spec fn reloaded(self, messages: Seq<ChatMessageView>) -> AppView {
        AppView {
            scroll: 0,
            status: "New message"@,
            ..(AppView { messages, ..self }).retain_states()
        }
    }
}

pub open spec fn reply_view(result: Result<ChatMessage, String>) -> Result<
    ChatMessageView,
    Seq<char>,
> {
    match result {
        Ok(message) => Ok(message@),
        Err(error) => Err(error@),
    }
}

pub open spec fn report_view(result: Result<SyncReport, String>) -> Result<
    SyncReportView,
    Seq<char>,
> {
    match result {
        Ok(report) => Ok(report@),
        Err(error) => Err(error@),
    }
}

pub open spec fn list_view(result: Result<Vec<Conversation>, String>) -> Result<
    Seq<ConversationView>,
    Seq<char>,
> {
    match result {
        Ok(list) => Ok(conversation_views(list@)),
        Err(error) => Err(error@),
    }
}

pub open spec fn reload_view(result: Option<Result<Vec<ChatMessage>, String>>) -> Option<
    Result<Seq<ChatMessageView>, Seq<char>>,
> {
    match result {
        Some(Ok(messages)) => Some(Ok(message_views(messages@))),
        Some(Err(error)) => Some(Err(error@)),
        None => None,
    }
}

impl App {
    /// Takes in what came of sending a message.
    pub fn send_finished(&mut self, result: Result<ChatMessage, String>)
        requires
            old(self)@.valid(),
        ensures
            final(self)@ == old(self)@.send_finished(reply_view(result)),
            final(self)@.valid(),
    {
        match result {
            Ok(message) => {
                let ghost before = self.messages@;
                self.messages.push(message);
                assert(message_views(self.messages@) =~= message_views(before).push(message@));
                self.scroll = 0;
                self.input = String::new();
                self.cursor = 0;
                self.status = "Sent".to_owned();
                assert(self@.input =~= Line::empty());
                proof {
                    lemma_offset_ends(Seq::empty());
                }
            },
            Err(error) => {
                self.status = prefixed("Send failed: ", error.as_str());
            },
        }
        self.sending = false;
    }

    /// Takes in what came of erasing everything; tells whether to leave.
    pub fn disconnect_finished(&mut self, error: Option<String>) -> (quit: bool)
        ensures
            (final(self)@, quit) == old(self)@.disconnect_finished(optional(error)),
            old(self)@.valid() ==> final(self)@.valid(),
    {
        match error {
            None => {
                self.disconnected = true;
                true
            },
            Some(error) => {
                self.status = prefixed("Disconnect failed: ", error.as_str());
                self.screen = Screen::Conversations;
                false
            },
        }
    }

    /// Takes in the list of conversations read after a synchronization; tells
    /// which chat to read again.
    pub fn sync_refreshed(&mut self, refresh: Result<Vec<Conversation>, String>) -> (reload: Option<
        Conversation,
    >)
        requires
            old(self)@.valid(),
        ensures
            final(self)@ == old(self)@.sync_refreshed(list_view(refresh)).0,
            old(self)@.sync_refreshed(list_view(refresh)).1 == (match reload {
                Some(conversation) => Some(conversation@),
                None => None,
            }),
            final(self)@.valid(),
    {
        self.syncing = false;
        match refresh {
            Ok(conversations) => {
                self.refresh_conversations(conversations);
                match self.opened_conversation() {
                    Some(conversation) => Some(conversation.clone()),
                    None => None,
                }
            },
            Err(_) => None,
        }
    }

    /// Takes in what came of a synchronization: its report, why the list of
    /// conversations could not be read again, and the messages of the shown
    /// chat where they were read again.
    pub fn finish_pending_sync(
        &mut self,
        result: Result<SyncReport, String>,
        refresh_error: Option<String>,
        reload: Option<Result<Vec<ChatMessage>, String>>,
    )
        ensures
            final(self)@ == old(self)@.sync_finished(
                report_view(result),
                optional(refresh_error),
                reload_view(reload),
            ),
            old(self)@.valid() ==> final(self)@.valid(),
    {
        match reload {
            Some(Ok(messages)) => {
                self.messages = messages;
            },
            Some(Err(error)) => {
                self.status = prefixed("Sync finished; chat refresh failed: ", error.as_str());
                return;
            },
            None => {},
        }
        self.status = match (result, refresh_error) {
            (Err(error), _) => prefixed("Sync failed: ", error.as_str()),
            (Ok(_), Some(error)) => prefixed("Sync refresh failed: ", error.as_str()),
            (Ok(report), None) => summary_of(&report),
        };
    }

    /// Takes in an event of the network.
    pub fn handle_network(&mut self, event: NetworkEvent) -> (action: Action)
        requires
            old(self)@.valid(),
        ensures
            (final(self)@, action@) == old(self)@.network(event@),
            final(self)@.valid(),
    {
        match event {
            NetworkEvent::Message { conversation, .. } => {
                let shown = match &self.opened {
                    Some(id) => id.same(&conversation),
                    None => false,
                };
                if shown {
                    let opened = match self.opened_conversation() {
                        Some(conversation) => Some(conversation.clone()),
                        None => None,
                    };
                    if let Some(conversation) = opened {
                        return Action::Reload { conversation };
                    }
                }
                self.status = "New message".to_owned();
                Action::Nothing
            },
            NetworkEvent::ConversationsChanged => Action::Refresh,
            NetworkEvent::QueueEmpty => {
                self.status = "Connected".to_owned();
                Action::Nothing
            },
            NetworkEvent::Error(error) => {
                self.status = error;
                Action::Nothing
            },
        }
    }

    /// Shows the messages of the shown chat, read again after a new message.
    pub fn reloaded(&mut self, messages: Vec<ChatMessage>)
        ensures
            final(self)@ == old(self)@.reloaded(message_views(messages@)),
            old(self)@.valid() ==> final(self)@.valid(),
    {
        self.messages = messages;
        self.retain_current_attachment_states();
        self.scroll = 0;
        self.status = "New message".to_owned();
    }

    /// Reports that the contacts were read again.
    pub fn contacts_synced(&mut self)
        ensures
            final(self)@ == old(self)@.with_status("Contacts synced"@),
            old(self)@.valid() ==> final(self)@.valid(),
    {
        self.status = "Contacts synced".to_owned();
    }
}

// ---------------------------------------------------------------------------
// Pictures
// ---------------------------------------------------------------------------

/// The first attachment of a message, from `from` on, that has the key and may
/// be shown.
pub open spec fn preview_in(
    attachments: Seq<ChatAttachmentView>,
    key: Seq<char>,
    from: int,
) -> Option<ChatAttachmentView>
    decreases attachments.len() - from,
{
    if from < 0 || from >= attachments.len() {
        None
    } else if attachments[from].key == key && attachments[from].can_preview() {
        Some(attachments[from])
    } else {
        preview_in(attachments, key, from + 1)
    }
}

/// The first attachment of the messages, from `from` on, that has the key and
/// may be shown.
pub open spec fn preview_of(messages: Seq<ChatMessageView>, key: Seq<char>, from: int) -> Option<
    ChatAttachmentView,
>
    decreases messages.len() - from,
{
    if from < 0 || from >= messages.len() {
        None
    } else {
        match preview_in(messages[from].attachments, key, 0) {
            Some(attachment) => Some(attachment),
            None => preview_of(messages, key, from + 1),
        }
    }
}

/// The attachments to load for a list of keys that are in view, and the states
/// after that: each one that was not asked for yet, and may be shown, is loaded
/// once.
pub open spec fn queue_images(app: AppView, keys: Seq<Seq<char>>) -> (
    AppView,
    Seq<ChatAttachmentView>,
)
    decreases keys.len(),
{
    if keys.len() == 0 {
        (app, Seq::empty())
    } else {
        let (before, queued) = queue_images(app, keys.drop_last());
        let key = keys.last();
        match preview_of(app.messages, key, 0) {
            Some(attachment) => if state_in(before.attachment_states, key) is NotRequested {
                (
                    AppView {
                        attachment_states: before.attachment_states.insert(
                            key,
                            AttachmentStateView::Loading,
                        ),
                        ..before
                    },
                    queued.push(attachment),
                )
            } else {
                (before, queued)
            },
            None => (before, queued),
        }
    }
}

fn find_preview_in<'a>(attachments: &'a Vec<ChatAttachment>, key: &str) -> (found: Option<
    &'a ChatAttachment,
>)
    ensures
        preview_in(attachment_views(attachments@), key@, 0) == (match found {
            Some(attachment) => Some(attachment@),
            None => None,
        }),
{
    let ghost views = attachment_views(attachments@);
    for i in 0..attachments.len()
        invariant
            views == attachment_views(attachments@),
            preview_in(views, key@, 0) == preview_in(views, key@, i as int),
    {
        assert(views[i as int] == attachments@[i as int]@);
        if same_text(attachments[i].key.as_str(), key) && attachments[i].can_preview() {
            return Some(&attachments[i]);
        }
    }
    None
}

proof fn lemma_queue_keeps_messages(app: AppView, keys: Seq<Seq<char>>)
    ensures
        queue_images(app, keys).0 == (AppView {
            attachment_states: queue_images(app, keys).0.attachment_states,
            ..app
        }),
    decreases keys.len(),
{
    if keys.len() > 0 {
        lemma_queue_keeps_messages(app, keys.drop_last());
    }
}

impl App {
    fn find_preview(&self, key: &str) -> (found: Option<ChatAttachment>)
        ensures
            preview_of(self@.messages, key@, 0) == (match found {
                Some(attachment) => Some(attachment@),
                None => None,
            }),
    {
        let ghost views = self@.messages;
        for i in 0..self.messages.len()
            invariant
                views == message_views(self.messages@),
                preview_of(views, key@, 0) == preview_of(views, key@, i as int),
        {
            assert(views[i as int] == self.messages@[i as int]@);
            if let Some(attachment) = find_preview_in(&self.messages[i].attachments, key) {
                return Some(attachment.clone());
            }
        }
        None
    }

    /// The attachments to load now that those with the given keys are in view.
    pub fn queue_visible_images(&mut self, keys: &Vec<String>) -> (queued: Vec<ChatAttachment>)
        ensures
            final(self)@ == queue_images(old(self)@, texts(keys@)).0,
            attachment_views(queued@) == queue_images(
                old(self)@,
                texts(keys@),
            ).1,
            old(self)@.valid() ==> final(self)@.valid(),
    {
        let ghost start = self@;
        let ghost all = texts(keys@);
        let mut queued: Vec<ChatAttachment> = Vec::new();
        assert(attachment_views(queued@) =~= Seq::<ChatAttachmentView>::empty());
        for i in 0..keys.len()
            invariant
                all == texts(keys@),
                self@ == queue_images(start, all.take(i as int)).0,
                attachment_views(queued@) == queue_images(
                    start,
                    all.take(i as int),
                ).1,
        {
            proof {
                assert(all.take(i + 1).drop_last() =~= all.take(i as int));
                assert(all.take(i + 1).last() == keys@[i as int]@);
                lemma_queue_keeps_messages(start, all.take(i as int));
            }
            let key = &keys[i];
            if let AttachmentState::NotRequested = self.attachment_state(key.as_str()) {
                if let Some(attachment) = self.find_preview(key.as_str()) {
                    let ghost before = queued@;
                    self.attachment_states.insert(key.clone(), AttachmentState::Loading);
                    queued.push(attachment);
                    assert(attachment_views(queued@)
                        =~= attachment_views(before).push(attachment@));
                }
            }
        }
        assert(all.take(all.len() as int) =~= all);
        proof {
            lemma_queue_keeps_messages(start, all);
        }
        queued
    }

    /// Takes in what came of loading an attachment.
    pub fn handle_attachment(&mut self, event: AttachmentEvent)
        ensures
            final(self)@ == old(self)@.attachment_finished(
                event.key@,
                loaded_state(event.result),
            ),
            old(self)@.valid() ==> final(self)@.valid(),
    {
        let state = match event.result {
            Ok(picture) => AttachmentState::Ready(picture),
            Err(error) => AttachmentState::Failed(error),
        };
        self.attachment_states.insert(event.key, state);
    }

    /// Shows a notice about an update, or takes it away.
    pub fn set_update_notice(&mut self, notice: Option<String>)
        ensures
            final(self)@ == (AppView { update_notice: optional(notice), ..old(self)@ }),
            old(self)@.valid() ==> final(self)@.valid(),
    {
        self.update_notice = notice;
    }
}

/// No picture is asked for twice: right after it was asked for, its state says
/// so, and seeing it again asks for nothing.
pub proof fn pictures_are_loaded_once(app: AppView, key: Seq<char>)
    ensures
        ({
            let (once, _) = queue_images(app, seq![key]);
            queue_images(once, seq![key]) == (once, Seq::<ChatAttachmentView>::empty())
        }),
{
    let keys = seq![key];
    assert(keys.drop_last() =~= Seq::<Seq<char>>::empty());
    let (once, _) = queue_images(app, keys);
    lemma_queue_keeps_messages(app, keys);
    reveal_with_fuel(queue_images, 2);
}

/// A sent message is the last of the chat, and the line is empty for the next.
pub proof fn sent_message_is_shown_last(app: AppView, message: ChatMessageView)
    ensures
        app.send_finished(Ok(message)).messages.last() == message,
        app.send_finished(Ok(message)).input == Line::empty(),
        !app.send_finished(Ok(message)).sending,
        forall|error: Seq<char>|
            (#[trigger] app.send_finished(Err(error))).input == app.input && app.send_finished(
                Err(error),
            ).messages == app.messages,
{
}

// ---------------------------------------------------------------------------
// What the keys do
// ---------------------------------------------------------------------------

/// A search finds the conversations that hold the query in their title or their
/// subtitle, each compared in lower case; an empty query finds them all.
pub proof fn search_reads_titles_and_subtitles(
    list: Seq<ConversationView>,
    query: Seq<char>,
    index: int,
)
    requires
        0 <= index < list.len(),
    ensures
        matching_indices(list, query).contains(index) <==> {
            let wanted = lowercase(query);
            let title = lowercase(list[index].title);
            let subtitle = lowercase(list[index].subtitle);
            ||| wanted.len() == 0
            ||| exists|at: int|
                0 <= at <= title.len() - wanted.len() && #[trigger] title.subrange(
                    at,
                    at + wanted.len(),
                ) == wanted
            ||| exists|at: int|
                0 <= at <= subtitle.len() - wanted.len() && #[trigger] subtitle.subrange(
                    at,
                    at + wanted.len(),
                ) == wanted
        },
{
    search_finds_every_match(list, query);
    let wanted = lowercase(query);
    let title = lowercase(list[index].title);
    let subtitle = lowercase(list[index].subtitle);
    if has_part(title, wanted) {
        let at = choose|at: int| crate::text::stands_at(title, wanted, at);
        assert(title.subrange(at, at + wanted.len()) == wanted);
    }
    if has_part(subtitle, wanted) {
        let at = choose|at: int| crate::text::stands_at(subtitle, wanted, at);
        assert(subtitle.subrange(at, at + wanted.len()) == wanted);
    }
    if exists|at: int|
        0 <= at <= title.len() - wanted.len() && #[trigger] title.subrange(at, at + wanted.len())
            == wanted {
        let at = choose|at: int|
            0 <= at <= title.len() - wanted.len() && #[trigger] title.subrange(
                at,
                at + wanted.len(),
            ) == wanted;
        assert(crate::text::stands_at(title, wanted, at));
    }
    if exists|at: int|
        0 <= at <= subtitle.len() - wanted.len() && #[trigger] subtitle.subrange(
            at,
            at + wanted.len(),
        ) == wanted {
        let at = choose|at: int|
            0 <= at <= subtitle.len() - wanted.len() && #[trigger] subtitle.subrange(
                at,
                at + wanted.len(),
            ) == wanted;
        assert(crate::text::stands_at(subtitle, wanted, at));
    }
}

/// With a match selected, Down goes to the next match and Up to the one before;
/// none lies in between, and at either end the selection stays. Nothing else
/// changes.
pub proof fn arrows_go_to_the_next_match(app: AppView, up: Key, down: Key)
    requires
        app.screen == Screen::Conversations,
        app.filtered().contains(app.selected),
        up.pressed && up.code == KeyCode::Up,
        down.pressed && down.code == KeyCode::Down,
    ensures
        app.key(up).1 is Nothing,
        app.key(down).1 is Nothing,
        app.key(up).0 == (AppView { selected: app.key(up).0.selected, ..app }),
        app.key(down).0 == (AppView { selected: app.key(down).0.selected, ..app }),
        app.filtered().contains(app.key(up).0.selected),
        app.filtered().contains(app.key(down).0.selected),
        app.key(up).0.selected <= app.selected <= app.key(down).0.selected,
        forall|other: int| #[trigger]
            app.filtered().contains(other) ==> !(app.key(up).0.selected < other < app.selected)
                && !(app.selected < other < app.key(down).0.selected),
        app.key(up).0.selected == app.selected ==> forall|other: int| #[trigger]
            app.filtered().contains(other) ==> app.selected <= other,
        app.key(down).0.selected == app.selected ==> forall|other: int| #[trigger]
            app.filtered().contains(other) ==> other <= app.selected,
{
    let found = app.filtered();
    search_finds_every_match(app.conversations, app.search.text);
    lemma_place_in(found, app.selected, 0);
    let place = place_in(found, app.selected, 0)->0;
    let above = if place > 0 {
        place - 1
    } else {
        0
    };
    let below = if place + 1 < found.len() {
        place + 1
    } else {
        place
    };
    assert(app.key(up).0.selected == found[above]);
    assert(app.key(down).0.selected == found[below]);
    assert(found.contains(found[above]));
    assert(found.contains(found[below]));
    assert forall|other: int| #[trigger] found.contains(other) implies !(found[above] < other
        < app.selected) && !(app.selected < other < found[below]) && (found[above] == app.selected
        ==> app.selected <= other) && (found[below] == app.selected ==> other <= app.selected) by {
        let at = choose|at: int| 0 <= at < found.len() && found[at] == other;
        if at < above {
            assert(found[at] < found[above]);
        }
        if at > below {
            assert(found[below] < found[at]);
        }
        if above < at && at < place {
            assert(false);
        }
        if at < place {
            assert(found[at] < found[place]);
        }
        if place < at {
            assert(found[place] < found[at]);
        }
    }
}

proof fn lemma_everything_matches(list: Seq<ConversationView>, query: Seq<char>)
    requires
        lowercase(query).len() == 0,
    ensures
        matching_indices(list, query) == all_indices(list.len()),
    decreases list.len(),
{
    if list.len() > 0 {
        lemma_everything_matches(list.drop_last(), query);
        assert(all_indices((list.len() - 1) as nat).push(list.len() - 1) =~= all_indices(
            list.len(),
        ));
    } else {
        assert(all_indices(0) =~= Seq::<int>::empty());
    }
}

/// With no search, Up takes the selection to the conversation above and leaves
/// the first as it is; Down takes it to the one below and leaves the last as it
/// is. Each takes the other back, and neither changes anything else.
pub proof fn arrows_walk_the_list(app: AppView, up: Key, down: Key)
    requires
        app.screen == Screen::Conversations,
        lowercase(app.search.text).len() == 0,
        0 <= app.selected < app.conversations.len(),
        up.pressed && up.code == KeyCode::Up,
        down.pressed && down.code == KeyCode::Down,
    ensures
        app.selected > 0 ==> app.key(up) == (
            AppView { selected: app.selected - 1, ..app },
            ActionView::Nothing,
        ),
        app.selected == 0 ==> app.key(up) == (app, ActionView::Nothing),
        app.selected + 1 < app.conversations.len() ==> app.key(down) == (
            AppView { selected: app.selected + 1, ..app },
            ActionView::Nothing,
        ),
        app.selected + 1 == app.conversations.len() ==> app.key(down) == (app, ActionView::Nothing),
        app.selected + 1 < app.conversations.len() ==> app.key(down).0.key(up).0 == app,
        app.selected > 0 ==> app.key(up).0.key(down).0 == app,
{
    lemma_everything_matches(app.conversations, app.search.text);
    let found = app.filtered();
    lemma_place_in(found, app.selected, 0);
    assert(found[app.selected] == app.selected);
    lemma_place_in(found, app.selected + 1, 0);
    lemma_place_in(found, app.selected - 1, 0);
    if app.selected + 1 < app.conversations.len() {
        assert(found[app.selected + 1] == app.selected + 1);
    }
    if app.selected > 0 {
        assert(found[app.selected - 1] == app.selected - 1);
    }
}

/// With nothing selected that matches, either arrow goes to the first match, at
/// the top of the list; without a match nothing happens.
pub proof fn arrows_return_to_the_matches(app: AppView, arrow: Key)
    requires
        app.screen == Screen::Conversations,
        !app.filtered().contains(app.selected),
        arrow.pressed && (arrow.code == KeyCode::Up || arrow.code == KeyCode::Down),
    ensures
        app.key(arrow).1 is Nothing,
        app.filtered().len() == 0 ==> app.key(arrow).0 == app,
        app.filtered().len() > 0 ==> app.key(arrow).0 == (AppView {
            selected: app.key(arrow).0.selected,
            sidebar_offset: 0,
            ..app
        }) && app.filtered().contains(app.key(arrow).0.selected),
        forall|other: int| #[trigger]
            app.filtered().contains(other) ==> app.key(arrow).0.selected <= other,
{
    let found = app.filtered();
    search_finds_every_match(app.conversations, app.search.text);
    lemma_place_in(found, app.selected, 0);
    if found.len() > 0 {
        assert(found.contains(found[0]));
    }
    assert forall|other: int| #[trigger] found.contains(other) implies app.key(
        arrow,
    ).0.selected <= other by {
        let at = choose|at: int| 0 <= at < found.len() && found[at] == other;
        if at > 0 {
            assert(found[0] < found[at]);
        }
    }
}

/// Enter in the list asks for the messages of the selected conversation, to be
/// looked at; without one it says that there is none. The interface stays as it
/// is but for that text.
pub proof fn enter_opens_the_selection(app: AppView, enter: Key)
    requires
        app.screen == Screen::Conversations,
        enter.pressed && enter.code == KeyCode::Enter,
    ensures
        app.filtered().contains(app.selected) ==> app.key(enter) == (
            app,
            ActionView::Load {
                conversation: app.conversations[app.selected],
                focus_chat: true,
            },
        ),
        !app.filtered().contains(app.selected) ==> app.key(enter) == (
            AppView {
                status: "No chats yet — leave Signal open on your phone while contacts sync"@,
                ..app
            },
            ActionView::Nothing,
        ),
{
}

/// Escape goes back one step: out of a chat or the question about disconnecting
/// to the list, out of a search to the whole list, and from there out of the
/// interface. What is typed, shown and selected stays.
pub proof fn escape_goes_back(app: AppView, escape: Key)
    requires
        app.valid(),
        escape.pressed && escape.code == KeyCode::Esc,
    ensures
        app.screen != Screen::Conversations ==> app.key(escape) == (
            AppView { screen: Screen::Conversations, ..app },
            ActionView::Nothing,
        ),
        app.screen == Screen::Conversations && app.search.text.len() == 0 ==> app.key(escape) == (
            app,
            ActionView::Quit,
        ),
        app.screen == Screen::Conversations && app.search.text.len() > 0 && lowercase(
            Seq::<char>::empty(),
        ).len() == 0 ==> app.key(escape) == (
            AppView {
                search: Line { text: Seq::empty(), cursor: 0 },
                sidebar_offset: if app.conversations.len() > 0 {
                    app.sidebar_offset
                } else {
                    0
                },
                ..app
            },
            ActionView::Nothing,
        ),
{
    if lowercase(Seq::<char>::empty()).len() == 0 {
        lemma_everything_matches(app.conversations, Seq::<char>::empty());
        let all = all_indices(app.conversations.len());
        if app.conversations.len() > 0 {
            assert(all[app.selected] == app.selected);
            assert(all.contains(app.selected));
        }
    }
}

/// Keys that are let go of, and not pressed, change nothing on any screen.
pub proof fn released_keys_do_nothing(app: AppView, key: Key)
    requires
        !key.pressed,
    ensures
        app.key(key) == (app, ActionView::Nothing),
{
}

/// A page up shows what is five lines further back, and a page down takes that
/// back; a page down stops at the newest message.
pub proof fn pages_are_five_lines(app: AppView, up: Key, down: Key)
    requires
        app.screen == Screen::Chat,
        up.pressed && up.code == KeyCode::PageUp,
        down.pressed && down.code == KeyCode::PageDown,
    ensures
        app.key(up).1 is Nothing && app.key(down).1 is Nothing,
        app.scroll + 5 <= u16::MAX ==> app.key(up).0 == (AppView {
            scroll: (app.scroll + 5) as u16,
            ..app
        }),
        app.scroll + 5 > u16::MAX ==> app.key(up).0 == (AppView { scroll: u16::MAX, ..app }),
        app.scroll >= 5 ==> app.key(down).0 == (AppView { scroll: (app.scroll - 5) as u16, ..app }),
        app.scroll < 5 ==> app.key(down).0 == (AppView { scroll: 0, ..app }),
        app.scroll + 5 <= u16::MAX ==> app.key(up).0.key(down).0 == app,
{
}

/// A synchronization starts on Control and S where one can be started and none
/// is under way, and nowhere else.
pub proof fn control_s_synchronizes(app: AppView, key: Key)
    requires
        key.pressed && key.control && key.code == KeyCode::Char('s'),
        app.screen != Screen::DisconnectConfirm,
    ensures
        app.syncing ==> app.key(key) == (
            AppView { status: "Sync already in progress"@, ..app },
            ActionView::Nothing,
        ),
        !app.syncing && !app.sync_available ==> app.key(key) == (
            AppView { status: "Sync unavailable"@, ..app },
            ActionView::StopReceiver,
        ),
        !app.syncing && app.sync_available ==> app.key(key) == (
            AppView {
                syncing: true,
                status: "Syncing contacts and queued messages…"@,
                ..app
            },
            ActionView::StartSync,
        ),
{
}

/// In the list, Control and R reads it again, Control and D asks whether to
/// disconnect, and no other character with Control or Alt does anything.
pub proof fn control_keys_of_the_list(app: AppView, key: Key, c: char)
    requires
        app.screen == Screen::Conversations,
        key.pressed && (key.control || key.alt) && key.code == KeyCode::Char(c),
        !(key.control && (c == 'c' || c == 's')),
    ensures
        key.control && c == 'r' ==> app.key(key) == (app, ActionView::Refresh),
        key.control && c == 'd' ==> app.key(key) == (
            AppView { screen: Screen::DisconnectConfirm, ..app },
            ActionView::Nothing,
        ),
        !(key.control && (c == 'r' || c == 'd')) ==> app.key(key) == (app, ActionView::Nothing),
{
}

/// Asked whether to disconnect, Control and Y says yes, Escape and Control and N
/// go back to the list, and nothing else but leaving does anything.
pub proof fn disconnecting_is_answered(app: AppView, key: Key)
    requires
        app.screen == Screen::DisconnectConfirm,
        key.pressed,
        !(key.control && key.code == KeyCode::Char('c')),
    ensures
        key.control && key.code == KeyCode::Char('y') ==> app.key(key) == (
            app,
            ActionView::Disconnect,
        ),
        key.control && key.code == KeyCode::Char('n') ==> app.key(key) == (
            AppView { screen: Screen::Conversations, ..app },
            ActionView::Nothing,
        ),
        !(key.control && (key.code == KeyCode::Char('y') || key.code == KeyCode::Char('n')))
            && key.code != KeyCode::Esc ==> app.key(key) == (app, ActionView::Nothing),
{
}

/// A character goes in where the cursor stands, with all that stood before it
/// before, and all that stood after it after: in a chat into the line that is
/// typed, and in the list into the search.
pub proof fn typing_goes_in_at_the_cursor(app: AppView, key: Key, c: char, at: int)
    requires
        app.screen == Screen::Chat && 0 <= at <= app.input.text.len() && app.input.cursor
            == crate::edit::offset(app.input.text, at) || app.screen == Screen::Conversations && 0
            <= at <= app.search.text.len() && app.search.cursor == crate::edit::offset(
            app.search.text,
            at,
        ),
        key.pressed && !key.control && !key.alt && key.code == KeyCode::Char(c),
    ensures
        app.key(key).1 is Nothing,
        app.screen == Screen::Chat ==> app.key(key).0 == (AppView {
            input: Line {
                text: app.input.text.take(at) + seq![c] + app.input.text.skip(at),
                cursor: app.input.cursor + crate::edit::char_len(c),
            },
            ..app
        }),
        app.screen == Screen::Conversations ==> {
            let next = app.key(key).0;
            &&& next.search.text == app.search.text.take(at) + seq![c] + app.search.text.skip(at)
            &&& next.search.cursor == app.search.cursor + crate::edit::char_len(c)
            &&& next == (AppView {
                search: next.search,
                selected: next.selected,
                sidebar_offset: next.sidebar_offset,
                ..app
            })
        },
{
    if app.screen == Screen::Chat {
        crate::edit::insert_goes_in_at_the_cursor(app.input, c, at);
    } else {
        crate::edit::insert_goes_in_at_the_cursor(app.search, c, at);
    }
}

/// The keys that edit do the same to the search in the list as to the line in a
/// chat.
pub proof fn both_lines_are_edited_alike(app: AppView, key: Key)
    requires
        app.valid(),
        key.pressed,
        key.code == KeyCode::Backspace || key.code == KeyCode::Delete || key.code == KeyCode::Left
            || key.code == KeyCode::Right || key.code == KeyCode::Home || key.code == KeyCode::End,
        app.screen != Screen::DisconnectConfirm,
    ensures
        ({
            let next = app.key(key).0;
            let line = if app.screen == Screen::Chat {
                app.input
            } else {
                app.search
            };
            let edited = if app.screen == Screen::Chat {
                next.input
            } else {
                next.search
            };
            &&& app.key(key).1 is Nothing
            &&& key.code == KeyCode::Backspace ==> edited == line.backspace()
            &&& key.code == KeyCode::Delete ==> edited == line.delete()
            &&& key.code == KeyCode::Left ==> edited == line.left()
            &&& key.code == KeyCode::Right ==> edited == line.right()
            &&& key.code == KeyCode::Home ==> edited == line.home()
            &&& key.code == KeyCode::End ==> edited == line.end()
            &&& app.screen == Screen::Chat ==> next == (AppView { input: edited, ..app })
            &&& app.screen == Screen::Conversations ==> next == (AppView {
                search: edited,
                selected: next.selected,
                sidebar_offset: next.sidebar_offset,
                ..app
            })
            &&& app.screen == Screen::Conversations && edited.text == app.search.text
                && app.filtered().contains(app.selected) ==> next.selected == app.selected
                && next.sidebar_offset == app.sidebar_offset
        }),
{
    crate::edit::lemma_cursor_range(app.search.text, app.search.cursor);
}

/// Enter in a chat sends what was typed, less the white space at its ends, to
/// the conversation that is shown: where it is not blank, and nothing is being
/// sent yet. The line stays until the message is sent. With Shift, Enter does
/// nothing.
pub proof fn enter_sends_the_line(app: AppView, enter: Key, index: int)
    requires
        app.screen == Screen::Chat,
        enter.pressed && enter.code == KeyCode::Enter,
        0 <= index < app.conversations.len(),
        app.opened == Some(app.conversations[index].id),
        forall|other: int|
            0 <= other < index ==> (#[trigger] app.conversations[other]).id
                != app.conversations[index].id,
    ensures
        !enter.shift && !app.sending && !crate::text::is_blank(app.input.text) ==> app.key(enter)
            == (
            AppView { sending: true, status: "Sending…"@, ..app },
            ActionView::Send {
                conversation: app.conversations[index],
                text: trimmed(app.input.text),
            },
        ),
        enter.shift || app.sending || crate::text::is_blank(app.input.text) ==> app.key(enter) == (
            app,
            ActionView::Nothing,
        ),
{
    crate::text::lemma_blank(app.input.text);
    lemma_first_with_id(app.conversations, index, 0);
}

/// The conversation with an identity is the first one that has it.
pub proof fn lemma_first_with_id(list: Seq<ConversationView>, index: int, from: int)
    requires
        0 <= from <= index < list.len(),
        forall|other: int|
            from <= other < index ==> (#[trigger] list[other]).id != list[index].id,
    ensures
        index_with_id(list, list[index].id, from) == Some(index),
    decreases index - from,
{
    if from < index {
        lemma_first_with_id(list, index, from + 1);
    }
}

/// Enter in a chat sends nothing while no conversation is shown.
pub proof fn nothing_is_sent_to_nobody(app: AppView, enter: Key)
    requires
        app.screen == Screen::Chat,
        app.opened is None,
        enter.pressed && enter.code == KeyCode::Enter,
    ensures
        app.key(enter) == (app, ActionView::Nothing),
{
}

// ---------------------------------------------------------------------------
// What replies and events do
// ---------------------------------------------------------------------------

/// A change of the search keeps the selection where it still matches, and goes
/// to the first match otherwise, with the list scrolled to its top. Nothing else
/// changes.
pub proof fn search_keeps_a_matching_selection(app: AppView, search: Line)
    ensures
        ({
            let next = app.with_search(search);
            let found = matching_indices(app.conversations, search.text);
            &&& next == (AppView {
                search,
                selected: next.selected,
                sidebar_offset: next.sidebar_offset,
                ..app
            })
            &&& found.contains(app.selected) ==> next.selected == app.selected
                && next.sidebar_offset == app.sidebar_offset
            &&& !found.contains(app.selected) ==> next.sidebar_offset == 0
            &&& found.len() == 0 ==> next.selected == app.selected
            &&& !found.contains(app.selected) ==> forall|other: int| #[trigger]
                found.contains(other) ==> found.contains(next.selected) && next.selected <= other
        }),
{
    let found = matching_indices(app.conversations, search.text);
    search_finds_every_match(app.conversations, search.text);
    if !found.contains(app.selected) {
        assert forall|other: int| #[trigger] found.contains(other) implies found.contains(
            app.with_search(search).selected,
        ) && app.with_search(search).selected <= other by {
            let at = choose|at: int| 0 <= at < found.len() && found[at] == other;
            assert(found.contains(found[0]));
            if at > 0 {
                assert(found[0] < found[at]);
            }
        }
    }
}

/// A chat that was loaded is the one shown, with its messages, from the newest
/// on; it comes to the front only where it was asked to. The states of pictures
/// that it does not show are dropped, and those of the others are kept.
pub proof fn loaded_chat_is_shown(
    app: AppView,
    conversation: ConversationView,
    messages: Seq<ChatMessageView>,
    focus_chat: bool,
    remembered_error: Option<Seq<char>>,
)
    ensures
        ({
            let next = app.loaded(conversation, messages, focus_chat, remembered_error);
            &&& next.opened == Some(conversation.id)
            &&& next.messages == messages
            &&& next.scroll == 0
            &&& focus_chat ==> next.screen == Screen::Chat
            &&& !focus_chat ==> next.screen == app.screen
            &&& remembered_error is None ==> next.status == "Connected"@
            &&& remembered_error is Some ==> next.status
                == "Connected · could not remember chat: "@ + remembered_error->0
            &&& forall|key: Seq<char>| #[trigger]
                next.attachment_states.contains_key(key) <==> app.attachment_states.contains_key(
                    key,
                ) && attachment_keys(messages).contains(key)
            &&& forall|key: Seq<char>| #[trigger]
                next.attachment_states.contains_key(key) ==> next.attachment_states[key]
                    == app.attachment_states[key]
            &&& next == (AppView {
                opened: next.opened,
                messages: next.messages,
                scroll: 0,
                screen: next.screen,
                status: next.status,
                attachment_states: next.attachment_states,
                ..app
            })
        }),
{
    let keys = attachment_keys(messages);
    assert forall|key: Seq<char>| #[trigger] keys.to_set().contains(key) <==> keys.contains(
        key,
    ) by {}
}

/// A chat that was read again stays the one shown, with its new messages, from
/// the newest on, and says that there is a new message.
pub proof fn reloaded_chat_stays(app: AppView, messages: Seq<ChatMessageView>)
    ensures
        ({
            let next = app.reloaded(messages);
            &&& next.messages == messages
            &&& next.scroll == 0
            &&& next.status == "New message"@
            &&& forall|key: Seq<char>| #[trigger]
                next.attachment_states.contains_key(key) <==> app.attachment_states.contains_key(
                    key,
                ) && attachment_keys(messages).contains(key)
            &&& next == (AppView {
                messages,
                scroll: 0,
                status: next.status,
                attachment_states: next.attachment_states,
                ..app
            })
        }),
{
}

/// The keys of the attachments of some messages are those of each of them.
pub proof fn attachment_keys_leave_nothing_out(
    messages: Seq<ChatMessageView>,
    message: int,
    attachment: int,
)
    requires
        0 <= message < messages.len(),
        0 <= attachment < messages[message].attachments.len(),
    ensures
        attachment_keys(messages).contains(messages[message].attachments[attachment].key),
    decreases messages.len(),
{
    let fewer = messages.drop_last();
    let before = attachment_keys(fewer);
    let last = messages.last().attachments.map_values(
        |attachment: ChatAttachmentView| attachment.key,
    );
    let wanted = messages[message].attachments[attachment].key;
    if message == messages.len() - 1 {
        assert((before + last)[before.len() + attachment] == wanted);
    } else {
        attachment_keys_leave_nothing_out(fewer, message, attachment);
        let at = choose|at: int| 0 <= at < before.len() && before[at] == wanted;
        assert((before + last)[at] == wanted);
    }
}

/// A wide terminal shows the selected chat without coming to it as soon as there
/// is one; a narrow one waits to be asked. Wide is a hundred and twenty columns.
pub proof fn wide_terminals_show_a_chat(app: AppView)
    ensures
        app.terminal_width >= 120 && app.opened is None && app.screen != Screen::DisconnectConfirm
            && app.conversations.len() > 0 && app.filtered().contains(app.selected)
            ==> app.ensure_wide_chat() == (
            app,
            ActionView::Load {
                conversation: app.conversations[app.selected],
                focus_chat: false,
            },
        ),
        app.terminal_width < 120 || app.opened is Some || app.conversations.len() == 0 || app.screen
            == Screen::DisconnectConfirm ==> app.ensure_wide_chat() == (app, ActionView::Nothing),
{
}

/// A new list of conversations replaces the old one. A chat that is still in it
/// stays shown with its messages; one that is gone is no longer shown, and its
/// messages go. What is typed, searched for and reported stays.
pub proof fn refresh_replaces_the_list(app: AppView, conversations: Seq<ConversationView>)
    ensures
        ({
            let next = app.refreshed(conversations);
            let kept = app.opened is Some && exists|i: int|
                0 <= i < conversations.len() && (#[trigger] conversations[i]).id == app.opened->0;
            &&& next.conversations == conversations
            &&& kept ==> next.opened == app.opened && next.messages == app.messages
            &&& !kept ==> next.opened is None && next.messages.len() == 0
            &&& next == (AppView {
                conversations,
                selected: next.selected,
                sidebar_offset: next.sidebar_offset,
                opened: next.opened,
                messages: next.messages,
                ..app
            })
        }),
{
    if app.opened is Some {
        lemma_index_with_id(conversations, app.opened->0, 0);
    }
}

/// The remembered conversation is selected at the start where it is still there,
/// and the first one otherwise.
pub proof fn remembered_chat_is_selected(
    list: Seq<ConversationView>,
    id: ConversationIdView,
    index: int,
)
    requires
        0 <= index < list.len(),
        list[index].id == id,
        forall|other: int| 0 <= other < index ==> (#[trigger] list[other]).id != id,
    ensures
        remembered(list, Some(id)) == index,
        remembered(list, None) == 0,
        forall|other: ConversationIdView|
            (forall|i: int| 0 <= i < list.len() ==> (#[trigger] list[i]).id != other)
                ==> #[trigger] remembered(list, Some(other)) == 0,
{
    lemma_first_with_id(list, index, 0);
    assert forall|other: ConversationIdView|
        (forall|i: int| 0 <= i < list.len() ==> (#[trigger] list[i]).id != other) implies
        #[trigger] remembered(list, Some(other)) == 0 by {
        lemma_index_with_id(list, other, 0);
    }
}

/// A message for the chat that is shown has that chat read again; one for
/// another chat is only announced. New contacts have the list read again. An
/// empty queue says that the connection stands, and an error is shown as it is.
pub proof fn events_reach_the_interface(app: AppView, index: int)
    requires
        0 <= index < app.conversations.len(),
        forall|other: int|
            0 <= other < index ==> (#[trigger] app.conversations[other]).id
                != app.conversations[index].id,
    ensures
        ({
            let chat = app.conversations[index];
            &&& forall|incoming: bool|
                app.opened == Some(chat.id) ==> #[trigger] app.network(
                    NetworkEventView::Message { conversation: chat.id, incoming },
                ) == (app, ActionView::Reload { conversation: chat })
            &&& forall|incoming: bool|
                app.opened != Some(chat.id) ==> #[trigger] app.network(
                    NetworkEventView::Message { conversation: chat.id, incoming },
                ) == (AppView { status: "New message"@, ..app }, ActionView::Nothing)
            &&& app.network(NetworkEventView::ConversationsChanged) == (app, ActionView::Refresh)
            &&& app.network(NetworkEventView::QueueEmpty) == (
                AppView { status: "Connected"@, ..app },
                ActionView::Nothing,
            )
            &&& forall|error: Seq<char>| #[trigger]
                app.network(NetworkEventView::Error(error)) == (
                    AppView { status: error, ..app },
                    ActionView::Nothing,
                )
        }),
{
    lemma_first_with_id(app.conversations, index, 0);
}

/// A message that was sent is added behind the others, the line is cleared, and
/// the newest is in view. One that was not sent says why, and the line and the
/// messages stay. Either way another can be sent.
pub proof fn sending_ends_either_way(app: AppView, message: ChatMessageView, error: Seq<char>)
    ensures
        app.send_finished(Ok(message)) == (AppView {
            messages: app.messages + seq![message],
            scroll: 0,
            input: Line { text: Seq::empty(), cursor: 0 },
            status: "Sent"@,
            sending: false,
            ..app
        }),
        app.send_finished(Err(error)) == (AppView {
            status: "Send failed: "@ + error,
            sending: false,
            ..app
        }),
{
    assert(app.messages.push(message) =~= app.messages + seq![message]);
}

/// Once everything is erased the interface is left; where that failed it stays,
/// shows the list, and says why.
pub proof fn disconnecting_ends_either_way(app: AppView, error: Seq<char>)
    ensures
        app.disconnect_finished(None) == (AppView { disconnected: true, ..app }, true),
        app.disconnect_finished(Some(error)) == (
            AppView {
                status: "Disconnect failed: "@ + error,
                screen: Screen::Conversations,
                ..app
            },
            false,
        ),
{
}

/// A synchronization that is over lets another start. The list is the one that
/// was read again, or stays as it was; the chat that is shown is read again
/// where it is still in the list.
pub proof fn synchronizing_ends_either_way(
    app: AppView,
    conversations: Seq<ConversationView>,
    error: Seq<char>,
)
    ensures
        app.sync_refreshed(Err(error)) == (AppView { syncing: false, ..app }, None::<
            ConversationView,
        >),
        ({
            let (next, reload) = app.sync_refreshed(Ok(conversations));
            &&& !next.syncing
            &&& next.conversations == conversations
            &&& reload is Some <==> next.opened is Some
            &&& reload is Some ==> next.opened == Some(reload->0.id) && app.opened == next.opened
                && conversations.contains(reload->0)
        }),
{
    let idle = AppView { syncing: false, ..app };
    refresh_replaces_the_list(idle, conversations);
    let next = idle.refreshed(conversations);
    if next.opened is Some {
        lemma_index_with_id(conversations, next.opened->0, 0);
        let index = index_with_id(conversations, next.opened->0, 0)->0;
        assert(conversations.contains(conversations[index]));
    }
}

/// After a synchronization the interface reports the first of these that holds:
/// that the chat could not be read again, that the synchronization failed, that
/// the list could not be read again; and otherwise how many messages came and
/// whether contacts changed. New messages of the chat are shown.
pub proof fn synchronizing_is_reported(
    app: AppView,
    report: SyncReportView,
    error: Seq<char>,
    refresh_error: Option<Seq<char>>,
    messages: Seq<ChatMessageView>,
)
    ensures
        forall|result: Result<SyncReportView, Seq<char>>| #[trigger]
            app.sync_finished(result, refresh_error, Some(Err(error))) == (AppView {
                status: "Sync finished; chat refresh failed: "@ + error,
                ..app
            }),
        app.sync_finished(Err(error), refresh_error, None) == (AppView {
            status: "Sync failed: "@ + error,
            ..app
        }),
        app.sync_finished(Err(error), refresh_error, Some(Ok(messages))) == (AppView {
            status: "Sync failed: "@ + error,
            messages,
            ..app
        }),
        app.sync_finished(Ok(report), Some(error), None) == (AppView {
            status: "Sync refresh failed: "@ + error,
            ..app
        }),
        app.sync_finished(Ok(report), None, Some(Ok(messages))).messages == messages,
        app.sync_finished(Ok(report), None, None).messages == app.messages,
        app.sync_finished(Ok(report), None, None) == (AppView {
            status: app.sync_finished(Ok(report), None, None).status,
            ..app
        }),
        app.sync_finished(Ok(report), None, None).status == "Sync complete · "@ + decimal(
            report.received_messages,
        ) + " queued message"@ + (if report.received_messages == 1 {
            ""@
        } else {
            "s"@
        }) + " · "@ + (if report.contacts_updated {
            "contacts updated"@
        } else {
            "contacts unchanged"@
        }),
{
}

/// A picture in view is asked for exactly where it may be shown and was not
/// asked for yet; it is then being loaded, and no other picture's state changes.
pub proof fn pictures_in_view_are_asked_for(app: AppView, key: Seq<char>)
    ensures
        ({
            let (next, asked) = queue_images(app, seq![key]);
            let wanted = preview_of(app.messages, key, 0) is Some && state_in(
                app.attachment_states,
                key,
            ) is NotRequested;
            &&& !wanted ==> next == app && asked.len() == 0
            &&& wanted ==> asked == seq![preview_of(app.messages, key, 0)->0]
            &&& wanted ==> next == (AppView {
                attachment_states: app.attachment_states.insert(key, AttachmentStateView::Loading),
                ..app
            })
        }),
{
    let keys = seq![key];
    assert(keys.drop_last() =~= Seq::<Seq<char>>::empty());
    reveal_with_fuel(queue_images, 2);
    let (next, asked) = queue_images(app, keys);
    if preview_of(app.messages, key, 0) is Some && state_in(
        app.attachment_states,
        key,
    ) is NotRequested {
        assert(asked =~= seq![preview_of(app.messages, key, 0)->0]);
    }
}

/// The picture behind a key is one of the attachments of the messages, has that
/// key and may be shown; there is one wherever some attachment does both.
pub proof fn previews_are_found_by_key(messages: Seq<ChatMessageView>, key: Seq<char>)
    ensures
        preview_of(messages, key, 0) matches Some(attachment) ==> attachment.key == key
            && attachment.can_preview() && exists|i: int|
            0 <= i < messages.len() && (#[trigger] messages[i]).attachments.contains(attachment),
        preview_of(messages, key, 0) is None ==> forall|i: int, j: int|
            0 <= i < messages.len() && 0 <= j < messages[i].attachments.len() ==> !((
            #[trigger] messages[i].attachments[j]).key == key
                && messages[i].attachments[j].can_preview()),
{
    lemma_preview_of(messages, key, 0);
}

proof fn lemma_preview_of(messages: Seq<ChatMessageView>, key: Seq<char>, from: int)
    requires
        0 <= from,
    ensures
        preview_of(messages, key, from) matches Some(attachment) ==> attachment.key == key
            && attachment.can_preview() && exists|i: int|
            from <= i < messages.len() && (#[trigger] messages[i]).attachments.contains(attachment),
        preview_of(messages, key, from) is None ==> forall|i: int, j: int|
            from <= i < messages.len() && 0 <= j < messages[i].attachments.len() ==> !((
            #[trigger] messages[i].attachments[j]).key == key
                && messages[i].attachments[j].can_preview()),
    decreases messages.len() - from,
{
    if from < messages.len() {
        lemma_preview_in(messages[from].attachments, key, 0);
        lemma_preview_of(messages, key, from + 1);
    }
}

proof fn lemma_preview_in(attachments: Seq<ChatAttachmentView>, key: Seq<char>, from: int)
    requires
        0 <= from,
    ensures
        preview_in(attachments, key, from) matches Some(attachment) ==> attachment.key == key
            && attachment.can_preview() && attachments.contains(attachment),
        preview_in(attachments, key, from) is None ==> forall|j: int|
            from <= j < attachments.len() ==> !((#[trigger] attachments[j]).key == key
                && attachments[j].can_preview()),
    decreases attachments.len() - from,
{
    if from < attachments.len() {
        lemma_preview_in(attachments, key, from + 1);
    }
}

/// A terminal that becomes wide shows the selected chat where none is shown yet;
/// any other change of its width is only remembered.
pub proof fn growing_shows_a_chat(app: AppView, width: u16)
    ensures
        app.terminal_width < 120 <= width && app.opened is None && app.screen
            != Screen::DisconnectConfirm && app.conversations.len() > 0 && app.filtered().contains(
            app.selected,
        ) ==> app.resized(width) == (
            AppView { terminal_width: width, ..app },
            ActionView::Load {
                conversation: app.conversations[app.selected],
                focus_chat: false,
            },
        ),
        app.terminal_width >= 120 || width < 120 || app.opened is Some || app.conversations.len()
            == 0 || app.screen == Screen::DisconnectConfirm ==> app.resized(width) == (
            AppView { terminal_width: width, ..app },
            ActionView::Nothing,
        ),
{
}

/// A picture whose loading has ended is ready or has failed; the states of the
/// others, and everything else, stay.
pub proof fn pictures_arrive_one_by_one(
    app: AppView,
    key: Seq<char>,
    other: Seq<char>,
    state: AttachmentStateView,
)
    ensures
        ({
            let next = app.attachment_finished(key, state);
            &&& state_in(next.attachment_states, key) == state
            &&& other != key ==> state_in(next.attachment_states, other) == state_in(
                app.attachment_states,
                other,
            )
            &&& next == (AppView { attachment_states: next.attachment_states, ..app })
        }),
{
}

/// With no search, a refresh selects the first conversation where the selected
/// one is gone. Where none was selected, it keeps to the same place, or to the
/// last where there are fewer.
pub proof fn refresh_selects_another(app: AppView, conversations: Seq<ConversationView>)
    requires
        lowercase(app.search.text).len() == 0,
        0 <= app.selected,
    ensures
        ({
            let next = app.refreshed(conversations);
            let kept = exists|i: int|
                0 <= i < conversations.len() && (#[trigger] conversations[i]).id
                    == app.conversations[app.selected].id;
            &&& app.selected < app.conversations.len() && !kept ==> next.selected == 0
            &&& app.selected >= app.conversations.len() && app.selected < conversations.len()
                ==> next.selected == app.selected
            &&& app.selected >= app.conversations.len() && 0 < conversations.len() <= app.selected
                ==> next.selected == conversations.len() - 1
        }),
{
    lemma_everything_matches(conversations, app.search.text);
    let all = all_indices(conversations.len());
    if app.selected < app.conversations.len() {
        lemma_index_with_id(conversations, app.conversations[app.selected].id, 0);
    }
    if conversations.len() > 0 {
        assert(all[0] == 0);
        assert(all.contains(0));
        assert(all[conversations.len() - 1] == conversations.len() - 1);
        assert(all.contains(conversations.len() - 1));
        if app.selected < conversations.len() {
            assert(all[app.selected] == app.selected);
            assert(all.contains(app.selected));
        }
    }
}

/// With no search, the interface after Up or Down has the conversation above or
/// below selected, and is otherwise the one before.
pub proof fn selection_of_the_interface_walks(before: App, after: App, key: Key)
    requires
        after@ == before@.key(key).0,
        before.screen == Screen::Conversations,
        lowercase(before.search@).len() == 0,
        before.selected < before.conversations@.len(),
        key.pressed,
        key.code == KeyCode::Up || key.code == KeyCode::Down,
    ensures
        key.code == KeyCode::Up && before.selected > 0 ==> after.selected == before.selected - 1,
        key.code == KeyCode::Up && before.selected == 0 ==> after.selected == 0,
        key.code == KeyCode::Down && before.selected + 1 < before.conversations@.len()
            ==> after.selected == before.selected + 1,
        key.code == KeyCode::Down && before.selected + 1 == before.conversations@.len()
            ==> after.selected == before.selected,
        after.search@ == before.search@,
        after.input@ == before.input@,
        after.status@ == before.status@,
        after.screen == before.screen,
        after.scroll == before.scroll,
        after.sending == before.sending,
        after.syncing == before.syncing,
{
    let up = Key { code: KeyCode::Up, ..key };
    let down = Key { code: KeyCode::Down, ..key };
    assert(key == up || key == down);
    arrows_walk_the_list(before@, up, down);
}

/// Several pictures in view are asked for one after the other, each as if it
/// alone came into view after those before it.
pub proof fn pictures_are_asked_for_in_turn(app: AppView, keys: Seq<Seq<char>>, key: Seq<char>)
    ensures
        ({
            let (before, asked) = queue_images(app, keys);
            let (after, all) = queue_images(app, keys.push(key));
            let (next, more) = queue_images(before, seq![key]);
            after == next && all == asked + more
        }),
{
    let (before, asked) = queue_images(app, keys);
    lemma_queue_keeps_messages(app, keys);
    pictures_in_view_are_asked_for(before, key);
    assert(keys.push(key).drop_last() =~= keys);
    let (next, more) = queue_images(before, seq![key]);
    let (after, all) = queue_images(app, keys.push(key));
    assert(all =~= asked + more);
}

/// The keys of some messages are those of their attachments, message by message
/// and in order.
pub proof fn attachment_keys_go_message_by_message(messages: Seq<ChatMessageView>)
    ensures
        attachment_keys(messages) == messages.flat_map(
            |message: ChatMessageView|
                message.attachments.map_values(|attachment: ChatAttachmentView| attachment.key),
        ),
    decreases messages.len(),
{
    let pick = |message: ChatMessageView|
        message.attachments.map_values(|attachment: ChatAttachmentView| attachment.key);
    if messages.len() > 0 {
        let fewer = messages.drop_last();
        attachment_keys_go_message_by_message(fewer);
        fewer.lemma_flat_map_push(pick, messages.last());
        assert(fewer.push(messages.last()) =~= messages);
        assert(pick(messages.last()) =~= messages.last().attachments.map_values(
            |attachment: ChatAttachmentView| attachment.key,
        ));
    } else {
        assert(messages.map_values(pick) =~= Seq::<Seq<Seq<char>>>::empty());
        assert(messages.flat_map(pick) =~= Seq::<Seq<char>>::empty());
    }
}

} // verus!
