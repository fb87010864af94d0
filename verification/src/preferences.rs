//! What the program remembers between two runs: the chat that was open last.
use vstd::prelude::*;

use crate::backend::{ConversationId, ConversationIdView, ServiceId};
use crate::bytes::fixed_32;
use crate::number::{hex_bytes, hex_decode, hex_encode, hex_reads_back, hex_text};
use crate::paths::with_suffix;

verus! {

/// A conversation as the preferences hold it: its kind, and its identity as a
/// text.
#[derive(Debug, PartialEq, Eq)]
pub enum SavedConversation {
    Contact(String),
    Group(String),
}

pub enum SavedConversationView {
    Contact(Seq<char>),
    Group(Seq<char>),
}

impl View for SavedConversation {
    type V = SavedConversationView;

    open spec fn view(&self) -> SavedConversationView {
        match self {
            SavedConversation::Contact(id) => SavedConversationView::Contact(id@),
            SavedConversation::Group(key) => SavedConversationView::Group(key@),
        }
    }
}

/// How a conversation is saved.
pub open spec fn saved(id: ConversationIdView) -> SavedConversationView {
    match id {
        ConversationIdView::Contact(id) => SavedConversationView::Contact(id),
        ConversationIdView::Group(key) => SavedConversationView::Group(hex_text(key)),
    }
}

/// The conversation that a saved one stands for, given the identity that the
/// text of a contact was read as.
pub open spec fn restored(
    conversation: SavedConversationView,
    parsed: Option<Seq<char>>,
) -> Option<ConversationIdView> {
    match conversation {
        SavedConversationView::Contact(_) => match parsed {
            Some(id) => Some(ConversationIdView::Contact(id)),
            None => None,
        },
        SavedConversationView::Group(key) => match hex_bytes(key) {
            Some(bytes) => if bytes.len() == 32 {
                Some(ConversationIdView::Group(bytes))
            } else {
                None
            },
            None => None,
        },
    }
}

pub open spec fn id_view(id: Option<ConversationId>) -> Option<ConversationIdView> {
    match id {
        Some(id) => Some(id@),
        None => None,
    }
}

pub open spec fn service_id_view(id: Option<ServiceId>) -> Option<Seq<char>> {
    match id {
        Some(id) => Some(id@),
        None => None,
    }
}

impl SavedConversation {
    /// How a conversation is saved.
    pub fn of(id: &ConversationId) -> (conversation: SavedConversation)
        ensures
            conversation@ == saved(id@),
    {
        match id {
            ConversationId::Contact(id) => SavedConversation::Contact(id.service_id_string()),
            ConversationId::Group(key) => SavedConversation::Group(hex_encode(key.as_slice())),
        }
    }

    /// The conversation that this stands for, given the identity that the text
    /// of a contact was read as.
    pub fn into_conversation_id(self, parsed: Option<ServiceId>) -> (id: Option<ConversationId>)
        ensures
            id_view(id) == restored(self@, service_id_view(parsed)),
    {
        match self {
            SavedConversation::Contact(_) => match parsed {
                Some(id) => Some(ConversationId::Contact(id)),
                None => None,
            },
            SavedConversation::Group(key) => match hex_decode(key.as_str()) {
                Some(bytes) => match fixed_32(&bytes) {
                    Some(key) => Some(ConversationId::Group(key)),
                    None => None,
                },
                None => None,
            },
        }
    }
}

/// A remembered group is found again, and a remembered contact wherever its
/// text is still read as the same identity.
pub proof fn remembered_conversation_is_found(id: ConversationIdView, parsed: Option<Seq<char>>)
    requires
        id matches ConversationIdView::Contact(text) ==> parsed == Some(text),
        id matches ConversationIdView::Group(key) ==> key.len() == 32,
    ensures
        restored(saved(id), parsed) == Some(id),
{
    if let ConversationIdView::Group(key) = id {
        hex_reads_back(key);
    }
}

/// The file that holds the preferences.
#[derive(Debug)]
pub struct PreferencesStore {
    pub file: String,
}

impl Clone for PreferencesStore {
    fn clone(&self) -> (copy: Self)
        ensures
            copy.file@ == self.file@,
    {
        PreferencesStore { file: self.file.clone() }
    }
}

impl PreferencesStore {
    pub fn new(path: String) -> (store: PreferencesStore)
        ensures
            store.file@ == path@,
    {
        PreferencesStore { file: path }
    }

    pub fn path(&self) -> (path: &str)
        ensures
            path@ == self.file@,
    {
        self.file.as_str()
    }

    /// The file that the preferences are written to before they replace the old
    /// ones.
    pub fn temporary_path(&self) -> (path: String)
        ensures
            path@ == self.file@ + ".tmp"@,
    {
        with_suffix(self.file.as_str(), ".tmp")
    }
}

/// A contact is kept as a contact and a group as a group. A contact comes back
/// where its identity can be read; a group comes back where its key is
/// thirty-two bytes in hexadecimal, and never as anything else.
pub proof fn saved_chats_keep_their_kind(
    id: ConversationIdView,
    conversation: SavedConversationView,
    parsed: Option<Seq<char>>,
)
    ensures
        id is Contact <==> saved(id) is Contact,
        id matches ConversationIdView::Contact(aci) ==> saved(id) == SavedConversationView::Contact(
            aci,
        ),
        conversation is Contact && parsed is None ==> restored(conversation, parsed) is None,
        conversation is Contact && parsed is Some ==> restored(conversation, parsed) == Some(
            ConversationIdView::Contact(parsed->0),
        ),
        conversation matches SavedConversationView::Group(key) ==> {
            &&& restored(conversation, parsed) is Some <==> key.len() == 64 && hex_bytes(key)
                is Some
            &&& restored(conversation, parsed) is Some ==> restored(conversation, parsed)->0
                == ConversationIdView::Group(hex_bytes(key)->0)
        },
{
    if let SavedConversationView::Group(key) = conversation {
        crate::number::hex_is_read_by_twos(key);
    }
}

} // verus!
