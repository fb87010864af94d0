//! Conversations and messages: how what the store and the network hand over
//! becomes what a person reads.
use vstd::prelude::*;

use crate::bytes::{copy_bytes, copy_optional_bytes, optional_bytes, same_bytes};
use crate::number::{decimal, decimal_text, hex_encode, hex_text};
use crate::order::{
    as_ints, is_order, key_views, order_exists, sort_indices, sorted_by_key,
    sorted_list_holds_every_item, stable_order, SortKey, SortKeyView,
};
use crate::text::{
    blank, contains, copy_optional, has_part, is_blank, lowercase, lowercased, optional, pieces,
    precedes, same_text, split_on, texts, trim, trimmed,
};

verus! {

// ---------------------------------------------------------------------------
// Identities
// ---------------------------------------------------------------------------

/// The identity of an account, in its canonical text form.
#[derive(Debug, PartialEq, Eq)]
pub struct ServiceId {
    pub text: String,
}

impl View for ServiceId {
    type V = Seq<char>;

    open spec fn view(&self) -> Seq<char> {
        self.text@
    }
}

impl Clone for ServiceId {
    fn clone(&self) -> (copy: Self)
        ensures
            copy@ == self@,
    {
        ServiceId { text: self.text.clone() }
    }
}

impl ServiceId {
    /// The canonical text of the identity.
    pub fn service_id_string(&self) -> (text: String)
        ensures
            text@ == self@,
    {
        self.text.clone()
    }
}

/// The other side of a conversation.
#[derive(Debug, PartialEq, Eq)]
pub enum ConversationId {
    Contact(ServiceId),
    Group([u8; 32]),
}

pub enum ConversationIdView {
    Contact(Seq<char>),
    Group(Seq<u8>),
}

impl View for ConversationId {
    type V = ConversationIdView;

    open spec fn view(&self) -> ConversationIdView {
        match self {
            ConversationId::Contact(id) => ConversationIdView::Contact(id@),
            ConversationId::Group(key) => ConversationIdView::Group(key@),
        }
    }
}

impl Clone for ConversationId {
    fn clone(&self) -> (copy: Self)
        ensures
            copy@ == self@,
    {
        match self {
            ConversationId::Contact(id) => ConversationId::Contact(id.clone()),
            ConversationId::Group(key) => ConversationId::Group(*key),
        }
    }
}

impl ConversationIdView {
    /// The text that stands for the conversation in commands and in JSON.
    pub open spec fn stable_id(self) -> Seq<char> {
        match self {
            ConversationIdView::Contact(id) => "contact:"@ + id,
            ConversationIdView::Group(key) => "group:"@ + hex_text(key),
        }
    }

    pub open spec fn kind(self) -> Seq<char> {
        match self {
            ConversationIdView::Contact(_) => "contact"@,
            ConversationIdView::Group(_) => "group"@,
        }
    }
}

impl ConversationId {
    /// The text that stands for the conversation in commands and in JSON.
    pub fn stable_id(&self) -> (text: String)
        ensures
            text@ == self@.stable_id(),
    {
        match self {
            ConversationId::Contact(id) => {
                let mut text: String = "contact:".to_owned();
                text.push_str(id.text.as_str());
                text
            },
            ConversationId::Group(key) => {
                let mut text: String = "group:".to_owned();
                text.push_str(hex_encode(key.as_slice()).as_str());
                text
            },
        }
    }

    pub fn kind(&self) -> (kind: &'static str)
        ensures
            kind@ == self@.kind(),
    {
        match self {
            ConversationId::Contact(_) => "contact",
            ConversationId::Group(_) => "group",
        }
    }

    /// Whether two identities are the same.
    pub fn same(&self, other: &ConversationId) -> (same: bool)
        ensures
            same == (self@ == other@),
    {
        match (self, other) {
            (ConversationId::Contact(left), ConversationId::Contact(right)) => same_text(
                left.text.as_str(),
                right.text.as_str(),
            ),
            (ConversationId::Group(left), ConversationId::Group(right)) => same_bytes(
                left.as_slice(),
                right.as_slice(),
            ),
            _ => false,
        }
    }
}

/// A conversation in the list.
#[derive(Debug, PartialEq, Eq)]
pub struct Conversation {
    pub id: ConversationId,
    pub title: String,
    pub subtitle: String,
    pub group_revision: Option<u32>,
}

#[verifier::ext_equal]
pub struct ConversationView {
    pub id: ConversationIdView,
    pub title: Seq<char>,
    pub subtitle: Seq<char>,
    pub group_revision: Option<u32>,
}

impl View for Conversation {
    type V = ConversationView;

    open spec fn view(&self) -> ConversationView {
        ConversationView {
            id: self.id@,
            title: self.title@,
            subtitle: self.subtitle@,
            group_revision: self.group_revision,
        }
    }
}

impl Clone for Conversation {
    fn clone(&self) -> (copy: Self)
        ensures
            copy@ == self@,
    {
        Conversation {
            id: self.id.clone(),
            title: self.title.clone(),
            subtitle: self.subtitle.clone(),
            group_revision: self.group_revision,
        }
    }
}

pub open spec fn conversation_views(list: Seq<Conversation>) -> Seq<ConversationView> {
    list.map_values(|conversation: Conversation| conversation@)
}

// ---------------------------------------------------------------------------
// Attachments
// ---------------------------------------------------------------------------

/// Where the service keeps an attachment.
#[derive(Debug, PartialEq, Eq)]
pub enum AttachmentIdentifier {
    CdnId(u64),
    CdnKey(String),
}

pub enum AttachmentIdentifierView {
    CdnId(u64),
    CdnKey(Seq<char>),
}

impl View for AttachmentIdentifier {
    type V = AttachmentIdentifierView;

    open spec fn view(&self) -> AttachmentIdentifierView {
        match self {
            AttachmentIdentifier::CdnId(id) => AttachmentIdentifierView::CdnId(*id),
            AttachmentIdentifier::CdnKey(key) => AttachmentIdentifierView::CdnKey(key@),
        }
    }
}

impl Clone for AttachmentIdentifier {
    fn clone(&self) -> (copy: Self)
        ensures
            copy@ == self@,
    {
        match self {
            AttachmentIdentifier::CdnId(id) => AttachmentIdentifier::CdnId(*id),
            AttachmentIdentifier::CdnKey(key) => AttachmentIdentifier::CdnKey(key.clone()),
        }
    }
}

pub open spec fn identifier_view(
    identifier: Option<AttachmentIdentifier>,
) -> Option<AttachmentIdentifierView> {
    match identifier {
        Some(identifier) => Some(identifier@),
        None => None,
    }
}

/// What a message says of one attachment.
#[derive(Debug, PartialEq, Eq)]
pub struct AttachmentPointer {
    pub content_type: Option<String>,
    pub key: Option<Vec<u8>>,
    pub size: Option<u32>,
    pub digest: Option<Vec<u8>>,
    pub file_name: Option<String>,
    pub width: Option<u32>,
    pub height: Option<u32>,
    pub client_uuid: Option<Vec<u8>>,
    pub cdn_number: Option<u32>,
    pub attachment_identifier: Option<AttachmentIdentifier>,
}

#[verifier::ext_equal]
pub struct AttachmentPointerView {
    pub content_type: Option<Seq<char>>,
    pub key: Option<Seq<u8>>,
    pub size: Option<u32>,
    pub digest: Option<Seq<u8>>,
    pub file_name: Option<Seq<char>>,
    pub width: Option<u32>,
    pub height: Option<u32>,
    pub client_uuid: Option<Seq<u8>>,
    pub cdn_number: Option<u32>,
    pub attachment_identifier: Option<AttachmentIdentifierView>,
}

impl View for AttachmentPointer {
    type V = AttachmentPointerView;

    open spec fn view(&self) -> AttachmentPointerView {
        AttachmentPointerView {
            content_type: optional(self.content_type),
            key: optional_bytes(self.key),
            size: self.size,
            digest: optional_bytes(self.digest),
            file_name: optional(self.file_name),
            width: self.width,
            height: self.height,
            client_uuid: optional_bytes(self.client_uuid),
            cdn_number: self.cdn_number,
            attachment_identifier: identifier_view(self.attachment_identifier),
        }
    }
}

impl Clone for AttachmentPointer {
    fn clone(&self) -> (copy: Self)
        ensures
            copy@ == self@,
    {
        AttachmentPointer {
            content_type: copy_optional(&self.content_type),
            key: copy_optional_bytes(&self.key),
            size: self.size,
            digest: copy_optional_bytes(&self.digest),
            file_name: copy_optional(&self.file_name),
            width: self.width,
            height: self.height,
            client_uuid: copy_optional_bytes(&self.client_uuid),
            cdn_number: self.cdn_number,
            attachment_identifier: match &self.attachment_identifier {
                Some(identifier) => Some(identifier.clone()),
                None => None,
            },
        }
    }
}

impl Default for AttachmentPointer {
    fn default() -> (pointer: Self)
        ensures
            pointer@ == (AttachmentPointerView {
                content_type: None,
                key: None,
                size: None,
                digest: None,
                file_name: None,
                width: None,
                height: None,
                client_uuid: None,
                cdn_number: None,
                attachment_identifier: None,
            }),
    {
        AttachmentPointer {
            content_type: None,
            key: None,
            size: None,
            digest: None,
            file_name: None,
            width: None,
            height: None,
            client_uuid: None,
            cdn_number: None,
            attachment_identifier: None,
        }
    }
}

pub open spec fn pointer_views(list: Seq<AttachmentPointer>) -> Seq<AttachmentPointerView> {
    list.map_values(|pointer: AttachmentPointer| pointer@)
}

/// A second copy of a list of pointers.
pub fn copy_pointers(list: &Vec<AttachmentPointer>) -> (copy: Vec<AttachmentPointer>)
    ensures
        pointer_views(copy@) == pointer_views(list@),
{
    let mut copy: Vec<AttachmentPointer> = Vec::new();
    for i in 0..list.len()
        invariant
            copy@.len() == i,
            forall|j: int| 0 <= j < i ==> (#[trigger] copy@[j])@ == list@[j]@,
    {
        copy.push(list[i].clone());
    }
    assert(pointer_views(copy@) =~= pointer_views(list@));
    copy
}

/// An attachment of a message that is shown.
#[derive(Debug, PartialEq, Eq)]
pub struct ChatAttachment {
    pub key: String,
    pub file_name: Option<String>,
    pub content_type: Option<String>,
    pub size: Option<u32>,
    pub width: Option<u32>,
    pub height: Option<u32>,
    pub pointer: AttachmentPointer,
}

#[verifier::ext_equal]
pub struct ChatAttachmentView {
    pub key: Seq<char>,
    pub file_name: Option<Seq<char>>,
    pub content_type: Option<Seq<char>>,
    pub size: Option<u32>,
    pub width: Option<u32>,
    pub height: Option<u32>,
    pub pointer: AttachmentPointerView,
}

impl View for ChatAttachment {
    type V = ChatAttachmentView;

    open spec fn view(&self) -> ChatAttachmentView {
        ChatAttachmentView {
            key: self.key@,
            file_name: optional(self.file_name),
            content_type: optional(self.content_type),
            size: self.size,
            width: self.width,
            height: self.height,
            pointer: self.pointer@,
        }
    }
}

impl Clone for ChatAttachment {
    fn clone(&self) -> (copy: Self)
        ensures
            copy@ == self@,
    {
        ChatAttachment {
            key: self.key.clone(),
            file_name: copy_optional(&self.file_name),
            content_type: copy_optional(&self.content_type),
            size: self.size,
            width: self.width,
            height: self.height,
            pointer: self.pointer.clone(),
        }
    }
}

/// The largest attachment that is shown in the terminal, in bytes.
pub const MAX_PREVIEW_BYTES: u32 = 52_428_800;

/// The largest image that is shown in the terminal, in pixels.
pub const MAX_PREVIEW_PIXELS: u64 = 40_000_000;

/// The media types of the images that can be shown.
pub open spec fn is_image_type(media: Seq<char>) -> bool {
    ||| media == "image/png"@
    ||| media == "image/jpeg"@
    ||| media == "image/jpg"@
    ||| media == "image/webp"@
    ||| media == "image/gif"@
}

impl ChatAttachmentView {
    pub open spec fn display_name(self) -> Seq<char> {
        match self.file_name {
            Some(name) => name,
            None => "attachment"@,
        }
    }

    /// Whether the content type, up to its first parameter, is an image type.
    pub open spec fn is_supported_image(self) -> bool {
        match self.content_type {
            Some(value) => is_image_type(trimmed(pieces(value, ';')[0])),
            None => false,
        }
    }

    /// The id that names the attachment in commands: its digest, where all is
    /// known that a download needs.
    pub open spec fn download_id(self) -> Option<Seq<char>> {
        if self.pointer.key is Some && self.pointer.attachment_identifier is Some {
            match self.pointer.digest {
                Some(digest) => Some(hex_text(digest)),
                None => None,
            }
        } else {
            None
        }
    }

    /// Whether the attachment may be downloaded and shown: an image that can be
    /// told apart by its digest, within the limits as far as its size is known.
    pub open spec fn can_preview(self) -> bool {
        &&& self.is_supported_image()
        &&& self.pointer.digest is Some
        &&& (self.size is Some ==> self.size->0 <= MAX_PREVIEW_BYTES)
        &&& (self.width is Some && self.height is Some ==> self.width->0 * self.height->0
            <= MAX_PREVIEW_PIXELS)
    }
}

impl ChatAttachment {
    pub fn display_name(&self) -> (name: &str)
        ensures
            name@ == self@.display_name(),
    {
        match &self.file_name {
            Some(name) => name.as_str(),
            None => "attachment",
        }
    }

    /// Whether the content type, up to its first parameter, is an image type.
    pub fn is_supported_image(&self) -> (yes: bool)
        ensures
            yes == self@.is_supported_image(),
    {
        match &self.content_type {
            Some(value) => {
                let parts = split_on(value.as_str(), ';');
                assert(texts(parts@)[0] == parts@[0]@);
                let media = trim(parts[0].as_str());
                let media = media.as_str();
                same_text(media, "image/png") || same_text(media, "image/jpeg") || same_text(
                    media,
                    "image/jpg",
                ) || same_text(media, "image/webp") || same_text(media, "image/gif")
            },
            None => false,
        }
    }

    /// The id that names the attachment in commands.
    pub fn download_id(&self) -> (id: Option<String>)
        ensures
            optional(id) == self@.download_id(),
    {
        if self.pointer.key.is_some() && self.pointer.attachment_identifier.is_some() {
            match &self.pointer.digest {
                Some(digest) => Some(hex_encode(digest.as_slice())),
                None => None,
            }
        } else {
            None
        }
    }

    /// Whether the attachment may be downloaded and shown.
    pub fn can_preview(&self) -> (yes: bool)
        ensures
            yes == self@.can_preview(),
    {
        let small = match self.size {
            Some(size) => size <= MAX_PREVIEW_BYTES,
            None => true,
        };
        let few_pixels = match (self.width, self.height) {
            (Some(width), Some(height)) => {
                assert(width * height <= u32::MAX * u32::MAX) by (nonlinear_arith)
                    requires
                        0 <= width <= u32::MAX,
                        0 <= height <= u32::MAX,
                ;
                width as u64 * height as u64 <= MAX_PREVIEW_PIXELS
            },
            _ => true,
        };
        self.is_supported_image() && self.pointer.digest.is_some() && small && few_pixels
    }
}

/// A text where it says anything.
pub open spec fn unless_blank(text: Option<Seq<char>>) -> Option<Seq<char>> {
    match text {
        Some(text) => if is_blank(text) {
            None
        } else {
            Some(text)
        },
        None => None,
    }
}

/// A copy of a text where it says anything.
fn copy_unless_blank(text: &Option<String>) -> (copy: Option<String>)
    ensures
        optional(copy) == unless_blank(optional(*text)),
{
    match text {
        Some(text) => if blank(text.as_str()) {
            None
        } else {
            Some(text.clone())
        },
        None => None,
    }
}

/// The key of an attachment: its digest, else the sender's identifier for it,
/// else its place in the message.
pub open spec fn attachment_key(
    timestamp: u64,
    index: nat,
    pointer: AttachmentPointerView,
) -> Seq<char> {
    match (pointer.digest, pointer.client_uuid) {
        (Some(digest), _) => hex_text(digest),
        (None, Some(uuid)) => hex_text(uuid),
        (None, None) => "missing-"@ + decimal(timestamp as nat) + "-"@ + decimal(index),
    }
}

/// The attachment at one place of a message.
pub open spec fn chat_attachment(
    timestamp: u64,
    index: nat,
    pointer: AttachmentPointerView,
) -> ChatAttachmentView {
    ChatAttachmentView {
        key: attachment_key(timestamp, index, pointer),
        file_name: unless_blank(pointer.file_name),
        content_type: unless_blank(pointer.content_type),
        size: pointer.size,
        width: pointer.width,
        height: pointer.height,
        pointer,
    }
}

/// The attachments of a message.
pub open spec fn attachments_of(timestamp: u64, pointers: Seq<AttachmentPointerView>) -> Seq<
    ChatAttachmentView,
> {
    Seq::new(pointers.len(), |i: int| chat_attachment(timestamp, i as nat, pointers[i]))
}

pub open spec fn attachment_views(list: Seq<ChatAttachment>) -> Seq<ChatAttachmentView> {
    list.map_values(|attachment: ChatAttachment| attachment@)
}

/// The attachments of a message.
pub fn chat_attachments(timestamp: u64, pointers: &[AttachmentPointer]) -> (list: Vec<
    ChatAttachment,
>)
    ensures
        attachment_views(list@) == attachments_of(timestamp, pointer_views(pointers@)),
{
    let ghost views = pointer_views(pointers@);
    let mut list: Vec<ChatAttachment> = Vec::new();
    for index in 0..pointers.len()
        invariant
            views == pointer_views(pointers@),
            list@.len() == index,
            forall|j: int|
                0 <= j < index ==> (#[trigger] list@[j])@ == chat_attachment(
                    timestamp,
                    j as nat,
                    views[j],
                ),
    {
        let pointer = &pointers[index];
        let key = match (&pointer.digest, &pointer.client_uuid) {
            (Some(digest), _) => hex_encode(digest.as_slice()),
            (None, Some(uuid)) => hex_encode(uuid.as_slice()),
            (None, None) => {
                let mut key: String = "missing-".to_owned();
                key.push_str(decimal_text(timestamp).as_str());
                key.push_str("-");
                key.push_str(decimal_text(index as u64).as_str());
                key
            },
        };
        let attachment = ChatAttachment {
            key,
            file_name: copy_unless_blank(&pointer.file_name),
            content_type: copy_unless_blank(&pointer.content_type),
            size: pointer.size,
            width: pointer.width,
            height: pointer.height,
            pointer: pointer.clone(),
        };
        assert(attachment@ == chat_attachment(timestamp, index as nat, views[index as int]));
        list.push(attachment);
    }
    assert(attachment_views(list@) =~= attachments_of(timestamp, views));
    list
}

// ---------------------------------------------------------------------------
// Messages as they are stored and received
// ---------------------------------------------------------------------------

/// A reaction to a message.
#[derive(Debug, PartialEq, Eq)]
pub struct Reaction {
    pub emoji: Option<String>,
    pub remove: Option<bool>,
}

#[derive(Debug, PartialEq, Eq)]
pub struct Sticker {
    pub emoji: Option<String>,
}

#[derive(Debug, PartialEq, Eq)]
pub struct PollCreate {
    pub question: Option<String>,
}

/// The group that a message belongs to.
#[derive(Debug, PartialEq, Eq)]
pub struct GroupContext {
    pub master_key: Vec<u8>,
    pub revision: Option<u32>,
}

/// A message to a conversation. The parts of which only the presence matters
/// are kept as flags.
#[derive(Debug, PartialEq, Eq)]
pub struct DataMessage {
    pub body: Option<String>,
    pub timestamp: Option<u64>,
    pub attachments: Vec<AttachmentPointer>,
    pub group_v2: Option<GroupContext>,
    pub reaction: Option<Reaction>,
    pub delete: bool,
    pub admin_delete: bool,
    pub sticker: Option<Sticker>,
    pub poll_create: Option<PollCreate>,
    pub poll_vote: bool,
    pub poll_terminate: bool,
    pub payment: bool,
    pub contact: bool,
    pub group_call_update: bool,
    pub gift_badge: bool,
    pub pin_message: bool,
    pub unpin_message: bool,
}

pub struct ReactionView {
    pub emoji: Option<Seq<char>>,
    pub remove: Option<bool>,
}

pub struct GroupContextView {
    pub master_key: Seq<u8>,
    pub revision: Option<u32>,
}

#[verifier::ext_equal]
pub struct DataMessageView {
    pub body: Option<Seq<char>>,
    pub timestamp: Option<u64>,
    pub attachments: Seq<AttachmentPointerView>,
    pub group_v2: Option<GroupContextView>,
    pub reaction: Option<ReactionView>,
    pub delete: bool,
    pub admin_delete: bool,
    /// The emoji of a sticker.
    pub sticker: Option<Option<Seq<char>>>,
    /// The question of a new poll.
    pub poll_create: Option<Option<Seq<char>>>,
    pub poll_vote: bool,
    pub poll_terminate: bool,
    pub payment: bool,
    pub contact: bool,
    pub group_call_update: bool,
    pub gift_badge: bool,
    pub pin_message: bool,
    pub unpin_message: bool,
}

impl View for DataMessage {
    type V = DataMessageView;

    open spec fn view(&self) -> DataMessageView {
        DataMessageView {
            body: optional(self.body),
            timestamp: self.timestamp,
            attachments: pointer_views(self.attachments@),
            group_v2: match self.group_v2 {
                Some(group) => Some(
                    GroupContextView { master_key: group.master_key@, revision: group.revision },
                ),
                None => None,
            },
            reaction: match self.reaction {
                Some(reaction) => Some(
                    ReactionView { emoji: optional(reaction.emoji), remove: reaction.remove },
                ),
                None => None,
            },
            delete: self.delete,
            admin_delete: self.admin_delete,
            sticker: match self.sticker {
                Some(sticker) => Some(optional(sticker.emoji)),
                None => None,
            },
            poll_create: match self.poll_create {
                Some(poll) => Some(optional(poll.question)),
                None => None,
            },
            poll_vote: self.poll_vote,
            poll_terminate: self.poll_terminate,
            payment: self.payment,
            contact: self.contact,
            group_call_update: self.group_call_update,
            gift_badge: self.gift_badge,
            pin_message: self.pin_message,
            unpin_message: self.unpin_message,
        }
    }
}

/// A message with nothing in it.
pub open spec fn empty_message() -> DataMessageView {
    DataMessageView {
        body: None,
        timestamp: None,
        attachments: Seq::empty(),
        group_v2: None,
        reaction: None,
        delete: false,
        admin_delete: false,
        sticker: None,
        poll_create: None,
        poll_vote: false,
        poll_terminate: false,
        payment: false,
        contact: false,
        group_call_update: false,
        gift_badge: false,
        pin_message: false,
        unpin_message: false,
    }
}

impl Default for DataMessage {
    fn default() -> (data: Self)
        ensures
            data@ == empty_message(),
    {
        let data = DataMessage {
            body: None,
            timestamp: None,
            attachments: Vec::new(),
            group_v2: None,
            reaction: None,
            delete: false,
            admin_delete: false,
            sticker: None,
            poll_create: None,
            poll_vote: false,
            poll_terminate: false,
            payment: false,
            contact: false,
            group_call_update: false,
            gift_badge: false,
            pin_message: false,
            unpin_message: false,
        };
        assert(data@ =~= empty_message());
        data
    }
}

/// A new text for an earlier message.
#[derive(Debug, PartialEq, Eq)]
pub struct EditMessage {
    pub data_message: Option<DataMessage>,
}

/// A message that another device of this account has sent.
#[derive(Debug, PartialEq, Eq)]
pub struct Sent {
    pub destination_service_id: Option<String>,
    pub timestamp: Option<u64>,
    pub message: Option<DataMessage>,
    pub edit_message: Option<EditMessage>,
    pub story_message: bool,
}

/// What a received or stored envelope holds.
#[derive(Debug, PartialEq, Eq)]
pub enum ContentBody {
    NullMessage,
    DataMessage(DataMessage),
    EditMessage(EditMessage),
    SynchronizeMessage(Option<Sent>),
    CallMessage,
    ReceiptMessage,
    TypingMessage,
    StoryMessage,
    DecryptionErrorMessage,
    PniSignatureMessage,
}

pub open spec fn data_view(data: Option<DataMessage>) -> Option<DataMessageView> {
    match data {
        Some(data) => Some(data@),
        None => None,
    }
}

#[verifier::ext_equal]
pub struct SentView {
    pub destination_service_id: Option<Seq<char>>,
    pub timestamp: Option<u64>,
    pub message: Option<DataMessageView>,
    /// The new message of an edit.
    pub edit_message: Option<Option<DataMessageView>>,
    pub story_message: bool,
}

pub enum ContentBodyView {
    NullMessage,
    DataMessage(DataMessageView),
    EditMessage(Option<DataMessageView>),
    SynchronizeMessage(Option<SentView>),
    CallMessage,
    ReceiptMessage,
    TypingMessage,
    StoryMessage,
    DecryptionErrorMessage,
    PniSignatureMessage,
}

impl View for Sent {
    type V = SentView;

    open spec fn view(&self) -> SentView {
        SentView {
            destination_service_id: optional(self.destination_service_id),
            timestamp: self.timestamp,
            message: data_view(self.message),
            edit_message: match self.edit_message {
                Some(edit) => Some(data_view(edit.data_message)),
                None => None,
            },
            story_message: self.story_message,
        }
    }
}

impl View for ContentBody {
    type V = ContentBodyView;

    open spec fn view(&self) -> ContentBodyView {
        match self {
            ContentBody::NullMessage => ContentBodyView::NullMessage,
            ContentBody::DataMessage(data) => ContentBodyView::DataMessage(data@),
            ContentBody::EditMessage(edit) => ContentBodyView::EditMessage(
                data_view(edit.data_message),
            ),
            ContentBody::SynchronizeMessage(Some(sent)) => ContentBodyView::SynchronizeMessage(
                Some(sent@),
            ),
            ContentBody::SynchronizeMessage(None) => ContentBodyView::SynchronizeMessage(None),
            ContentBody::CallMessage => ContentBodyView::CallMessage,
            ContentBody::ReceiptMessage => ContentBodyView::ReceiptMessage,
            ContentBody::TypingMessage => ContentBodyView::TypingMessage,
            ContentBody::StoryMessage => ContentBodyView::StoryMessage,
            ContentBody::DecryptionErrorMessage => ContentBodyView::DecryptionErrorMessage,
            ContentBody::PniSignatureMessage => ContentBodyView::PniSignatureMessage,
        }
    }
}

/// A received or stored envelope.
#[derive(Debug, PartialEq, Eq)]
pub struct Content {
    pub sender: ServiceId,
    pub destination: ServiceId,
    pub sender_device: u8,
    /// Milliseconds since the Unix epoch.
    pub timestamp: u64,
    pub body: ContentBody,
}

pub struct ContentView {
    pub sender: Seq<char>,
    pub destination: Seq<char>,
    pub sender_device: u8,
    pub timestamp: u64,
    pub body: ContentBodyView,
}

impl View for Content {
    type V = ContentView;

    open spec fn view(&self) -> ContentView {
        ContentView {
            sender: self.sender@,
            destination: self.destination@,
            sender_device: self.sender_device,
            timestamp: self.timestamp,
            body: self.body@,
        }
    }
}

// ---------------------------------------------------------------------------
// Messages as they are shown
// ---------------------------------------------------------------------------

/// What a shown message is about.
#[derive(Clone, Copy, Debug, PartialEq, Eq, Structural)]
pub enum MessageKind {
    Text,
    Attachment,
    Sticker,
    Reaction,
    Deleted,
    Edited,
    Poll,
    Payment,
    Contact,
    Call,
    Story,
    NonText,
}

/// The word that stands for a kind of message in JSON.
pub open spec fn kind_word(kind: MessageKind) -> Seq<char> {
    match kind {
        MessageKind::Text => "text"@,
        MessageKind::Attachment => "attachment"@,
        MessageKind::Sticker => "sticker"@,
        MessageKind::Reaction => "reaction"@,
        MessageKind::Deleted => "deleted"@,
        MessageKind::Edited => "edited"@,
        MessageKind::Poll => "poll"@,
        MessageKind::Payment => "payment"@,
        MessageKind::Contact => "contact"@,
        MessageKind::Call => "call"@,
        MessageKind::Story => "story"@,
        MessageKind::NonText => "non_text"@,
    }
}

impl MessageKind {
    /// The word that stands for this kind of message in JSON.
    pub fn word(self) -> (word: &'static str)
        ensures
            word@ == kind_word(self),
    {
        match self {
            MessageKind::Text => "text",
            MessageKind::Attachment => "attachment",
            MessageKind::Sticker => "sticker",
            MessageKind::Reaction => "reaction",
            MessageKind::Deleted => "deleted",
            MessageKind::Edited => "edited",
            MessageKind::Poll => "poll",
            MessageKind::Payment => "payment",
            MessageKind::Contact => "contact",
            MessageKind::Call => "call",
            MessageKind::Story => "story",
            MessageKind::NonText => "non_text",
        }
    }
}

/// A message that is shown.
#[derive(Debug, PartialEq, Eq)]
pub struct ChatMessage {
    pub timestamp: u64,
    pub mine: bool,
    pub sender: Option<String>,
    pub body: String,
    pub kind: MessageKind,
    pub attachments: Vec<ChatAttachment>,
}

#[verifier::ext_equal]
pub struct ChatMessageView {
    pub timestamp: u64,
    pub mine: bool,
    pub sender: Option<Seq<char>>,
    pub body: Seq<char>,
    pub kind: MessageKind,
    pub attachments: Seq<ChatAttachmentView>,
}

impl View for ChatMessage {
    type V = ChatMessageView;

    open spec fn view(&self) -> ChatMessageView {
        ChatMessageView {
            timestamp: self.timestamp,
            mine: self.mine,
            sender: optional(self.sender),
            body: self.body@,
            kind: self.kind,
            attachments: attachment_views(self.attachments@),
        }
    }
}

impl Clone for ChatMessage {
    fn clone(&self) -> (copy: Self)
        ensures
            copy@ == self@,
    {
        let mut attachments: Vec<ChatAttachment> = Vec::new();
        for i in 0..self.attachments.len()
            invariant
                attachments@.len() == i,
                forall|j: int| 0 <= j < i ==> (#[trigger] attachments@[j])@ == self.attachments@[j]@,
        {
            attachments.push(self.attachments[i].clone());
        }
        assert(attachment_views(attachments@) =~= attachment_views(self.attachments@));
        ChatMessage {
            timestamp: self.timestamp,
            mine: self.mine,
            sender: copy_optional(&self.sender),
            body: self.body.clone(),
            kind: self.kind,
            attachments,
        }
    }
}

pub open spec fn message_views(list: Seq<ChatMessage>) -> Seq<ChatMessageView> {
    list.map_values(|message: ChatMessage| message@)
}

/// A text, or another where there is none.
pub open spec fn text_or(text: Option<Seq<char>>, other: Seq<char>) -> Seq<char> {
    match text {
        Some(text) => text,
        None => other,
    }
}

/// A text, or another where there is none.
pub fn str_or<'a>(text: &'a Option<String>, other: &'a str) -> (result: &'a str)
    ensures
        result@ == text_or(optional(*text), other@),
{
    match text {
        Some(text) => text.as_str(),
        None => other,
    }
}

/// What stands in place of the text of a message that has none.
pub open spec fn placeholder(data: DataMessageView) -> Option<(Seq<char>, MessageKind)> {
    if data.reaction is Some {
        let action = if data.reaction->0.remove == Some(true) {
            "removed reaction"@
        } else {
            "reaction"@
        };
        Some(
            (
                "["@ + action + " "@ + text_or(data.reaction->0.emoji, "?"@) + "]"@,
                MessageKind::Reaction,
            ),
        )
    } else if data.delete || data.admin_delete {
        Some(("[message deleted]"@, MessageKind::Deleted))
    } else if data.sticker is Some {
        Some(("[sticker"@ + text_or(data.sticker->0, ""@) + "]"@, MessageKind::Sticker))
    } else if data.attachments.len() > 0 {
        Some((""@, MessageKind::Attachment))
    } else if data.poll_create is Some {
        Some(("[poll: "@ + text_or(data.poll_create->0, "poll"@) + "]"@, MessageKind::Poll))
    } else if data.poll_vote || data.poll_terminate {
        Some(("[poll update]"@, MessageKind::Poll))
    } else if data.payment {
        Some(("[payment]"@, MessageKind::Payment))
    } else if data.contact {
        Some(("[shared contact]"@, MessageKind::Contact))
    } else if data.group_call_update {
        Some(("[group call update]"@, MessageKind::Call))
    } else if data.gift_badge {
        Some(("[gift badge]"@, MessageKind::NonText))
    } else if data.pin_message || data.unpin_message {
        Some(("[pinned-message update]"@, MessageKind::NonText))
    } else {
        None
    }
}

/// The text of a message, its kind and its attachments; nothing for a message
/// that only serves the transport.
pub open spec fn data_body(data: DataMessageView, edited: bool) -> Option<
    (Seq<char>, MessageKind, Seq<AttachmentPointerView>),
> {
    if data.body is Some && data.body->0.len() > 0 {
        Some(
            (
                data.body->0,
                if edited {
                    MessageKind::Edited
                } else {
                    MessageKind::Text
                },
                data.attachments,
            ),
        )
    } else {
        match placeholder(data) {
            Some((body, kind)) => Some(
                if edited {
                    ("[edited message]"@, MessageKind::Edited, data.attachments)
                } else {
                    (body, kind, data.attachments)
                },
            ),
            None => None,
        }
    }
}

pub open spec fn body_view(
    body: Option<(String, MessageKind, Vec<AttachmentPointer>)>,
) -> Option<(Seq<char>, MessageKind, Seq<AttachmentPointerView>)> {
    match body {
        Some((text, kind, attachments)) => Some((text@, kind, pointer_views(attachments@))),
        None => None,
    }
}

/// What stands in place of the text of a message that has none.
fn placeholder_of(data: &DataMessage) -> (found: Option<(String, MessageKind)>)
    ensures
        match found {
            Some((text, kind)) => placeholder(data@) == Some((text@, kind)),
            None => placeholder(data@) is None,
        },
{
    if let Some(reaction) = &data.reaction {
        let removed = match reaction.remove {
            Some(remove) => remove,
            None => false,
        };
        let action = if removed {
            "removed reaction"
        } else {
            "reaction"
        };
        let mut text: String = "[".to_owned();
        text.push_str(action);
        text.push_str(" ");
        text.push_str(str_or(&reaction.emoji, "?"));
        text.push_str("]");
        Some((text, MessageKind::Reaction))
    } else if data.delete || data.admin_delete {
        Some(("[message deleted]".to_owned(), MessageKind::Deleted))
    } else if let Some(sticker) = &data.sticker {
        let mut text: String = "[sticker".to_owned();
        text.push_str(str_or(&sticker.emoji, ""));
        text.push_str("]");
        Some((text, MessageKind::Sticker))
    } else if data.attachments.len() > 0 {
        Some(("".to_owned(), MessageKind::Attachment))
    } else if let Some(poll) = &data.poll_create {
        let mut text: String = "[poll: ".to_owned();
        text.push_str(str_or(&poll.question, "poll"));
        text.push_str("]");
        Some((text, MessageKind::Poll))
    } else if data.poll_vote || data.poll_terminate {
        Some(("[poll update]".to_owned(), MessageKind::Poll))
    } else if data.payment {
        Some(("[payment]".to_owned(), MessageKind::Payment))
    } else if data.contact {
        Some(("[shared contact]".to_owned(), MessageKind::Contact))
    } else if data.group_call_update {
        Some(("[group call update]".to_owned(), MessageKind::Call))
    } else if data.gift_badge {
        Some(("[gift badge]".to_owned(), MessageKind::NonText))
    } else if data.pin_message || data.unpin_message {
        Some(("[pinned-message update]".to_owned(), MessageKind::NonText))
    } else {
        None
    }
}

/// The text of a message, its kind and its attachments; nothing for a message
/// that only serves the transport.
pub fn data_message_body(data: &DataMessage, edited: bool) -> (body: Option<
    (String, MessageKind, Vec<AttachmentPointer>),
>)
    ensures
        body_view(body) == data_body(data@, edited),
{
    if let Some(body) = &data.body {
        if !body.as_str().is_empty() {
            let kind = if edited {
                MessageKind::Edited
            } else {
                MessageKind::Text
            };
            return Some((body.clone(), kind, copy_pointers(&data.attachments)));
        }
    }
    match placeholder_of(data) {
        Some((text, kind)) => Some(
            if edited {
                (
                    "[edited message]".to_owned(),
                    MessageKind::Edited,
                    copy_pointers(&data.attachments),
                )
            } else {
                (text, kind, copy_pointers(&data.attachments))
            },
        ),
        None => None,
    }
}

/// Whether this account sent a message.
pub open spec fn is_mine(body: ContentBodyView) -> bool {
    body matches ContentBodyView::SynchronizeMessage(Some(_))
}

/// What an envelope shows.
pub open spec fn rendered(body: ContentBodyView) -> Option<
    (Seq<char>, MessageKind, Seq<AttachmentPointerView>),
> {
    match body {
        ContentBodyView::DataMessage(data) => data_body(data, false),
        ContentBodyView::EditMessage(Some(data)) => data_body(data, true),
        ContentBodyView::SynchronizeMessage(Some(sent)) => if sent.message is Some {
            data_body(sent.message->0, false)
        } else if sent.edit_message is Some {
            match sent.edit_message->0 {
                Some(data) => data_body(data, true),
                None => None,
            }
        } else if sent.story_message {
            Some(("[story]"@, MessageKind::Story, Seq::empty()))
        } else {
            None
        },
        ContentBodyView::CallMessage => Some(("[call event]"@, MessageKind::Call, Seq::empty())),
        ContentBodyView::StoryMessage => Some(("[story]"@, MessageKind::Story, Seq::empty())),
        ContentBodyView::DecryptionErrorMessage => Some(
            ("[message could not be decrypted]"@, MessageKind::NonText, Seq::empty()),
        ),
        _ => None,
    }
}

/// The name that a message is shown under: the stored name of its sender, or
/// the sender's identity where there is no name.
pub open spec fn shown_sender(sender: Seq<char>, stored_name: Option<Seq<char>>) -> Seq<char> {
    match stored_name {
        Some(name) => if name.len() > 0 {
            name
        } else {
            sender
        },
        None => sender,
    }
}

/// The message that an envelope shows.
pub open spec fn displayed(content: ContentView, stored_name: Option<Seq<char>>) -> Option<
    ChatMessageView,
> {
    match rendered(content.body) {
        Some((body, kind, pointers)) => Some(
            ChatMessageView {
                timestamp: content.timestamp,
                mine: is_mine(content.body),
                sender: if is_mine(content.body) {
                    None
                } else {
                    Some(shown_sender(content.sender, stored_name))
                },
                body,
                kind,
                attachments: attachments_of(content.timestamp, pointers),
            },
        ),
        None => None,
    }
}

pub open spec fn message_view(message: Option<ChatMessage>) -> Option<ChatMessageView> {
    match message {
        Some(message) => Some(message@),
        None => None,
    }
}

/// The name that a message is shown under.
pub fn sender_name(content: &Content, stored_name: &Option<String>) -> (name: String)
    ensures
        name@ == shown_sender(content@.sender, optional(*stored_name)),
{
    match stored_name {
        Some(name) => if name.as_str().is_empty() {
            content.sender.service_id_string()
        } else {
            name.clone()
        },
        None => content.sender.service_id_string(),
    }
}

fn rendered_body(body: &ContentBody) -> (result: Option<
    (String, MessageKind, Vec<AttachmentPointer>),
>)
    ensures
        body_view(result) == rendered(body@),
{
    let nothing: Vec<AttachmentPointer> = Vec::new();
    assert(pointer_views(nothing@) =~= Seq::<AttachmentPointerView>::empty());
    match body {
        ContentBody::DataMessage(data) => data_message_body(data, false),
        ContentBody::EditMessage(edit) => match &edit.data_message {
            Some(data) => data_message_body(data, true),
            None => None,
        },
        ContentBody::SynchronizeMessage(Some(sent)) => if let Some(data) = &sent.message {
            data_message_body(data, false)
        } else if let Some(edit) = &sent.edit_message {
            match &edit.data_message {
                Some(data) => data_message_body(data, true),
                None => None,
            }
        } else if sent.story_message {
            Some(("[story]".to_owned(), MessageKind::Story, nothing))
        } else {
            None
        },
        ContentBody::CallMessage => Some(("[call event]".to_owned(), MessageKind::Call, nothing)),
        ContentBody::StoryMessage => Some(("[story]".to_owned(), MessageKind::Story, nothing)),
        ContentBody::DecryptionErrorMessage => Some(
            ("[message could not be decrypted]".to_owned(), MessageKind::NonText, nothing),
        ),
        _ => None,
    }
}

/// The message that an envelope shows, given the stored name of its sender.
pub fn display_message(content: &Content, stored_name: &Option<String>) -> (message: Option<
    ChatMessage,
>)
    ensures
        message_view(message) == displayed(content@, optional(*stored_name)),
{
    match rendered_body(&content.body) {
        Some((body, kind, pointers)) => {
            let mine = match &content.body {
                ContentBody::SynchronizeMessage(Some(_)) => true,
                _ => false,
            };
            Some(
                ChatMessage {
                    timestamp: content.timestamp,
                    mine,
                    sender: if mine {
                        None
                    } else {
                        Some(sender_name(content, stored_name))
                    },
                    body,
                    kind,
                    attachments: chat_attachments(content.timestamp, pointers.as_slice()),
                },
            )
        },
        None => None,
    }
}

// ---------------------------------------------------------------------------
// The list of conversations
// ---------------------------------------------------------------------------

/// A contact as the store holds it.
#[derive(Debug, PartialEq, Eq)]
pub struct StoredContact {
    pub service_id: ServiceId,
    pub phone_number: Option<String>,
    pub name: String,
}

/// A group as the store holds it, with the number of its members.
#[derive(Debug, PartialEq, Eq)]
pub struct StoredGroup {
    pub key: [u8; 32],
    pub title: String,
    pub members: usize,
    pub revision: u32,
}

pub open spec fn contact_conversation(contact: StoredContact) -> ConversationView {
    ConversationView {
        id: ConversationIdView::Contact(contact.service_id@),
        title: if is_blank(contact.name@) {
            text_or(optional(contact.phone_number), contact.service_id@)
        } else {
            contact.name@
        },
        subtitle: text_or(optional(contact.phone_number), "Signal contact"@),
        group_revision: None,
    }
}

pub open spec fn group_conversation(group: StoredGroup) -> ConversationView {
    ConversationView {
        id: ConversationIdView::Group(group.key@),
        title: if group.title@.len() == 0 {
            "Unnamed group"@
        } else {
            group.title@
        },
        subtitle: decimal(group.members as nat) + " members"@,
        group_revision: Some(group.revision),
    }
}

/// The conversations with the contacts, then those with the groups.
pub open spec fn unsorted_conversations(
    contacts: Seq<StoredContact>,
    groups: Seq<StoredGroup>,
) -> Seq<ConversationView> {
    contacts.map_values(|contact: StoredContact| contact_conversation(contact))
        + groups.map_values(|group: StoredGroup| group_conversation(group))
}

/// What a conversation is sorted by: its title without regard to case.
pub open spec fn title_key(conversation: ConversationView) -> SortKeyView {
    SortKeyView { number: 0, first: lowercase(conversation.title), second: ""@ }
}

pub open spec fn sorted_conversations(list: Seq<ConversationView>) -> Seq<ConversationView> {
    sorted_by_key(list, list.map_values(|conversation: ConversationView| title_key(conversation)))
}

fn from_contact(contact: &StoredContact) -> (conversation: Conversation)
    ensures
        conversation@ == contact_conversation(*contact),
{
    let title = if blank(contact.name.as_str()) {
        str_or(&contact.phone_number, contact.service_id.text.as_str()).to_owned()
    } else {
        contact.name.clone()
    };
    Conversation {
        id: ConversationId::Contact(contact.service_id.clone()),
        title,
        subtitle: str_or(&contact.phone_number, "Signal contact").to_owned(),
        group_revision: None,
    }
}

fn from_group(group: &StoredGroup) -> (conversation: Conversation)
    ensures
        conversation@ == group_conversation(*group),
{
    let title = if group.title.as_str().is_empty() {
        "Unnamed group".to_owned()
    } else {
        group.title.clone()
    };
    let mut subtitle = decimal_text(group.members as u64);
    subtitle.push_str(" members");
    Conversation {
        id: ConversationId::Group(group.key),
        title,
        subtitle,
        group_revision: Some(group.revision),
    }
}

/// All conversations, sorted by title.
pub fn conversations(contacts: &Vec<StoredContact>, groups: &Vec<StoredGroup>) -> (list: Vec<
    Conversation,
>)
    ensures
        conversation_views(list@) == sorted_conversations(
            unsorted_conversations(contacts@, groups@),
        ),
{
    let ghost all = unsorted_conversations(contacts@, groups@);
    let ghost all_keys = all.map_values(|conversation: ConversationView| title_key(conversation));
    let mut unsorted: Vec<Conversation> = Vec::new();
    for i in 0..contacts.len()
        invariant
            all == unsorted_conversations(contacts@, groups@),
            unsorted@.len() == i,
            forall|j: int| 0 <= j < i ==> (#[trigger] unsorted@[j])@ == all[j],
    {
        unsorted.push(from_contact(&contacts[i]));
    }
    for i in 0..groups.len()
        invariant
            all == unsorted_conversations(contacts@, groups@),
            unsorted@.len() == contacts@.len() + i,
            forall|j: int| 0 <= j < unsorted@.len() ==> (#[trigger] unsorted@[j])@ == all[j],
    {
        unsorted.push(from_group(&groups[i]));
    }
    let mut keys: Vec<SortKey> = Vec::new();
    for i in 0..unsorted.len()
        invariant
            keys@.len() == i,
            forall|j: int| 0 <= j < i ==> (#[trigger] keys@[j])@ == title_key(unsorted@[j]@),
    {
        keys.push(
            SortKey {
                number: 0,
                first: lowercased(unsorted[i].title.as_str()),
                second: "".to_owned(),
            },
        );
    }
    let order = sort_indices(&keys);
    assert(key_views(keys@) =~= all_keys);
    let mut list: Vec<Conversation> = Vec::new();
    for i in 0..order.len()
        invariant
            is_order(key_views(keys@), as_ints(order@)),
            keys@.len() == unsorted@.len(),
            list@.len() == i,
            forall|j: int| 0 <= j < i ==> (#[trigger] list@[j])@ == unsorted@[order@[j] as int]@,
    {
        assert(as_ints(order@)[i as int] == order@[i as int]);
        list.push(unsorted[order[i]].clone());
    }
    proof {
        let ints = as_ints(order@);
        assert forall|j: int| 0 <= j < list@.len() implies (#[trigger] list@[j])@ == all[ints[j]] by {
            assert(ints[j] == order@[j]);
            assert(0 <= ints[j] < keys@.len());
            assert(unsorted@[ints[j]]@ == all[ints[j]]);
        }
        assert(conversation_views(list@) =~= sorted_conversations(all));
    }
    list
}

/// The list holds a conversation for every contact and every group, and for
/// nothing else, and its titles go up without regard to case.
pub proof fn every_conversation_is_listed(contacts: Seq<StoredContact>, groups: Seq<StoredGroup>)
    ensures
        ({
            let all = unsorted_conversations(contacts, groups);
            let sorted = sorted_conversations(all);
            &&& sorted.to_multiset() == all.to_multiset()
            &&& forall|i: int, j: int|
                0 <= i < j < sorted.len() ==> !precedes(
                    lowercase((#[trigger] sorted[j]).title),
                    lowercase((#[trigger] sorted[i]).title),
                )
        }),
{
    let all = unsorted_conversations(contacts, groups);
    let keys = all.map_values(|conversation: ConversationView| title_key(conversation));
    let sorted = sorted_conversations(all);
    sorted_list_holds_every_item(all, keys);
    order_exists(keys);
    let order = stable_order(keys);
    assert forall|i: int, j: int| 0 <= i < j < sorted.len() implies !precedes(
        lowercase((#[trigger] sorted[j]).title),
        lowercase((#[trigger] sorted[i]).title),
    ) by {
        assert(0 <= order[i] < keys.len() && 0 <= order[j] < keys.len());
        assert(!keys[order[j]].below(keys[order[i]]));
        assert(keys[order[i]] == title_key(sorted[i]));
        assert(keys[order[j]] == title_key(sorted[j]));
    }
}

/// The index of the first conversation from `from` on with the given stable id.
pub open spec fn index_of_id(list: Seq<ConversationView>, query: Seq<char>, from: int) -> Option<int>
    decreases list.len() - from,
{
    if from < 0 || from >= list.len() {
        None
    } else if list[from].id.stable_id() == query {
        Some(from)
    } else {
        index_of_id(list, query, from + 1)
    }
}

/// Whether a title holds a fragment, without regard to case.
pub open spec fn title_holds(conversation: ConversationView, fragment: Seq<char>) -> bool {
    has_part(lowercase(conversation.title), lowercase(fragment))
}

/// The conversations whose title holds a fragment, in the order of the list.
pub open spec fn titled(list: Seq<ConversationView>, fragment: Seq<char>) -> Seq<ConversationView>
    decreases list.len(),
{
    if list.len() == 0 {
        Seq::empty()
    } else if title_holds(list.last(), fragment) {
        titled(list.drop_last(), fragment).push(list.last())
    } else {
        titled(list.drop_last(), fragment)
    }
}

/// The conversations that a query stands for: the one with that stable id where
/// there is one, else all whose title holds the query.
pub open spec fn matching(list: Seq<ConversationView>, query: Seq<char>) -> Seq<ConversationView> {
    match index_of_id(list, query, 0) {
        Some(index) => seq![list[index]],
        None => titled(list, query),
    }
}

pub open spec fn conversation_ref_views(list: Seq<&Conversation>) -> Seq<ConversationView> {
    list.map_values(|conversation: &Conversation| conversation@)
}

/// The conversations that a query stands for.
pub fn matching_conversations<'a>(conversations: &'a [Conversation], query: &str) -> (found: Vec<
    &'a Conversation,
>)
    ensures
        conversation_ref_views(found@) == matching(conversation_views(conversations@), query@),
{
    let ghost views = conversation_views(conversations@);
    for i in 0..conversations.len()
        invariant
            views == conversation_views(conversations@),
            index_of_id(views, query@, 0) == index_of_id(views, query@, i as int),
    {
        let id = conversations[i].id.stable_id();
        if same_text(id.as_str(), query) {
            let mut found: Vec<&'a Conversation> = Vec::new();
            found.push(&conversations[i]);
            assert(conversation_ref_views(found@) =~= seq![views[i as int]]);
            return found;
        }
    }
    let lower = lowercased(query);
    let mut found: Vec<&'a Conversation> = Vec::new();
    assert(conversation_ref_views(found@) =~= titled(views.take(0), query@));
    for i in 0..conversations.len()
        invariant
            views == conversation_views(conversations@),
            lower@ == lowercase(query@),
            conversation_ref_views(found@) == titled(views.take(i as int), query@),
    {
        assert(views.take(i + 1).drop_last() =~= views.take(i as int));
        assert(views.take(i + 1).last() == conversations@[i as int]@);
        let title = lowercased(conversations[i].title.as_str());
        if contains(title.as_str(), lower.as_str()) {
            let ghost before = conversation_ref_views(found@);
            found.push(&conversations[i]);
            assert(conversation_ref_views(found@) =~= before.push(conversations@[i as int]@));
        }
    }
    assert(views.take(views.len() as int) =~= views);
    found
}

proof fn lemma_index_of_id(list: Seq<ConversationView>, query: Seq<char>, from: int, index: int)
    requires
        0 <= from <= index < list.len(),
        list[index].id.stable_id() == query,
    ensures
        index_of_id(list, query, from) is Some,
        from <= index_of_id(list, query, from)->0 <= index,
        list[index_of_id(list, query, from)->0].id.stable_id() == query,
    decreases index - from,
{
    if list[from].id.stable_id() != query {
        lemma_index_of_id(list, query, from + 1, index);
    }
}

/// A stable id stands for one conversation alone, whatever the titles hold.
pub proof fn stable_id_wins(list: Seq<ConversationView>, index: int)
    requires
        0 <= index < list.len(),
    ensures
        matching(list, list[index].id.stable_id()).len() == 1,
        matching(list, list[index].id.stable_id())[0].id.stable_id() == list[index].id.stable_id(),
{
    lemma_index_of_id(list, list[index].id.stable_id(), 0, index);
}

/// Two conversations with the same stable id are with the same contact or
/// group.
pub proof fn stable_id_is_injective(left: ConversationIdView, right: ConversationIdView)
    requires
        left.stable_id() == right.stable_id(),
    ensures
        left == right,
{
    reveal_strlit("contact:");
    reveal_strlit("group:");
    let a = left.stable_id();
    let b = right.stable_id();
    assert("contact:"@[0] == 'c');
    assert("group:"@[0] == 'g');
    assert(a[0] == if left is Contact { 'c' } else { 'g' });
    assert(b[0] == if right is Contact { 'c' } else { 'g' });
    match (left, right) {
        (ConversationIdView::Contact(x), ConversationIdView::Contact(y)) => {
            assert(a.skip(8) =~= x);
            assert(b.skip(8) =~= y);
        },
        (ConversationIdView::Group(x), ConversationIdView::Group(y)) => {
            assert(a.skip(6) =~= hex_text(x));
            assert(b.skip(6) =~= hex_text(y));
            crate::number::hex_is_injective(x, y);
        },
        _ => {},
    }
}

// ---------------------------------------------------------------------------
// The newest messages of a conversation
// ---------------------------------------------------------------------------

/// The number of messages that an open chat shows.
pub const HISTORY_LIMIT: usize = 250;

/// A message out of the store, with the stored name of its sender.
#[derive(Debug, PartialEq, Eq)]
pub struct StoredMessage {
    pub content: Content,
    pub sender_name: Option<String>,
}

impl StoredMessage {
    pub open spec fn shown(self) -> Option<ChatMessageView> {
        displayed(self.content@, optional(self.sender_name))
    }
}

/// The messages shown of what the store hands out one by one: those that show
/// anything, until there are `limit` of them or one cannot be read.
pub open spec fn latest(
    stored: Seq<Result<StoredMessage, String>>,
    limit: nat,
    so_far: Seq<ChatMessageView>,
) -> Result<Seq<ChatMessageView>, Seq<char>>
    decreases stored.len(),
{
    if stored.len() == 0 {
        Ok(so_far)
    } else {
        match stored[0] {
            Err(error) => Err(error@),
            Ok(message) => match message.shown() {
                None => latest(stored.drop_first(), limit, so_far),
                Some(shown) => if so_far.len() + 1 == limit {
                    Ok(so_far.push(shown))
                } else {
                    latest(stored.drop_first(), limit, so_far.push(shown))
                },
            },
        }
    }
}

pub open spec fn messages_view(
    result: Result<Vec<ChatMessage>, String>,
) -> Result<Seq<ChatMessageView>, Seq<char>> {
    match result {
        Ok(messages) => Ok(message_views(messages@)),
        Err(error) => Err(error@),
    }
}

/// The newest messages out of what the store hands out newest first.
pub fn latest_messages(stored: &Vec<Result<StoredMessage, String>>, limit: usize) -> (result: Result<
    Vec<ChatMessage>,
    String,
>)
    ensures
        messages_view(result) == latest(stored@, limit as nat, Seq::empty()),
{
    let mut messages: Vec<ChatMessage> = Vec::new();
    assert(message_views(messages@) =~= Seq::<ChatMessageView>::empty());
    assert(stored@.skip(0) =~= stored@);
    for i in 0..stored.len()
        invariant
            latest(stored@, limit as nat, Seq::empty()) == latest(
                stored@.skip(i as int),
                limit as nat,
                message_views(messages@),
            ),
    {
        let ghost rest = stored@.skip(i as int);
        assert(rest[0] == stored@[i as int]);
        assert(rest.drop_first() =~= stored@.skip(i + 1));
        match &stored[i] {
            Err(error) => {
                return Err(error.clone());
            },
            Ok(message) => {
                if let Some(shown) = display_message(&message.content, &message.sender_name) {
                    let ghost before = message_views(messages@);
                    messages.push(shown);
                    assert(message_views(messages@) =~= before.push(shown@));
                    if messages.len() == limit {
                        return Ok(messages);
                    }
                }
            },
        }
    }
    Ok(messages)
}

/// The messages of a chat in the order in which they were sent.
pub open spec fn history_view(stored: Seq<Result<StoredMessage, String>>) -> Result<
    Seq<ChatMessageView>,
    Seq<char>,
> {
    match latest(stored, HISTORY_LIMIT as nat, Seq::empty()) {
        Ok(messages) => Ok(messages.reverse()),
        Err(error) => Err(error),
    }
}

/// A list of messages from its end to its front.
pub fn reversed(messages: &Vec<ChatMessage>) -> (result: Vec<ChatMessage>)
    ensures
        message_views(result@) == message_views(messages@).reverse(),
{
    let mut result: Vec<ChatMessage> = Vec::new();
    let count: usize = messages.len();
    for i in 0..count
        invariant
            count == messages@.len(),
            result@.len() == i,
            forall|j: int| 0 <= j < i ==> (#[trigger] result@[j])@ == messages@[count - 1 - j]@,
    {
        result.push(messages[count - 1 - i].clone());
    }
    assert(message_views(result@) =~= message_views(messages@).reverse());
    result
}

/// The messages of a chat in the order in which they were sent, out of what the
/// store hands out newest first.
pub fn history(stored: &Vec<Result<StoredMessage, String>>) -> (result: Result<
    Vec<ChatMessage>,
    String,
>)
    ensures
        messages_view(result) == history_view(stored@),
{
    match latest_messages(stored, HISTORY_LIMIT) {
        Ok(messages) => Ok(reversed(&messages)),
        Err(error) => Err(error),
    }
}

/// All messages that a list of stored ones shows.
pub open spec fn all_shown(stored: Seq<StoredMessage>) -> Seq<ChatMessageView>
    decreases stored.len(),
{
    if stored.len() == 0 {
        Seq::empty()
    } else {
        match stored[0].shown() {
            Some(shown) => seq![shown] + all_shown(stored.drop_first()),
            None => all_shown(stored.drop_first()),
        }
    }
}

pub open spec fn readable(stored: Seq<StoredMessage>) -> Seq<Result<StoredMessage, String>> {
    stored.map_values(|message: StoredMessage| Ok::<StoredMessage, String>(message))
}

proof fn lemma_latest(stored: Seq<StoredMessage>, limit: nat, so_far: Seq<ChatMessageView>)
    requires
        so_far.len() < limit,
    ensures
        latest(readable(stored), limit, so_far) == Ok::<Seq<ChatMessageView>, Seq<char>>(
            (so_far + all_shown(stored)).take(
                if so_far.len() + all_shown(stored).len() < limit {
                    (so_far.len() + all_shown(stored).len()) as int
                } else {
                    limit as int
                },
            ),
        ),
    decreases stored.len(),
{
    let whole = so_far + all_shown(stored);
    if stored.len() == 0 {
        assert(whole.take(so_far.len() as int) =~= so_far);
    } else {
        let rest = stored.drop_first();
        assert(readable(stored)[0] == Ok::<StoredMessage, String>(stored[0]));
        assert(readable(stored).drop_first() =~= readable(rest));
        match stored[0].shown() {
            None => {
                lemma_latest(rest, limit, so_far);
            },
            Some(shown) => {
                let next = so_far.push(shown);
                assert(next + all_shown(rest) =~= whole);
                if next.len() == limit {
                    assert(whole.take(limit as int) =~= next);
                } else {
                    lemma_latest(rest, limit, next);
                }
            },
        }
    }
}

/// Where every stored message can be read, the newest messages are the first
/// ones that show anything, at most as many as asked for.
pub proof fn latest_are_the_first_shown(stored: Seq<StoredMessage>, limit: nat)
    requires
        limit > 0,
    ensures
        latest(readable(stored), limit, Seq::empty()) == Ok::<Seq<ChatMessageView>, Seq<char>>(
            all_shown(stored).take(
                if all_shown(stored).len() < limit {
                    all_shown(stored).len() as int
                } else {
                    limit as int
                },
            ),
        ),
{
    lemma_latest(stored, limit, Seq::empty());
    assert(Seq::<ChatMessageView>::empty() + all_shown(stored) =~= all_shown(stored));
}

// ---------------------------------------------------------------------------
// Sending
// ---------------------------------------------------------------------------

/// The message that is sent to a conversation.
pub open spec fn outgoing(
    conversation: ConversationView,
    text: Seq<char>,
    timestamp: u64,
) -> DataMessageView {
    DataMessageView {
        body: Some(text),
        timestamp: Some(timestamp),
        group_v2: match conversation.id {
            ConversationIdView::Contact(_) => None,
            ConversationIdView::Group(key) => Some(
                GroupContextView { master_key: key, revision: conversation.group_revision },
            ),
        },
        ..empty_message()
    }
}

/// The message that is sent to a conversation.
pub fn outgoing_message(conversation: &Conversation, text: &str, timestamp: u64) -> (data:
    DataMessage)
    ensures
        data@ == outgoing(conversation@, text@, timestamp),
{
    let mut data: DataMessage = DataMessage::default();
    data.body = Some(text.to_owned());
    data.timestamp = Some(timestamp);
    if let ConversationId::Group(key) = &conversation.id {
        data.group_v2 = Some(
            GroupContext {
                master_key: copy_bytes(key.as_slice()),
                revision: conversation.group_revision,
            },
        );
    }
    data
}

/// A message that was just sent.
pub open spec fn just_sent(text: Seq<char>, timestamp: u64) -> ChatMessageView {
    ChatMessageView {
        timestamp,
        mine: true,
        sender: None,
        body: text,
        kind: MessageKind::Text,
        attachments: Seq::empty(),
    }
}

/// How a message that was just sent is shown.
pub fn sent_message(text: String, timestamp: u64) -> (message: ChatMessage)
    ensures
        message@ == just_sent(text@, timestamp),
{
    let attachments: Vec<ChatAttachment> = Vec::new();
    assert(attachment_views(attachments@) =~= Seq::<ChatAttachmentView>::empty());
    ChatMessage {
        timestamp,
        mine: true,
        sender: None,
        body: text,
        kind: MessageKind::Text,
        attachments,
    }
}

/// A sent message, read back out of the store as another device's copy of it,
/// shows what was shown when it was sent.
pub proof fn sent_message_reads_back(
    conversation: ConversationView,
    text: Seq<char>,
    timestamp: u64,
    content: ContentView,
    sent: SentView,
    stored_name: Option<Seq<char>>,
)
    requires
        text.len() > 0,
        content.timestamp == timestamp,
        content.body == ContentBodyView::SynchronizeMessage(Some(sent)),
        sent.message == Some(outgoing(conversation, text, timestamp)),
    ensures
        displayed(content, stored_name) == Some(just_sent(text, timestamp)),
{
    assert(attachments_of(timestamp, Seq::empty()) =~= Seq::<ChatAttachmentView>::empty());
}

// ---------------------------------------------------------------------------
// Receiving
// ---------------------------------------------------------------------------

/// What the receiving side hands over.
#[derive(Debug, PartialEq, Eq)]
pub enum Received {
    /// An envelope, with the conversation that it belongs to or the reason why
    /// that could not be told.
    Content { conversation: Result<ConversationId, String>, body: ContentBody },
    Contacts,
    QueueEmpty,
}

/// What the rest of the program hears of the network.
#[derive(Debug, PartialEq, Eq)]
pub enum NetworkEvent {
    Message { conversation: ConversationId, incoming: bool },
    ConversationsChanged,
    QueueEmpty,
    Error(String),
}

pub enum NetworkEventView {
    Message { conversation: ConversationIdView, incoming: bool },
    ConversationsChanged,
    QueueEmpty,
    Error(Seq<char>),
}

impl View for NetworkEvent {
    type V = NetworkEventView;

    open spec fn view(&self) -> NetworkEventView {
        match self {
            NetworkEvent::Message { conversation, incoming } => NetworkEventView::Message {
                conversation: conversation@,
                incoming: *incoming,
            },
            NetworkEvent::ConversationsChanged => NetworkEventView::ConversationsChanged,
            NetworkEvent::QueueEmpty => NetworkEventView::QueueEmpty,
            NetworkEvent::Error(error) => NetworkEventView::Error(error@),
        }
    }
}

/// Whether an envelope comes from elsewhere, and not from another device of
/// this account.
pub open spec fn is_incoming(body: ContentBodyView) -> bool {
    !(body is SynchronizeMessage)
}

pub open spec fn event_of(received: Received) -> NetworkEventView {
    match received {
        Received::Content { conversation: Ok(id), body } => NetworkEventView::Message {
            conversation: id@,
            incoming: is_incoming(body@),
        },
        Received::Content { conversation: Err(error), .. } => NetworkEventView::Error(error@),
        Received::Contacts => NetworkEventView::ConversationsChanged,
        Received::QueueEmpty => NetworkEventView::QueueEmpty,
    }
}

/// What the rest of the program hears of something received.
pub fn network_event(received: Received) -> (event: NetworkEvent)
    ensures
        event@ == event_of(received),
{
    match received {
        Received::Content { conversation, body } => match conversation {
            Ok(conversation) => {
                let incoming = match &body {
                    ContentBody::SynchronizeMessage(_) => false,
                    _ => true,
                };
                NetworkEvent::Message { conversation, incoming }
            },
            Err(error) => NetworkEvent::Error(error),
        },
        Received::Contacts => NetworkEvent::ConversationsChanged,
        Received::QueueEmpty => NetworkEvent::QueueEmpty,
    }
}

/// What a receive stream that ends too early is reported as.
pub const STREAM_ENDED: &'static str = "Signal receive stream ended before synchronization completed";

/// What a synchronization that takes too long is reported as.
pub const SYNC_TIMED_OUT: &'static str = "timed out waiting for Signal synchronization";

/// What waiting for the queued messages came to so far.
#[derive(Debug, PartialEq, Eq)]
pub enum Wait {
    Pending,
    Done,
    Failed(String),
}

pub enum WaitView {
    Pending,
    Done,
    Failed(Seq<char>),
}

impl View for Wait {
    type V = WaitView;

    open spec fn view(&self) -> WaitView {
        match self {
            Wait::Pending => WaitView::Pending,
            Wait::Done => WaitView::Done,
            Wait::Failed(error) => WaitView::Failed(error@),
        }
    }
}

/// What one more event means for the wait; no event is the end of the stream.
pub open spec fn wait_after(event: Option<NetworkEventView>) -> WaitView {
    match event {
        Some(NetworkEventView::QueueEmpty) => WaitView::Done,
        Some(NetworkEventView::Error(error)) => WaitView::Failed(error),
        Some(_) => WaitView::Pending,
        None => WaitView::Failed(STREAM_ENDED@),
    }
}

/// Waits for the queued messages: what one more event means for the wait.
pub fn sync_pending(event: Option<NetworkEvent>) -> (wait: Wait)
    ensures
        wait@ == wait_after(
            match event {
                Some(event) => Some(event@),
                None => None,
            },
        ),
{
    match event {
        Some(NetworkEvent::QueueEmpty) => Wait::Done,
        Some(NetworkEvent::Error(error)) => Wait::Failed(error),
        Some(_) => Wait::Pending,
        None => Wait::Failed(STREAM_ENDED.to_owned()),
    }
}

// ---------------------------------------------------------------------------
// The catalog of attachments
// ---------------------------------------------------------------------------

/// An attachment with the message and the chat that it stands in.
#[derive(Debug, PartialEq, Eq)]
pub struct AttachmentOccurrence {
    pub chat: Conversation,
    pub timestamp: u64,
    pub attachment: ChatAttachment,
}

#[verifier::ext_equal]
pub struct AttachmentOccurrenceView {
    pub chat: ConversationView,
    pub timestamp: u64,
    pub attachment: ChatAttachmentView,
}

impl View for AttachmentOccurrence {
    type V = AttachmentOccurrenceView;

    open spec fn view(&self) -> AttachmentOccurrenceView {
        AttachmentOccurrenceView {
            chat: self.chat@,
            timestamp: self.timestamp,
            attachment: self.attachment@,
        }
    }
}

impl Clone for AttachmentOccurrence {
    fn clone(&self) -> (copy: Self)
        ensures
            copy@ == self@,
    {
        AttachmentOccurrence {
            chat: self.chat.clone(),
            timestamp: self.timestamp,
            attachment: self.attachment.clone(),
        }
    }
}

pub open spec fn occurrence_views(list: Seq<AttachmentOccurrence>) -> Seq<AttachmentOccurrenceView> {
    list.map_values(|occurrence: AttachmentOccurrence| occurrence@)
}

/// The attachments of one message.
pub open spec fn message_occurrences(chat: ConversationView, message: ChatMessageView) -> Seq<
    AttachmentOccurrenceView,
> {
    message.attachments.map_values(
        |attachment: ChatAttachmentView|
            AttachmentOccurrenceView { chat, timestamp: message.timestamp, attachment },
    )
}

/// The attachments of the messages of one chat.
pub open spec fn chat_occurrences(chat: ConversationView, messages: Seq<ChatMessageView>) -> Seq<
    AttachmentOccurrenceView,
>
    decreases messages.len(),
{
    if messages.len() == 0 {
        Seq::empty()
    } else {
        chat_occurrences(chat, messages.drop_last()) + message_occurrences(chat, messages.last())
    }
}

/// A chat with some of its messages.
#[derive(Debug, PartialEq, Eq)]
pub struct ChatMessages {
    pub chat: Conversation,
    pub messages: Vec<ChatMessage>,
}

/// The attachments of all chats.
pub open spec fn all_occurrences(chats: Seq<ChatMessages>) -> Seq<AttachmentOccurrenceView>
    decreases chats.len(),
{
    if chats.len() == 0 {
        Seq::empty()
    } else {
        all_occurrences(chats.drop_last()) + chat_occurrences(
            chats.last().chat@,
            message_views(chats.last().messages@),
        )
    }
}

pub open spec fn newest_key(occurrence: AttachmentOccurrenceView) -> SortKeyView {
    SortKeyView { number: -(occurrence.timestamp as int), first: ""@, second: ""@ }
}

/// The attachments of all chats, newest first.
pub open spec fn catalog(chats: Seq<ChatMessages>) -> Seq<AttachmentOccurrenceView> {
    let list = all_occurrences(chats);
    sorted_by_key(
        list,
        list.map_values(|occurrence: AttachmentOccurrenceView| newest_key(occurrence)),
    )
}

fn push_occurrences(
    list: &mut Vec<AttachmentOccurrence>,
    chat: &Conversation,
    message: &ChatMessage,
)
    ensures
        occurrence_views(final(list)@) == occurrence_views(old(list)@) + message_occurrences(
            chat@,
            message@,
        ),
{
    let ghost before = occurrence_views(list@);
    let ghost more = message_occurrences(chat@, message@);
    assert(before + more.take(0) =~= before);
    for i in 0..message.attachments.len()
        invariant
            more == message_occurrences(chat@, message@),
            occurrence_views(list@) == before + more.take(i as int),
    {
        let occurrence = AttachmentOccurrence {
            chat: chat.clone(),
            timestamp: message.timestamp,
            attachment: message.attachments[i].clone(),
        };
        let ghost so_far = list@;
        list.push(occurrence);
        assert(occurrence_views(list@) =~= occurrence_views(so_far).push(occurrence@));
        assert(more.take(i + 1) =~= more.take(i as int).push(more[i as int]));
        assert(occurrence_views(list@) =~= before + more.take(i + 1));
    }
    assert(more.take(more.len() as int) =~= more);
}

/// The attachments of all chats, newest first.
pub fn attachment_catalog(chats: &Vec<ChatMessages>) -> (list: Vec<AttachmentOccurrence>)
    ensures
        occurrence_views(list@) == catalog(chats@),
{
    let mut unsorted: Vec<AttachmentOccurrence> = Vec::new();
    assert(occurrence_views(unsorted@) =~= all_occurrences(chats@.take(0)));
    for i in 0..chats.len()
        invariant
            occurrence_views(unsorted@) == all_occurrences(chats@.take(i as int)),
    {
        let entry = &chats[i];
        let ghost so_far = occurrence_views(unsorted@);
        let ghost messages = message_views(entry.messages@);
        assert(so_far + chat_occurrences(entry.chat@, messages.take(0)) =~= so_far);
        for j in 0..entry.messages.len()
            invariant
                messages == message_views(entry.messages@),
                occurrence_views(unsorted@) == so_far + chat_occurrences(
                    entry.chat@,
                    messages.take(j as int),
                ),
        {
            assert(messages.take(j + 1).drop_last() =~= messages.take(j as int));
            assert(messages.take(j + 1).last() == entry.messages@[j as int]@);
            push_occurrences(&mut unsorted, &entry.chat, &entry.messages[j]);
            assert(occurrence_views(unsorted@) =~= so_far + chat_occurrences(
                entry.chat@,
                messages.take(j + 1),
            ));
        }
        assert(messages.take(messages.len() as int) =~= messages);
        assert(chats@.take(i + 1).drop_last() =~= chats@.take(i as int));
    }
    assert(chats@.take(chats@.len() as int) =~= chats@);
    let ghost all = occurrence_views(unsorted@);
    let ghost all_keys = all.map_values(
        |occurrence: AttachmentOccurrenceView| newest_key(occurrence),
    );
    let mut keys: Vec<SortKey> = Vec::new();
    for i in 0..unsorted.len()
        invariant
            keys@.len() == i,
            forall|j: int| 0 <= j < i ==> (#[trigger] keys@[j])@ == newest_key(unsorted@[j]@),
    {
        let number: i128 = 0 - unsorted[i].timestamp as i128;
        keys.push(SortKey { number, first: "".to_owned(), second: "".to_owned() });
    }
    let order = sort_indices(&keys);
    assert(key_views(keys@) =~= all_keys);
    let mut list: Vec<AttachmentOccurrence> = Vec::new();
    for i in 0..order.len()
        invariant
            is_order(key_views(keys@), as_ints(order@)),
            keys@.len() == unsorted@.len(),
            list@.len() == i,
            forall|j: int| 0 <= j < i ==> (#[trigger] list@[j])@ == unsorted@[order@[j] as int]@,
    {
        assert(as_ints(order@)[i as int] == order@[i as int]);
        list.push(unsorted[order[i]].clone());
    }
    proof {
        let ints = as_ints(order@);
        assert forall|j: int| 0 <= j < list@.len() implies (#[trigger] list@[j])@ == all[ints[j]] by {
            assert(ints[j] == order@[j]);
            assert(0 <= ints[j] < keys@.len());
        }
        assert(occurrence_views(list@) =~= sorted_by_key(all, all_keys));
    }
    list
}

/// The catalog holds every attachment of every message, and its times go down.
pub proof fn every_attachment_is_in_the_catalog(chats: Seq<ChatMessages>)
    ensures
        catalog(chats).to_multiset() == all_occurrences(chats).to_multiset(),
        forall|i: int, j: int|
            0 <= i < j < catalog(chats).len() ==> (#[trigger] catalog(chats)[i]).timestamp >= (
            #[trigger] catalog(chats)[j]).timestamp,
{
    let list = all_occurrences(chats);
    let keys = list.map_values(|occurrence: AttachmentOccurrenceView| newest_key(occurrence));
    let sorted = catalog(chats);
    sorted_list_holds_every_item(list, keys);
    order_exists(keys);
    let order = stable_order(keys);
    assert forall|i: int, j: int| 0 <= i < j < sorted.len() implies (
    #[trigger] sorted[i]).timestamp >= (#[trigger] sorted[j]).timestamp by {
        assert(0 <= order[i] < keys.len() && 0 <= order[j] < keys.len());
        assert(!keys[order[j]].below(keys[order[i]]));
        assert(keys[order[i]] == newest_key(sorted[i]));
        assert(keys[order[j]] == newest_key(sorted[j]));
    }
}

// ---------------------------------------------------------------------------
// The history of a chat
// ---------------------------------------------------------------------------

/// What each stored message shows, where it shows anything.
pub open spec fn what_is_shown() -> spec_fn(StoredMessage) -> Option<ChatMessageView> {
    |message: StoredMessage| displayed(message.content@, optional(message.sender_name))
}

proof fn lemma_all_shown(stored: Seq<StoredMessage>)
    ensures
        all_shown(stored) == stored.filter_map(what_is_shown()),
    decreases stored.len(),
{
    if stored.len() > 0 {
        lemma_all_shown(stored.drop_first());
        lemma_filter_map_front(stored, what_is_shown());
    }
}

proof fn lemma_filter_map_front<A, B>(list: Seq<A>, pick: spec_fn(A) -> Option<B>)
    requires
        list.len() > 0,
    ensures
        list.filter_map(pick) == (match pick(list[0]) {
            Some(item) => seq![item],
            None => Seq::empty(),
        }) + list.drop_first().filter_map(pick),
    decreases list.len(),
{
    reveal_with_fuel(Seq::filter_map, 2);
    if list.len() == 1 {
        assert(list.drop_last() =~= Seq::empty());
        assert(list.drop_first() =~= Seq::empty());
    } else {
        let fewer = list.drop_last();
        lemma_filter_map_front(fewer, pick);
        assert(fewer.drop_first() =~= list.drop_first().drop_last());
        assert(fewer[0] == list[0]);
        assert(list.drop_first().last() == list.last());
    }
}

/// The history of a chat is the newest messages that show anything, at most two
/// hundred and fifty, turned round: out of the store they come newest first, and
/// the history ends with the newest.
pub proof fn history_is_the_newest_turned_round(stored: Seq<StoredMessage>)
    ensures
        ({
            let shown = stored.filter_map(what_is_shown());
            let count = if shown.len() < 250 {
                shown.len() as int
            } else {
                250
            };
            history_view(readable(stored)) matches Ok(history) && history.len() == count
                && forall|i: int|
                0 <= i < count ==> #[trigger] history[i] == shown[count - 1 - i]
        }),
{
    lemma_all_shown(stored);
    latest_are_the_first_shown(stored, HISTORY_LIMIT as nat);
}

/// A message that cannot be read stands in the way of a history, unless two
/// hundred and fifty newer ones fill it.
pub proof fn history_stops_at_what_cannot_be_read(
    before: Seq<StoredMessage>,
    error: String,
    after: Seq<Result<StoredMessage, String>>,
)
    ensures
        ({
            let stored = readable(before) + seq![Err::<StoredMessage, String>(error)] + after;
            &&& before.filter_map(what_is_shown()).len() < 250 ==> history_view(stored) == Err::<
                Seq<ChatMessageView>,
                Seq<char>,
            >(error@)
            &&& before.filter_map(what_is_shown()).len() >= 250 ==> history_view(stored)
                == history_view(readable(before))
        }),
{
    lemma_all_shown(before);
    lemma_latest_stops(before, error, after, HISTORY_LIMIT as nat, Seq::empty());
}

proof fn lemma_latest_stops(
    before: Seq<StoredMessage>,
    error: String,
    after: Seq<Result<StoredMessage, String>>,
    limit: nat,
    so_far: Seq<ChatMessageView>,
)
    requires
        so_far.len() < limit,
    ensures
        ({
            let stored = readable(before) + seq![Err::<StoredMessage, String>(error)] + after;
            &&& so_far.len() + all_shown(before).len() < limit ==> latest(stored, limit, so_far)
                == Err::<Seq<ChatMessageView>, Seq<char>>(error@)
            &&& so_far.len() + all_shown(before).len() >= limit ==> latest(stored, limit, so_far)
                == latest(readable(before), limit, so_far)
        }),
    decreases before.len(),
{
    let stored = readable(before) + seq![Err::<StoredMessage, String>(error)] + after;
    if before.len() == 0 {
        assert(stored[0] == Err::<StoredMessage, String>(error));
    } else {
        let rest = before.drop_first();
        assert(stored[0] == Ok::<StoredMessage, String>(before[0]));
        assert(readable(before)[0] == Ok::<StoredMessage, String>(before[0]));
        assert(readable(before).drop_first() =~= readable(rest));
        assert(stored.drop_first() =~= readable(rest) + seq![Err::<StoredMessage, String>(error)]
            + after);
        match before[0].shown() {
            None => {
                lemma_latest_stops(rest, error, after, limit, so_far);
            },
            Some(shown) => {
                if so_far.len() + 1 < limit {
                    lemma_latest_stops(rest, error, after, limit, so_far.push(shown));
                }
            },
        }
    }
}

/// Where the store hands its messages out newest first, a history runs from the
/// oldest to the newest.
pub proof fn history_runs_forward(
    stored: Seq<Result<StoredMessage, String>>,
    history: Seq<ChatMessageView>,
)
    requires
        history_view(stored) == Ok::<Seq<ChatMessageView>, Seq<char>>(history),
        forall|i: int, j: int|
            0 <= i < j < stored.len() && (#[trigger] stored[i]) is Ok && (#[trigger] stored[j]) is Ok
                ==> stored[i]->Ok_0.content@.timestamp >= stored[j]->Ok_0.content@.timestamp,
    ensures
        forall|i: int, j: int|
            0 <= i < j < history.len() ==> (#[trigger] history[i]).timestamp <= (
            #[trigger] history[j]).timestamp,
{
    lemma_latest_falls(stored, HISTORY_LIMIT as nat, Seq::empty());
}

proof fn lemma_latest_falls(
    stored: Seq<Result<StoredMessage, String>>,
    limit: nat,
    so_far: Seq<ChatMessageView>,
)
    requires
        latest(stored, limit, so_far) is Ok,
        forall|i: int, j: int|
            0 <= i < j < stored.len() && (#[trigger] stored[i]) is Ok && (#[trigger] stored[j]) is Ok
                ==> stored[i]->Ok_0.content@.timestamp >= stored[j]->Ok_0.content@.timestamp,
        forall|i: int, j: int|
            0 <= i < j < so_far.len() ==> (#[trigger] so_far[i]).timestamp >= (
            #[trigger] so_far[j]).timestamp,
        forall|i: int, j: int|
            0 <= i < so_far.len() && 0 <= j < stored.len() && (#[trigger] stored[j]) is Ok ==> (
            #[trigger] so_far[i]).timestamp >= stored[j]->Ok_0.content@.timestamp,
    ensures
        ({
            let list = latest(stored, limit, so_far)->Ok_0;
            forall|i: int, j: int|
                0 <= i < j < list.len() ==> (#[trigger] list[i]).timestamp >= (
                #[trigger] list[j]).timestamp
        }),
    decreases stored.len(),
{
    if stored.len() > 0 {
        let rest = stored.drop_first();
        if let Ok(message) = stored[0] {
            match message.shown() {
                None => {
                    lemma_latest_falls(rest, limit, so_far);
                },
                Some(shown) => {
                    if so_far.len() + 1 != limit {
                        lemma_latest_falls(rest, limit, so_far.push(shown));
                    }
                },
            }
        }
    }
}

/// The last message of a history is the first stored one that shows anything.
pub proof fn history_ends_with_the_newest(
    stored: Seq<Result<StoredMessage, String>>,
    history: Seq<ChatMessageView>,
    newest: int,
    shown: ChatMessageView,
)
    requires
        history_view(stored) == Ok::<Seq<ChatMessageView>, Seq<char>>(history),
        0 <= newest < stored.len(),
        stored[newest] is Ok,
        what_is_shown()(stored[newest]->Ok_0) == Some(shown),
        forall|i: int|
            0 <= i < newest ==> (#[trigger] stored[i]) is Ok && what_is_shown()(
                stored[i]->Ok_0,
            ) is None,
    ensures
        history.len() > 0,
        history.last() == shown,
{
    lemma_latest_starts(stored, HISTORY_LIMIT as nat, newest);
}

proof fn lemma_latest_starts(stored: Seq<Result<StoredMessage, String>>, limit: nat, newest: int)
    requires
        latest(stored, limit, Seq::empty()) is Ok,
        0 <= newest < stored.len(),
        stored[newest] is Ok,
        what_is_shown()(stored[newest]->Ok_0) is Some,
        forall|i: int|
            0 <= i < newest ==> (#[trigger] stored[i]) is Ok && what_is_shown()(
                stored[i]->Ok_0,
            ) is None,
    ensures
        latest(stored, limit, Seq::empty())->Ok_0.len() > 0,
        latest(stored, limit, Seq::empty())->Ok_0[0] == what_is_shown()(stored[newest]->Ok_0)->0,
    decreases stored.len(),
{
    let rest = stored.drop_first();
    if newest == 0 {
        let shown = what_is_shown()(stored[0]->Ok_0)->0;
        let one = Seq::<ChatMessageView>::empty().push(shown);
        if 1 != limit {
            lemma_latest_extends(rest, limit, one);
            let list = latest(rest, limit, one)->Ok_0;
            assert(list.take(1)[0] == list[0]);
        }
    } else {
        assert(stored[0] is Ok);
        assert(rest[newest - 1] == stored[newest]);
        lemma_latest_starts(rest, limit, newest - 1);
    }
}

proof fn lemma_latest_extends(
    stored: Seq<Result<StoredMessage, String>>,
    limit: nat,
    so_far: Seq<ChatMessageView>,
)
    requires
        latest(stored, limit, so_far) is Ok,
    ensures
        so_far.len() <= latest(stored, limit, so_far)->Ok_0.len(),
        so_far == latest(stored, limit, so_far)->Ok_0.take(so_far.len() as int),
    decreases stored.len(),
{
    if stored.len() == 0 {
        assert(so_far.take(so_far.len() as int) =~= so_far);
    } else if let Ok(message) = stored[0] {
        let rest = stored.drop_first();
        match message.shown() {
            None => {
                lemma_latest_extends(rest, limit, so_far);
            },
            Some(shown) => {
                let next = so_far.push(shown);
                assert(next.take(so_far.len() as int) =~= so_far);
                if so_far.len() + 1 != limit {
                    lemma_latest_extends(rest, limit, next);
                    let list = latest(rest, limit, next)->Ok_0;
                    assert(list.take(so_far.len() as int) =~= list.take(
                        next.len() as int,
                    ).take(so_far.len() as int));
                }
            },
        }
    }
}

// ---------------------------------------------------------------------------
// What a message is shown as
// ---------------------------------------------------------------------------

/// A message with a text is shown with exactly that text, at its own time, with
/// one attachment for each that came with it. One that came from somebody else
/// has a sender: the name that is stored, or else the identity. One that was
/// sent from another of one's own devices is one's own, and has none.
pub proof fn messages_show_their_text(
    content: ContentView,
    stored_name: Option<Seq<char>>,
    data: DataMessageView,
)
    requires
        data.body is Some && data.body->0.len() > 0,
        ({
            ||| content.body == ContentBodyView::DataMessage(data)
            ||| content.body == ContentBodyView::EditMessage(Some(data))
            ||| content.body matches ContentBodyView::SynchronizeMessage(Some(sent))
                && sent.message == Some(data)
            ||| content.body matches ContentBodyView::SynchronizeMessage(Some(sent))
                && sent.message is None && sent.edit_message == Some(Some(data))
        }),
    ensures
        displayed(content, stored_name) matches Some(shown) && {
            &&& shown.body == data.body->0
            &&& shown.timestamp == content.timestamp
            &&& shown.mine <==> content.body is SynchronizeMessage
            &&& shown.mine <==> shown.sender is None
            &&& !shown.mine && stored_name is Some && stored_name->0.len() > 0 ==> shown.sender
                == stored_name
            &&& !shown.mine && !(stored_name is Some && stored_name->0.len() > 0)
                ==> shown.sender == Some(content.sender)
            &&& shown.kind == MessageKind::Text <==> {
                ||| content.body is DataMessage
                ||| content.body matches ContentBodyView::SynchronizeMessage(Some(sent))
                    && sent.message is Some
            }
            &&& shown.kind == MessageKind::Text || shown.kind == MessageKind::Edited
            &&& shown.attachments.len() == data.attachments.len()
            &&& forall|i: int|
                0 <= i < data.attachments.len() ==> (#[trigger] shown.attachments[i]).pointer
                    == data.attachments[i]
        },
{
}

/// A message without a text is shown by a sign for what it is, in this order of
/// precedence: a reaction, a deletion, a sticker, attachments, a poll, a vote or
/// the end of a poll, a payment, a contact, a call in a group, a gift, a pin. It
/// is not shown at all where it is none of these.
pub proof fn signs_stand_for_what_has_no_text(
    content: ContentView,
    stored_name: Option<Seq<char>>,
    data: DataMessageView,
)
    requires
        data.body is None || data.body->0.len() == 0,
        content.body == ContentBodyView::DataMessage(data),
    ensures
        ({
            let shown = displayed(content, stored_name);
            let text = shown->0.body;
            let kind = shown->0.kind;
            let deleted = data.delete || data.admin_delete;
            let plain = data.reaction is None && !deleted && data.sticker is None;
            let bare = plain && data.attachments.len() == 0;
            let polled = data.poll_vote || data.poll_terminate;
            let pinned = data.pin_message || data.unpin_message;
            &&& data.reaction is Some && data.reaction->0.remove != Some(true) ==> shown is Some
                && kind == MessageKind::Reaction && text == "[reaction "@ + (
            if data.reaction->0.emoji is Some {
                data.reaction->0.emoji->0
            } else {
                "?"@
            }) + "]"@
            &&& data.reaction is Some && data.reaction->0.remove == Some(true) ==> shown is Some
                && kind == MessageKind::Reaction && text == "[removed reaction "@ + (
            if data.reaction->0.emoji is Some {
                data.reaction->0.emoji->0
            } else {
                "?"@
            }) + "]"@
            &&& data.reaction is None && deleted ==> shown is Some && kind == MessageKind::Deleted
                && text == "[message deleted]"@
            &&& data.reaction is None && !deleted && data.sticker is Some ==> shown is Some && kind
                == MessageKind::Sticker && text == "[sticker"@ + (if data.sticker->0 is Some {
                data.sticker->0->0
            } else {
                Seq::empty()
            }) + "]"@
            &&& plain && data.attachments.len() > 0 ==> shown is Some && kind
                == MessageKind::Attachment && text.len() == 0
            &&& bare && data.poll_create is Some ==> shown is Some && kind == MessageKind::Poll
                && text == "[poll: "@ + (if data.poll_create->0 is Some {
                data.poll_create->0->0
            } else {
                "poll"@
            }) + "]"@
            &&& bare && data.poll_create is None && polled ==> shown is Some && kind
                == MessageKind::Poll && text == "[poll update]"@
            &&& bare && data.poll_create is None && !polled && data.payment ==> shown is Some
                && kind == MessageKind::Payment && text == "[payment]"@
            &&& bare && data.poll_create is None && !polled && !data.payment && data.contact
                ==> shown is Some && kind == MessageKind::Contact && text == "[shared contact]"@
            &&& bare && data.poll_create is None && !polled && !data.payment && !data.contact
                && data.group_call_update ==> shown is Some && kind == MessageKind::Call && text
                == "[group call update]"@
            &&& bare && data.poll_create is None && !polled && !data.payment && !data.contact
                && !data.group_call_update && data.gift_badge ==> shown is Some && kind
                == MessageKind::NonText && text == "[gift badge]"@
            &&& bare && data.poll_create is None && !polled && !data.payment && !data.contact
                && !data.group_call_update && !data.gift_badge && pinned ==> shown is Some && kind
                == MessageKind::NonText && text == "[pinned-message update]"@
            &&& shown is None <==> bare && data.poll_create is None && !polled && !data.payment
                && !data.contact && !data.group_call_update && !data.gift_badge && !pinned
            &&& shown is Some ==> !shown->0.mine && shown->0.timestamp == content.timestamp
                && shown->0.attachments.len() == data.attachments.len()
        }),
{
    reveal_strlit("");
    reveal_strlit("[");
    reveal_strlit(" ");
    reveal_strlit("reaction");
    reveal_strlit("removed reaction");
    reveal_strlit("[reaction ");
    reveal_strlit("[removed reaction ");
    assert("["@ + "reaction"@ + " "@ =~= "[reaction "@);
    assert("["@ + "removed reaction"@ + " "@ =~= "[removed reaction "@);
    assert(""@ =~= Seq::<char>::empty());
}

/// An edit without a text is shown as an edit wherever the message alone would
/// be shown, and hidden where it would not.
pub proof fn edits_are_marked(
    content: ContentView,
    plain: ContentView,
    stored_name: Option<Seq<char>>,
    data: DataMessageView,
)
    requires
        data.body is None || data.body->0.len() == 0,
        content.body == ContentBodyView::EditMessage(Some(data)),
        plain.body == ContentBodyView::DataMessage(data),
    ensures
        displayed(content, stored_name) is Some <==> displayed(plain, stored_name) is Some,
        displayed(content, stored_name) matches Some(shown) ==> shown.body == "[edited message]"@
            && shown.kind == MessageKind::Edited,
{
}

/// A call, a story and a message that could not be decrypted are shown by a sign
/// and without attachments. Receipts, signs of typing and what is there for the
/// protocol alone are not shown.
pub proof fn events_are_shown_or_hidden(content: ContentView, stored_name: Option<Seq<char>>)
    ensures
        ({
            let shown = displayed(content, stored_name);
            &&& content.body is CallMessage ==> shown is Some && shown->0.body == "[call event]"@
                && shown->0.kind == MessageKind::Call
            &&& content.body is StoryMessage ==> shown is Some && shown->0.body == "[story]"@
                && shown->0.kind == MessageKind::Story
            &&& content.body is DecryptionErrorMessage ==> shown is Some && shown->0.body
                == "[message could not be decrypted]"@ && shown->0.kind == MessageKind::NonText
            &&& content.body is CallMessage || content.body is StoryMessage
                || content.body is DecryptionErrorMessage ==> shown->0.attachments.len() == 0
                && !shown->0.mine && shown->0.timestamp == content.timestamp
            &&& content.body is NullMessage || content.body is ReceiptMessage
                || content.body is TypingMessage || content.body is PniSignatureMessage
                || content.body == ContentBodyView::EditMessage(None) || content.body
                == ContentBodyView::SynchronizeMessage(None) ==> shown is None
        }),
{
}

/// A copy of what one sent from another device is shown as one's own: the
/// message first, then the edit, then the story, and nothing where it holds none
/// of these.
pub proof fn own_messages_are_mirrored(
    content: ContentView,
    received: ContentView,
    stored_name: Option<Seq<char>>,
    sent: SentView,
)
    requires
        content.body == ContentBodyView::SynchronizeMessage(Some(sent)),
        received.timestamp == content.timestamp,
        sent.message matches Some(data) ==> received.body == ContentBodyView::DataMessage(data),
        sent.message is None && sent.edit_message is Some ==> received.body
            == ContentBodyView::EditMessage(sent.edit_message->0),
        sent.message is None && sent.edit_message is None && sent.story_message
            ==> received.body is StoryMessage,
        sent.message is None && sent.edit_message is None && !sent.story_message
            ==> received.body is NullMessage,
    ensures
        displayed(content, stored_name) is Some <==> displayed(received, stored_name) is Some,
        displayed(content, stored_name) matches Some(shown) ==> shown == (ChatMessageView {
            mine: true,
            sender: None,
            ..displayed(received, stored_name)->0
        }),
{
}

/// An attachment carries what is known of its file, and a name and a type only
/// where they say anything. Its key is the digest in hexadecimal, or else the
/// identifier that its sender gave it; one without either is told apart by the
/// time of its message and its place in it.
pub proof fn attachments_carry_their_files(
    timestamp: u64,
    pointers: Seq<AttachmentPointerView>,
    index: int,
)
    requires
        0 <= index < pointers.len(),
    ensures
        attachments_of(timestamp, pointers).len() == pointers.len(),
        ({
            let attachment = attachments_of(timestamp, pointers)[index];
            let pointer = pointers[index];
            &&& attachment.pointer == pointer
            &&& attachment.size == pointer.size
            &&& attachment.width == pointer.width
            &&& attachment.height == pointer.height
            &&& attachment.file_name is Some <==> pointer.file_name is Some && !is_blank(
                pointer.file_name->0,
            )
            &&& attachment.file_name is Some ==> attachment.file_name == pointer.file_name
            &&& attachment.content_type is Some <==> pointer.content_type is Some && !is_blank(
                pointer.content_type->0,
            )
            &&& attachment.content_type is Some ==> attachment.content_type
                == pointer.content_type
            &&& pointer.digest is Some ==> attachment.key == hex_text(pointer.digest->0)
            &&& pointer.digest is None && pointer.client_uuid is Some ==> attachment.key
                == hex_text(pointer.client_uuid->0)
            &&& pointer.digest is None && pointer.client_uuid is None ==> attachment.key
                == "missing-"@ + decimal(timestamp as nat) + "-"@ + decimal(index as nat)
        }),
{
}

/// A file can be downloaded exactly where its key, its place and its digest are
/// known; it is then named by its digest. It is shown as "attachment" where it
/// has no name.
pub proof fn downloads_need_a_digest(attachment: ChatAttachmentView)
    ensures
        attachment.download_id() is Some <==> attachment.pointer.key is Some
            && attachment.pointer.attachment_identifier is Some
            && attachment.pointer.digest is Some,
        attachment.download_id() is Some ==> attachment.download_id()->0 == hex_text(
            attachment.pointer.digest->0,
        ),
        attachment.file_name is Some ==> attachment.display_name() == attachment.file_name->0,
        attachment.file_name is None ==> attachment.display_name() == "attachment"@,
{
}

/// A picture is shown only with a digest, of a type that can be drawn, up to
/// fifty mebibytes and forty million pixels; a size that is not known is no
/// hindrance. Parameters behind the type make no difference.
pub proof fn previews_have_limits(attachment: ChatAttachmentView)
    ensures
        attachment.can_preview() ==> {
            &&& attachment.pointer.digest is Some
            &&& attachment.size is Some ==> attachment.size->0 <= 50 * 1024 * 1024
            &&& attachment.width is Some && attachment.height is Some ==> attachment.width->0
                * attachment.height->0 <= 40_000_000
            &&& attachment.content_type is Some
        },
        attachment.is_supported_image() && attachment.pointer.digest is Some && attachment.size
            is None && attachment.width is None ==> attachment.can_preview(),
        attachment.is_supported_image() && attachment.pointer.digest is Some && (attachment.size
            is Some ==> attachment.size->0 <= 50 * 1024 * 1024) && (attachment.width is Some
            && attachment.height is Some ==> attachment.width->0 * attachment.height->0
            <= 40_000_000) ==> attachment.can_preview(),
        attachment.is_supported_image() ==> {
            let media = trimmed(pieces(attachment.content_type->0, ';')[0]);
            media == "image/png"@ || media == "image/jpeg"@ || media == "image/jpg"@ || media
                == "image/webp"@ || media == "image/gif"@
        },
        forall|media: Seq<char>|
            attachment.content_type is Some && trimmed(
                pieces(attachment.content_type->0, ';')[0],
            ) == media && (media == "image/png"@ || media == "image/jpeg"@ || media
                == "image/jpg"@ || media == "image/webp"@ || media == "image/gif"@)
                ==> #[trigger] is_image_type(media) && attachment.is_supported_image(),
{
}

// ---------------------------------------------------------------------------
// Conversations and events
// ---------------------------------------------------------------------------

/// A contact is titled by its name; where that is blank by its number, and where
/// there is none by its identity. The number stands below, where there is one. A
/// group is titled by its name, and below stands how many are in it.
pub proof fn conversations_are_titled(contact: StoredContact, group: StoredGroup)
    ensures
        ({
            let chat = contact_conversation(contact);
            let number = optional(contact.phone_number);
            &&& chat.id == ConversationIdView::Contact(contact.service_id@)
            &&& chat.group_revision is None
            &&& !is_blank(contact.name@) ==> chat.title == contact.name@
            &&& is_blank(contact.name@) && number is Some ==> chat.title == number->0
            &&& is_blank(contact.name@) && number is None ==> chat.title == contact.service_id@
            &&& number is Some ==> chat.subtitle == number->0
            &&& number is None ==> chat.subtitle == "Signal contact"@
        }),
        ({
            let chat = group_conversation(group);
            &&& chat.id == ConversationIdView::Group(group.key@)
            &&& chat.group_revision == Some(group.revision)
            &&& group.title@.len() > 0 ==> chat.title == group.title@
            &&& group.title@.len() == 0 ==> chat.title == "Unnamed group"@
            &&& chat.subtitle == decimal(group.members as nat) + " members"@
        }),
{
}

/// Every contact and every group is in the list of conversations, and nothing
/// else is.
pub proof fn list_holds_contacts_and_groups(
    contacts: Seq<StoredContact>,
    groups: Seq<StoredGroup>,
)
    ensures
        unsorted_conversations(contacts, groups).len() == contacts.len() + groups.len(),
        forall|i: int|
            0 <= i < contacts.len() ==> unsorted_conversations(contacts, groups).contains(
                contact_conversation(#[trigger] contacts[i]),
            ),
        forall|i: int|
            0 <= i < groups.len() ==> unsorted_conversations(contacts, groups).contains(
                group_conversation(#[trigger] groups[i]),
            ),
{
    let all = unsorted_conversations(contacts, groups);
    assert forall|i: int| 0 <= i < contacts.len() implies all.contains(
        contact_conversation(#[trigger] contacts[i]),
    ) by {
        assert(all[i] == contact_conversation(contacts[i]));
    }
    assert forall|i: int| 0 <= i < groups.len() implies all.contains(
        group_conversation(#[trigger] groups[i]),
    ) by {
        assert(all[contacts.len() + i] == group_conversation(groups[i]));
    }
}

/// A query that is no identifier finds the conversations with the query in their
/// title, compared in lower case, all of them and in the order of the list.
pub proof fn fragments_find_titles(list: Seq<ConversationView>, query: Seq<char>)
    requires
        forall|i: int| 0 <= i < list.len() ==> (#[trigger] list[i]).id.stable_id() != query,
    ensures
        matching(list, query) == list.filter(
            |chat: ConversationView|
                exists|at: int|
                    #![trigger lowercase(chat.title).subrange(at, at + lowercase(query).len())]
                    0 <= at <= lowercase(chat.title).len() - lowercase(query).len() && lowercase(
                        chat.title,
                    ).subrange(at, at + lowercase(query).len()) == lowercase(query),
        ),
{
    lemma_no_id(list, query, 0);
    let holds = |chat: ConversationView|
        exists|at: int|
            #![trigger lowercase(chat.title).subrange(at, at + lowercase(query).len())]
            0 <= at <= lowercase(chat.title).len() - lowercase(query).len() && lowercase(
                chat.title,
            ).subrange(at, at + lowercase(query).len()) == lowercase(query);
    assert forall|chat: ConversationView| #[trigger] holds(chat) == title_holds(chat, query) by {
        let title = lowercase(chat.title);
        let wanted = lowercase(query);
        if title_holds(chat, query) {
            let at = choose|at: int| crate::text::stands_at(title, wanted, at);
            assert(title.subrange(at, at + wanted.len()) == wanted);
        }
        if holds(chat) {
            let at = choose|at: int|
                #![trigger title.subrange(at, at + wanted.len())]
                0 <= at <= title.len() - wanted.len() && title.subrange(at, at + wanted.len())
                    == wanted;
            assert(crate::text::stands_at(title, wanted, at));
        }
    }
    lemma_titled(list, query, holds);
}

proof fn lemma_no_id(list: Seq<ConversationView>, query: Seq<char>, from: int)
    requires
        0 <= from,
        forall|i: int| 0 <= i < list.len() ==> (#[trigger] list[i]).id.stable_id() != query,
    ensures
        index_of_id(list, query, from) is None,
    decreases list.len() - from,
{
    if from < list.len() {
        lemma_no_id(list, query, from + 1);
    }
}

proof fn lemma_titled(
    list: Seq<ConversationView>,
    query: Seq<char>,
    holds: spec_fn(ConversationView) -> bool,
)
    requires
        forall|chat: ConversationView| #[trigger] holds(chat) == title_holds(chat, query),
    ensures
        titled(list, query) == list.filter(holds),
    decreases list.len(),
{
    reveal(Seq::filter);
    if list.len() > 0 {
        lemma_titled(list.drop_last(), query, holds);
        assert(holds(list.last()) == title_holds(list.last(), query));
    }
}

/// What stands for a conversation in commands says what kind it is, and then
/// which one: a contact by its identity, a group by its key in hexadecimal.
pub proof fn stable_ids_say_what_they_name(id: ConversationIdView)
    ensures
        id matches ConversationIdView::Contact(aci) ==> id.stable_id() == "contact:"@ + aci
            && id.kind() == "contact"@,
        id matches ConversationIdView::Group(key) ==> id.stable_id() == "group:"@ + hex_text(key)
            && id.kind() == "group"@,
{
}

/// What is sent holds the text, the time and nothing else; to a group it also
/// says which group, and which revision of it is known.
pub proof fn outgoing_messages_name_the_group(
    conversation: ConversationView,
    text: Seq<char>,
    timestamp: u64,
)
    ensures
        ({
            let data = outgoing(conversation, text, timestamp);
            &&& data.body == Some(text)
            &&& data.timestamp == Some(timestamp)
            &&& conversation.id is Contact <==> data.group_v2 is None
            &&& conversation.id matches ConversationIdView::Group(key) ==> data.group_v2 == Some(
                GroupContextView { master_key: key, revision: conversation.group_revision },
            )
            &&& data.attachments.len() == 0
            &&& data.reaction is None && !data.delete && !data.admin_delete && data.sticker is None
            &&& data.poll_create is None && !data.poll_vote && !data.poll_terminate
            &&& !data.payment && !data.contact && !data.group_call_update && !data.gift_badge
            &&& !data.pin_message && !data.unpin_message
        }),
{
}

/// Every envelope becomes an event for its conversation, and counts as incoming
/// unless it mirrors what one sent oneself; one whose conversation cannot be
/// told becomes an error. A waiting caller is done when the queue is empty, and
/// fails with an error or with the end of the stream.
pub proof fn events_say_what_came(received: Received)
    ensures
        received matches Received::Content { conversation: Ok(id), body } ==> event_of(received)
            == (NetworkEventView::Message {
            conversation: id@,
            incoming: !(body@ is SynchronizeMessage),
        }),
        received matches Received::Content { conversation: Err(error), .. } ==> event_of(received)
            == NetworkEventView::Error(error@),
        received is Contacts ==> event_of(received) is ConversationsChanged,
        received is QueueEmpty ==> event_of(received) is QueueEmpty,
        received is QueueEmpty <==> wait_after(Some(event_of(received))) is Done,
        received matches Received::Content { conversation: Err(error), .. } ==> wait_after(
            Some(event_of(received)),
        ) == WaitView::Failed(error@),
        received is Contacts || (received matches Received::Content { conversation: Ok(_), .. })
            ==> wait_after(Some(event_of(received))) is Pending,
        wait_after(None) is Failed,
{
}

/// The catalog holds every attachment of every message of every chat, with the
/// chat and the time of the message that it came with.
pub proof fn catalog_leaves_nothing_out(
    chats: Seq<ChatMessages>,
    chat: int,
    message: int,
    attachment: int,
)
    requires
        0 <= chat < chats.len(),
        0 <= message < chats[chat].messages@.len(),
        0 <= attachment < chats[chat].messages@[message]@.attachments.len(),
    ensures
        catalog(chats).contains(
            AttachmentOccurrenceView {
                chat: chats[chat].chat@,
                timestamp: chats[chat].messages@[message].timestamp,
                attachment: chats[chat].messages@[message]@.attachments[attachment],
            },
        ),
{
    let wanted = AttachmentOccurrenceView {
        chat: chats[chat].chat@,
        timestamp: chats[chat].messages@[message].timestamp,
        attachment: chats[chat].messages@[message]@.attachments[attachment],
    };
    let all = all_occurrences(chats);
    lemma_occurrence_is_there(chats, chat, message, attachment);
    every_attachment_is_in_the_catalog(chats);
    all.to_multiset_ensures();
    catalog(chats).to_multiset_ensures();
    assert(all.to_multiset().count(wanted) > 0);
}

proof fn lemma_occurrence_is_there(
    chats: Seq<ChatMessages>,
    chat: int,
    message: int,
    attachment: int,
)
    requires
        0 <= chat < chats.len(),
        0 <= message < chats[chat].messages@.len(),
        0 <= attachment < chats[chat].messages@[message]@.attachments.len(),
    ensures
        all_occurrences(chats).contains(
            AttachmentOccurrenceView {
                chat: chats[chat].chat@,
                timestamp: chats[chat].messages@[message].timestamp,
                attachment: chats[chat].messages@[message]@.attachments[attachment],
            },
        ),
    decreases chats.len(),
{
    let wanted = AttachmentOccurrenceView {
        chat: chats[chat].chat@,
        timestamp: chats[chat].messages@[message].timestamp,
        attachment: chats[chat].messages@[message]@.attachments[attachment],
    };
    let fewer = chats.drop_last();
    let before = all_occurrences(fewer);
    let last = chat_occurrences(chats.last().chat@, message_views(chats.last().messages@));
    if chat == chats.len() - 1 {
        lemma_chat_occurrence_is_there(
            chats.last().chat@,
            message_views(chats.last().messages@),
            message,
            attachment,
        );
        let at = choose|at: int| 0 <= at < last.len() && last[at] == wanted;
        assert((before + last)[before.len() + at] == wanted);
    } else {
        lemma_occurrence_is_there(fewer, chat, message, attachment);
        let at = choose|at: int| 0 <= at < before.len() && before[at] == wanted;
        assert((before + last)[at] == wanted);
    }
}

proof fn lemma_chat_occurrence_is_there(
    chat: ConversationView,
    messages: Seq<ChatMessageView>,
    message: int,
    attachment: int,
)
    requires
        0 <= message < messages.len(),
        0 <= attachment < messages[message].attachments.len(),
    ensures
        chat_occurrences(chat, messages).contains(
            AttachmentOccurrenceView {
                chat,
                timestamp: messages[message].timestamp,
                attachment: messages[message].attachments[attachment],
            },
        ),
    decreases messages.len(),
{
    let wanted = AttachmentOccurrenceView {
        chat,
        timestamp: messages[message].timestamp,
        attachment: messages[message].attachments[attachment],
    };
    let fewer = messages.drop_last();
    let before = chat_occurrences(chat, fewer);
    let last = message_occurrences(chat, messages.last());
    if message == messages.len() - 1 {
        assert((before + last)[before.len() + attachment] == wanted);
    } else {
        lemma_chat_occurrence_is_there(chat, fewer, message, attachment);
        let at = choose|at: int| 0 <= at < before.len() && before[at] == wanted;
        assert((before + last)[at] == wanted);
    }
}

/// The newest messages, as many as are asked for, are the first of those that
/// show anything, in the order in which the store hands them out.
pub proof fn newest_messages_come_first(stored: Seq<StoredMessage>, limit: nat)
    requires
        limit > 0,
    ensures
        ({
            let shown = stored.filter_map(what_is_shown());
            latest(readable(stored), limit, Seq::empty()) matches Ok(list) && {
                &&& shown.len() <= limit ==> list == shown
                &&& shown.len() > limit ==> list.len() == limit && forall|i: int|
                    0 <= i < limit ==> #[trigger] list[i] == shown[i]
            }
        }),
{
    lemma_all_shown(stored);
    latest_are_the_first_shown(stored, limit);
    let shown = all_shown(stored);
    assert(shown.take(shown.len() as int) =~= shown);
}

/// What a history is handed over as: a list whose times go up wherever those of
/// the stored messages go down, and whose last message has the time of the first
/// stored one that shows anything; or the error of the store.
pub proof fn handed_over_history_runs_forward(
    stored: Seq<Result<StoredMessage, String>>,
    result: Result<Vec<ChatMessage>, String>,
    newest: int,
)
    requires
        messages_view(result) == history_view(stored),
        forall|i: int, j: int|
            0 <= i < j < stored.len() && (#[trigger] stored[i]) is Ok && (#[trigger] stored[j]) is Ok
                ==> stored[i]->Ok_0.content.timestamp >= stored[j]->Ok_0.content.timestamp,
        0 <= newest < stored.len(),
        stored[newest] is Ok,
        what_is_shown()(stored[newest]->Ok_0) is Some,
        forall|i: int|
            0 <= i < newest ==> (#[trigger] stored[i]) is Ok && what_is_shown()(
                stored[i]->Ok_0,
            ) is None,
    ensures
        result matches Ok(list) ==> {
            &&& list@.len() > 0
            &&& list@.last().timestamp == stored[newest]->Ok_0.content.timestamp
            &&& forall|i: int, j: int|
                0 <= i < j < list@.len() ==> (#[trigger] list@[i]).timestamp <= (
                #[trigger] list@[j]).timestamp
        },
        result is Err <==> history_view(stored) is Err,
{
    if let Ok(list) = result {
        let history = message_views(list@);
        history_runs_forward(stored, history);
        history_ends_with_the_newest(
            stored,
            history,
            newest,
            what_is_shown()(stored[newest]->Ok_0)->0,
        );
        assert forall|i: int, j: int| 0 <= i < j < list@.len() implies (
        #[trigger] list@[i]).timestamp <= (#[trigger] list@[j]).timestamp by {
            assert(history[i].timestamp <= history[j].timestamp);
        }
        assert(history.last() == list@.last()@);
    }
}

/// A message that is handed over shows what it is seen as: its time, its text,
/// its kind, its sender, whose it is, and what came with it.
pub proof fn messages_are_seen_as_they_are(message: ChatMessage)
    ensures
        message@.timestamp == message.timestamp,
        message@.body == message.body@,
        message@.kind == message.kind,
        message@.mine == message.mine,
        message.sender is None <==> message@.sender is None,
        message.sender matches Some(name) ==> message@.sender == Some(name@),
        message@.attachments.len() == message.attachments@.len(),
        forall|i: int|
            0 <= i < message.attachments@.len() ==> (#[trigger] message@.attachments[i]).key
                == message.attachments@[i].key@,
{
}

/// A conversation that is handed over is seen as what it holds.
pub proof fn conversations_are_seen_as_they_are(conversation: Conversation)
    ensures
        conversation@.title == conversation.title@,
        conversation@.subtitle == conversation.subtitle@,
        conversation@.group_revision == conversation.group_revision,
        conversation.id is Contact <==> conversation@.id is Contact,
        conversation.id matches ConversationId::Contact(id) ==> conversation@.id
            == ConversationIdView::Contact(id@),
        conversation.id matches ConversationId::Group(key) ==> conversation@.id
            == ConversationIdView::Group(key@),
{
}

/// What the catalog is made from: the attachments of each message of each chat,
/// in order, each once, with its chat and the time of its message.
pub proof fn attachments_go_chat_by_chat(chats: Seq<ChatMessages>)
    ensures
        all_occurrences(chats) == chats.flat_map(
            |chat: ChatMessages|
                message_views(chat.messages@).flat_map(
                    |message: ChatMessageView|
                        message.attachments.map_values(
                            |attachment: ChatAttachmentView|
                                AttachmentOccurrenceView {
                                    chat: chat.chat@,
                                    timestamp: message.timestamp,
                                    attachment,
                                },
                        ),
                ),
        ),
    decreases chats.len(),
{
    let pick = |chat: ChatMessages|
        message_views(chat.messages@).flat_map(
            |message: ChatMessageView|
                message.attachments.map_values(
                    |attachment: ChatAttachmentView|
                        AttachmentOccurrenceView {
                            chat: chat.chat@,
                            timestamp: message.timestamp,
                            attachment,
                        },
                ),
        );
    if chats.len() > 0 {
        let fewer = chats.drop_last();
        let last = chats.last();
        attachments_go_chat_by_chat(fewer);
        fewer.lemma_flat_map_push(pick, last);
        assert(fewer.push(last) =~= chats);
        lemma_chat_occurrences(last.chat@, message_views(last.messages@));
        assert(pick(last) == chat_occurrences(last.chat@, message_views(last.messages@)));
    } else {
        assert(chats.map_values(pick) =~= Seq::<Seq<AttachmentOccurrenceView>>::empty());
        assert(chats.flat_map(pick) =~= Seq::<AttachmentOccurrenceView>::empty());
    }
}

proof fn lemma_chat_occurrences(chat: ConversationView, messages: Seq<ChatMessageView>)
    ensures
        chat_occurrences(chat, messages) == messages.flat_map(
            |message: ChatMessageView|
                message.attachments.map_values(
                    |attachment: ChatAttachmentView|
                        AttachmentOccurrenceView { chat, timestamp: message.timestamp, attachment },
                ),
        ),
    decreases messages.len(),
{
    let pick = |message: ChatMessageView|
        message.attachments.map_values(
            |attachment: ChatAttachmentView|
                AttachmentOccurrenceView { chat, timestamp: message.timestamp, attachment },
        );
    if messages.len() > 0 {
        let fewer = messages.drop_last();
        let last = messages.last();
        lemma_chat_occurrences(chat, fewer);
        fewer.lemma_flat_map_push(pick, last);
        assert(fewer.push(last) =~= messages);
        assert(pick(last) =~= message_occurrences(chat, last));
    } else {
        assert(messages.map_values(pick) =~= Seq::<Seq<AttachmentOccurrenceView>>::empty());
        assert(messages.flat_map(pick) =~= Seq::<AttachmentOccurrenceView>::empty());
    }
}

/// A message that is shown has the attachments that came with it, known by the
/// time of the message; it is shown at that time, and under its sender.
pub proof fn shown_messages_keep_their_attachments(
    content: ContentView,
    stored_name: Option<Seq<char>>,
    data: DataMessageView,
    shown: ChatMessageView,
)
    requires
        content.body == ContentBodyView::DataMessage(data) || content.body
            == ContentBodyView::EditMessage(Some(data)),
        displayed(content, stored_name) == Some(shown),
    ensures
        shown.attachments == attachments_of(content.timestamp, data.attachments),
        shown.timestamp == content.timestamp,
        !shown.mine,
        shown.sender is Some,
        stored_name is Some && stored_name->0.len() > 0 ==> shown.sender == stored_name,
        stored_name is None || stored_name->0.len() == 0 ==> shown.sender == Some(content.sender),
{
}

} // verus!
