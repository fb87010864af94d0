//! The history archive that a phone hands over when a terminal is linked: how
//! its frames become contacts, groups and messages of the store.
use vstd::prelude::*;

use crate::backend::{
    attachments_of, displayed, empty_message, pointer_views, shown_sender, AttachmentIdentifier,
    AttachmentIdentifierView, AttachmentPointer, AttachmentPointerView, ChatMessageView, Content,
    ContentBody, ContentBodyView, ContentView, ConversationId, ConversationIdView, DataMessage,
    DataMessageView, GroupContext, GroupContextView, MessageKind, Sent, SentView, ServiceId,
};
use crate::bytes::{copy_bytes, fixed_32, optional_bytes};
use crate::json::{
    field_of, field_views, json_view, json_views, lemma_json_views, Json, JsonView,
};
use crate::number::{hex_bytes, hex_decode};
use crate::text::{
    blank, is_blank, join, joined, lemma_texts_push, optional, same_text, texts,
};

verus! {

// ---------------------------------------------------------------------------
// Identities
// ---------------------------------------------------------------------------

/// What the texts of an archive were read as: each text that is an account
/// identity, with that identity.
#[derive(Debug, PartialEq, Eq)]
pub struct Identities {
    pub entries: Vec<(String, ServiceId)>,
}

pub open spec fn identity_views(entries: Seq<(String, ServiceId)>) -> Seq<(Seq<char>, Seq<char>)> {
    entries.map_values(|entry: (String, ServiceId)| (entry.0@, entry.1@))
}

impl View for Identities {
    type V = Seq<(Seq<char>, Seq<char>)>;

    open spec fn view(&self) -> Seq<(Seq<char>, Seq<char>)> {
        identity_views(self.entries@)
    }
}

/// The identity that a text was read as.
pub open spec fn identity(known: Seq<(Seq<char>, Seq<char>)>, text: Seq<char>) -> Option<Seq<char>>
    decreases known.len(),
{
    if known.len() == 0 {
        None
    } else if known[0].0 == text {
        Some(known[0].1)
    } else {
        identity(known.drop_first(), text)
    }
}

/// The identity that a text was read as, where there is a text.
pub open spec fn identity_at(
    known: Seq<(Seq<char>, Seq<char>)>,
    text: Option<Seq<char>>,
) -> Option<Seq<char>> {
    match text {
        Some(text) => identity(known, text),
        None => None,
    }
}

pub open spec fn service_view(id: Option<ServiceId>) -> Option<Seq<char>> {
    match id {
        Some(id) => Some(id@),
        None => None,
    }
}

impl Identities {
    /// The identity that a text was read as.
    pub fn find(&self, text: &str) -> (id: Option<ServiceId>)
        ensures
            service_view(id) == identity(self@, text@),
    {
        let ghost known = self@;
        assert(known.skip(0) =~= known);
        for i in 0..self.entries.len()
            invariant
                known == identity_views(self.entries@),
                identity(known, text@) == identity(known.skip(i as int), text@),
        {
            let entry = &self.entries[i];
            assert(known.skip(i as int)[0] == (entry.0@, entry.1@));
            assert(known.skip(i as int).drop_first() =~= known.skip(i + 1));
            if same_text(entry.0.as_str(), text) {
                return Some(entry.1.clone());
            }
        }
        None
    }

    /// The identity that the text of a field was read as.
    fn find_at(&self, value: &Json, field: &str) -> (id: Option<ServiceId>)
        ensures
            service_view(id) == identity_at(self@, value@.text_at(field@)),
    {
        match value.str_at(field) {
            Some(text) => self.find(text.as_str()),
            None => None,
        }
    }
}

/// The text of a field that names an account.
pub open spec fn own_identity(field: (Seq<char>, JsonView)) -> Seq<Seq<char>> {
    if (field.0 == "aci"@ || field.0 == "user_id"@) && field.1 is Text {
        seq![field.1->Text_0]
    } else {
        Seq::empty()
    }
}

/// The texts of all fields, at any depth, that name an account.
pub open spec fn named_accounts(value: JsonView) -> Seq<Seq<char>>
    decreases value,
{
    match value {
        JsonView::Array(items) => accounts_in_items(items),
        JsonView::Object(fields) => accounts_in_fields(fields),
        _ => Seq::empty(),
    }
}

pub open spec fn accounts_in_items(items: Seq<JsonView>) -> Seq<Seq<char>>
    decreases items,
{
    if items.len() == 0 {
        Seq::empty()
    } else {
        accounts_in_items(items.drop_last()) + named_accounts(items.last())
    }
}

pub open spec fn accounts_in_fields(fields: Seq<(Seq<char>, JsonView)>) -> Seq<Seq<char>>
    decreases fields,
{
    if fields.len() == 0 {
        Seq::empty()
    } else {
        accounts_in_fields(fields.drop_last()) + own_identity(fields.last()) + named_accounts(
            fields.last().1,
        )
    }
}

fn append_texts(list: &mut Vec<String>, more: Vec<String>)
    ensures
        texts(final(list)@) == texts(old(list)@) + texts(more@),
{
    let ghost before = texts(list@);
    assert(before + texts(more@).take(0) =~= before);
    for i in 0..more.len()
        invariant
            texts(list@) == before + texts(more@).take(i as int),
    {
        let text = more[i].clone();
        proof {
            lemma_texts_push(list@, text);
        }
        list.push(text);
        assert(texts(more@).take(i + 1) =~= texts(more@).take(i as int).push(text@));
        assert(texts(list@) =~= before + texts(more@).take(i + 1));
    }
    assert(texts(more@).take(more@.len() as int) =~= texts(more@));
}

/// The texts of an archive that have to be read as account identities.
pub fn account_texts(value: &Json) -> (list: Vec<String>)
    ensures
        texts(list@) == named_accounts(value@),
    decreases value,
{
    let mut list: Vec<String> = Vec::new();
    assert(texts(list@) =~= Seq::<Seq<char>>::empty());
    proof {
        lemma_json_views(*value);
    }
    match value {
        Json::Array(items) => {
            let ghost views = json_views(items@);
            assert(accounts_in_items(views.take(0)) =~= Seq::<Seq<char>>::empty());
            for i in 0..items.len()
                invariant
                    *value == Json::Array(*items),
                    views == json_views(items@),
                    texts(list@) == accounts_in_items(views.take(i as int)),
            {
                assert(views.take(i + 1).drop_last() =~= views.take(i as int));
                assert(views.take(i + 1).last() == items@[i as int]@);
                assert(decreases_to!(value => value->Array_0));
                assert(decreases_to!(items => items@));
                assert(decreases_to!(items@ => items@[i as int]));
                let more = account_texts(&items[i]);
                append_texts(&mut list, more);
            }
            assert(views.take(views.len() as int) =~= views);
        },
        Json::Object(fields) => {
            let ghost views = field_views(fields@);
            assert(accounts_in_fields(views.take(0)) =~= Seq::<Seq<char>>::empty());
            for i in 0..fields.len()
                invariant
                    *value == Json::Object(*fields),
                    views == field_views(fields@),
                    texts(list@) == accounts_in_fields(views.take(i as int)),
            {
                let field = &fields[i];
                assert(views.take(i + 1).drop_last() =~= views.take(i as int));
                assert(views.take(i + 1).last() == (field.0@, field.1@));
                let ghost before = texts(list@);
                if same_text(field.0.as_str(), "aci") || same_text(field.0.as_str(), "user_id") {
                    if let Json::Text(text) = &field.1 {
                        let copy = text.clone();
                        proof {
                            lemma_texts_push(list@, copy);
                        }
                        list.push(copy);
                    }
                }
                assert(texts(list@) =~= before + own_identity((field.0@, field.1@)));
                assert(decreases_to!(value => value->Object_0));
                assert(decreases_to!(fields => fields@));
                assert(decreases_to!(fields@ => fields@[i as int]));
                assert(decreases_to!(fields@[i as int] => fields@[i as int].1));
                let more = account_texts(&field.1);
                append_texts(&mut list, more);
            }
            assert(views.take(views.len() as int) =~= views);
        },
        _ => {},
    }
    list
}

proof fn lemma_fields_hold(
    fields: Seq<(Seq<char>, JsonView)>,
    index: int,
    text: Seq<char>,
)
    requires
        0 <= index < fields.len(),
        own_identity(fields[index]).contains(text) || named_accounts(fields[index].1).contains(
            text,
        ),
    ensures
        accounts_in_fields(fields).contains(text),
    decreases fields.len(),
{
    let before = accounts_in_fields(fields.drop_last());
    let own = own_identity(fields.last());
    let inner = named_accounts(fields.last().1);
    let all = before + own + inner;
    if index < fields.len() - 1 {
        lemma_fields_hold(fields.drop_last(), index, text);
        let at = choose|at: int| 0 <= at < before.len() && before[at] == text;
        assert(all[at] == text);
    } else if own.contains(text) {
        let at = choose|at: int| 0 <= at < own.len() && own[at] == text;
        assert(all[before.len() + at] == text);
    } else {
        let at = choose|at: int| 0 <= at < inner.len() && inner[at] == text;
        assert(all[before.len() + own.len() + at] == text);
    }
}

proof fn lemma_items_hold(items: Seq<JsonView>, index: int, text: Seq<char>)
    requires
        0 <= index < items.len(),
        named_accounts(items[index]).contains(text),
    ensures
        accounts_in_items(items).contains(text),
    decreases items.len(),
{
    let before = accounts_in_items(items.drop_last());
    let inner = named_accounts(items.last());
    let all = before + inner;
    if index < items.len() - 1 {
        lemma_items_hold(items.drop_last(), index, text);
        let at = choose|at: int| 0 <= at < before.len() && before[at] == text;
        assert(all[at] == text);
    } else {
        let at = choose|at: int| 0 <= at < inner.len() && inner[at] == text;
        assert(all[before.len() + at] == text);
    }
}

proof fn lemma_field_index(fields: Seq<(Seq<char>, JsonView)>, name: Seq<char>) -> (index: int)
    requires
        field_of(fields, name) is Some,
    ensures
        0 <= index < fields.len(),
        fields[index] == (name, field_of(fields, name)->0),
    decreases fields.len(),
{
    if fields[0].0 == name {
        0
    } else {
        let index = lemma_field_index(fields.drop_first(), name) + 1;
        assert(fields[index] == fields.drop_first()[index - 1]);
        index
    }
}

/// Every text that the import reads as an identity is among the texts that are
/// read beforehand: it stands in a field `aci` or `user_id`, and what stands
/// anywhere inside a value is named for the value as a whole.
pub proof fn accounts_are_named(value: JsonView, field: Seq<char>, text: Seq<char>, index: int)
    ensures
        value.text_at("aci"@) == Some(text) ==> named_accounts(value).contains(text),
        value.text_at("user_id"@) == Some(text) ==> named_accounts(value).contains(text),
        value.get(field) is Some && named_accounts(value.get(field)->0).contains(text)
            ==> named_accounts(value).contains(text),
        value matches JsonView::Array(items) ==> (0 <= index < items.len() && named_accounts(
            items[index],
        ).contains(text) ==> named_accounts(value).contains(text)),
{
    match value {
        JsonView::Object(fields) => {
            if value.text_at("aci"@) == Some(text) {
                let at = lemma_field_index(fields, "aci"@);
                assert(own_identity(fields[at])[0] == text);
                lemma_fields_hold(fields, at, text);
            }
            if value.text_at("user_id"@) == Some(text) {
                let at = lemma_field_index(fields, "user_id"@);
                assert(own_identity(fields[at])[0] == text);
                lemma_fields_hold(fields, at, text);
            }
            if value.get(field) is Some && named_accounts(value.get(field)->0).contains(text) {
                let at = lemma_field_index(fields, field);
                lemma_fields_hold(fields, at, text);
            }
        },
        JsonView::Array(items) => {
            if 0 <= index < items.len() && named_accounts(items[index]).contains(text) {
                lemma_items_hold(items, index, text);
            }
        },
        _ => {},
    }
}

// ---------------------------------------------------------------------------
// Fields
// ---------------------------------------------------------------------------

/// A number that fits 32 bits.
pub open spec fn small(number: Option<u64>) -> Option<u32> {
    match number {
        Some(number) => if number <= u32::MAX {
            Some(number as u32)
        } else {
            None
        },
        None => None,
    }
}

fn small_at(value: &Json, field: &str) -> (number: Option<u32>)
    ensures
        number == small(value@.number_at(field@)),
{
    match value.u64_at(field) {
        Some(number) => if number <= u32::MAX as u64 {
            Some(number as u32)
        } else {
            None
        },
        None => None,
    }
}

pub open spec fn or_zero(number: Option<u32>) -> u32 {
    match number {
        Some(number) => number,
        None => 0,
    }
}

fn small_or_zero(value: &Json, field: &str) -> (number: u32)
    ensures
        number == or_zero(small(value@.number_at(field@))),
{
    match small_at(value, field) {
        Some(number) => number,
        None => 0,
    }
}

/// The bytes that a text writes in hexadecimal, where there is a text.
pub open spec fn hex_at(text: Option<Seq<char>>) -> Option<Seq<u8>> {
    match text {
        Some(text) => hex_bytes(text),
        None => None,
    }
}

fn bytes_of(value: &Json) -> (bytes: Option<Vec<u8>>)
    ensures
        optional_bytes(bytes) == hex_at(value@.text()),
{
    match value.as_str() {
        Some(text) => hex_decode(text.as_str()),
        None => None,
    }
}

fn bytes_at(value: &Json, field: &str) -> (bytes: Option<Vec<u8>>)
    ensures
        optional_bytes(bytes) == hex_at(value@.text_at(field@)),
{
    match value.str_at(field) {
        Some(text) => hex_decode(text.as_str()),
        None => None,
    }
}

fn copy_at(value: &Json, field: &str) -> (text: Option<String>)
    ensures
        optional(text) == value@.text_at(field@),
{
    match value.str_at(field) {
        Some(text) => Some(text.clone()),
        None => None,
    }
}

// ---------------------------------------------------------------------------
// Contacts and groups
// ---------------------------------------------------------------------------

/// A field's text where it says anything, as a list of at most one.
pub open spec fn name_part(value: JsonView, field: Seq<char>) -> Seq<Seq<char>> {
    match value.text_at(field) {
        Some(text) => if is_blank(text) {
            Seq::empty()
        } else {
            seq![text]
        },
        None => Seq::empty(),
    }
}

/// A name in two fields: both parts with a space between, or the one there is.
pub open spec fn name_in(value: JsonView, given: Seq<char>, family: Seq<char>) -> Seq<char> {
    joined(name_part(value, given) + name_part(value, family), " "@)
}

fn push_part(parts: &mut Vec<String>, value: &Json, field: &str)
    ensures
        texts(final(parts)@) == texts(old(parts)@) + name_part(value@, field@),
{
    let ghost before = parts@;
    if let Some(text) = value.str_at(field) {
        if !blank(text.as_str()) {
            let copy = text.clone();
            proof {
                lemma_texts_push(parts@, copy);
            }
            parts.push(copy);
            assert(texts(parts@) =~= texts(before) + name_part(value@, field@));
        } else {
            assert(texts(before) + name_part(value@, field@) =~= texts(before));
        }
    } else {
        assert(texts(before) + name_part(value@, field@) =~= texts(before));
    }
}

fn read_name(value: &Json, given: &str, family: &str) -> (name: String)
    ensures
        name@ == name_in(value@, given@, family@),
{
    let mut parts: Vec<String> = Vec::new();
    assert(texts(parts@) =~= Seq::<Seq<char>>::empty());
    push_part(&mut parts, value, given);
    push_part(&mut parts, value, family);
    assert(texts(parts@) =~= name_part(value@, given@) + name_part(value@, family@));
    join(&parts, " ")
}

/// The name of a contact: from its profile, else the nickname given to it, else
/// the address book, else its number.
pub open spec fn name_of_contact(contact: JsonView) -> Seq<char> {
    let profile = name_in(contact, "profile_given_name"@, "profile_family_name"@);
    let nickname = match contact.get("nickname"@) {
        Some(nickname) => name_in(nickname, "given_name"@, "family_name"@),
        None => Seq::empty(),
    };
    let system = name_in(contact, "system_given_name"@, "system_family_name"@);
    if profile.len() > 0 {
        profile
    } else if nickname.len() > 0 {
        nickname
    } else if system.len() > 0 {
        system
    } else {
        match contact.text_at("e164"@) {
            Some(number) => number,
            None => "Unknown contact"@,
        }
    }
}

/// The name of a contact.
pub fn contact_name(contact: &Json) -> (name: String)
    ensures
        name@ == name_of_contact(contact@),
{
    let profile = read_name(contact, "profile_given_name", "profile_family_name");
    if !profile.as_str().is_empty() {
        return profile;
    }
    if let Some(nickname) = contact.get("nickname") {
        let name = read_name(nickname, "given_name", "family_name");
        if !name.as_str().is_empty() {
            return name;
        }
    }
    let system = read_name(contact, "system_given_name", "system_family_name");
    if !system.as_str().is_empty() {
        return system;
    }
    match contact.str_at("e164") {
        Some(number) => number.clone(),
        None => "Unknown contact".to_owned(),
    }
}

/// A member of a restored group.
#[derive(Debug, PartialEq, Eq)]
pub struct RestoredMember {
    pub aci: ServiceId,
    pub administrator: bool,
    pub joined_at_revision: u32,
    pub label: Option<String>,
    pub label_emoji: Option<String>,
}

#[verifier::ext_equal]
pub struct RestoredMemberView {
    pub aci: Seq<char>,
    pub administrator: bool,
    pub joined_at_revision: u32,
    pub label: Option<Seq<char>>,
    pub label_emoji: Option<Seq<char>>,
}

impl View for RestoredMember {
    type V = RestoredMemberView;

    open spec fn view(&self) -> RestoredMemberView {
        RestoredMemberView {
            aci: self.aci@,
            administrator: self.administrator,
            joined_at_revision: self.joined_at_revision,
            label: optional(self.label),
            label_emoji: optional(self.label_emoji),
        }
    }
}

pub open spec fn member_views(list: Seq<RestoredMember>) -> Seq<RestoredMemberView> {
    list.map_values(|member: RestoredMember| member@)
}

/// A contact or group that goes into the store.
#[derive(Debug, PartialEq, Eq)]
pub enum Restored {
    Contact { aci: ServiceId, name: String, profile_key: Vec<u8> },
    Group {
        master_key: [u8; 32],
        title: String,
        revision: u32,
        members: Vec<RestoredMember>,
        description: Option<String>,
    },
}

pub enum RestoredView {
    Contact { aci: Seq<char>, name: Seq<char>, profile_key: Seq<u8> },
    Group {
        master_key: Seq<u8>,
        title: Seq<char>,
        revision: u32,
        members: Seq<RestoredMemberView>,
        description: Option<Seq<char>>,
    },
}

impl View for Restored {
    type V = RestoredView;

    open spec fn view(&self) -> RestoredView {
        match self {
            Restored::Contact { aci, name, profile_key } => RestoredView::Contact {
                aci: aci@,
                name: name@,
                profile_key: profile_key@,
            },
            Restored::Group {
                master_key,
                title,
                revision,
                members,
                description,
            } => RestoredView::Group {
                master_key: master_key@,
                title: title@,
                revision: *revision,
                members: member_views(members@),
                description: optional(*description),
            },
        }
    }
}

pub open spec fn restored_views(list: Seq<Restored>) -> Seq<RestoredView> {
    list.map_values(|entry: Restored| entry@)
}

/// A member as the archive gives it; none without a readable identity.
pub open spec fn member_of(known: Seq<(Seq<char>, Seq<char>)>, member: JsonView) -> Option<
    RestoredMemberView,
> {
    match identity_at(known, member.text_at("user_id"@)) {
        Some(aci) => Some(
            RestoredMemberView {
                aci,
                administrator: member.text_at("role"@) == Some("Administrator"@),
                joined_at_revision: or_zero(small(member.number_at("joined_at_version"@))),
                label: member.text_at("label_string"@),
                label_emoji: member.text_at("label_emoji"@),
            },
        ),
        None => None,
    }
}

pub open spec fn members_of(known: Seq<(Seq<char>, Seq<char>)>, members: Seq<JsonView>) -> Seq<
    RestoredMemberView,
>
    decreases members.len(),
{
    if members.len() == 0 {
        Seq::empty()
    } else {
        let before = members_of(known, members.drop_last());
        match member_of(known, members.last()) {
            Some(member) => before.push(member),
            None => before,
        }
    }
}

/// The state of a group: its own snapshot, or the group itself.
pub open spec fn snapshot_of(group: JsonView) -> JsonView {
    match group.get("snapshot"@) {
        Some(snapshot) => snapshot,
        None => group,
    }
}

/// The key of a group, where the text is one.
pub open spec fn group_key(text: Option<Seq<char>>) -> Option<Seq<u8>> {
    match hex_at(text) {
        Some(key) => if key.len() == 32 {
            Some(key)
        } else {
            None
        },
        None => None,
    }
}

pub open spec fn group_title(snapshot: JsonView) -> Seq<char> {
    match snapshot.text_at("title"@) {
        Some(title) => if is_blank(title) {
            "Unnamed group"@
        } else {
            title
        },
        None => "Unnamed group"@,
    }
}

/// What one recipient of the archive restores, if anything.
pub open spec fn restored_recipient(
    known: Seq<(Seq<char>, Seq<char>)>,
    recipient: JsonView,
) -> Option<RestoredView> {
    match recipient.get("Contact"@) {
        Some(contact) => match identity_at(known, contact.text_at("aci"@)) {
            Some(aci) => Some(
                RestoredView::Contact {
                    aci,
                    name: name_of_contact(contact),
                    profile_key: match hex_at(contact.text_at("profile_key"@)) {
                        Some(key) => key,
                        None => Seq::empty(),
                    },
                },
            ),
            None => None,
        },
        None => match recipient.get("Group"@) {
            Some(group) => match group_key(group.text_at("master_key"@)) {
                Some(master_key) => {
                    let snapshot = snapshot_of(group);
                    Some(
                        RestoredView::Group {
                            master_key,
                            title: group_title(snapshot),
                            revision: or_zero(small(snapshot.number_at("version"@))),
                            members: members_of(known, snapshot.items_at("members"@)),
                            description: snapshot.text_at("description"@),
                        },
                    )
                },
                None => None,
            },
            None => None,
        },
    }
}

pub open spec fn restored_recipients(
    known: Seq<(Seq<char>, Seq<char>)>,
    recipients: Seq<JsonView>,
) -> Seq<RestoredView>
    decreases recipients.len(),
{
    if recipients.len() == 0 {
        Seq::empty()
    } else {
        let before = restored_recipients(known, recipients.drop_last());
        match restored_recipient(known, recipients.last()) {
            Some(entry) => before.push(entry),
            None => before,
        }
    }
}

fn read_member(known: &Identities, member: &Json) -> (result: Option<RestoredMember>)
    ensures
        member_of(known@, member@) == (match result {
            Some(member) => Some(member@),
            None => None,
        }),
{
    match known.find_at(member, "user_id") {
        Some(aci) => {
            let administrator = match member.str_at("role") {
                Some(role) => same_text(role.as_str(), "Administrator"),
                None => false,
            };
            Some(
                RestoredMember {
                    aci,
                    administrator,
                    joined_at_revision: small_or_zero(member, "joined_at_version"),
                    label: copy_at(member, "label_string"),
                    label_emoji: copy_at(member, "label_emoji"),
                },
            )
        },
        None => None,
    }
}

fn read_members(known: &Identities, snapshot: &Json) -> (members: Vec<RestoredMember>)
    ensures
        member_views(members@) == members_of(known@, snapshot@.items_at("members"@)),
{
    let mut members: Vec<RestoredMember> = Vec::new();
    assert(member_views(members@) =~= Seq::<RestoredMemberView>::empty());
    if let Some(items) = snapshot.array_at("members") {
        let ghost views = json_views(items@);
        assert(members_of(known@, views.take(0)) =~= Seq::<RestoredMemberView>::empty());
        for i in 0..items.len()
            invariant
                views == json_views(items@),
                member_views(members@) == members_of(known@, views.take(i as int)),
        {
            assert(views.take(i + 1).drop_last() =~= views.take(i as int));
            assert(views.take(i + 1).last() == items@[i as int]@);
            if let Some(member) = read_member(known, &items[i]) {
                let ghost before = member_views(members@);
                members.push(member);
                assert(member_views(members@) =~= before.push(member@));
            }
        }
        assert(views.take(views.len() as int) =~= views);
    }
    members
}

fn read_group_key(group: &Json) -> (key: Option<[u8; 32]>)
    ensures
        group_key(group@.text_at("master_key"@)) == (match key {
            Some(key) => Some(key@),
            None => None,
        }),
{
    match bytes_at(group, "master_key") {
        Some(bytes) => fixed_32(&bytes),
        None => None,
    }
}

/// What one recipient of the archive restores, if anything.
fn restore_recipient(known: &Identities, recipient: &Json) -> (result: Option<Restored>)
    ensures
        restored_recipient(known@, recipient@) == (match result {
            Some(entry) => Some(entry@),
            None => None,
        }),
{
    if let Some(contact) = recipient.get("Contact") {
        match known.find_at(contact, "aci") {
            Some(aci) => {
                let profile_key: Vec<u8> = match bytes_at(contact, "profile_key") {
                    Some(key) => key,
                    None => Vec::new(),
                };
                Some(Restored::Contact { aci, name: contact_name(contact), profile_key })
            },
            None => None,
        }
    } else if let Some(group) = recipient.get("Group") {
        match read_group_key(group) {
            Some(master_key) => {
                let snapshot = match group.get("snapshot") {
                    Some(snapshot) => snapshot,
                    None => group,
                };
                let title = match snapshot.str_at("title") {
                    Some(title) => if blank(title.as_str()) {
                        "Unnamed group".to_owned()
                    } else {
                        title.clone()
                    },
                    None => "Unnamed group".to_owned(),
                };
                Some(
                    Restored::Group {
                        master_key,
                        title,
                        revision: small_or_zero(snapshot, "version"),
                        members: read_members(known, snapshot),
                        description: copy_at(snapshot, "description"),
                    },
                )
            },
            None => None,
        }
    } else {
        None
    }
}

/// The contacts and groups that the archive restores, in its order.
pub fn restore_recipients(known: &Identities, backup: &Json) -> (list: Vec<Restored>)
    ensures
        restored_views(list@) == restored_recipients(known@, backup@.items_at("recipients"@)),
{
    let mut list: Vec<Restored> = Vec::new();
    assert(restored_views(list@) =~= Seq::<RestoredView>::empty());
    if let Some(items) = backup.array_at("recipients") {
        let ghost views = json_views(items@);
        assert(restored_recipients(known@, views.take(0)) =~= Seq::<RestoredView>::empty());
        for i in 0..items.len()
            invariant
                views == json_views(items@),
                restored_views(list@) == restored_recipients(known@, views.take(i as int)),
        {
            assert(views.take(i + 1).drop_last() =~= views.take(i as int));
            assert(views.take(i + 1).last() == items@[i as int]@);
            if let Some(entry) = restore_recipient(known, &items[i]) {
                let ghost before = restored_views(list@);
                list.push(entry);
                assert(restored_views(list@) =~= before.push(entry@));
            }
        }
        assert(views.take(views.len() as int) =~= views);
    }
    list
}

// ---------------------------------------------------------------------------
// Conversations
// ---------------------------------------------------------------------------

/// The conversation with a recipient.
pub open spec fn thread_of(known: Seq<(Seq<char>, Seq<char>)>, recipient: JsonView) -> Option<
    ConversationIdView,
> {
    match recipient.get("Contact"@) {
        Some(contact) => match identity_at(known, contact.text_at("aci"@)) {
            Some(aci) => Some(ConversationIdView::Contact(aci)),
            None => None,
        },
        None => match recipient.get("Group"@) {
            Some(group) => match group_key(group.text_at("master_key"@)) {
                Some(key) => Some(ConversationIdView::Group(key)),
                None => None,
            },
            None => None,
        },
    }
}

pub open spec fn conversation_view(id: Option<ConversationId>) -> Option<ConversationIdView> {
    match id {
        Some(id) => Some(id@),
        None => None,
    }
}

/// The conversation with a recipient.
pub fn recipient_thread(known: &Identities, recipient: &Json) -> (thread: Option<ConversationId>)
    ensures
        conversation_view(thread) == thread_of(known@, recipient@),
{
    if let Some(contact) = recipient.get("Contact") {
        match known.find_at(contact, "aci") {
            Some(aci) => Some(ConversationId::Contact(aci)),
            None => None,
        }
    } else if let Some(group) = recipient.get("Group") {
        match read_group_key(group) {
            Some(key) => Some(ConversationId::Group(key)),
            None => None,
        }
    } else {
        None
    }
}

/// The identity of a recipient that is a contact.
pub open spec fn aci_of(known: Seq<(Seq<char>, Seq<char>)>, recipient: JsonView) -> Option<
    Seq<char>,
> {
    match recipient.get("Contact"@) {
        Some(contact) => identity_at(known, contact.text_at("aci"@)),
        None => None,
    }
}

/// The identity of a recipient that is a contact.
pub fn recipient_aci(known: &Identities, recipient: &Json) -> (aci: Option<ServiceId>)
    ensures
        service_view(aci) == aci_of(known@, recipient@),
{
    match recipient.get("Contact") {
        Some(contact) => known.find_at(contact, "aci"),
        None => None,
    }
}

/// A contact or group that is restored is restored under the conversation that
/// its messages go to.
pub proof fn restored_recipient_has_its_thread(
    known: Seq<(Seq<char>, Seq<char>)>,
    recipient: JsonView,
)
    ensures
        thread_of(known, recipient) == (match restored_recipient(known, recipient) {
            Some(RestoredView::Contact { aci, .. }) => Some(ConversationIdView::Contact(aci)),
            Some(RestoredView::Group { master_key, .. }) => Some(
                ConversationIdView::Group(master_key),
            ),
            None => None,
        }),
{
}

// ---------------------------------------------------------------------------
// Messages
// ---------------------------------------------------------------------------

/// The value of a field of a value that may be missing.
pub open spec fn get_in(value: Option<JsonView>, field: Seq<char>) -> Option<JsonView> {
    match value {
        Some(value) => value.get(field),
        None => None,
    }
}

/// An attachment as the archive gives it; none where it does not say where the
/// file is kept.
pub open spec fn archived_pointer(value: JsonView) -> Option<AttachmentPointerView> {
    let pointer = value.get("pointer"@);
    let locator = get_in(get_in(pointer, "locator_info"@), "LocatorInfo"@);
    let key = get_in(locator, "key"@);
    let digest = get_in(
        get_in(get_in(locator, "integrity_check"@), "EncryptedDigest"@),
        "digest"@,
    );
    let transit = get_in(locator, "transit"@);
    let cdn_key = get_in(transit, "cdn_key"@);
    let cdn_number = get_in(transit, "cdn_number"@);
    if key is Some && digest is Some && cdn_key is Some && cdn_number is Some
        && cdn_key->0 is Text {
        Some(
            AttachmentPointerView {
                content_type: pointer->0.text_at("content_type"@),
                key: hex_at(key->0.text()),
                size: small(locator->0.number_at("plaintext_size"@)),
                digest: hex_at(digest->0.text()),
                file_name: pointer->0.text_at("file_name"@),
                width: small(pointer->0.number_at("width"@)),
                height: small(pointer->0.number_at("height"@)),
                client_uuid: None,
                cdn_number: small(cdn_number->0.number()),
                attachment_identifier: Some(
                    AttachmentIdentifierView::CdnKey(cdn_key->0->Text_0),
                ),
            },
        )
    } else {
        None
    }
}

/// An attachment as the archive gives it.
pub fn archive_attachment(value: &Json) -> (result: Option<AttachmentPointer>)
    ensures
        archived_pointer(value@) == (match result {
            Some(pointer) => Some(pointer@),
            None => None,
        }),
{
    let pointer = value.get("pointer")?;
    let locator = pointer.get("locator_info")?.get("LocatorInfo")?;
    let key = bytes_of(locator.get("key")?);
    let digest = bytes_of(
        locator.get("integrity_check")?.get("EncryptedDigest")?.get("digest")?,
    );
    let transit = locator.get("transit")?;
    let cdn_key = transit.get("cdn_key")?.as_str()?.clone();
    let cdn_number = match transit.get("cdn_number")?.as_u64() {
        Some(number) => if number <= u32::MAX as u64 {
            Some(number as u32)
        } else {
            None
        },
        None => None,
    };
    Some(
        AttachmentPointer {
            content_type: copy_at(pointer, "content_type"),
            key,
            size: small_at(locator, "plaintext_size"),
            digest,
            file_name: copy_at(pointer, "file_name"),
            width: small_at(pointer, "width"),
            height: small_at(pointer, "height"),
            client_uuid: None,
            cdn_number,
            attachment_identifier: Some(AttachmentIdentifier::CdnKey(cdn_key)),
        },
    )
}

pub open spec fn archived_pointers(items: Seq<JsonView>) -> Seq<AttachmentPointerView>
    decreases items.len(),
{
    if items.len() == 0 {
        Seq::empty()
    } else {
        let before = archived_pointers(items.drop_last());
        match archived_pointer(items.last()) {
            Some(pointer) => before.push(pointer),
            None => before,
        }
    }
}

/// What stands in place of the text of a message without one.
pub open spec fn archived_placeholder(message: JsonView) -> Option<Seq<char>> {
    if message.get("Contact"@) is Some {
        Some("[shared contact]"@)
    } else if message.get("Voice"@) is Some {
        Some("[voice message]"@)
    } else if message.get("Sticker"@) is Some {
        Some("[sticker]"@)
    } else if message.get("RemoteDeleted"@) is Some {
        Some("[message deleted]"@)
    } else if message.get("Update"@) is Some {
        Some("[chat update]"@)
    } else if message.get("PaymentNotification"@) is Some {
        Some("[payment]"@)
    } else if message.get("GiftBadge"@) is Some {
        Some("[gift badge]"@)
    } else if message.get("ViewOnce"@) is Some {
        Some("[view-once message]"@)
    } else if message.get("DirectStoryReply"@) is Some {
        Some("[story reply]"@)
    } else if message.get("Poll"@) is Some {
        Some("[poll]"@)
    } else if message.get("AdminDeleted"@) is Some {
        Some("[message deleted by admin]"@)
    } else {
        None
    }
}

/// The text of an archived message and its attachments.
pub open spec fn archived_message(message: Option<JsonView>) -> Option<
    (Seq<char>, Seq<AttachmentPointerView>),
> {
    match message {
        None => None,
        Some(message) => {
            let standard = message.get("Standard"@);
            let attachments = match standard {
                Some(standard) => archived_pointers(standard.items_at("attachments"@)),
                None => Seq::empty(),
            };
            let text = match get_in(get_in(standard, "text"@), "text"@) {
                Some(text) => text.text(),
                None => None,
            };
            if text is Some {
                Some((text->0, attachments))
            } else if attachments.len() > 0 {
                Some((Seq::empty(), attachments))
            } else {
                match archived_placeholder(message) {
                    Some(label) => Some((label, Seq::empty())),
                    None => None,
                }
            }
        },
    }
}

pub open spec fn archived_view(message: Option<(String, Vec<AttachmentPointer>)>) -> Option<
    (Seq<char>, Seq<AttachmentPointerView>),
> {
    match message {
        Some((text, attachments)) => Some((text@, pointer_views(attachments@))),
        None => None,
    }
}

fn read_attachments(standard: &Json) -> (list: Vec<AttachmentPointer>)
    ensures
        pointer_views(list@) == archived_pointers(standard@.items_at("attachments"@)),
{
    let mut list: Vec<AttachmentPointer> = Vec::new();
    assert(pointer_views(list@) =~= Seq::<AttachmentPointerView>::empty());
    if let Some(items) = standard.array_at("attachments") {
        let ghost views = json_views(items@);
        assert(archived_pointers(views.take(0)) =~= Seq::<AttachmentPointerView>::empty());
        for i in 0..items.len()
            invariant
                views == json_views(items@),
                pointer_views(list@) == archived_pointers(views.take(i as int)),
        {
            assert(views.take(i + 1).drop_last() =~= views.take(i as int));
            assert(views.take(i + 1).last() == items@[i as int]@);
            if let Some(pointer) = archive_attachment(&items[i]) {
                let ghost before = pointer_views(list@);
                list.push(pointer);
                assert(pointer_views(list@) =~= before.push(pointer@));
            }
        }
        assert(views.take(views.len() as int) =~= views);
    }
    list
}

fn placeholder_label(message: &Json) -> (label: Option<&'static str>)
    ensures
        archived_placeholder(message@) == (match label {
            Some(label) => Some(label@),
            None => None,
        }),
{
    if message.get("Contact").is_some() {
        Some("[shared contact]")
    } else if message.get("Voice").is_some() {
        Some("[voice message]")
    } else if message.get("Sticker").is_some() {
        Some("[sticker]")
    } else if message.get("RemoteDeleted").is_some() {
        Some("[message deleted]")
    } else if message.get("Update").is_some() {
        Some("[chat update]")
    } else if message.get("PaymentNotification").is_some() {
        Some("[payment]")
    } else if message.get("GiftBadge").is_some() {
        Some("[gift badge]")
    } else if message.get("ViewOnce").is_some() {
        Some("[view-once message]")
    } else if message.get("DirectStoryReply").is_some() {
        Some("[story reply]")
    } else if message.get("Poll").is_some() {
        Some("[poll]")
    } else if message.get("AdminDeleted").is_some() {
        Some("[message deleted by admin]")
    } else {
        None
    }
}

/// The text of an archived message and its attachments.
pub fn archive_message(message: Option<&Json>) -> (result: Option<(String, Vec<AttachmentPointer>)>)
    ensures
        archived_view(result) == archived_message(json_view(message)),
{
    let message = message?;
    let nothing: Vec<AttachmentPointer> = Vec::new();
    assert(pointer_views(nothing@) =~= Seq::<AttachmentPointerView>::empty());
    if let Some(standard) = message.get("Standard") {
        let attachments = read_attachments(standard);
        if let Some(text) = standard.get("text") {
            if let Some(text) = text.str_at("text") {
                return Some((text.clone(), attachments));
            }
        }
        if attachments.len() > 0 {
            return Some((String::new(), attachments));
        }
    }
    match placeholder_label(message) {
        Some(label) => Some((label.to_owned(), nothing)),
        None => None,
    }
}

/// The first millisecond that a date and time can stand for, since the Unix
/// epoch.
pub const FIRST_MILLISECOND: i64 = -8_334_601_228_800_000;

/// The last millisecond that a date and time can stand for.
pub const LAST_MILLISECOND: i64 = 8_210_266_876_799_999;

/// What an archived message with an impossible time is reported as.
pub const TIMESTAMP_OUT_OF_RANGE: &'static str =
    "archive message timestamp is outside the supported range";

/// A time of 64 bits without sign, read as one with a sign.
pub open spec fn signed_time(timestamp: u64) -> int {
    if timestamp <= i64::MAX {
        timestamp as int
    } else {
        timestamp - 0x1_0000_0000_0000_0000
    }
}

pub(crate) fn with_sign(timestamp: u64) -> (millis: i64)
    ensures
        millis == signed_time(timestamp),
{
    if timestamp <= i64::MAX as u64 {
        timestamp as i64
    } else {
        let low: u64 = timestamp - 0x8000_0000_0000_0000;
        low as i64 + i64::MIN
    }
}

/// `chrono::DateTime::<Utc>::from_timestamp_millis`: gives a date and time
/// exactly for the milliseconds from the first day of the year -262143 to the
/// last day of the year 262142.
#[verifier::external_body]
pub(crate) fn is_date_time(millis: i64) -> (yes: bool)
    ensures
        yes == (FIRST_MILLISECOND <= millis <= LAST_MILLISECOND),
{
    chrono::DateTime::<chrono::Utc>::from_timestamp_millis(millis).is_some()
}

/// Whether this account sent an archived message.
pub open spec fn archived_mine(item: JsonView) -> bool {
    get_in(item.get("direction"@), "Outgoing"@) is Some
}

/// Who sent an archived message: its author where that is known, else the
/// contact it was exchanged with, else this account.
pub open spec fn archived_sender(
    known: Seq<(Seq<char>, Seq<char>)>,
    item: JsonView,
    thread: ConversationIdView,
    own_aci: Seq<char>,
) -> Seq<char> {
    if archived_mine(item) {
        own_aci
    } else {
        let author = match item.get("author"@) {
            Some(author) => aci_of(known, author),
            None => None,
        };
        match (author, thread) {
            (Some(author), _) => author,
            (None, ConversationIdView::Contact(id)) => id,
            (None, ConversationIdView::Group(_)) => own_aci,
        }
    }
}

/// Who an archived message was for.
pub open spec fn archived_destination(
    item: JsonView,
    thread: ConversationIdView,
    own_aci: Seq<char>,
) -> Seq<char> {
    match thread {
        ConversationIdView::Contact(id) => if archived_mine(item) {
            id
        } else {
            own_aci
        },
        ConversationIdView::Group(_) => own_aci,
    }
}

/// The message inside an archived envelope.
pub open spec fn archived_data(
    timestamp: u64,
    thread: ConversationIdView,
    text: Seq<char>,
    attachments: Seq<AttachmentPointerView>,
) -> DataMessageView {
    DataMessageView {
        body: Some(text),
        timestamp: Some(timestamp),
        attachments,
        group_v2: match thread {
            ConversationIdView::Contact(_) => None,
            ConversationIdView::Group(key) => Some(
                GroupContextView { master_key: key, revision: None },
            ),
        },
        ..empty_message()
    }
}

/// The envelope that an archived message is stored as: none where it has no
/// time or shows nothing, an error where its time is impossible.
pub open spec fn archived_content(
    known: Seq<(Seq<char>, Seq<char>)>,
    item: JsonView,
    thread: ConversationIdView,
    own_aci: Seq<char>,
) -> Result<Option<ContentView>, ()> {
    match (item.number_at("sent_at"@), archived_message(item.get("message"@))) {
        (Some(timestamp), Some((text, attachments))) => if FIRST_MILLISECOND <= signed_time(
            timestamp,
        ) <= LAST_MILLISECOND {
            let data = archived_data(timestamp, thread, text, attachments);
            Ok(
                Some(
                    ContentView {
                        sender: archived_sender(known, item, thread, own_aci),
                        destination: archived_destination(item, thread, own_aci),
                        sender_device: 1,
                        timestamp,
                        body: if archived_mine(item) {
                            ContentBodyView::SynchronizeMessage(
                                Some(
                                    SentView {
                                        destination_service_id: match thread {
                                            ConversationIdView::Contact(id) => Some(id),
                                            ConversationIdView::Group(_) => None,
                                        },
                                        timestamp: Some(timestamp),
                                        message: Some(data),
                                        edit_message: None,
                                        story_message: false,
                                    },
                                ),
                            )
                        } else {
                            ContentBodyView::DataMessage(data)
                        },
                    },
                ),
            )
        } else {
            Err(())
        },
        _ => Ok(None),
    }
}

pub open spec fn content_view(result: Result<Option<Content>, String>) -> Result<
    Option<ContentView>,
    (),
> {
    match result {
        Ok(Some(content)) => Ok(Some(content@)),
        Ok(None) => Ok(None),
        Err(_) => Err(()),
    }
}

fn read_sender(
    known: &Identities,
    item: &Json,
    thread: &ConversationId,
    own_aci: &ServiceId,
    mine: bool,
) -> (sender: ServiceId)
    requires
        mine == archived_mine(item@),
    ensures
        sender@ == archived_sender(known@, item@, thread@, own_aci@),
{
    if mine {
        return own_aci.clone();
    }
    if let Some(author) = item.get("author") {
        if let Some(aci) = recipient_aci(known, author) {
            return aci;
        }
    }
    match thread {
        ConversationId::Contact(id) => id.clone(),
        ConversationId::Group(_) => own_aci.clone(),
    }
}

/// The envelope that an archived message is stored as.
pub fn archive_content(
    known: &Identities,
    item: &Json,
    thread: &ConversationId,
    own_aci: &ServiceId,
) -> (result: Result<Option<Content>, String>)
    ensures
        content_view(result) == archived_content(known@, item@, thread@, own_aci@),
        result matches Err(error) ==> error@ == TIMESTAMP_OUT_OF_RANGE@,
{
    let timestamp: u64 = match item.u64_at("sent_at") {
        Some(timestamp) => timestamp,
        None => {
            return Ok(None);
        },
    };
    let (text, attachments) = match archive_message(item.get("message")) {
        Some(message) => message,
        None => {
            return Ok(None);
        },
    };
    let mine = match item.get("direction") {
        Some(direction) => direction.get("Outgoing").is_some(),
        None => false,
    };
    let sender = read_sender(known, item, thread, own_aci, mine);
    let destination = match thread {
        ConversationId::Contact(id) => if mine {
            id.clone()
        } else {
            own_aci.clone()
        },
        ConversationId::Group(_) => own_aci.clone(),
    };
    if !is_date_time(with_sign(timestamp)) {
        return Err(TIMESTAMP_OUT_OF_RANGE.to_owned());
    }
    let mut data: DataMessage = DataMessage::default();
    data.body = Some(text);
    data.timestamp = Some(timestamp);
    data.attachments = attachments;
    if let ConversationId::Group(key) = thread {
        data.group_v2 = Some(
            GroupContext { master_key: copy_bytes(key.as_slice()), revision: None },
        );
    }
    let body = if mine {
        ContentBody::SynchronizeMessage(
            Some(
                Sent {
                    destination_service_id: match thread {
                        ConversationId::Contact(id) => Some(id.service_id_string()),
                        ConversationId::Group(_) => None,
                    },
                    timestamp: Some(timestamp),
                    message: Some(data),
                    edit_message: None,
                    story_message: false,
                },
            ),
        )
    } else {
        ContentBody::DataMessage(data)
    };
    Ok(Some(Content { sender, destination, sender_device: 1, timestamp, body }))
}

/// A stored message of the archive shows its text and its attachments, on the
/// side of whoever sent it.
pub proof fn archived_text_is_shown(
    known: Seq<(Seq<char>, Seq<char>)>,
    item: JsonView,
    thread: ConversationIdView,
    own_aci: Seq<char>,
    stored_name: Option<Seq<char>>,
)
    requires
        archived_content(known, item, thread, own_aci) matches Ok(Some(_)),
        archived_message(item.get("message"@)) matches Some((text, _)) && text.len() > 0,
    ensures
        ({
            let content = archived_content(known, item, thread, own_aci)->Ok_0->0;
            let (text, attachments) = archived_message(item.get("message"@))->0;
            displayed(content, stored_name) == Some(
                ChatMessageView {
                    timestamp: item.number_at("sent_at"@)->0,
                    mine: archived_mine(item),
                    sender: if archived_mine(item) {
                        None
                    } else {
                        Some(
                            shown_sender(
                                archived_sender(known, item, thread, own_aci),
                                stored_name,
                            ),
                        )
                    },
                    body: text,
                    kind: MessageKind::Text,
                    attachments: attachments_of(item.number_at("sent_at"@)->0, attachments),
                },
            )
        }),
{
}

// ---------------------------------------------------------------------------
// The import
// ---------------------------------------------------------------------------

/// A step of the import, in the order in which they are taken.
#[derive(Debug, PartialEq, Eq)]
pub enum ImportStep {
    /// Store a message.
    Save { thread: ConversationId, content: Content },
    /// Report how many messages are stored, and remember it.
    Checkpoint { imported_messages: u64 },
}

pub enum ImportStepView {
    Save { thread: ConversationIdView, content: ContentView },
    Checkpoint { imported_messages: nat },
}

impl View for ImportStep {
    type V = ImportStepView;

    open spec fn view(&self) -> ImportStepView {
        match self {
            ImportStep::Save { thread, content } => ImportStepView::Save {
                thread: thread@,
                content: content@,
            },
            ImportStep::Checkpoint { imported_messages } => ImportStepView::Checkpoint {
                imported_messages: *imported_messages as nat,
            },
        }
    }
}

pub open spec fn step_views(steps: Seq<ImportStep>) -> Seq<ImportStepView> {
    steps.map_values(|step: ImportStep| step@)
}

/// The steps of an import, the number of messages that they store, and whether
/// the import breaks off after them.
#[derive(Debug, PartialEq, Eq)]
pub struct ImportPlan {
    pub steps: Vec<ImportStep>,
    pub imported_messages: u64,
    pub failed: bool,
}

#[verifier::ext_equal]
pub struct ImportPlanView {
    pub steps: Seq<ImportStepView>,
    pub imported_messages: nat,
    pub failed: bool,
}

impl View for ImportPlan {
    type V = ImportPlanView;

    open spec fn view(&self) -> ImportPlanView {
        ImportPlanView {
            steps: step_views(self.steps@),
            imported_messages: self.imported_messages as nat,
            failed: self.failed,
        }
    }
}

/// What an import knows of the archive apart from its frames.
pub struct ImportContext {
    pub known: Seq<(Seq<char>, Seq<char>)>,
    pub own_aci: Seq<char>,
}

/// How many messages lie between two checkpoints.
pub const CHECKPOINT_INTERVAL: u64 = 100;

/// The plan after one more message or revision.
pub open spec fn plan_message(
    plan: ImportPlanView,
    context: ImportContext,
    thread: ConversationIdView,
    item: JsonView,
) -> ImportPlanView {
    if plan.failed {
        plan
    } else {
        match archived_content(context.known, item, thread, context.own_aci) {
            Err(_) => ImportPlanView { failed: true, ..plan },
            Ok(None) => plan,
            Ok(Some(content)) => ImportPlanView {
                steps: plan.steps.push(ImportStepView::Save { thread, content }),
                imported_messages: plan.imported_messages + 1,
                failed: false,
            },
        }
    }
}

/// The plan after the revisions of a message.
pub open spec fn plan_revisions(
    plan: ImportPlanView,
    context: ImportContext,
    thread: ConversationIdView,
    revisions: Seq<JsonView>,
) -> ImportPlanView
    decreases revisions.len(),
{
    if revisions.len() == 0 {
        plan
    } else {
        plan_message(
            plan_revisions(plan, context, thread, revisions.drop_last()),
            context,
            thread,
            revisions.last(),
        )
    }
}

/// The plan after a message with its revisions.
pub open spec fn plan_item(
    plan: ImportPlanView,
    context: ImportContext,
    thread: ConversationIdView,
    item: JsonView,
) -> ImportPlanView {
    let done = plan_revisions(
        plan_message(plan, context, thread, item),
        context,
        thread,
        item.items_at("revisions"@),
    );
    if !done.failed && done.imported_messages > 0 && done.imported_messages
        % (CHECKPOINT_INTERVAL as nat) == 0 {
        ImportPlanView {
            steps: done.steps.push(
                ImportStepView::Checkpoint { imported_messages: done.imported_messages },
            ),
            ..done
        }
    } else {
        done
    }
}

/// The plan after the messages of a chat.
pub open spec fn plan_items(
    plan: ImportPlanView,
    context: ImportContext,
    thread: ConversationIdView,
    items: Seq<JsonView>,
) -> ImportPlanView
    decreases items.len(),
{
    if items.len() == 0 {
        plan
    } else {
        plan_item(
            plan_items(plan, context, thread, items.drop_last()),
            context,
            thread,
            items.last(),
        )
    }
}

/// The plan after a chat. A chat whose other side cannot be told is left out.
pub open spec fn plan_chat(
    plan: ImportPlanView,
    context: ImportContext,
    chat: JsonView,
) -> ImportPlanView {
    match chat.get("recipient"@) {
        Some(recipient) => match thread_of(context.known, recipient) {
            Some(thread) => plan_items(plan, context, thread, chat.items_at("items"@)),
            None => plan,
        },
        None => plan,
    }
}

/// The plan after a list of chats.
pub open spec fn plan_chats(context: ImportContext, chats: Seq<JsonView>) -> ImportPlanView
    decreases chats.len(),
{
    if chats.len() == 0 {
        ImportPlanView { steps: Seq::empty(), imported_messages: 0, failed: false }
    } else {
        plan_chat(plan_chats(context, chats.drop_last()), context, chats.last())
    }
}

impl ImportPlan {
    /// The number of messages is held by the list of steps.
    pub open spec fn valid(self) -> bool {
        self.imported_messages <= self.steps@.len()
    }

    fn push_message(
        &mut self,
        known: &Identities,
        own_aci: &ServiceId,
        thread: &ConversationId,
        item: &Json,
    )
        requires
            old(self).valid(),
        ensures
            final(self).valid(),
            final(self)@ == plan_message(
                old(self)@,
                ImportContext { known: known@, own_aci: own_aci@ },
                thread@,
                item@,
            ),
    {
        if self.failed {
            return;
        }
        match archive_content(known, item, thread, own_aci) {
            Err(_) => {
                self.failed = true;
            },
            Ok(None) => {},
            Ok(Some(content)) => {
                let step = ImportStep::Save { thread: thread.clone(), content };
                let ghost before = self.steps@;
                self.steps.push(step);
                assert(step_views(self.steps@) =~= step_views(before).push(step@));
                assert(self.steps.len() == step_views(self.steps@).len());
                self.imported_messages = self.imported_messages + 1;
            },
        }
    }

    fn push_item(
        &mut self,
        known: &Identities,
        own_aci: &ServiceId,
        thread: &ConversationId,
        item: &Json,
    )
        requires
            old(self).valid(),
        ensures
            final(self).valid(),
            final(self)@ == plan_item(
                old(self)@,
                ImportContext { known: known@, own_aci: own_aci@ },
                thread@,
                item@,
            ),
    {
        let ghost context = ImportContext { known: known@, own_aci: own_aci@ };
        self.push_message(known, own_aci, thread, item);
        let ghost first = self@;
        if let Some(revisions) = item.array_at("revisions") {
            let ghost views = json_views(revisions@);
            for i in 0..revisions.len()
                invariant
                    self.valid(),
                    views == json_views(revisions@),
                    context == (ImportContext { known: known@, own_aci: own_aci@ }),
                    self@ == plan_revisions(first, context, thread@, views.take(i as int)),
            {
                assert(views.take(i + 1).drop_last() =~= views.take(i as int));
                assert(views.take(i + 1).last() == revisions@[i as int]@);
                self.push_message(known, own_aci, thread, &revisions[i]);
            }
            assert(views.take(views.len() as int) =~= views);
        }
        if !self.failed && self.imported_messages > 0 && self.imported_messages
            % CHECKPOINT_INTERVAL == 0 {
            let step = ImportStep::Checkpoint { imported_messages: self.imported_messages };
            let ghost before = self.steps@;
            self.steps.push(step);
            assert(step_views(self.steps@) =~= step_views(before).push(step@));
        }
    }

    fn push_chat(&mut self, known: &Identities, own_aci: &ServiceId, chat: &Json)
        requires
            old(self).valid(),
        ensures
            final(self).valid(),
            final(self)@ == plan_chat(
                old(self)@,
                ImportContext { known: known@, own_aci: own_aci@ },
                chat@,
            ),
    {
        let ghost context = ImportContext { known: known@, own_aci: own_aci@ };
        let thread = match chat.get("recipient") {
            Some(recipient) => recipient_thread(known, recipient),
            None => None,
        };
        if let Some(thread) = thread {
            let ghost first = self@;
            if let Some(items) = chat.array_at("items") {
                let ghost views = json_views(items@);
                for i in 0..items.len()
                    invariant
                        self.valid(),
                        views == json_views(items@),
                        context == (ImportContext { known: known@, own_aci: own_aci@ }),
                        self@ == plan_items(first, context, thread@, views.take(i as int)),
                {
                    assert(views.take(i + 1).drop_last() =~= views.take(i as int));
                    assert(views.take(i + 1).last() == items@[i as int]@);
                    self.push_item(known, own_aci, &thread, &items[i]);
                }
                assert(views.take(views.len() as int) =~= views);
            }
        }
    }
}

/// The steps that bring the messages of the archive into the store.
pub fn import_plan(known: &Identities, own_aci: &ServiceId, backup: &Json) -> (plan: ImportPlan)
    ensures
        plan.valid(),
        plan@ == plan_chats(
            ImportContext { known: known@, own_aci: own_aci@ },
            backup@.items_at("chats"@),
        ),
{
    let ghost context = ImportContext { known: known@, own_aci: own_aci@ };
    let mut plan = ImportPlan { steps: Vec::new(), imported_messages: 0, failed: false };
    assert(step_views(plan.steps@) =~= Seq::<ImportStepView>::empty());
    if let Some(chats) = backup.array_at("chats") {
        let ghost views = json_views(chats@);
        for i in 0..chats.len()
            invariant
                plan.valid(),
                views == json_views(chats@),
                context == (ImportContext { known: known@, own_aci: own_aci@ }),
                plan@ == plan_chats(context, views.take(i as int)),
        {
            assert(views.take(i + 1).drop_last() =~= views.take(i as int));
            assert(views.take(i + 1).last() == chats@[i as int]@);
            plan.push_chat(known, own_aci, &chats[i]);
        }
        assert(views.take(views.len() as int) =~= views);
    }
    plan
}

/// The number of messages that a list of steps stores.
pub open spec fn saves(steps: Seq<ImportStepView>) -> nat
    decreases steps.len(),
{
    if steps.len() == 0 {
        0
    } else {
        saves(steps.drop_last()) + if steps.last() is Save {
            1nat
        } else {
            0nat
        }
    }
}

/// Whether every checkpoint reports the number of messages stored before it,
/// and comes only at a multiple of the interval.
pub open spec fn checkpoints_agree(steps: Seq<ImportStepView>) -> bool {
    forall|i: int|
        0 <= i < steps.len() ==> (#[trigger] steps[i] matches ImportStepView::Checkpoint {
            imported_messages,
        } ==> imported_messages == saves(steps.take(i)) && imported_messages > 0
            && imported_messages % (CHECKPOINT_INTERVAL as nat) == 0)
}

pub open spec fn plan_counts(plan: ImportPlanView) -> bool {
    plan.imported_messages == saves(plan.steps) && checkpoints_agree(plan.steps)
}

proof fn lemma_push_step(steps: Seq<ImportStepView>, step: ImportStepView)
    requires
        checkpoints_agree(steps),
        step matches ImportStepView::Checkpoint { imported_messages } ==> imported_messages
            == saves(steps) && imported_messages > 0 && imported_messages
            % (CHECKPOINT_INTERVAL as nat) == 0,
    ensures
        checkpoints_agree(steps.push(step)),
        saves(steps.push(step)) == saves(steps) + if step is Save {
            1nat
        } else {
            0nat
        },
{
    let longer = steps.push(step);
    assert(longer.drop_last() =~= steps);
    assert forall|i: int| 0 <= i < longer.len() implies (#[trigger] longer[i] matches
        ImportStepView::Checkpoint { imported_messages } ==> imported_messages == saves(
        longer.take(i),
    ) && imported_messages > 0 && imported_messages % (CHECKPOINT_INTERVAL as nat) == 0) by {
        if i < steps.len() {
            assert(longer[i] == steps[i]);
            assert(longer.take(i) =~= steps.take(i));
        } else {
            assert(longer.take(i) =~= steps);
        }
    }
}

proof fn lemma_message_counts(
    plan: ImportPlanView,
    context: ImportContext,
    thread: ConversationIdView,
    item: JsonView,
)
    requires
        plan_counts(plan),
    ensures
        plan_counts(plan_message(plan, context, thread, item)),
{
    if let Ok(Some(content)) = archived_content(context.known, item, thread, context.own_aci) {
        lemma_push_step(plan.steps, ImportStepView::Save { thread, content });
    }
}

proof fn lemma_revisions_count(
    plan: ImportPlanView,
    context: ImportContext,
    thread: ConversationIdView,
    revisions: Seq<JsonView>,
)
    requires
        plan_counts(plan),
    ensures
        plan_counts(plan_revisions(plan, context, thread, revisions)),
    decreases revisions.len(),
{
    if revisions.len() > 0 {
        lemma_revisions_count(plan, context, thread, revisions.drop_last());
        lemma_message_counts(
            plan_revisions(plan, context, thread, revisions.drop_last()),
            context,
            thread,
            revisions.last(),
        );
    }
}

proof fn lemma_items_count(
    plan: ImportPlanView,
    context: ImportContext,
    thread: ConversationIdView,
    items: Seq<JsonView>,
)
    requires
        plan_counts(plan),
    ensures
        plan_counts(plan_items(plan, context, thread, items)),
    decreases items.len(),
{
    if items.len() > 0 {
        let before = plan_items(plan, context, thread, items.drop_last());
        lemma_items_count(plan, context, thread, items.drop_last());
        let item = items.last();
        lemma_message_counts(before, context, thread, item);
        let first = plan_message(before, context, thread, item);
        lemma_revisions_count(first, context, thread, item.items_at("revisions"@));
        let done = plan_revisions(first, context, thread, item.items_at("revisions"@));
        if !done.failed && done.imported_messages > 0 && done.imported_messages
            % (CHECKPOINT_INTERVAL as nat) == 0 {
            lemma_push_step(
                done.steps,
                ImportStepView::Checkpoint { imported_messages: done.imported_messages },
            );
        }
    }
}

/// The number of imported messages is the number of messages stored, and every
/// checkpoint on the way reports as many as were stored before it.
pub proof fn import_counts_stored_messages(context: ImportContext, chats: Seq<JsonView>)
    ensures
        plan_chats(context, chats).imported_messages == saves(plan_chats(context, chats).steps),
        checkpoints_agree(plan_chats(context, chats).steps),
    decreases chats.len(),
{
    if chats.len() > 0 {
        import_counts_stored_messages(context, chats.drop_last());
        let before = plan_chats(context, chats.drop_last());
        if let Some(recipient) = chats.last().get("recipient"@) {
            if let Some(thread) = thread_of(context.known, recipient) {
                lemma_items_count(before, context, thread, chats.last().items_at("items"@));
            }
        }
    }
}

// ---------------------------------------------------------------------------
// What an import stores
// ---------------------------------------------------------------------------

/// A message of the archive, followed by its revisions, each with the
/// conversation that they belong to.
pub open spec fn item_frames(thread: ConversationIdView) -> spec_fn(JsonView) -> Seq<
    (ConversationIdView, JsonView),
> {
    |item: JsonView|
        seq![(thread, item)] + item.items_at("revisions"@).map_values(
            |revision: JsonView| (thread, revision),
        )
}

/// The messages of a chat of the archive. A chat whose other side cannot be told
/// has none.
pub open spec fn chat_frames(known: Seq<(Seq<char>, Seq<char>)>) -> spec_fn(JsonView) -> Seq<
    (ConversationIdView, JsonView),
> {
    |chat: JsonView|
        match chat.get("recipient"@) {
            Some(recipient) => match thread_of(known, recipient) {
                Some(thread) => chat.items_at("items"@).flat_map(item_frames(thread)),
                None => Seq::empty(),
            },
            None => Seq::empty(),
        }
}

/// All messages of the archive, in its order.
pub open spec fn archive_frames(known: Seq<(Seq<char>, Seq<char>)>, chats: Seq<JsonView>) -> Seq<
    (ConversationIdView, JsonView),
> {
    chats.flat_map(chat_frames(known))
}

/// Whether a message of the archive can be read.
pub open spec fn frame_reads(
    context: ImportContext,
    frame: (ConversationIdView, JsonView),
) -> bool {
    archived_content(context.known, frame.1, frame.0, context.own_aci) is Ok
}

/// What a message of the archive is stored as, where it is stored at all.
pub open spec fn frame_content(context: ImportContext) -> spec_fn(
    (ConversationIdView, JsonView),
) -> Option<(ConversationIdView, ContentView)> {
    |frame: (ConversationIdView, JsonView)|
        match archived_content(context.known, frame.1, frame.0, context.own_aci) {
            Ok(Some(content)) => Some((frame.0, content)),
            _ => None,
        }
}

/// The messages that a list of steps stores, in order.
pub open spec fn saved(steps: Seq<ImportStepView>) -> Seq<(ConversationIdView, ContentView)> {
    steps.filter_map(
        |step: ImportStepView|
            match step {
                ImportStepView::Save { thread, content } => Some((thread, content)),
                ImportStepView::Checkpoint { .. } => None,
            },
    )
}

/// The number of messages before the first that cannot be read.
spec fn sound(context: ImportContext, frames: Seq<(ConversationIdView, JsonView)>) -> int
    decreases frames.len(),
{
    if frames.len() == 0 {
        0
    } else {
        let before = sound(context, frames.drop_last());
        if before == frames.len() - 1 && frame_reads(context, frames.last()) {
            before + 1
        } else {
            before
        }
    }
}

spec fn follows(
    plan: ImportPlanView,
    context: ImportContext,
    frames: Seq<(ConversationIdView, JsonView)>,
) -> bool {
    &&& plan.failed == (sound(context, frames) < frames.len())
    &&& saved(plan.steps) == frames.take(sound(context, frames)).filter_map(frame_content(context))
    &&& plan.imported_messages == saved(plan.steps).len()
}

proof fn lemma_sound(context: ImportContext, frames: Seq<(ConversationIdView, JsonView)>)
    ensures
        0 <= sound(context, frames) <= frames.len(),
        forall|i: int|
            0 <= i < sound(context, frames) ==> frame_reads(context, #[trigger] frames[i]),
        sound(context, frames) < frames.len() ==> !frame_reads(
            context,
            frames[sound(context, frames)],
        ),
    decreases frames.len(),
{
    if frames.len() > 0 {
        let fewer = frames.drop_last();
        lemma_sound(context, fewer);
        assert forall|i: int| 0 <= i < sound(context, frames) implies frame_reads(
            context,
            #[trigger] frames[i],
        ) by {
            if i < sound(context, fewer) {
                assert(frames[i] == fewer[i]);
            }
        }
        if sound(context, fewer) < fewer.len() {
            assert(frames[sound(context, fewer)] == fewer[sound(context, fewer)]);
        }
    }
}

proof fn lemma_saved_push(steps: Seq<ImportStepView>, step: ImportStepView)
    ensures
        step matches ImportStepView::Save { thread, content } ==> saved(steps.push(step)) == saved(
            steps,
        ).push((thread, content)),
        step is Checkpoint ==> saved(steps.push(step)) == saved(steps),
{
    assert(steps.push(step).drop_last() =~= steps);
}

proof fn lemma_message_follows(
    plan: ImportPlanView,
    context: ImportContext,
    frames: Seq<(ConversationIdView, JsonView)>,
    thread: ConversationIdView,
    item: JsonView,
)
    requires
        follows(plan, context, frames),
    ensures
        follows(plan_message(plan, context, thread, item), context, frames.push((thread, item))),
{
    let more = frames.push((thread, item));
    let count = sound(context, frames);
    lemma_sound(context, frames);
    assert(more.drop_last() =~= frames);
    if plan.failed {
        assert(more.take(count) =~= frames.take(count));
    } else {
        assert(frames.take(count) =~= frames);
        if frame_reads(context, (thread, item)) {
            assert(more.take(count + 1) =~= more);
            if let Ok(Some(content)) = archived_content(
                context.known,
                item,
                thread,
                context.own_aci,
            ) {
                lemma_saved_push(plan.steps, ImportStepView::Save { thread, content });
                assert(more.filter_map(frame_content(context)) =~= frames.filter_map(
                    frame_content(context),
                ).push((thread, content)));
            }
        } else {
            assert(more.take(count) =~= frames);
        }
    }
}

proof fn lemma_revisions_follow(
    plan: ImportPlanView,
    context: ImportContext,
    frames: Seq<(ConversationIdView, JsonView)>,
    thread: ConversationIdView,
    revisions: Seq<JsonView>,
)
    requires
        follows(plan, context, frames),
    ensures
        follows(
            plan_revisions(plan, context, thread, revisions),
            context,
            frames + revisions.map_values(|revision: JsonView| (thread, revision)),
        ),
    decreases revisions.len(),
{
    let all = revisions.map_values(|revision: JsonView| (thread, revision));
    if revisions.len() == 0 {
        assert(frames + all =~= frames);
    } else {
        let fewer = revisions.drop_last();
        let before = fewer.map_values(|revision: JsonView| (thread, revision));
        lemma_revisions_follow(plan, context, frames, thread, fewer);
        lemma_message_follows(
            plan_revisions(plan, context, thread, fewer),
            context,
            frames + before,
            thread,
            revisions.last(),
        );
        assert(frames + all =~= (frames + before).push((thread, revisions.last())));
    }
}

proof fn lemma_item_follows(
    plan: ImportPlanView,
    context: ImportContext,
    frames: Seq<(ConversationIdView, JsonView)>,
    thread: ConversationIdView,
    item: JsonView,
)
    requires
        follows(plan, context, frames),
    ensures
        follows(
            plan_item(plan, context, thread, item),
            context,
            frames + item_frames(thread)(item),
        ),
{
    let revisions = item.items_at("revisions"@);
    let first = plan_message(plan, context, thread, item);
    lemma_message_follows(plan, context, frames, thread, item);
    lemma_revisions_follow(first, context, frames.push((thread, item)), thread, revisions);
    assert(frames.push((thread, item)) + revisions.map_values(
        |revision: JsonView| (thread, revision),
    ) =~= frames + item_frames(thread)(item));
    let done = plan_revisions(first, context, thread, revisions);
    lemma_saved_push(
        done.steps,
        ImportStepView::Checkpoint { imported_messages: done.imported_messages },
    );
}

proof fn lemma_items_follow(
    plan: ImportPlanView,
    context: ImportContext,
    frames: Seq<(ConversationIdView, JsonView)>,
    thread: ConversationIdView,
    items: Seq<JsonView>,
)
    requires
        follows(plan, context, frames),
    ensures
        follows(
            plan_items(plan, context, thread, items),
            context,
            frames + items.flat_map(item_frames(thread)),
        ),
    decreases items.len(),
{
    if items.len() == 0 {
        assert(items.map_values(item_frames(thread)) =~= Seq::empty());
        assert(frames + items.flat_map(item_frames(thread)) =~= frames);
    } else {
        let fewer = items.drop_last();
        let before = frames + fewer.flat_map(item_frames(thread));
        lemma_items_follow(plan, context, frames, thread, fewer);
        lemma_item_follows(
            plan_items(plan, context, thread, fewer),
            context,
            before,
            thread,
            items.last(),
        );
        fewer.lemma_flat_map_push(item_frames(thread), items.last());
        assert(fewer.push(items.last()) =~= items);
        assert(frames + items.flat_map(item_frames(thread)) =~= before + item_frames(thread)(
            items.last(),
        ));
    }
}

proof fn lemma_chats_follow(context: ImportContext, chats: Seq<JsonView>)
    ensures
        follows(plan_chats(context, chats), context, archive_frames(context.known, chats)),
    decreases chats.len(),
{
    let pick = chat_frames(context.known);
    if chats.len() == 0 {
        assert(chats.map_values(pick) =~= Seq::empty());
        assert(archive_frames(context.known, chats) =~= Seq::empty());
        assert(archive_frames(context.known, chats).take(0) =~= Seq::empty());
    } else {
        let fewer = chats.drop_last();
        let chat = chats.last();
        let before = archive_frames(context.known, fewer);
        lemma_chats_follow(context, fewer);
        fewer.lemma_flat_map_push(pick, chat);
        assert(fewer.push(chat) =~= chats);
        assert(archive_frames(context.known, chats) == before + pick(chat));
        let plan = plan_chats(context, fewer);
        let thread = match chat.get("recipient"@) {
            Some(recipient) => thread_of(context.known, recipient),
            None => None,
        };
        match thread {
            Some(thread) => {
                lemma_items_follow(plan, context, before, thread, chat.items_at("items"@));
            },
            None => {
                assert(before + pick(chat) =~= before);
            },
        }
    }
}

/// An import stores, in the archive's order, every message and every revision
/// that has an envelope, each in the conversation of its chat, up to the first
/// that cannot be read. It fails exactly where there is such a one, and counts
/// what it stores.
pub proof fn import_stores_the_archive(context: ImportContext, chats: Seq<JsonView>, readable: int)
    requires
        0 <= readable <= archive_frames(context.known, chats).len(),
        forall|i: int|
            0 <= i < readable ==> frame_reads(
                context,
                #[trigger] archive_frames(context.known, chats)[i],
            ),
        readable < archive_frames(context.known, chats).len() ==> !frame_reads(
            context,
            archive_frames(context.known, chats)[readable],
        ),
    ensures
        ({
            let plan = plan_chats(context, chats);
            let frames = archive_frames(context.known, chats);
            &&& saved(plan.steps) == frames.take(readable).filter_map(frame_content(context))
            &&& plan.failed == (readable < frames.len())
            &&& plan.imported_messages == saved(plan.steps).len()
        }),
{
    let frames = archive_frames(context.known, chats);
    lemma_chats_follow(context, chats);
    lemma_sound(context, frames);
    let count = sound(context, frames);
    if count < readable {
        assert(frame_reads(context, frames[count]));
    }
    if readable < count {
        assert(frame_reads(context, frames[readable]));
    }
}

/// An import that goes through stores every message of every chat whose other
/// side is known, in the conversation with that side.
pub proof fn import_leaves_nothing_out(
    context: ImportContext,
    chats: Seq<JsonView>,
    chat: int,
    item: int,
    recipient: JsonView,
    thread: ConversationIdView,
    content: ContentView,
)
    requires
        !plan_chats(context, chats).failed,
        0 <= chat < chats.len(),
        chats[chat].get("recipient"@) == Some(recipient),
        thread_of(context.known, recipient) == Some(thread),
        0 <= item < chats[chat].items_at("items"@).len(),
        archived_content(
            context.known,
            chats[chat].items_at("items"@)[item],
            thread,
            context.own_aci,
        ) == Ok::<Option<ContentView>, ()>(Some(content)),
    ensures
        plan_chats(context, chats).steps.contains(ImportStepView::Save { thread, content }),
{
    let frames = archive_frames(context.known, chats);
    let frame = (thread, chats[chat].items_at("items"@)[item]);
    lemma_chats_follow(context, chats);
    lemma_sound(context, frames);
    assert(frames.take(frames.len() as int) =~= frames);
    let items = chats[chat].items_at("items"@);
    assert(item_frames(thread)(items[item])[0] == frame);
    lemma_in_flat_map(items, item_frames(thread), item, 0);
    let place = choose|place: int|
        0 <= place < items.flat_map(item_frames(thread)).len() && items.flat_map(
            item_frames(thread),
        )[place] == frame;
    lemma_in_flat_map(chats, chat_frames(context.known), chat, place);
    let at = choose|at: int| 0 <= at < frames.len() && frames[at] == frame;
    lemma_in_filter_map(frames, frame_content(context), at);
    let steps = plan_chats(context, chats).steps;
    lemma_saved_is_there(steps, (thread, content));
}

proof fn lemma_in_flat_map<A, B>(list: Seq<A>, pick: spec_fn(A) -> Seq<B>, i: int, j: int)
    requires
        0 <= i < list.len(),
        0 <= j < pick(list[i]).len(),
    ensures
        list.flat_map(pick).contains(pick(list[i])[j]),
    decreases list.len(),
{
    let fewer = list.drop_last();
    let last = list.last();
    fewer.lemma_flat_map_push(pick, last);
    assert(fewer.push(last) =~= list);
    let before = fewer.flat_map(pick);
    let item = pick(list[i])[j];
    if i == list.len() - 1 {
        assert((before + pick(last))[before.len() + j] == item);
    } else {
        lemma_in_flat_map(fewer, pick, i, j);
        let at = choose|at: int| 0 <= at < before.len() && before[at] == item;
        assert((before + pick(last))[at] == item);
    }
}

proof fn lemma_in_filter_map<A, B>(list: Seq<A>, pick: spec_fn(A) -> Option<B>, i: int)
    requires
        0 <= i < list.len(),
        pick(list[i]) is Some,
    ensures
        list.filter_map(pick).contains(pick(list[i])->0),
    decreases list.len(),
{
    let fewer = list.drop_last();
    let before = fewer.filter_map(pick);
    let all = list.filter_map(pick);
    if i == list.len() - 1 {
        assert(all[before.len() as int] == pick(list[i])->0);
    } else {
        lemma_in_filter_map(fewer, pick, i);
        let at = choose|at: int| 0 <= at < before.len() && before[at] == pick(list[i])->0;
        assert(all[at] == before[at]);
    }
}

proof fn lemma_saved_is_there(
    steps: Seq<ImportStepView>,
    pair: (ConversationIdView, ContentView),
)
    requires
        saved(steps).contains(pair),
    ensures
        steps.contains(ImportStepView::Save { thread: pair.0, content: pair.1 }),
    decreases steps.len(),
{
    let at = choose|at: int| 0 <= at < saved(steps).len() && saved(steps)[at] == pair;
    let fewer = steps.drop_last();
    assert(steps =~= fewer.push(steps.last()));
    lemma_saved_push(fewer, steps.last());
    if at < saved(fewer).len() {
        assert(saved(fewer)[at] == pair);
        lemma_saved_is_there(fewer, pair);
        let i = choose|i: int|
            0 <= i < fewer.len() && fewer[i] == ImportStepView::Save {
                thread: pair.0,
                content: pair.1,
            };
        assert(steps[i] == fewer[i]);
    } else {
        assert(steps[steps.len() - 1] == ImportStepView::Save { thread: pair.0, content: pair.1 });
    }
}

/// Where an item brings the number of stored messages to a multiple of a
/// hundred, a checkpoint follows it, and no checkpoint comes otherwise.
pub proof fn every_hundred_is_a_checkpoint(
    plan: ImportPlanView,
    context: ImportContext,
    thread: ConversationIdView,
    item: JsonView,
)
    requires
        !plan_item(plan, context, thread, item).failed,
    ensures
        ({
            let done = plan_item(plan, context, thread, item);
            let count = done.imported_messages;
            if count > 0 && count % 100 == 0 {
                done.steps.len() > 0 && done.steps.last() == (ImportStepView::Checkpoint {
                    imported_messages: count,
                })
            } else {
                done.steps.len() > plan.steps.len() ==> done.steps.last() is Save
            }
        }),
{
    lemma_revisions_only_save(
        plan_message(plan, context, thread, item),
        context,
        thread,
        item.items_at("revisions"@),
    );
}

proof fn lemma_revisions_only_save(
    plan: ImportPlanView,
    context: ImportContext,
    thread: ConversationIdView,
    revisions: Seq<JsonView>,
)
    ensures
        plan_revisions(plan, context, thread, revisions).steps.len() >= plan.steps.len(),
        plan_revisions(plan, context, thread, revisions).steps.len() == plan.steps.len()
            ==> plan_revisions(plan, context, thread, revisions).steps == plan.steps,
        plan_revisions(plan, context, thread, revisions).steps.len() > plan.steps.len()
            ==> plan_revisions(plan, context, thread, revisions).steps.last() is Save,
    decreases revisions.len(),
{
    if revisions.len() > 0 {
        lemma_revisions_only_save(plan, context, thread, revisions.drop_last());
    }
}

// ---------------------------------------------------------------------------
// What is read out of an archive
// ---------------------------------------------------------------------------

/// A message of the archive becomes an envelope where it says when it was sent
/// and has something to show. One's own becomes a copy of what was sent, from
/// oneself to the other side of the chat; any other becomes a received message,
/// from its author, or else from the other side of the chat, to oneself. A
/// message to a group names the group.
pub proof fn archived_messages_become_envelopes(
    known: Seq<(Seq<char>, Seq<char>)>,
    item: JsonView,
    thread: ConversationIdView,
    own_aci: Seq<char>,
    timestamp: u64,
    text: Seq<char>,
    attachments: Seq<AttachmentPointerView>,
)
    requires
        item.number_at("sent_at"@) == Some(timestamp),
        archived_message(item.get("message"@)) == Some((text, attachments)),
        timestamp <= 8_210_266_876_799_999,
    ensures
        archived_content(known, item, thread, own_aci) matches Ok(Some(content)) && {
            let mine = item.get("direction"@) is Some && item.get("direction"@)->0.get(
                "Outgoing"@,
            ) is Some;
            let author = match item.get("author"@) {
                Some(author) => aci_of(known, author),
                None => None,
            };
            let data = match content.body {
                ContentBodyView::DataMessage(data) => Some(data),
                ContentBodyView::SynchronizeMessage(Some(sent)) => sent.message,
                _ => None,
            };
            &&& content.timestamp == timestamp
            &&& content.sender_device == 1
            &&& mine <==> content.body is SynchronizeMessage
            &&& !mine <==> content.body is DataMessage
            &&& data is Some
            &&& data->0.body == Some(text)
            &&& data->0.attachments == attachments
            &&& data->0.timestamp == Some(timestamp)
            &&& mine ==> content.sender == own_aci
            &&& !mine && author is Some ==> content.sender == author->0
            &&& thread matches ConversationIdView::Contact(id) ==> {
                &&& !mine && author is None ==> content.sender == id
                &&& mine ==> content.destination == id
                &&& !mine ==> content.destination == own_aci
                &&& mine ==> content.body->SynchronizeMessage_0->0.destination_service_id == Some(
                    id,
                )
                &&& data->0.group_v2 is None
            }
            &&& thread matches ConversationIdView::Group(key) ==> {
                &&& !mine && author is None ==> content.sender == own_aci
                &&& content.destination == own_aci
                &&& mine ==> content.body->SynchronizeMessage_0->0.destination_service_id is None
                &&& data->0.group_v2 is Some
                &&& data->0.group_v2->0.master_key == key
                &&& data->0.group_v2->0.revision is None
            }
        },
{
}

/// A message without a time, and one with nothing to show, is passed over; one
/// whose time no calendar can hold cannot be read. Nothing else is refused.
pub proof fn archived_messages_are_passed_over(
    known: Seq<(Seq<char>, Seq<char>)>,
    item: JsonView,
    thread: ConversationIdView,
    own_aci: Seq<char>,
)
    ensures
        ({
            let content = archived_content(known, item, thread, own_aci);
            let time = item.number_at("sent_at"@);
            let message = archived_message(item.get("message"@));
            &&& content == Ok::<Option<ContentView>, ()>(None) <==> time is None || message is None
            &&& content is Err ==> time is Some && message is Some && time->0
                > 8_210_266_876_799_999
            &&& time is Some && message is Some && 8_210_266_876_799_999 < time->0
                <= 9_223_372_036_854_775_807 ==> content is Err
        }),
{
}

/// A message of the archive shows its text where it has one, and the attachments
/// that can be fetched; without a text the attachments alone; without either a
/// sign for what it is.
pub proof fn archived_messages_show_their_text(message: JsonView, standard: JsonView, text: JsonView)
    requires
        message.get("Standard"@) == Some(standard),
    ensures
        ({
            let fetched = standard.items_at("attachments"@).filter_map(
                |item: JsonView| archived_pointer(item),
            );
            let shown = archived_message(Some(message));
            &&& standard.get("text"@) == Some(text) ==> (text.text_at("text"@) matches Some(words)
                ==> shown == Some((words, fetched)))
            &&& standard.get("text"@) is None && fetched.len() > 0 ==> shown == Some(
                (Seq::<char>::empty(), fetched),
            )
        }),
        archived_message(None) is None,
{
    lemma_pointers_are_picked(standard.items_at("attachments"@));
}

proof fn lemma_pointers_are_picked(items: Seq<JsonView>)
    ensures
        archived_pointers(items) == items.filter_map(|item: JsonView| archived_pointer(item)),
    decreases items.len(),
{
    if items.len() > 0 {
        lemma_pointers_are_picked(items.drop_last());
    }
}

/// A message without a text and without attachments is shown by the sign for the
/// first of these that it is, and passed over where it is none.
pub proof fn signs_stand_for_archived_messages(message: JsonView)
    requires
        message.get("Standard"@) is None,
    ensures
        ({
            let shown = archived_message(Some(message));
            let none = Seq::<AttachmentPointerView>::empty();
            let contact = message.get("Contact"@) is Some;
            let voice = message.get("Voice"@) is Some;
            let sticker = message.get("Sticker"@) is Some;
            let deleted = message.get("RemoteDeleted"@) is Some;
            let update = message.get("Update"@) is Some;
            let payment = message.get("PaymentNotification"@) is Some;
            let gift = message.get("GiftBadge"@) is Some;
            let once = message.get("ViewOnce"@) is Some;
            let reply = message.get("DirectStoryReply"@) is Some;
            let poll = message.get("Poll"@) is Some;
            let admin = message.get("AdminDeleted"@) is Some;
            &&& contact ==> shown == Some(("[shared contact]"@, none))
            &&& !contact && voice ==> shown == Some(("[voice message]"@, none))
            &&& !contact && !voice && sticker ==> shown == Some(("[sticker]"@, none))
            &&& !contact && !voice && !sticker && deleted ==> shown == Some(("[message deleted]"@, none))
            &&& !contact && !voice && !sticker && !deleted && update ==> shown == Some(("[chat update]"@, none))
            &&& !contact && !voice && !sticker && !deleted && !update && payment ==> shown == Some(("[payment]"@, none))
            &&& !contact && !voice && !sticker && !deleted && !update && !payment && gift
                ==> shown == Some(("[gift badge]"@, none))
            &&& !contact && !voice && !sticker && !deleted && !update && !payment && !gift && once
                ==> shown == Some(("[view-once message]"@, none))
            &&& !contact && !voice && !sticker && !deleted && !update && !payment && !gift && !once
                && reply ==> shown == Some(("[story reply]"@, none))
            &&& !contact && !voice && !sticker && !deleted && !update && !payment && !gift && !once
                && !reply && poll ==> shown == Some(("[poll]"@, none))
            &&& !contact && !voice && !sticker && !deleted && !update && !payment && !gift && !once
                && !reply && !poll && admin ==> shown == Some(("[message deleted by admin]"@, none))
            &&& shown is None <==> !(contact || voice || sticker || deleted || update || payment
                || gift || once || reply || poll || admin)
        }),
{
}

/// An attachment of the archive can be fetched where its key, its digest and its
/// place are there; it then has all that a download needs, and what the archive
/// says of the file.
pub proof fn archived_attachments_can_be_fetched(
    value: JsonView,
    pointer: JsonView,
    locator: JsonView,
    transit: JsonView,
    key: Seq<char>,
    digest: JsonView,
    place: Seq<char>,
    number: JsonView,
)
    requires
        value.get("pointer"@) == Some(pointer),
        get_in(pointer.get("locator_info"@), "LocatorInfo"@) == Some(locator),
        locator.text_at("key"@) == Some(key),
        get_in(
            get_in(locator.get("integrity_check"@), "EncryptedDigest"@),
            "digest"@,
        ) == Some(digest),
        locator.get("transit"@) == Some(transit),
        transit.text_at("cdn_key"@) == Some(place),
        transit.get("cdn_number"@) == Some(number),
    ensures
        archived_pointer(value) matches Some(found) && {
            &&& found.key == hex_bytes(key)
            &&& digest matches JsonView::Text(text) ==> found.digest == hex_bytes(text)
            &&& found.attachment_identifier == Some(AttachmentIdentifierView::CdnKey(place))
            &&& number matches JsonView::Number(server) ==> (server <= u32::MAX
                ==> found.cdn_number == Some(server as u32))
            &&& found.content_type == pointer.text_at("content_type"@)
            &&& found.file_name == pointer.text_at("file_name"@)
            &&& found.client_uuid is None
            &&& locator.number_at("plaintext_size"@) matches Some(size) ==> (size <= u32::MAX
                ==> found.size == Some(size as u32))
            &&& pointer.number_at("width"@) matches Some(width) ==> (width <= u32::MAX
                ==> found.width == Some(width as u32))
            &&& pointer.number_at("height"@) matches Some(height) ==> (height <= u32::MAX
                ==> found.height == Some(height as u32))
        },
{
}

/// An attachment that has no key, no digest or no place is left out.
pub proof fn archived_attachments_need_a_place(value: JsonView)
    requires
        value.get("pointer"@) is None || get_in(
            get_in(value.get("pointer"@), "locator_info"@),
            "LocatorInfo"@,
        ) is None || get_in(
            get_in(get_in(value.get("pointer"@), "locator_info"@), "LocatorInfo"@),
            "transit"@,
        ) is None || get_in(
            get_in(get_in(value.get("pointer"@), "locator_info"@), "LocatorInfo"@),
            "key"@,
        ) is None,
    ensures
        archived_pointer(value) is None,
{
}

/// A contact is called by the name of its profile, or else by its nickname, by
/// its name in the address book, by its number.
pub proof fn contacts_are_named_in_order(contact: JsonView)
    ensures
        ({
            let profile = name_in(contact, "profile_given_name"@, "profile_family_name"@);
            let nickname = match contact.get("nickname"@) {
                Some(nickname) => name_in(nickname, "given_name"@, "family_name"@),
                None => Seq::empty(),
            };
            let system = name_in(contact, "system_given_name"@, "system_family_name"@);
            let number = contact.text_at("e164"@);
            let name = name_of_contact(contact);
            &&& profile.len() > 0 ==> name == profile
            &&& profile.len() == 0 && nickname.len() > 0 ==> name == nickname
            &&& profile.len() == 0 && nickname.len() == 0 && system.len() > 0 ==> name == system
            &&& profile.len() == 0 && nickname.len() == 0 && system.len() == 0 && number is Some
                ==> name == number->0
            &&& profile.len() == 0 && nickname.len() == 0 && system.len() == 0 && number is None
                ==> name == "Unknown contact"@
        }),
{
}

/// A name is the given name and the family name with a blank between, or the one
/// of them that says anything.
pub proof fn names_have_two_parts(value: JsonView, given: Seq<char>, family: Seq<char>)
    ensures
        ({
            let first = value.text_at(given);
            let last = value.text_at(family);
            let has_first = first is Some && !is_blank(first->0);
            let has_last = last is Some && !is_blank(last->0);
            let name = name_in(value, given, family);
            &&& has_first && has_last ==> name == first->0 + seq![' '] + last->0
            &&& has_first && !has_last ==> name == first->0
            &&& !has_first && has_last ==> name == last->0
            &&& !has_first && !has_last ==> name.len() == 0
        }),
{
    reveal_strlit(" ");
    assert(" "@ =~= seq![' ']);
    let parts = name_part(value, given) + name_part(value, family);
    let first = value.text_at(given);
    let last = value.text_at(family);
    if first is Some && !is_blank(first->0) && last is Some && !is_blank(last->0) {
        assert(parts =~= seq![first->0, last->0]);
        assert(parts.drop_last() =~= seq![first->0]);
        assert(joined(parts.drop_last(), " "@) == first->0);
    }
}

/// A recipient of the archive is restored where it is a contact whose identity
/// is known, or a group whose key has thirty-two bytes.
pub proof fn recipients_are_restored(
    known: Seq<(Seq<char>, Seq<char>)>,
    recipient: JsonView,
    contact: JsonView,
    group: JsonView,
)
    ensures
        recipient.get("Contact"@) == Some(contact) ==> {
            let id = contact.text_at("aci"@);
            let restored = restored_recipient(known, recipient);
            let key = contact.text_at("profile_key"@);
            &&& restored is Some <==> id is Some && identity(known, id->0) is Some
            &&& restored is Some ==> restored->0 is Contact && restored->0->aci == identity(
                known,
                id->0,
            )->0 && restored->0->name == name_of_contact(contact)
            &&& restored is Some && key is Some && hex_bytes(key->0) is Some
                ==> restored->0->profile_key == hex_bytes(key->0)->0
            &&& restored is Some && key is None ==> restored->0->profile_key.len() == 0
        },
        recipient.get("Contact"@) is None && recipient.get("Group"@) == Some(group) ==> {
            let key = group.text_at("master_key"@);
            let restored = restored_recipient(known, recipient);
            let snapshot = match group.get("snapshot"@) {
                Some(snapshot) => snapshot,
                None => group,
            };
            let title = snapshot.text_at("title"@);
            &&& restored is Some <==> key is Some && hex_bytes(key->0) is Some && hex_bytes(
                key->0,
            )->0.len() == 32
            &&& restored is Some ==> restored->0 is Group && restored->0->master_key == hex_bytes(
                key->0,
            )->0
            &&& restored is Some && title is Some && !is_blank(title->0) ==> restored->0->title
                == title->0
            &&& restored is Some && (title is None || is_blank(title->0)) ==> restored->0->title
                == "Unnamed group"@
            &&& restored is Some ==> restored->0->description == snapshot.text_at("description"@)
            &&& restored is Some ==> (snapshot.number_at("version"@) matches Some(version) ==> (
            version <= u32::MAX ==> restored->0->revision == version as u32))
            &&& restored is Some && snapshot.number_at("version"@) is None
                ==> restored->0->revision == 0
            &&& restored is Some ==> restored->0->members == snapshot.items_at(
                "members"@,
            ).filter_map(|member: JsonView| member_of(known, member))
        },
        recipient.get("Contact"@) is None && recipient.get("Group"@) is None
            ==> restored_recipient(known, recipient) is None,
{
    let snapshot = match group.get("snapshot"@) {
        Some(snapshot) => snapshot,
        None => group,
    };
    lemma_members_are_picked(known, snapshot.items_at("members"@));
}

proof fn lemma_members_are_picked(known: Seq<(Seq<char>, Seq<char>)>, members: Seq<JsonView>)
    ensures
        members_of(known, members) == members.filter_map(
            |member: JsonView| member_of(known, member),
        ),
    decreases members.len(),
{
    if members.len() > 0 {
        lemma_members_are_picked(known, members.drop_last());
    }
}

/// The recipients that can be restored are restored, all of them and in order.
pub proof fn no_recipient_is_left_out(
    known: Seq<(Seq<char>, Seq<char>)>,
    recipients: Seq<JsonView>,
)
    ensures
        restored_recipients(known, recipients) == recipients.filter_map(
            |recipient: JsonView| restored_recipient(known, recipient),
        ),
    decreases recipients.len(),
{
    if recipients.len() > 0 {
        no_recipient_is_left_out(known, recipients.drop_last());
    }
}

/// A member of a group is restored where its identity is known, with its role,
/// its labels and the revision at which it joined.
pub proof fn members_are_restored(
    known: Seq<(Seq<char>, Seq<char>)>,
    member: JsonView,
    id: Seq<char>,
)
    requires
        member.text_at("user_id"@) == Some(id),
    ensures
        ({
            let restored = member_of(known, member);
            &&& restored is Some <==> identity(known, id) is Some
            &&& restored is Some ==> {
                &&& restored->0.aci == identity(known, id)->0
                &&& restored->0.administrator <==> member.text_at("role"@) == Some(
                    "Administrator"@,
                )
                &&& restored->0.label == member.text_at("label_string"@)
                &&& restored->0.label_emoji == member.text_at("label_emoji"@)
                &&& member.number_at("joined_at_version"@) matches Some(version) ==> (version
                    <= u32::MAX ==> restored->0.joined_at_revision == version as u32)
                &&& member.number_at("joined_at_version"@) is None
                    ==> restored->0.joined_at_revision == 0
            }
        }),
{
}

/// A text stands for the identity that it was first found to be, and for none
/// where it was found to be none.
pub proof fn identities_are_looked_up(
    known: Seq<(Seq<char>, Seq<char>)>,
    text: Seq<char>,
    index: int,
)
    requires
        0 <= index <= known.len(),
        forall|other: int| 0 <= other < index ==> (#[trigger] known[other]).0 != text,
        index < known.len() ==> known[index].0 == text,
    ensures
        index < known.len() ==> identity(known, text) == Some(known[index].1),
        index == known.len() ==> identity(known, text) is None,
    decreases known.len(),
{
    if known.len() > 0 && index > 0 {
        assert(known[0].0 != text);
        let rest = known.drop_first();
        assert forall|other: int| 0 <= other < index - 1 implies (#[trigger] rest[other]).0
            != text by {
            assert(rest[other] == known[other + 1]);
        }
        identities_are_looked_up(rest, text, index - 1);
    }
}

/// Of the fields of an object only those for an account name one, and only where
/// they are texts.
pub proof fn only_account_fields_name_accounts(name: Seq<char>, value: JsonView)
    ensures
        name != "aci"@ && name != "user_id"@ ==> own_identity((name, value)).len() == 0,
        !(value is Text) ==> own_identity((name, value)).len() == 0,
        name == "aci"@ || name == "user_id"@ ==> (value matches JsonView::Text(text)
            ==> own_identity((name, value)) == seq![text]),
{
}

/// The identity of a contact is the one that its account was read as; a group
/// has none. The thread of a contact is that identity, and the thread of a group
/// its key.
pub proof fn threads_are_those_of_recipients(
    known: Seq<(Seq<char>, Seq<char>)>,
    recipient: JsonView,
    contact: JsonView,
    group: JsonView,
)
    ensures
        recipient.get("Contact"@) == Some(contact) ==> {
            let id = contact.text_at("aci"@);
            let found = if id is Some {
                identity(known, id->0)
            } else {
                None
            };
            &&& aci_of(known, recipient) == found
            &&& found is Some ==> thread_of(known, recipient) == Some(
                ConversationIdView::Contact(found->0),
            )
            &&& found is None ==> thread_of(known, recipient) is None
        },
        recipient.get("Contact"@) is None ==> aci_of(known, recipient) is None,
        recipient.get("Contact"@) is None && recipient.get("Group"@) == Some(group) ==> {
            let key = group.text_at("master_key"@);
            &&& thread_of(known, recipient) is Some <==> key is Some && hex_bytes(key->0) is Some
                && hex_bytes(key->0)->0.len() == 32
            &&& thread_of(known, recipient) is Some ==> thread_of(known, recipient) == Some(
                ConversationIdView::Group(hex_bytes(key->0)->0),
            )
        },
        recipient.get("Contact"@) is None && recipient.get("Group"@) is None ==> thread_of(
            known,
            recipient,
        ) is None,
{
}

/// The accounts of a list are those of its items, and the accounts of an object
/// those that its fields name and those in their values, in order.
pub proof fn accounts_are_collected_in_order(
    items: Seq<JsonView>,
    fields: Seq<(Seq<char>, JsonView)>,
)
    ensures
        named_accounts(JsonView::Array(items)) == items.flat_map(
            |item: JsonView| named_accounts(item),
        ),
        named_accounts(JsonView::Object(fields)) == fields.flat_map(
            |field: (Seq<char>, JsonView)| own_identity(field) + named_accounts(field.1),
        ),
        named_accounts(JsonView::Null).len() == 0,
        forall|text: Seq<char>| (#[trigger] named_accounts(JsonView::Text(text))).len() == 0,
        forall|number: u64| (#[trigger] named_accounts(JsonView::Number(number))).len() == 0,
{
    lemma_item_accounts(items);
    lemma_field_accounts(fields);
}

proof fn lemma_item_accounts(items: Seq<JsonView>)
    ensures
        accounts_in_items(items) == items.flat_map(|item: JsonView| named_accounts(item)),
    decreases items.len(),
{
    let pick = |item: JsonView| named_accounts(item);
    if items.len() > 0 {
        let fewer = items.drop_last();
        lemma_item_accounts(fewer);
        fewer.lemma_flat_map_push(pick, items.last());
        assert(fewer.push(items.last()) =~= items);
    } else {
        assert(items.map_values(pick) =~= Seq::<Seq<Seq<char>>>::empty());
        assert(items.flat_map(pick) =~= Seq::<Seq<char>>::empty());
    }
}

proof fn lemma_field_accounts(fields: Seq<(Seq<char>, JsonView)>)
    ensures
        accounts_in_fields(fields) == fields.flat_map(
            |field: (Seq<char>, JsonView)| own_identity(field) + named_accounts(field.1),
        ),
    decreases fields.len(),
{
    let pick = |field: (Seq<char>, JsonView)| own_identity(field) + named_accounts(field.1);
    if fields.len() > 0 {
        let fewer = fields.drop_last();
        let last = fields.last();
        lemma_field_accounts(fewer);
        fewer.lemma_flat_map_push(pick, last);
        assert(fewer.push(last) =~= fields);
        assert(accounts_in_fields(fewer) + own_identity(last) + named_accounts(last.1)
            =~= accounts_in_fields(fewer) + pick(last));
    } else {
        assert(fields.map_values(pick) =~= Seq::<Seq<Seq<char>>>::empty());
        assert(fields.flat_map(pick) =~= Seq::<Seq<char>>::empty());
    }
}

/// A number that is too large for its place counts as not given.
pub proof fn large_numbers_are_left_out(number: u64)
    ensures
        number > 4_294_967_295 ==> small(Some(number)) is None && or_zero(small(Some(number))) == 0,
        number <= 4_294_967_295 ==> small(Some(number)) == Some(number as u32) && or_zero(
            small(Some(number)),
        ) == number,
        small(None) is None,
{
}

/// The steps that an import is handed over as store what the archive holds: each
/// of them that stores a message names its conversation and the time at which it
/// was sent, and there are as many as messages are counted.
pub proof fn handed_over_import_stores_the_archive(
    plan: ImportPlan,
    context: ImportContext,
    chats: Seq<JsonView>,
)
    requires
        plan@ == plan_chats(context, chats),
        !plan.failed,
    ensures
        ({
            let messages = archive_frames(context.known, chats).filter_map(frame_content(context));
            let stored = plan.steps@.filter(|step: ImportStep| step is Save);
            &&& stored.len() == messages.len()
            &&& plan.imported_messages == messages.len()
            &&& forall|i: int|
                0 <= i < messages.len() ==> (#[trigger] stored[i] matches ImportStep::Save {
                    thread,
                    content,
                } && thread@ == messages[i].0 && content@ == messages[i].1)
        }),
{
    let frames = archive_frames(context.known, chats);
    lemma_chats_follow(context, chats);
    lemma_sound(context, frames);
    assert(frames.take(frames.len() as int) =~= frames);
    lemma_stored_steps(plan.steps@);
}

proof fn lemma_stored_steps(steps: Seq<ImportStep>)
    ensures
        ({
            let stored = steps.filter(|step: ImportStep| step is Save);
            let pairs = saved(step_views(steps));
            &&& stored.len() == pairs.len()
            &&& forall|i: int|
                0 <= i < pairs.len() ==> (#[trigger] stored[i] matches ImportStep::Save {
                    thread,
                    content,
                } && thread@ == pairs[i].0 && content@ == pairs[i].1)
        }),
    decreases steps.len(),
{
    reveal(Seq::filter);
    let kept = |step: ImportStep| step is Save;
    if steps.len() > 0 {
        let fewer = steps.drop_last();
        lemma_stored_steps(fewer);
        assert(step_views(steps) =~= step_views(fewer).push(steps.last()@));
        lemma_saved_push(step_views(fewer), steps.last()@);
        let before = fewer.filter(kept);
        let stored = steps.filter(kept);
        let pairs = saved(step_views(steps));
        if steps.last() is Save {
            assert(stored =~= before.push(steps.last()));
        }
        assert forall|i: int| 0 <= i < pairs.len() implies (#[trigger] stored[i] matches
            ImportStep::Save { thread, content } && thread@ == pairs[i].0 && content@
            == pairs[i].1) by {
            if i < before.len() {
                assert(stored[i] == before[i]);
            }
        }
    } else {
        assert(step_views(steps) =~= Seq::<ImportStepView>::empty());
    }
}

} // verus!
