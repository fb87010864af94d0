//! The commands: what they ask for, and what they print.
use vstd::prelude::*;

use crate::attachments::{safe_download_name, safe_name};
use crate::backend::{
    conversation_ref_views, conversation_views, kind_word, matching,
    matching_conversations, message_views, occurrence_views, str_or, text_or,
    AttachmentOccurrence, AttachmentOccurrenceView, ChatAttachment, ChatAttachmentView,
    ChatMessage, ChatMessageView, ChatMessages, Conversation, ConversationId, ConversationIdView,
    ConversationView,
};
use crate::dates::{short_timestamp, shows_short_time, shows_time, timestamp};
use crate::json::{array, field_views, json_views, no_fields, object, put, Json, JsonView};
use crate::number::{decimal, decimal_text, parse_u64, unsigned};
use crate::order::{
    as_ints, is_order, key_views, sort_indices, sorted_by_key, SortKey, SortKeyView,
};
use crate::text::{
    blanks, contains, debug_text, equal_ignoring_ascii_case, has_part, has_prefix, join, joined,
    lemma_pieces_append, lemma_texts_push, lowercase, lowercased, optional, pieces, quoted,
    same_ignoring_ascii_case, same_text, spaces, split_on, texts,
};

verus! {

/// The number of messages that a command shows unless it is told otherwise.
pub const DEFAULT_LIMIT: usize = 15;

/// How long a command waits for queued messages, in milliseconds.
pub const SYNC_TIMEOUT_MILLIS: u64 = 10_000;

/// A command.
#[derive(Debug, PartialEq, Eq)]
pub enum Command {
    /// List all contacts and groups.
    List,
    /// Read recent messages of one chat.
    Read { chat: String, since: Option<String>, until: Option<String>, limit: usize },
    /// Send a text to one chat.
    Send { chat: String, message: String },
    /// Show the newest messages of all chats.
    Brief { limit: usize },
    /// Download one attachment into the current directory.
    Download { file: String },
}

/// Why a number of messages is refused.
#[derive(Debug, Clone, Copy, PartialEq, Eq, Structural)]
pub enum LimitError {
    NoNumber,
    Zero,
}

impl LimitError {
    pub open spec fn described(self) -> Seq<char> {
        match self {
            LimitError::NoNumber => "must be a positive integer"@,
            LimitError::Zero => "must be greater than zero"@,
        }
    }

    pub fn message(self) -> (text: &'static str)
        ensures
            text@ == self.described(),
    {
        match self {
            LimitError::NoNumber => "must be a positive integer",
            LimitError::Zero => "must be greater than zero",
        }
    }
}

/// The number of messages that a text asks for.
pub open spec fn limit_of(value: Seq<char>) -> Result<usize, LimitError> {
    match unsigned(value) {
        Some(number) => if number == 0 {
            Err(LimitError::Zero)
        } else if number <= usize::MAX {
            Ok(number as usize)
        } else {
            Err(LimitError::NoNumber)
        },
        None => Err(LimitError::NoNumber),
    }
}

/// Reads a number of messages.
pub fn positive_usize(value: &str) -> (result: Result<usize, LimitError>)
    ensures
        result == limit_of(value@),
        match (unsigned(value@), result) {
            (Some(n), Ok(limit)) => n == limit && limit > 0,
            (Some(n), Err(LimitError::Zero)) => n == 0,
            (Some(n), Err(LimitError::NoNumber)) => n > usize::MAX,
            (None, Err(LimitError::NoNumber)) => true,
            _ => false,
        },
{
    match parse_u64(value) {
        Some(number) => if number == 0 {
            Err(LimitError::Zero)
        } else if number <= usize::MAX as u64 {
            Ok(number as usize)
        } else {
            Err(LimitError::NoNumber)
        },
        None => Err(LimitError::NoNumber),
    }
}

// ---------------------------------------------------------------------------
// JSON
// ---------------------------------------------------------------------------

pub open spec fn text_or_null(text: Option<Seq<char>>) -> JsonView {
    match text {
        Some(text) => JsonView::Text(text),
        None => JsonView::Null,
    }
}

pub open spec fn number_or_null(number: Option<u32>) -> JsonView {
    match number {
        Some(number) => JsonView::Number(number as u64),
        None => JsonView::Null,
    }
}

fn optional_text(text: Option<String>) -> (value: Json)
    ensures
        value@ == text_or_null(optional(text)),
{
    match text {
        Some(text) => Json::Text(text),
        None => Json::Null,
    }
}

fn copied_text(text: &Option<String>) -> (value: Json)
    ensures
        value@ == text_or_null(optional(*text)),
{
    match text {
        Some(text) => Json::Text(text.clone()),
        None => Json::Null,
    }
}

fn optional_number(number: Option<u32>) -> (value: Json)
    ensures
        value@ == number_or_null(number),
{
    match number {
        Some(number) => Json::Number(number as u64),
        None => Json::Null,
    }
}

/// A conversation in JSON.
pub open spec fn chat_object(chat: ConversationView) -> JsonView {
    JsonView::Object(
        seq![
            ("id"@, JsonView::Text(chat.id.stable_id())),
            ("kind"@, JsonView::Text(chat.id.kind())),
            ("name"@, JsonView::Text(chat.title)),
            ("subtitle"@, JsonView::Text(chat.subtitle)),
        ],
    )
}

/// A conversation in JSON.
pub fn chat_json(chat: &Conversation) -> (value: Json)
    ensures
        value@ == chat_object(chat@),
{
    let mut fields = no_fields();
    put(&mut fields, "id", Json::Text(chat.id.stable_id()));
    put(&mut fields, "kind", Json::Text(chat.id.kind().to_owned()));
    put(&mut fields, "name", Json::Text(chat.title.clone()));
    put(&mut fields, "subtitle", Json::Text(chat.subtitle.clone()));
    let value = object(fields);
    assert(value@->Object_0 =~= chat_object(chat@)->Object_0);
    value
}

/// The name of a file: its own, or the one it is saved under.
pub open spec fn file_title(attachment: ChatAttachmentView) -> Seq<char> {
    text_or(attachment.file_name, safe_name(attachment.display_name()))
}

fn file_name_of(attachment: &ChatAttachment) -> (name: String)
    ensures
        name@ == file_title(attachment@),
{
    match &attachment.file_name {
        Some(name) => name.clone(),
        None => safe_download_name(attachment),
    }
}

/// An attachment in JSON.
pub open spec fn attachment_object(attachment: ChatAttachmentView) -> JsonView {
    JsonView::Object(
        seq![
            ("id"@, text_or_null(attachment.download_id())),
            ("name"@, JsonView::Text(file_title(attachment))),
            ("content_type"@, text_or_null(attachment.content_type)),
            ("size"@, number_or_null(attachment.size)),
            ("width"@, number_or_null(attachment.width)),
            ("height"@, number_or_null(attachment.height)),
        ],
    )
}

/// An attachment in JSON.
pub fn attachment_json(attachment: &ChatAttachment) -> (value: Json)
    ensures
        value@ == attachment_object(attachment@),
{
    let mut fields = no_fields();
    put(&mut fields, "id", optional_text(attachment.download_id()));
    put(&mut fields, "name", Json::Text(file_name_of(attachment)));
    put(&mut fields, "content_type", copied_text(&attachment.content_type));
    put(&mut fields, "size", optional_number(attachment.size));
    put(&mut fields, "width", optional_number(attachment.width));
    put(&mut fields, "height", optional_number(attachment.height));
    let value = object(fields);
    assert(value@->Object_0 =~= attachment_object(attachment@)->Object_0);
    value
}

/// A message in JSON, with its time as it is shown.
pub open spec fn message_object(message: ChatMessageView, stamp: Seq<char>) -> JsonView {
    JsonView::Object(
        seq![
            ("timestamp"@, JsonView::Text(stamp)),
            ("timestamp_ms"@, JsonView::Number(message.timestamp)),
            (
                "direction"@,
                JsonView::Text(
                    if message.mine {
                        "sent"@
                    } else {
                        "received"@
                    },
                ),
            ),
            (
                "sender"@,
                JsonView::Text(
                    if message.mine {
                        "you"@
                    } else {
                        text_or(message.sender, "unknown"@)
                    },
                ),
            ),
            ("kind"@, JsonView::Text(kind_word(message.kind))),
            ("body"@, JsonView::Text(message.body)),
            ("attachment_count"@, JsonView::Number(message.attachments.len() as u64)),
            (
                "attachments"@,
                JsonView::Array(
                    message.attachments.map_values(
                        |attachment: ChatAttachmentView| attachment_object(attachment),
                    ),
                ),
            ),
        ],
    )
}

fn message_fields(message: &ChatMessage, stamp: &str) -> (fields: Vec<(String, Json)>)
    ensures
        JsonView::Object(field_views(fields@)) == message_object(message@, stamp@),
{
    let mut attachments: Vec<Json> = Vec::new();
    for i in 0..message.attachments.len()
        invariant
            attachments@.len() == i,
            forall|j: int|
                0 <= j < i ==> (#[trigger] attachments@[j])@ == attachment_object(
                    message.attachments@[j]@,
                ),
    {
        attachments.push(attachment_json(&message.attachments[i]));
    }
    assert(json_views(attachments@) =~= message@.attachments.map_values(
        |attachment: ChatAttachmentView| attachment_object(attachment),
    ));
    let count: usize = message.attachments.len();
    let mut fields = no_fields();
    put(&mut fields, "timestamp", Json::Text(stamp.to_owned()));
    put(&mut fields, "timestamp_ms", Json::Number(message.timestamp));
    put(
        &mut fields,
        "direction",
        Json::Text(
            if message.mine {
                "sent".to_owned()
            } else {
                "received".to_owned()
            },
        ),
    );
    put(
        &mut fields,
        "sender",
        Json::Text(
            if message.mine {
                "you".to_owned()
            } else {
                str_or(&message.sender, "unknown").to_owned()
            },
        ),
    );
    put(&mut fields, "kind", Json::Text(message.kind.word().to_owned()));
    put(&mut fields, "body", Json::Text(message.body.clone()));
    put(&mut fields, "attachment_count", Json::Number(count as u64));
    put(&mut fields, "attachments", array(attachments));
    assert(field_views(fields@) =~= message_object(message@, stamp@)->Object_0);
    fields
}

/// A message in JSON, with its time as it is shown.
pub fn stamped_message_json(message: &ChatMessage, stamp: &str) -> (value: Json)
    ensures
        value@ == message_object(message@, stamp@),
{
    object(message_fields(message, stamp))
}

/// A message in JSON.
pub fn message_json(message: &ChatMessage) -> (value: Json)
    ensures
        exists|stamp: Seq<char>|
            shows_time(message.timestamp, stamp) && value@ == #[trigger] message_object(
                message@,
                stamp,
            ),
{
    let stamp = timestamp(message.timestamp);
    stamped_message_json(message, stamp.as_str())
}

// ---------------------------------------------------------------------------
// Texts
// ---------------------------------------------------------------------------

/// Who a message is from, among the messages of all chats.
pub open spec fn brief_name(chat: ConversationView, message: ChatMessageView) -> Seq<char> {
    if message.mine {
        "you → "@ + chat.title
    } else {
        match chat.id {
            ConversationIdView::Group(_) => chat.title + " · "@ + text_or(
                message.sender,
                "Unknown contact"@,
            ),
            ConversationIdView::Contact(_) => chat.title,
        }
    }
}

/// Who a message is from, among the messages of all chats.
pub fn brief_message_name(chat: &Conversation, message: &ChatMessage) -> (name: String)
    ensures
        name@ == brief_name(chat@, message@),
{
    if message.mine {
        let mut name: String = "you → ".to_owned();
        name.push_str(chat.title.as_str());
        return name;
    }
    match &chat.id {
        ConversationId::Group(_) => {
            let mut name: String = chat.title.clone();
            name.push_str(" · ");
            name.push_str(str_or(&message.sender, "Unknown contact"));
            name
        },
        ConversationId::Contact(_) => chat.title.clone(),
    }
}

/// Who a message is from, among the messages of one chat.
pub open spec fn read_name(message: ChatMessageView) -> Seq<char> {
    if message.mine {
        "you"@
    } else {
        text_or(message.sender, "unknown"@)
    }
}

fn read_message_name(message: &ChatMessage) -> (name: String)
    ensures
        name@ == read_name(message@),
{
    if message.mine {
        "you".to_owned()
    } else {
        str_or(&message.sender, "unknown").to_owned()
    }
}

/// A size in tenths of a unit, rounded to the nearest; a half goes to the even
/// neighbour.
pub open spec fn tenths(size: nat, unit: nat) -> nat
    recommends
        unit > 0,
{
    let whole = size * 10 / unit;
    let rest = size * 10 % unit;
    if rest * 2 > unit || rest * 2 == unit && whole % 2 == 1 {
        whole + 1
    } else {
        whole
    }
}

/// A number of tenths, with one digit behind the point.
pub open spec fn with_tenth(count: nat) -> Seq<char> {
    decimal(count / 10) + "."@ + decimal(count % 10)
}

/// A size of a file as people read it.
pub open spec fn size_text(size: Option<u32>) -> Seq<char> {
    match size {
        None => "unknown size"@,
        Some(size) => if size < 1_024 {
            decimal(size as nat) + " B"@
        } else if size < 1_048_576 {
            with_tenth(tenths(size as nat, 1_024)) + " KiB"@
        } else if size < 1_073_741_824 {
            with_tenth(tenths(size as nat, 1_048_576)) + " MiB"@
        } else {
            with_tenth(tenths(size as nat, 1_073_741_824)) + " GiB"@
        },
    }
}

fn in_units(size: u32, unit: u64, suffix: &str) -> (text: String)
    requires
        0 < unit <= 1_073_741_824,
    ensures
        text@ == with_tenth(tenths(size as nat, unit as nat)) + suffix@,
{
    let scaled: u64 = size as u64 * 10;
    let whole: u64 = scaled / unit;
    let rest: u64 = scaled % unit;
    assert(whole <= scaled) by (nonlinear_arith)
        requires
            whole == scaled / unit,
            unit > 0,
    ;
    let count: u64 = if rest * 2 > unit || (rest * 2 == unit && whole % 2 == 1) {
        whole + 1
    } else {
        whole
    };
    let mut text = decimal_text(count / 10);
    text.push_str(".");
    text.push_str(decimal_text(count % 10).as_str());
    text.push_str(suffix);
    text
}

/// A size of a file as people read it.
pub fn human_size(size: Option<u32>) -> (text: String)
    ensures
        text@ == size_text(size),
{
    match size {
        None => "unknown size".to_owned(),
        Some(size) => if size < 1_024 {
            let mut text = decimal_text(size as u64);
            text.push_str(" B");
            text
        } else if size < 1_048_576 {
            in_units(size, 1_024, " KiB")
        } else if size < 1_073_741_824 {
            in_units(size, 1_048_576, " MiB")
        } else {
            in_units(size, 1_073_741_824, " GiB")
        },
    }
}

/// The line of an attachment below its message.
pub open spec fn file_line(attachment: ChatAttachmentView) -> Seq<char> {
    "file "@ + text_or(attachment.download_id(), "unavailable"@) + " · "@ + file_title(attachment)
        + " · "@ + size_text(attachment.size) + " · "@ + text_or(
        attachment.content_type,
        "unknown type"@,
    )
}

fn file_row(attachment: &ChatAttachment) -> (text: String)
    ensures
        text@ == file_line(attachment@),
{
    let mut text: String = "file ".to_owned();
    let id = attachment.download_id();
    text.push_str(str_or(&id, "unavailable"));
    text.push_str(" · ");
    text.push_str(file_name_of(attachment).as_str());
    text.push_str(" · ");
    text.push_str(human_size(attachment.size).as_str());
    text.push_str(" · ");
    text.push_str(str_or(&attachment.content_type, "unknown type"));
    text
}

/// The lines of a message: those of its text, then one for each attachment, and
/// at least one.
pub open spec fn content_lines(message: ChatMessageView) -> Seq<Seq<char>> {
    let body = if message.body.len() == 0 {
        Seq::empty()
    } else {
        pieces(message.body, '\n')
    };
    let all = body + message.attachments.map_values(
        |attachment: ChatAttachmentView| file_line(attachment),
    );
    if all.len() == 0 {
        seq![Seq::<char>::empty()]
    } else {
        all
    }
}

/// The lines of a message.
pub fn message_content(message: &ChatMessage) -> (content: Vec<String>)
    ensures
        texts(content@) == content_lines(message@),
{
    let mut content: Vec<String> = if message.body.as_str().is_empty() {
        Vec::new()
    } else {
        split_on(message.body.as_str(), '\n')
    };
    let ghost body = texts(content@);
    assert(message@.body.len() == 0 ==> body =~= Seq::<Seq<char>>::empty());
    let ghost files = message@.attachments.map_values(
        |attachment: ChatAttachmentView| file_line(attachment),
    );
    assert(body + files.take(0) =~= body);
    for i in 0..message.attachments.len()
        invariant
            files == message@.attachments.map_values(
                |attachment: ChatAttachmentView| file_line(attachment),
            ),
            texts(content@) == body + files.take(i as int),
    {
        let row = file_row(&message.attachments[i]);
        proof {
            lemma_texts_push(content@, row);
        }
        content.push(row);
        assert(files.take(i + 1) =~= files.take(i as int).push(row@));
        assert(texts(content@) =~= body + files.take(i + 1));
    }
    assert(files.take(files.len() as int) =~= files);
    if content.len() == 0 {
        let nothing = String::new();
        proof {
            lemma_texts_push(content@, nothing);
        }
        content.push(nothing);
        assert(texts(content@) =~= seq![Seq::<char>::empty()]);
    }
    content
}

/// The text of a message on one line of a list: further lines are indented, and
/// the attachments are counted.
pub open spec fn indented(s: Seq<char>) -> Seq<char> {
    joined(pieces(s, '\n'), "\n    "@)
}

pub open spec fn body_text(message: ChatMessageView) -> Seq<char> {
    let body = indented(message.body);
    let count = message.attachments.len();
    if count == 0 {
        body
    } else {
        body + (if body.len() == 0 {
            ""@
        } else {
            " "@
        }) + "["@ + decimal(count) + " "@ + (if count == 1 {
            "attachment"@
        } else {
            "attachments"@
        }) + "]"@
    }
}

/// The text of a message on one line of a list.
pub fn body_for_human(message: &ChatMessage) -> (text: String)
    ensures
        text@ == body_text(message@),
{
    let parts = split_on(message.body.as_str(), '\n');
    let mut text = join(&parts, "\n    ");
    let count: usize = message.attachments.len();
    if count > 0 {
        text.push_str(
            if text.as_str().is_empty() {
                ""
            } else {
                " "
            },
        );
        text.push_str("[");
        text.push_str(decimal_text(count as u64).as_str());
        text.push_str(" ");
        text.push_str(
            if count == 1 {
                "attachment"
            } else {
                "attachments"
            },
        );
        text.push_str("]");
    }
    text
}

// ---------------------------------------------------------------------------
// Columns
// ---------------------------------------------------------------------------

/// A message in columns.
#[derive(Debug, PartialEq, Eq)]
pub struct HumanMessageRow {
    pub datetime: String,
    pub name: String,
    pub content: Vec<String>,
    pub incoming: bool,
}

#[verifier::ext_equal]
pub struct HumanMessageRowView {
    pub datetime: Seq<char>,
    pub name: Seq<char>,
    pub content: Seq<Seq<char>>,
    pub incoming: bool,
}

impl View for HumanMessageRow {
    type V = HumanMessageRowView;

    open spec fn view(&self) -> HumanMessageRowView {
        HumanMessageRowView {
            datetime: self.datetime@,
            name: self.name@,
            content: texts(self.content@),
            incoming: self.incoming,
        }
    }
}

pub open spec fn row_views(rows: Seq<HumanMessageRow>) -> Seq<HumanMessageRowView> {
    rows.map_values(|row: HumanMessageRow| row@)
}

/// A message in columns, with its time as it is shown.
pub open spec fn row_of(
    message: ChatMessageView,
    name: Seq<char>,
    stamp: Seq<char>,
) -> HumanMessageRowView {
    HumanMessageRowView {
        datetime: stamp,
        name,
        content: content_lines(message),
        incoming: !message.mine,
    }
}

/// A message in columns, with its time as it is shown.
pub fn stamped_row(message: &ChatMessage, name: String, stamp: String) -> (row: HumanMessageRow)
    ensures
        row@ == row_of(message@, name@, stamp@),
{
    HumanMessageRow {
        datetime: stamp,
        name,
        content: message_content(message),
        incoming: !message.mine,
    }
}

/// A message in columns.
pub fn message_row(message: &ChatMessage, name: String) -> (row: HumanMessageRow)
    ensures
        shows_short_time(message.timestamp, row@.datetime),
        row@ == row_of(message@, name@, row@.datetime),
{
    let stamp = short_timestamp(message.timestamp);
    stamped_row(message, name, stamp)
}

/// The number of columns that a text takes in a terminal.
pub uninterp spec fn display_width(text: Seq<char>) -> nat;

/// `unicode_width::UnicodeWidthStr::width`: the number of columns that a text
/// takes. The result is a function of the text alone, and is named
/// `display_width`; Unicode's tables are not spelled out.
#[verifier::external_body]
pub(crate) fn text_width(text: &str) -> (width: usize)
    ensures
        width == display_width(text@),
{
    unicode_width::UnicodeWidthStr::width(text)
}

/// A text of some width, filled up with spaces to another width.
pub open spec fn padded(text: Seq<char>, own: nat, width: nat) -> Seq<char> {
    if own < width {
        text + blanks((width - own) as nat)
    } else {
        text
    }
}

/// Fills a text of the given width up with spaces to another width.
pub fn pad(text: &str, own: usize, width: usize) -> (result: String)
    ensures
        result@ == padded(text@, own as nat, width as nat),
{
    let mut result: String = text.to_owned();
    if own < width {
        result.push_str(spaces(width - own).as_str());
    }
    result
}

/// Fills a text up with spaces to a width.
pub fn pad_to_width(text: &str, width: usize) -> (result: String)
    ensures
        result@ == padded(text@, display_width(text@), width as nat),
{
    pad(text, text_width(text), width)
}

/// A text in blue, where it is not empty and colors are wanted.
pub open spec fn colored(text: Seq<char>, enabled: bool) -> Seq<char> {
    if enabled && text.len() > 0 {
        "\x1b[38;2;70;130;255m"@ + text + "\x1b[0m"@
    } else {
        text
    }
}

/// A text in blue, where it is not empty and colors are wanted.
pub fn blue(text: String, enabled: bool) -> (result: String)
    ensures
        result@ == colored(text@, enabled),
{
    if enabled && !text.as_str().is_empty() {
        let mut result: String = "\x1b[38;2;70;130;255m".to_owned();
        result.push_str(text.as_str());
        result.push_str("\x1b[0m");
        result
    } else {
        text
    }
}

/// Whether colors are wanted, given the kind of the terminal.
pub open spec fn colors_wanted(terminal: bool, no_color: bool, term: Option<Seq<char>>) -> bool {
    terminal && !no_color && term != Some("dumb"@)
}

/// Whether colors are wanted: on a terminal that is not a dumb one, unless the
/// environment asks for none.
pub fn color_enabled(terminal: bool, no_color: bool, term: Option<&str>) -> (yes: bool)
    ensures
        yes == colors_wanted(
            terminal,
            no_color,
            match term {
                Some(term) => Some(term@),
                None => None,
            },
        ),
        yes == (terminal && !no_color && !(term matches Some(term) && term@ == "dumb"@)),
{
    let dumb = match term {
        Some(term) => same_text(term, "dumb"),
        None => false,
    };
    terminal && !no_color && !dumb
}

/// The largest of some widths, at least zero.
pub open spec fn widest(widths: Seq<nat>) -> nat
    decreases widths.len(),
{
    if widths.len() == 0 {
        0
    } else {
        let before = widest(widths.drop_last());
        if widths.last() > before {
            widths.last()
        } else {
            before
        }
    }
}

pub open spec fn nats(widths: Seq<usize>) -> Seq<nat> {
    widths.map_values(|width: usize| width as nat)
}

fn largest(widths: &Vec<usize>) -> (width: usize)
    ensures
        width == widest(nats(widths@)),
{
    let mut width: usize = 0;
    for i in 0..widths.len()
        invariant
            width == widest(nats(widths@).take(i as int)),
    {
        assert(nats(widths@).take(i + 1).drop_last() =~= nats(widths@).take(i as int));
        assert(nats(widths@).take(i + 1).last() == widths@[i as int]);
        if widths[i] > width {
            width = widths[i];
        }
    }
    assert(nats(widths@).take(widths@.len() as int) =~= nats(widths@));
    width
}

/// The widths of the columns of a list.
pub struct Columns {
    pub datetime: nat,
    pub name: nat,
}

/// The time of a row on one of its lines. Only the first line has it.
pub open spec fn datetime_column(
    row: HumanMessageRowView,
    datetime: nat,
    columns: Columns,
    index: int,
) -> Seq<char> {
    if index == 0 {
        padded(row.datetime, datetime, columns.datetime)
    } else {
        blanks(columns.datetime)
    }
}

/// The name of a row on one of its lines. Only the first line has it.
pub open spec fn name_column(
    row: HumanMessageRowView,
    name: nat,
    columns: Columns,
    index: int,
) -> Seq<char> {
    if index == 0 {
        padded(row.name, name, columns.name)
    } else {
        blanks(columns.name)
    }
}

/// The columns of one line of a row. Those of the name and the content are in
/// color where the message is incoming and colors are wanted.
pub open spec fn line_columns(
    row: HumanMessageRowView,
    datetime: nat,
    name: nat,
    columns: Columns,
    color: bool,
    index: int,
) -> Seq<char> {
    datetime_column(row, datetime, columns, index) + "  "@ + colored(
        name_column(row, name, columns, index),
        color && row.incoming,
    ) + "  "@ + colored(row.content[index], color && row.incoming)
}

/// One line of a row.
pub open spec fn line_text(
    row: HumanMessageRowView,
    datetime: nat,
    name: nat,
    columns: Columns,
    color: bool,
    index: int,
) -> Seq<char> {
    line_columns(row, datetime, name, columns, color, index) + "\n"@
}

/// The first `count` lines of a row.
pub open spec fn row_text(
    row: HumanMessageRowView,
    datetime: nat,
    name: nat,
    columns: Columns,
    color: bool,
    count: nat,
) -> Seq<char>
    decreases count,
{
    if count == 0 {
        Seq::empty()
    } else {
        row_text(row, datetime, name, columns, color, (count - 1) as nat) + line_text(
            row,
            datetime,
            name,
            columns,
            color,
            count - 1,
        )
    }
}

/// The first `count` rows, with the widths of their times and names.
pub open spec fn rows_text(
    rows: Seq<HumanMessageRowView>,
    datetimes: Seq<nat>,
    names: Seq<nat>,
    columns: Columns,
    color: bool,
    count: nat,
) -> Seq<char>
    decreases count,
{
    if count == 0 {
        Seq::empty()
    } else {
        rows_text(rows, datetimes, names, columns, color, (count - 1) as nat) + row_text(
            rows[count - 1],
            datetimes[count - 1],
            names[count - 1],
            columns,
            color,
            rows[count - 1].content.len(),
        )
    }
}

/// A list of messages in aligned columns, given the widths of the times and the
/// names.
pub open spec fn table_text(
    rows: Seq<HumanMessageRowView>,
    datetimes: Seq<nat>,
    names: Seq<nat>,
    color: bool,
) -> Seq<char> {
    rows_text(
        rows,
        datetimes,
        names,
        Columns { datetime: widest(datetimes), name: widest(names) },
        color,
        rows.len(),
    )
}

fn row_line(
    row: &HumanMessageRow,
    datetime: usize,
    name: usize,
    datetime_width: usize,
    name_width: usize,
    color: bool,
    index: usize,
) -> (line: String)
    requires
        index < row@.content.len(),
    ensures
        line@ == line_text(
            row@,
            datetime as nat,
            name as nat,
            Columns { datetime: datetime_width as nat, name: name_width as nat },
            color,
            index as int,
        ),
{
    assert(row@.content[index as int] == row.content@[index as int]@);
    let mut line = if index == 0 {
        pad(row.datetime.as_str(), datetime, datetime_width)
    } else {
        spaces(datetime_width)
    };
    let second = if index == 0 {
        pad(row.name.as_str(), name, name_width)
    } else {
        spaces(name_width)
    };
    line.push_str("  ");
    line.push_str(blue(second, color && row.incoming).as_str());
    line.push_str("  ");
    line.push_str(blue(row.content[index].clone(), color && row.incoming).as_str());
    line.push_str("\n");
    line
}

fn push_row(
    output: &mut String,
    row: &HumanMessageRow,
    datetime: usize,
    name: usize,
    datetime_width: usize,
    name_width: usize,
    color: bool,
)
    ensures
        final(output)@ == old(output)@ + row_text(
            row@,
            datetime as nat,
            name as nat,
            Columns { datetime: datetime_width as nat, name: name_width as nat },
            color,
            row@.content.len(),
        ),
{
    let ghost columns = Columns { datetime: datetime_width as nat, name: name_width as nat };
    let ghost view = row@;
    let ghost before = output@;
    assert(before + row_text(view, datetime as nat, name as nat, columns, color, 0) =~= before);
    for index in 0..row.content.len()
        invariant
            view == row@,
            view.content.len() == row.content@.len(),
            columns == (Columns { datetime: datetime_width as nat, name: name_width as nat }),
            output@ == before + row_text(
                view,
                datetime as nat,
                name as nat,
                columns,
                color,
                index as nat,
            ),
    {
        let line = row_line(row, datetime, name, datetime_width, name_width, color, index);
        let ghost lines = row_text(
            view,
            datetime as nat,
            name as nat,
            columns,
            color,
            index as nat,
        );
        output.push_str(line.as_str());
        assert(output@ =~= before + (lines + line@));
    }
}

/// A list of messages in aligned columns, given the widths of the times and the
/// names.
pub fn render_measured(
    rows: &[HumanMessageRow],
    datetimes: &Vec<usize>,
    names: &Vec<usize>,
    color: bool,
) -> (output: String)
    requires
        datetimes@.len() == rows@.len(),
        names@.len() == rows@.len(),
    ensures
        output@ == table_text(row_views(rows@), nats(datetimes@), nats(names@), color),
{
    let datetime_width: usize = largest(datetimes);
    let name_width: usize = largest(names);
    let ghost columns = Columns { datetime: datetime_width as nat, name: name_width as nat };
    let ghost views = row_views(rows@);
    let mut output: String = String::new();
    assert(output@ =~= rows_text(views, nats(datetimes@), nats(names@), columns, color, 0));
    for i in 0..rows.len()
        invariant
            datetimes@.len() == rows@.len(),
            names@.len() == rows@.len(),
            views == row_views(rows@),
            columns == (Columns { datetime: datetime_width as nat, name: name_width as nat }),
            output@ == rows_text(
                views,
                nats(datetimes@),
                nats(names@),
                columns,
                color,
                i as nat,
            ),
    {
        assert(views[i as int] == rows@[i as int]@);
        assert(nats(datetimes@)[i as int] == datetimes@[i as int]);
        assert(nats(names@)[i as int] == names@[i as int]);
        push_row(
            &mut output,
            &rows[i],
            datetimes[i],
            names[i],
            datetime_width,
            name_width,
            color,
        );
    }
    output
}

pub open spec fn datetime_widths(rows: Seq<HumanMessageRowView>) -> Seq<nat> {
    rows.map_values(|row: HumanMessageRowView| display_width(row.datetime))
}

pub open spec fn name_widths(rows: Seq<HumanMessageRowView>) -> Seq<nat> {
    rows.map_values(|row: HumanMessageRowView| display_width(row.name))
}

/// A list of messages in aligned columns.
pub fn render_message_rows(rows: &[HumanMessageRow], color: bool) -> (output: String)
    ensures
        output@ == table_text(
            row_views(rows@),
            datetime_widths(row_views(rows@)),
            name_widths(row_views(rows@)),
            color,
        ),
{
    let mut datetimes: Vec<usize> = Vec::new();
    let mut names: Vec<usize> = Vec::new();
    for i in 0..rows.len()
        invariant
            datetimes@.len() == i,
            names@.len() == i,
            forall|j: int|
                0 <= j < i ==> #[trigger] datetimes@[j] == display_width(rows@[j].datetime@),
            forall|j: int| 0 <= j < i ==> #[trigger] names@[j] == display_width(rows@[j].name@),
    {
        datetimes.push(text_width(rows[i].datetime.as_str()));
        names.push(text_width(rows[i].name.as_str()));
    }
    assert(nats(datetimes@) =~= datetime_widths(row_views(rows@)));
    assert(nats(names@) =~= name_widths(row_views(rows@)));
    render_measured(rows, &datetimes, &names, color)
}

// ---------------------------------------------------------------------------
// Laws of the columns
// ---------------------------------------------------------------------------

/// A text without the escape sequences that turn the color on and off.
pub open spec fn without_escapes(s: Seq<char>) -> Seq<char>
    decreases s.len(),
{
    if s.len() == 0 {
        s
    } else if has_prefix(s, "\x1b[38;2;70;130;255m"@) {
        proof {
            reveal_strlit("\x1b[38;2;70;130;255m");
        }
        without_escapes(s.skip("\x1b[38;2;70;130;255m"@.len() as int))
    } else if has_prefix(s, "\x1b[0m"@) {
        proof {
            reveal_strlit("\x1b[0m");
        }
        without_escapes(s.skip("\x1b[0m"@.len() as int))
    } else {
        seq![s[0]] + without_escapes(s.drop_first())
    }
}

/// Whether no text of a row holds a character.
pub open spec fn row_without(row: HumanMessageRowView, c: char) -> bool {
    &&& !row.datetime.contains(c)
    &&& !row.name.contains(c)
    &&& forall|i: int| 0 <= i < row.content.len() ==> !(#[trigger] row.content[i]).contains(c)
}

proof fn lemma_plain_front(s: Seq<char>, tail: Seq<char>)
    requires
        !s.contains('\x1b'),
    ensures
        without_escapes(s + tail) == s + without_escapes(tail),
    decreases s.len(),
{
    reveal_strlit("\x1b[38;2;70;130;255m");
    reveal_strlit("\x1b[0m");
    if s.len() == 0 {
        assert(s + tail =~= tail);
        assert(s + without_escapes(tail) =~= without_escapes(tail));
    } else {
        let whole = s + tail;
        let blue = "\x1b[38;2;70;130;255m"@;
        let reset = "\x1b[0m"@;
        assert(s.contains(s[0]));
        if has_prefix(whole, blue) {
            assert(whole.subrange(0, blue.len() as int)[0] == blue[0]);
        }
        if has_prefix(whole, reset) {
            assert(whole.subrange(0, reset.len() as int)[0] == reset[0]);
        }
        assert forall|i: int| 0 <= i < s.len() - 1 implies s.drop_first()[i] != '\x1b' by {
            assert(s.contains(s[i + 1]));
        }
        lemma_plain_front(s.drop_first(), tail);
        assert(whole.drop_first() =~= s.drop_first() + tail);
        assert(seq![s[0]] + (s.drop_first() + without_escapes(tail)) =~= s + without_escapes(
            tail,
        ));
    }
}

proof fn lemma_escapes_go(tail: Seq<char>)
    ensures
        without_escapes("\x1b[38;2;70;130;255m"@ + tail) == without_escapes(tail),
        without_escapes("\x1b[0m"@ + tail) == without_escapes(tail),
{
    reveal_strlit("\x1b[38;2;70;130;255m");
    reveal_strlit("\x1b[0m");
    let blue = "\x1b[38;2;70;130;255m"@;
    let reset = "\x1b[0m"@;
    let first = blue + tail;
    assert(first.subrange(0, blue.len() as int) =~= blue);
    assert(first.skip(blue.len() as int) =~= tail);
    let second = reset + tail;
    assert(second.subrange(0, reset.len() as int) =~= reset);
    assert(second.skip(reset.len() as int) =~= tail);
    if has_prefix(second, blue) {
        assert(second.subrange(0, blue.len() as int)[2] == blue[2]);
    }
}

proof fn lemma_colored_goes(s: Seq<char>, enabled: bool, tail: Seq<char>)
    requires
        !s.contains('\x1b'),
    ensures
        without_escapes(colored(s, enabled) + tail) == s + without_escapes(tail),
{
    if enabled && s.len() > 0 {
        let blue = "\x1b[38;2;70;130;255m"@;
        let reset = "\x1b[0m"@;
        assert(blue + s + reset + tail =~= blue + (s + (reset + tail)));
        lemma_escapes_go(s + (reset + tail));
        lemma_plain_front(s, reset + tail);
        lemma_escapes_go(tail);
    } else {
        lemma_plain_front(s, tail);
    }
}

/// A column holds nothing but the text that it shows, and spaces.
proof fn lemma_columns_without(
    row: HumanMessageRowView,
    datetime: nat,
    name: nat,
    columns: Columns,
    index: int,
    c: char,
)
    requires
        row_without(row, c),
        c != ' ',
    ensures
        !datetime_column(row, datetime, columns, index).contains(c),
        !name_column(row, name, columns, index).contains(c),
        !"  "@.contains(c),
{
    reveal_strlit("  ");
    let first = datetime_column(row, datetime, columns, index);
    assert forall|i: int| 0 <= i < first.len() implies first[i] != c by {
        if index == 0 && i < row.datetime.len() {
            assert(row.datetime.contains(row.datetime[i]));
        }
    }
    let second = name_column(row, name, columns, index);
    assert forall|i: int| 0 <= i < second.len() implies second[i] != c by {
        if index == 0 && i < row.name.len() {
            assert(row.name.contains(row.name[i]));
        }
    }
}

/// Six texts in a row and what follows them, put together from the front or from
/// the back.
proof fn lemma_regrouped(
    a: Seq<char>,
    b: Seq<char>,
    c: Seq<char>,
    d: Seq<char>,
    e: Seq<char>,
    f: Seq<char>,
    tail: Seq<char>,
)
    ensures
        a + b + c + d + e + f + tail == a + (b + (c + (d + (e + (f + tail))))),
{
    assert(a + b + c + d + e + f + tail =~= a + b + c + d + e + (f + tail));
    let last = f + tail;
    assert(a + b + c + d + e + last =~= a + b + c + (d + (e + last)));
    let end = d + (e + last);
    assert(a + b + c + end =~= a + (b + (c + end)));
}

proof fn lemma_line_goes(
    row: HumanMessageRowView,
    datetime: nat,
    name: nat,
    columns: Columns,
    index: int,
    tail: Seq<char>,
)
    requires
        row_without(row, '\x1b'),
        0 <= index < row.content.len(),
    ensures
        without_escapes(line_text(row, datetime, name, columns, true, index) + tail) == line_text(
            row,
            datetime,
            name,
            columns,
            false,
            index,
        ) + without_escapes(tail),
{
    reveal_strlit("\n");
    let first = datetime_column(row, datetime, columns, index);
    let second = name_column(row, name, columns, index);
    let content = row.content[index];
    let gap = "  "@;
    let end = "\n"@;
    lemma_columns_without(row, datetime, name, columns, index, '\x1b');
    let after_content = end + tail;
    let at_content = colored(content, row.incoming) + after_content;
    let after_name = gap + at_content;
    let at_name = colored(second, row.incoming) + after_name;
    let after_first = gap + at_name;
    lemma_regrouped(
        first,
        gap,
        colored(second, row.incoming),
        gap,
        colored(content, row.incoming),
        end,
        tail,
    );
    assert(line_text(row, datetime, name, columns, true, index) + tail == first + after_first);
    lemma_plain_front(first, after_first);
    lemma_plain_front(gap, at_name);
    lemma_colored_goes(second, row.incoming, after_name);
    lemma_plain_front(gap, at_content);
    lemma_colored_goes(content, row.incoming, after_content);
    lemma_plain_front(end, tail);
    lemma_regrouped(first, gap, second, gap, content, end, without_escapes(tail));
}

proof fn lemma_row_goes(
    row: HumanMessageRowView,
    datetime: nat,
    name: nat,
    columns: Columns,
    count: nat,
    tail: Seq<char>,
)
    requires
        row_without(row, '\x1b'),
        count <= row.content.len(),
    ensures
        without_escapes(row_text(row, datetime, name, columns, true, count) + tail) == row_text(
            row,
            datetime,
            name,
            columns,
            false,
            count,
        ) + without_escapes(tail),
    decreases count,
{
    let colorful = row_text(row, datetime, name, columns, true, count);
    let plain = row_text(row, datetime, name, columns, false, count);
    if count == 0 {
        assert(colorful + tail =~= tail);
        assert(plain + without_escapes(tail) =~= without_escapes(tail));
    } else {
        let fewer = (count - 1) as nat;
        let line = line_text(row, datetime, name, columns, true, count - 1);
        let line_plain = line_text(row, datetime, name, columns, false, count - 1);
        lemma_row_goes(row, datetime, name, columns, fewer, line + tail);
        lemma_line_goes(row, datetime, name, columns, count - 1, tail);
        assert(colorful + tail =~= row_text(row, datetime, name, columns, true, fewer) + (line
            + tail));
        assert(plain + without_escapes(tail) =~= row_text(
            row,
            datetime,
            name,
            columns,
            false,
            fewer,
        ) + (line_plain + without_escapes(tail)));
    }
}

proof fn lemma_rows_go(
    rows: Seq<HumanMessageRowView>,
    datetimes: Seq<nat>,
    names: Seq<nat>,
    columns: Columns,
    count: nat,
    tail: Seq<char>,
)
    requires
        forall|i: int| 0 <= i < rows.len() ==> row_without(#[trigger] rows[i], '\x1b'),
        count <= rows.len(),
    ensures
        without_escapes(rows_text(rows, datetimes, names, columns, true, count) + tail)
            == rows_text(rows, datetimes, names, columns, false, count) + without_escapes(tail),
    decreases count,
{
    let colorful = rows_text(rows, datetimes, names, columns, true, count);
    let plain = rows_text(rows, datetimes, names, columns, false, count);
    if count == 0 {
        assert(colorful + tail =~= tail);
        assert(plain + without_escapes(tail) =~= without_escapes(tail));
    } else {
        let fewer = (count - 1) as nat;
        let row = rows[count - 1];
        let lines = row.content.len();
        let datetime = datetimes[count - 1];
        let name = names[count - 1];
        let last = row_text(row, datetime, name, columns, true, lines);
        let last_plain = row_text(row, datetime, name, columns, false, lines);
        lemma_rows_go(rows, datetimes, names, columns, fewer, last + tail);
        lemma_row_goes(row, datetime, name, columns, lines, tail);
        assert(colorful + tail =~= rows_text(rows, datetimes, names, columns, true, fewer) + (last
            + tail));
        assert(plain + without_escapes(tail) =~= rows_text(
            rows,
            datetimes,
            names,
            columns,
            false,
            fewer,
        ) + (last_plain + without_escapes(tail)));
    }
}

/// Colors add nothing but escape sequences: without them the list in color is the
/// plain one, as long as no text in it holds an escape character itself.
pub proof fn colors_are_only_escapes(
    rows: Seq<HumanMessageRowView>,
    datetimes: Seq<nat>,
    names: Seq<nat>,
)
    requires
        forall|i: int| 0 <= i < rows.len() ==> row_without(#[trigger] rows[i], '\x1b'),
    ensures
        without_escapes(table_text(rows, datetimes, names, true)) == table_text(
            rows,
            datetimes,
            names,
            false,
        ),
{
    let columns = Columns { datetime: widest(datetimes), name: widest(names) };
    let none = Seq::<char>::empty();
    let colorful = table_text(rows, datetimes, names, true);
    let plain = table_text(rows, datetimes, names, false);
    lemma_rows_go(rows, datetimes, names, columns, rows.len(), none);
    assert(colorful + none =~= colorful);
    assert(plain + none =~= plain);
}

/// The lines of a row, without their ends.
pub open spec fn row_lines(
    row: HumanMessageRowView,
    datetime: nat,
    name: nat,
    columns: Columns,
    color: bool,
) -> Seq<Seq<char>> {
    Seq::new(
        row.content.len(),
        |index: int| line_columns(row, datetime, name, columns, color, index),
    )
}

/// The lines of the first `count` rows, one after another.
pub open spec fn rows_lines(
    rows: Seq<HumanMessageRowView>,
    datetimes: Seq<nat>,
    names: Seq<nat>,
    columns: Columns,
    color: bool,
    count: nat,
) -> Seq<Seq<char>>
    decreases count,
{
    if count == 0 {
        Seq::empty()
    } else {
        rows_lines(rows, datetimes, names, columns, color, (count - 1) as nat) + row_lines(
            rows[count - 1],
            datetimes[count - 1],
            names[count - 1],
            columns,
            color,
        )
    }
}

/// Only incoming messages are in color: the lines of any other row are the same
/// with colors and without. Of an incoming one the time is never in color, and
/// each escape stands directly around the name or the content.
pub proof fn only_incoming_rows_are_colored(
    row: HumanMessageRowView,
    datetime: nat,
    name: nat,
    columns: Columns,
)
    ensures
        !row.incoming ==> row_lines(row, datetime, name, columns, true) == row_lines(
            row,
            datetime,
            name,
            columns,
            false,
        ),
        row.incoming ==> forall|i: int|
            0 <= i < row.content.len() ==> #[trigger] row_lines(
                row,
                datetime,
                name,
                columns,
                true,
            )[i] == datetime_column(row, datetime, columns, i) + "  "@ + colored(
                name_column(row, name, columns, i),
                true,
            ) + "  "@ + colored(row.content[i], true),
{
    if !row.incoming {
        assert(row_lines(row, datetime, name, columns, true) =~= row_lines(
            row,
            datetime,
            name,
            columns,
            false,
        ));
    }
}

proof fn lemma_colored_without_feed(s: Seq<char>, enabled: bool)
    requires
        !s.contains('\n'),
    ensures
        !colored(s, enabled).contains('\n'),
{
    reveal_strlit("\x1b[38;2;70;130;255m");
    reveal_strlit("\x1b[0m");
    let whole = colored(s, enabled);
    let front = "\x1b[38;2;70;130;255m"@.len();
    assert forall|i: int| 0 <= i < whole.len() implies whole[i] != '\n' by {
        if enabled && s.len() > 0 {
            if front <= i < front + s.len() {
                assert(s.contains(s[i - front]));
                assert(whole[i] == s[i - front]);
            }
        } else {
            assert(s.contains(s[i]));
        }
    }
}

proof fn lemma_line_without_feed(
    row: HumanMessageRowView,
    datetime: nat,
    name: nat,
    columns: Columns,
    color: bool,
    index: int,
)
    requires
        row_without(row, '\n'),
        0 <= index < row.content.len(),
    ensures
        !line_columns(row, datetime, name, columns, color, index).contains('\n'),
{
    lemma_columns_without(row, datetime, name, columns, index, '\n');
    let first = datetime_column(row, datetime, columns, index);
    let gap = "  "@;
    let second = colored(name_column(row, name, columns, index), color && row.incoming);
    let third = colored(row.content[index], color && row.incoming);
    lemma_colored_without_feed(name_column(row, name, columns, index), color && row.incoming);
    lemma_colored_without_feed(row.content[index], color && row.incoming);
    let front = first + gap;
    let middle = front + second;
    let back = middle + gap;
    let whole = line_columns(row, datetime, name, columns, color, index);
    assert(whole == back + third);
    assert forall|i: int| 0 <= i < whole.len() implies whole[i] != '\n' by {
        if i < first.len() {
            assert(first.contains(first[i]));
        } else if i < front.len() {
            assert(gap.contains(gap[i - first.len()]));
        } else if i < middle.len() {
            assert(second.contains(second[i - front.len()]));
        } else if i < back.len() {
            assert(gap.contains(gap[i - middle.len()]));
        } else {
            assert(third.contains(third[i - back.len()]));
        }
    }
}

/// A text that ends with a line, and goes on with another one.
proof fn lemma_one_more_line(before: Seq<char>, lines: Seq<Seq<char>>, line: Seq<char>)
    requires
        pieces(before, '\n') == lines.push(Seq::<char>::empty()),
        !line.contains('\n'),
    ensures
        pieces(before + (line + "\n"@), '\n') == lines.push(line).push(Seq::<char>::empty()),
{
    reveal_strlit("\n");
    let none = Seq::<char>::empty();
    lemma_pieces_append(before, line, '\n');
    assert(none + line =~= line);
    assert(lines.push(none).drop_last() =~= lines);
    let whole = before + (line + "\n"@);
    assert(whole.drop_last() =~= before + line);
    assert(whole.last() == '\n');
}

proof fn lemma_row_reads_back(
    before: Seq<char>,
    lines: Seq<Seq<char>>,
    row: HumanMessageRowView,
    datetime: nat,
    name: nat,
    columns: Columns,
    color: bool,
    count: nat,
)
    requires
        pieces(before, '\n') == lines.push(Seq::<char>::empty()),
        row_without(row, '\n'),
        count <= row.content.len(),
    ensures
        pieces(before + row_text(row, datetime, name, columns, color, count), '\n') == (lines
            + row_lines(row, datetime, name, columns, color).take(count as int)).push(
            Seq::<char>::empty(),
        ),
    decreases count,
{
    let all = row_lines(row, datetime, name, columns, color);
    let text = row_text(row, datetime, name, columns, color, count);
    if count == 0 {
        assert(before + text =~= before);
        assert(lines + all.take(0) =~= lines);
    } else {
        let fewer = (count - 1) as nat;
        let earlier = row_text(row, datetime, name, columns, color, fewer);
        let line = line_columns(row, datetime, name, columns, color, count - 1);
        lemma_row_reads_back(before, lines, row, datetime, name, columns, color, fewer);
        lemma_line_without_feed(row, datetime, name, columns, color, count - 1);
        lemma_one_more_line(before + earlier, lines + all.take(count - 1), line);
        assert(before + text =~= (before + earlier) + (line + "\n"@));
        assert((lines + all.take(count - 1)).push(line) =~= lines + all.take(count as int));
    }
}

/// The list has one line for each line of content, in the order of the rows: split
/// at the line ends, it gives back just these lines, as long as no text in it
/// holds a line end itself.
pub proof fn table_has_a_line_for_each_content(
    rows: Seq<HumanMessageRowView>,
    datetimes: Seq<nat>,
    names: Seq<nat>,
    columns: Columns,
    color: bool,
    count: nat,
)
    requires
        forall|i: int| 0 <= i < rows.len() ==> row_without(#[trigger] rows[i], '\n'),
        count <= rows.len(),
    ensures
        pieces(rows_text(rows, datetimes, names, columns, color, count), '\n') == rows_lines(
            rows,
            datetimes,
            names,
            columns,
            color,
            count,
        ).push(Seq::<char>::empty()),
    decreases count,
{
    let text = rows_text(rows, datetimes, names, columns, color, count);
    let lines = rows_lines(rows, datetimes, names, columns, color, count);
    if count == 0 {
        assert(pieces(text, '\n') =~= lines.push(Seq::<char>::empty()));
    } else {
        let fewer = (count - 1) as nat;
        let row = rows[count - 1];
        let datetime = datetimes[count - 1];
        let name = names[count - 1];
        table_has_a_line_for_each_content(rows, datetimes, names, columns, color, fewer);
        let earlier = rows_lines(rows, datetimes, names, columns, color, fewer);
        lemma_row_reads_back(
            rows_text(rows, datetimes, names, columns, color, fewer),
            earlier,
            row,
            datetime,
            name,
            columns,
            color,
            row.content.len(),
        );
        let last = row_lines(row, datetime, name, columns, color);
        assert(last.take(last.len() as int) =~= last);
    }
}

// ---------------------------------------------------------------------------
// Finding a chat
// ---------------------------------------------------------------------------

/// Why a query stands for no one chat.
#[derive(Debug, PartialEq, Eq)]
pub enum ResolveError {
    EmptyQuery,
    NoMatch { query: String },
    /// The query stands for several chats, each of which has a line.
    Ambiguous { query: String, choices: Vec<String> },
}

pub enum ResolveErrorView {
    EmptyQuery,
    NoMatch { query: Seq<char> },
    Ambiguous { query: Seq<char>, choices: Seq<Seq<char>> },
}

impl View for ResolveError {
    type V = ResolveErrorView;

    open spec fn view(&self) -> ResolveErrorView {
        match self {
            ResolveError::EmptyQuery => ResolveErrorView::EmptyQuery,
            ResolveError::NoMatch { query } => ResolveErrorView::NoMatch { query: query@ },
            ResolveError::Ambiguous { query, choices } => ResolveErrorView::Ambiguous {
                query: query@,
                choices: texts(choices@),
            },
        }
    }
}

impl ResolveErrorView {
    pub open spec fn message(self) -> Seq<char> {
        match self {
            ResolveErrorView::EmptyQuery => "chat query cannot be empty"@,
            ResolveErrorView::NoMatch { query } => "no chat matches "@ + debug_text(query)
                + "; run `signal list` to see available chats"@,
            ResolveErrorView::Ambiguous { query, choices } => "multiple chats match "@ + debug_text(
                query,
            ) + "; use one of these stable IDs:\n"@ + joined(choices, "\n"@),
        }
    }
}

impl ResolveError {
    pub fn message(&self) -> (text: String)
        ensures
            text@ == self@.message(),
    {
        match self {
            ResolveError::EmptyQuery => "chat query cannot be empty".to_owned(),
            ResolveError::NoMatch { query } => {
                let mut text: String = "no chat matches ".to_owned();
                text.push_str(quoted(query.as_str()).as_str());
                text.push_str("; run `signal list` to see available chats");
                text
            },
            ResolveError::Ambiguous { query, choices } => {
                let mut text: String = "multiple chats match ".to_owned();
                text.push_str(quoted(query.as_str()).as_str());
                text.push_str("; use one of these stable IDs:\n");
                text.push_str(join(choices, "\n").as_str());
                text
            },
        }
    }
}

/// The line of a chat among several to choose from.
pub open spec fn chat_choice(chat: ConversationView) -> Seq<char> {
    "  "@ + chat.id.stable_id() + "  "@ + chat.title
}

/// The one chat that a query stands for.
pub open spec fn resolved_chat(list: Seq<ConversationView>, query: Seq<char>) -> Result<
    ConversationView,
    ResolveErrorView,
> {
    let found = matching(list, query);
    if query.len() == 0 {
        Err(ResolveErrorView::EmptyQuery)
    } else if found.len() == 0 {
        Err(ResolveErrorView::NoMatch { query })
    } else if found.len() == 1 {
        Ok(found[0])
    } else {
        Err(
            ResolveErrorView::Ambiguous {
                query,
                choices: found.map_values(|chat: ConversationView| chat_choice(chat)),
            },
        )
    }
}

pub open spec fn chat_view(result: Result<&Conversation, ResolveError>) -> Result<
    ConversationView,
    ResolveErrorView,
> {
    match result {
        Ok(chat) => Ok(chat@),
        Err(error) => Err(error@),
    }
}

/// The one chat that a query stands for.
pub fn resolve_one<'a>(conversations: &'a [Conversation], query: &str) -> (result: Result<
    &'a Conversation,
    ResolveError,
>)
    ensures
        chat_view(result) == resolved_chat(conversation_views(conversations@), query@),
{
    if query.is_empty() {
        return Err(ResolveError::EmptyQuery);
    }
    let found = matching_conversations(conversations, query);
    let ghost views = conversation_ref_views(found@);
    if found.len() == 0 {
        return Err(ResolveError::NoMatch { query: query.to_owned() });
    }
    if found.len() == 1 {
        assert(views[0] == found@[0]@);
        return Ok(found[0]);
    }
    let mut choices: Vec<String> = Vec::new();
    for i in 0..found.len()
        invariant
            choices@.len() == i,
            forall|j: int| 0 <= j < i ==> (#[trigger] choices@[j])@ == chat_choice(found@[j]@),
    {
        let mut line: String = "  ".to_owned();
        line.push_str(found[i].id.stable_id().as_str());
        line.push_str("  ");
        line.push_str(found[i].title.as_str());
        choices.push(line);
    }
    assert(texts(choices@) =~= views.map_values(|chat: ConversationView| chat_choice(chat)));
    Err(ResolveError::Ambiguous { query: query.to_owned(), choices })
}

/// A stable id always stands for the chat that has it.
pub proof fn stable_id_resolves(list: Seq<ConversationView>, index: int)
    requires
        0 <= index < list.len(),
    ensures
        resolved_chat(list, list[index].id.stable_id()) is Ok,
        resolved_chat(list, list[index].id.stable_id())->Ok_0.id == list[index].id,
{
    reveal_strlit("contact:");
    reveal_strlit("group:");
    crate::backend::stable_id_wins(list, index);
    let found = matching(list, list[index].id.stable_id());
    crate::backend::stable_id_is_injective(found[0].id, list[index].id);
}

// ---------------------------------------------------------------------------
// Finding a file
// ---------------------------------------------------------------------------

/// Whether a query is the id of an attachment, in whatever case.
pub open spec fn has_id(occurrence: AttachmentOccurrenceView, query: Seq<char>) -> bool {
    match occurrence.attachment.download_id() {
        Some(id) => same_ignoring_ascii_case(id, query),
        None => false,
    }
}

/// The index of the first attachment from `from` on that has the id.
pub open spec fn index_of_file(
    list: Seq<AttachmentOccurrenceView>,
    query: Seq<char>,
    from: int,
) -> Option<int>
    decreases list.len() - from,
{
    if from < 0 || from >= list.len() {
        None
    } else if has_id(list[from], query) {
        Some(from)
    } else {
        index_of_file(list, query, from + 1)
    }
}

/// Whether the name of a file holds a fragment, without regard to case.
pub open spec fn name_holds(occurrence: AttachmentOccurrenceView, query: Seq<char>) -> bool {
    match occurrence.attachment.file_name {
        Some(name) => has_part(lowercase(name), lowercase(query)),
        None => false,
    }
}

/// Whether a list holds an attachment with the id.
pub open spec fn id_listed(list: Seq<AttachmentOccurrenceView>, id: Seq<char>) -> bool {
    exists|i: int|
        0 <= i < list.len() && (#[trigger] list[i]).attachment.download_id() == Some(id)
}

/// The files whose name holds a fragment and that can be downloaded, each once.
pub open spec fn named_files(list: Seq<AttachmentOccurrenceView>, query: Seq<char>) -> Seq<
    AttachmentOccurrenceView,
>
    decreases list.len(),
{
    if list.len() == 0 {
        Seq::empty()
    } else {
        let before = named_files(list.drop_last(), query);
        let last = list.last();
        match last.attachment.download_id() {
            Some(id) => if name_holds(last, query) && !id_listed(before, id) {
                before.push(last)
            } else {
                before
            },
            None => before,
        }
    }
}

/// Why a query stands for no one file.
#[derive(Debug, PartialEq, Eq)]
pub enum FileError {
    EmptyQuery,
    NoMatch { query: String },
    Ambiguous { query: String, files: Vec<AttachmentOccurrence> },
}

pub enum FileErrorView {
    EmptyQuery,
    NoMatch { query: Seq<char> },
    Ambiguous { query: Seq<char>, files: Seq<AttachmentOccurrenceView> },
}

impl View for FileError {
    type V = FileErrorView;

    open spec fn view(&self) -> FileErrorView {
        match self {
            FileError::EmptyQuery => FileErrorView::EmptyQuery,
            FileError::NoMatch { query } => FileErrorView::NoMatch { query: query@ },
            FileError::Ambiguous { query, files } => FileErrorView::Ambiguous {
                query: query@,
                files: occurrence_views(files@),
            },
        }
    }
}

/// The one file that a query stands for: that with the id, else the only one
/// whose name holds the query.
pub open spec fn resolved_file(
    list: Seq<AttachmentOccurrenceView>,
    query: Seq<char>,
) -> Result<AttachmentOccurrenceView, FileErrorView> {
    let found = named_files(list, query);
    if query.len() == 0 {
        Err(FileErrorView::EmptyQuery)
    } else {
        match index_of_file(list, query, 0) {
            Some(index) => Ok(list[index]),
            None => if found.len() == 0 {
                Err(FileErrorView::NoMatch { query })
            } else if found.len() == 1 {
                Ok(found[0])
            } else {
                Err(FileErrorView::Ambiguous { query, files: found })
            },
        }
    }
}

pub open spec fn file_view(result: Result<&AttachmentOccurrence, FileError>) -> Result<
    AttachmentOccurrenceView,
    FileErrorView,
> {
    match result {
        Ok(occurrence) => Ok(occurrence@),
        Err(error) => Err(error@),
    }
}

/// The indices of the files whose name holds a fragment, each once.
fn named_indices(catalog: &[AttachmentOccurrence], query: &str) -> (indices: Vec<usize>)
    ensures
        forall|j: int| 0 <= j < indices@.len() ==> #[trigger] indices@[j] < catalog@.len(),
        indices@.map_values(|index: usize| catalog@[index as int]@) == named_files(
            occurrence_views(catalog@),
            query@,
        ),
{
    let lower = lowercased(query);
    let ghost views = occurrence_views(catalog@);
    let mut indices: Vec<usize> = Vec::new();
    let mut seen: Vec<String> = Vec::new();
    assert(indices@.map_values(|index: usize| catalog@[index as int]@) =~= named_files(
        views.take(0),
        query@,
    ));
    for i in 0..catalog.len()
        invariant
            views == occurrence_views(catalog@),
            lower@ == lowercase(query@),
            forall|j: int| 0 <= j < indices@.len() ==> #[trigger] indices@[j] < catalog@.len(),
            indices@.map_values(|index: usize| catalog@[index as int]@) == named_files(
                views.take(i as int),
                query@,
            ),
            seen@.len() == indices@.len(),
            forall|j: int|
                0 <= j < seen@.len() ==> catalog@[indices@[j] as int]@.attachment.download_id()
                    == Some((#[trigger] seen@[j])@),
    {
        let ghost before = named_files(views.take(i as int), query@);
        assert(views.take(i + 1).drop_last() =~= views.take(i as int));
        assert(views.take(i + 1).last() == catalog@[i as int]@);
        let occurrence = &catalog[i];
        let named = match &occurrence.attachment.file_name {
            Some(name) => contains(lowercased(name.as_str()).as_str(), lower.as_str()),
            None => false,
        };
        if named {
            if let Some(id) = occurrence.attachment.download_id() {
                let listed = crate::states::holds(&seen, id.as_str());
                proof {
                    assert(before.len() == seen@.len());
                    if listed {
                        let j = choose|j: int|
                            0 <= j < texts(seen@).len() && texts(seen@)[j] == id@;
                        assert(seen@[j]@ == id@);
                        assert(before[j] == catalog@[indices@[j] as int]@);
                        assert(id_listed(before, id@));
                    }
                    if id_listed(before, id@) {
                        let j = choose|j: int|
                            0 <= j < before.len() && (#[trigger] before[j]).attachment.download_id()
                                == Some(id@);
                        assert(before[j] == catalog@[indices@[j] as int]@);
                        assert(seen@[j]@ == id@);
                        assert(texts(seen@)[j] == id@);
                    }
                }
                if !listed {
                    let ghost shorter = indices@;
                    indices.push(i);
                    seen.push(id);
                    assert(indices@.map_values(|index: usize| catalog@[index as int]@)
                        =~= before.push(catalog@[i as int]@));
                }
            }
        }
    }
    assert(views.take(views.len() as int) =~= views);
    indices
}

/// The one file that a query stands for.
pub fn resolve_attachment<'a>(catalog: &'a [AttachmentOccurrence], query: &str) -> (result: Result<
    &'a AttachmentOccurrence,
    FileError,
>)
    ensures
        file_view(result) == resolved_file(occurrence_views(catalog@), query@),
{
    let ghost views = occurrence_views(catalog@);
    if query.is_empty() {
        return Err(FileError::EmptyQuery);
    }
    for i in 0..catalog.len()
        invariant
            query@.len() > 0,
            views == occurrence_views(catalog@),
            index_of_file(views, query@, 0) == index_of_file(views, query@, i as int),
    {
        assert(views[i as int] == catalog@[i as int]@);
        if let Some(id) = catalog[i].attachment.download_id() {
            if equal_ignoring_ascii_case(id.as_str(), query) {
                return Ok(&catalog[i]);
            }
        }
    }
    let indices = named_indices(catalog, query);
    let ghost found = named_files(views, query@);
    assert(indices@.map_values(|index: usize| catalog@[index as int]@) == found);
    if indices.len() == 0 {
        return Err(FileError::NoMatch { query: query.to_owned() });
    }
    if indices.len() == 1 {
        assert(found[0] == catalog@[indices@[0] as int]@);
        return Ok(&catalog[indices[0]]);
    }
    let mut files: Vec<AttachmentOccurrence> = Vec::new();
    for i in 0..indices.len()
        invariant
            forall|j: int| 0 <= j < indices@.len() ==> #[trigger] indices@[j] < catalog@.len(),
            files@.len() == i,
            forall|j: int| 0 <= j < i ==> (#[trigger] files@[j])@ == catalog@[indices@[j] as int]@,
    {
        files.push(catalog[indices[i]].clone());
    }
    assert(occurrence_views(files@) =~= found);
    Err(FileError::Ambiguous { query: query.to_owned(), files })
}

proof fn lemma_index_of_file(
    list: Seq<AttachmentOccurrenceView>,
    query: Seq<char>,
    from: int,
    index: int,
)
    requires
        0 <= from <= index < list.len(),
        has_id(list[index], query),
    ensures
        index_of_file(list, query, from) is Some,
        from <= index_of_file(list, query, from)->0 <= index,
        has_id(list[index_of_file(list, query, from)->0], query),
    decreases index - from,
{
    if !has_id(list[from], query) {
        lemma_index_of_file(list, query, from + 1, index);
    }
}

/// The id of a file stands for that file, whatever the names hold; of several
/// occurrences of the file, for the first.
pub proof fn file_id_wins(list: Seq<AttachmentOccurrenceView>, query: Seq<char>, index: int)
    requires
        0 <= index < list.len(),
        query.len() > 0,
        has_id(list[index], query),
    ensures
        resolved_file(list, query) is Ok,
        has_id(resolved_file(list, query)->Ok_0, query),
{
    lemma_index_of_file(list, query, 0, index);
}

/// Among the files to choose from, none is there twice, and each can be
/// downloaded and has the fragment in its name.
pub proof fn choices_are_different_files(list: Seq<AttachmentOccurrenceView>, query: Seq<char>)
    ensures
        forall|i: int, j: int|
            0 <= i < j < named_files(list, query).len() ==> (#[trigger] named_files(
                list,
                query,
            )[i]).attachment.download_id() != (#[trigger] named_files(
                list,
                query,
            )[j]).attachment.download_id(),
        forall|i: int|
            0 <= i < named_files(list, query).len() ==> {
                &&& (#[trigger] named_files(list, query)[i]).attachment.download_id() is Some
                &&& name_holds(named_files(list, query)[i], query)
            },
    decreases list.len(),
{
    if list.len() > 0 {
        choices_are_different_files(list.drop_last(), query);
        let before = named_files(list.drop_last(), query);
        let all = named_files(list, query);
        assert forall|i: int, j: int| 0 <= i < j < all.len() implies (
        #[trigger] all[i]).attachment.download_id() != (
        #[trigger] all[j]).attachment.download_id() by {
            assert(all[i] == before[i]);
            if j < before.len() {
                assert(all[j] == before[j]);
            } else {
                assert(before[i].attachment.download_id() is Some);
            }
        }
    }
}

/// The line of a file among several to choose from.
pub open spec fn file_choice(occurrence: AttachmentOccurrenceView, stamp: Seq<char>) -> Seq<char> {
    "  "@ + text_or(occurrence.attachment.download_id(), ""@) + "  "@
        + occurrence.attachment.display_name() + "  "@ + size_text(occurrence.attachment.size)
        + "  "@ + occurrence.chat.title + "  "@ + stamp
}

pub open spec fn file_choices(
    files: Seq<AttachmentOccurrenceView>,
    stamps: Seq<Seq<char>>,
) -> Seq<Seq<char>> {
    Seq::new(files.len(), |i: int| file_choice(files[i], stamps[i]))
}

impl FileErrorView {
    /// The message, with the times of the files as they are shown.
    pub open spec fn message(self, stamps: Seq<Seq<char>>) -> Seq<char> {
        match self {
            FileErrorView::EmptyQuery => "file query cannot be empty"@,
            FileErrorView::NoMatch { query } => "no downloadable file matches "@ + debug_text(query)
                + "; use `signal read` or `signal brief` to see file IDs"@,
            FileErrorView::Ambiguous { query, files } => "multiple files match "@ + debug_text(
                query,
            ) + "; use one of these IDs:\n"@ + joined(file_choices(files, stamps), "\n"@),
        }
    }
}

fn choice_line(occurrence: &AttachmentOccurrence, stamp: &str) -> (line: String)
    ensures
        line@ == file_choice(occurrence@, stamp@),
{
    let id = occurrence.attachment.download_id();
    let mut line: String = "  ".to_owned();
    line.push_str(str_or(&id, ""));
    line.push_str("  ");
    line.push_str(occurrence.attachment.display_name());
    line.push_str("  ");
    line.push_str(human_size(occurrence.attachment.size).as_str());
    line.push_str("  ");
    line.push_str(occurrence.chat.title.as_str());
    line.push_str("  ");
    line.push_str(stamp);
    line
}

impl FileError {
    /// The times of the files to choose from, as they are shown; none where there
    /// is nothing to choose.
    pub fn stamps(&self) -> (stamps: Vec<String>)
        ensures
            self matches FileError::Ambiguous { files, .. } ==> stamps@.len() == files@.len()
                && forall|i: int|
                0 <= i < files@.len() ==> shows_time(files@[i].timestamp, (#[trigger] stamps@[i])@),
            !(self is Ambiguous) ==> stamps@.len() == 0,
    {
        let mut stamps: Vec<String> = Vec::new();
        if let FileError::Ambiguous { files, .. } = self {
            for i in 0..files.len()
                invariant
                    stamps@.len() == i,
                    forall|j: int|
                        0 <= j < i ==> shows_time(files@[j].timestamp, (#[trigger] stamps@[j])@),
            {
                stamps.push(timestamp(files[i].timestamp));
            }
        }
        stamps
    }

    /// The message, with the times of the files as they are shown.
    pub fn message(&self, stamps: &Vec<String>) -> (text: String)
        requires
            self matches FileError::Ambiguous { files, .. } ==> stamps@.len() == files@.len(),
        ensures
            text@ == self@.message(texts(stamps@)),
    {
        match self {
            FileError::EmptyQuery => "file query cannot be empty".to_owned(),
            FileError::NoMatch { query } => {
                let mut text: String = "no downloadable file matches ".to_owned();
                text.push_str(quoted(query.as_str()).as_str());
                text.push_str("; use `signal read` or `signal brief` to see file IDs");
                text
            },
            FileError::Ambiguous { query, files } => {
                let ghost views = occurrence_views(files@);
                let mut lines: Vec<String> = Vec::new();
                for i in 0..files.len()
                    invariant
                        stamps@.len() == files@.len(),
                        views == occurrence_views(files@),
                        lines@.len() == i,
                        forall|j: int|
                            0 <= j < i ==> (#[trigger] lines@[j])@ == file_choice(
                                views[j],
                                stamps@[j]@,
                            ),
                {
                    lines.push(choice_line(&files[i], stamps[i].as_str()));
                }
                assert(texts(lines@) =~= file_choices(views, texts(stamps@)));
                let mut text: String = "multiple files match ".to_owned();
                text.push_str(quoted(query.as_str()).as_str());
                text.push_str("; use one of these IDs:\n");
                text.push_str(join(&lines, "\n").as_str());
                text
            },
        }
    }
}

// ---------------------------------------------------------------------------
// Running a command
// ---------------------------------------------------------------------------

/// What a command asks for.
#[derive(Debug, PartialEq, Eq)]
pub enum Request {
    List,
    /// The newest messages of a chat between two dates.
    Read { chat: Conversation, since: Option<String>, until: Option<String>, limit: usize },
    Send { chat: Conversation, message: String },
    /// The newest messages of all chats.
    Brief { limit: usize },
    /// The attachments of all chats.
    Download { file: String },
}

pub enum RequestView {
    List,
    Read {
        chat: ConversationView,
        since: Option<Seq<char>>,
        until: Option<Seq<char>>,
        limit: nat,
    },
    Send { chat: ConversationView, message: Seq<char> },
    Brief { limit: nat },
    Download { file: Seq<char> },
}

impl View for Request {
    type V = RequestView;

    open spec fn view(&self) -> RequestView {
        match self {
            Request::List => RequestView::List,
            Request::Read { chat, since, until, limit } => RequestView::Read {
                chat: chat@,
                since: optional(*since),
                until: optional(*until),
                limit: *limit as nat,
            },
            Request::Send { chat, message } => RequestView::Send {
                chat: chat@,
                message: message@,
            },
            Request::Brief { limit } => RequestView::Brief { limit: *limit as nat },
            Request::Download { file } => RequestView::Download { file: file@ },
        }
    }
}

/// Why a command is refused.
#[derive(Debug, PartialEq, Eq)]
pub enum CommandError {
    Chat(ResolveError),
    EmptyMessage,
}

pub enum CommandErrorView {
    Chat(ResolveErrorView),
    EmptyMessage,
}

impl View for CommandError {
    type V = CommandErrorView;

    open spec fn view(&self) -> CommandErrorView {
        match self {
            CommandError::Chat(error) => CommandErrorView::Chat(error@),
            CommandError::EmptyMessage => CommandErrorView::EmptyMessage,
        }
    }
}

impl CommandErrorView {
    pub open spec fn message(self) -> Seq<char> {
        match self {
            CommandErrorView::Chat(error) => error.message(),
            CommandErrorView::EmptyMessage => "message cannot be empty"@,
        }
    }
}

impl CommandError {
    pub fn message(&self) -> (text: String)
        ensures
            text@ == self@.message(),
    {
        match self {
            CommandError::Chat(error) => error.message(),
            CommandError::EmptyMessage => "message cannot be empty".to_owned(),
        }
    }
}

/// What a command asks for, given the conversations.
pub open spec fn request_of(command: Command, list: Seq<ConversationView>) -> Result<
    RequestView,
    CommandErrorView,
> {
    match command {
        Command::List => Ok(RequestView::List),
        Command::Read { chat, since, until, limit } => match resolved_chat(list, chat@) {
            Ok(chat) => Ok(
                RequestView::Read {
                    chat,
                    since: optional(since),
                    until: optional(until),
                    limit: limit as nat,
                },
            ),
            Err(error) => Err(CommandErrorView::Chat(error)),
        },
        Command::Send { chat, message } => if message@.len() == 0 {
            Err(CommandErrorView::EmptyMessage)
        } else {
            match resolved_chat(list, chat@) {
                Ok(chat) => Ok(RequestView::Send { chat, message: message@ }),
                Err(error) => Err(CommandErrorView::Chat(error)),
            }
        },
        Command::Brief { limit } => Ok(RequestView::Brief { limit: limit as nat }),
        Command::Download { file } => Ok(RequestView::Download { file: file@ }),
    }
}

pub open spec fn request_view(result: Result<Request, CommandError>) -> Result<
    RequestView,
    CommandErrorView,
> {
    match result {
        Ok(request) => Ok(request@),
        Err(error) => Err(error@),
    }
}

/// What a command asks for, given the conversations.
pub fn run(command: Command, conversations: &[Conversation]) -> (result: Result<
    Request,
    CommandError,
>)
    ensures
        request_view(result) == request_of(command, conversation_views(conversations@)),
{
    match command {
        Command::List => Ok(Request::List),
        Command::Read { chat, since, until, limit } => match resolve_one(
            conversations,
            chat.as_str(),
        ) {
            Ok(chat) => Ok(Request::Read { chat: chat.clone(), since, until, limit }),
            Err(error) => Err(CommandError::Chat(error)),
        },
        Command::Send { chat, message } => {
            if message.as_str().is_empty() {
                return Err(CommandError::EmptyMessage);
            }
            match resolve_one(conversations, chat.as_str()) {
                Ok(chat) => Ok(Request::Send { chat: chat.clone(), message }),
                Err(error) => Err(CommandError::Chat(error)),
            }
        },
        Command::Brief { limit } => Ok(Request::Brief { limit }),
        Command::Download { file } => Ok(Request::Download { file }),
    }
}

/// What a synchronization that did not complete is reported as.
pub fn sync_warning(error: &str) -> (text: String)
    ensures
        text@ == "warning: Signal synchronization did not complete ("@ + error@
            + "); using locally cached data"@,
{
    let mut text: String = "warning: Signal synchronization did not complete (".to_owned();
    text.push_str(error);
    text.push_str("); using locally cached data");
    text
}

// ---------------------------------------------------------------------------
// The list of chats
// ---------------------------------------------------------------------------

pub open spec fn chat_list_object(chats: Seq<ConversationView>) -> JsonView {
    JsonView::Object(
        seq![
            (
                "chats"@,
                JsonView::Array(chats.map_values(|chat: ConversationView| chat_object(chat))),
            ),
        ],
    )
}

/// All chats in JSON.
pub fn list_json(chats: &[Conversation]) -> (value: Json)
    ensures
        value@ == chat_list_object(conversation_views(chats@)),
{
    let mut items: Vec<Json> = Vec::new();
    for i in 0..chats.len()
        invariant
            items@.len() == i,
            forall|j: int| 0 <= j < i ==> (#[trigger] items@[j])@ == chat_object(chats@[j]@),
    {
        items.push(chat_json(&chats[i]));
    }
    assert(json_views(items@) =~= conversation_views(chats@).map_values(
        |chat: ConversationView| chat_object(chat),
    ));
    let mut fields = no_fields();
    put(&mut fields, "chats", array(items));
    let value = object(fields);
    assert(value@->Object_0 =~= chat_list_object(conversation_views(chats@))->Object_0);
    value
}

/// The line of a chat in the list.
pub open spec fn chat_line(chat: ConversationView) -> Seq<char> {
    chat.id.stable_id() + "  "@ + chat.title + "  "@ + chat.subtitle + "\n"@
}

pub open spec fn chat_lines(chats: Seq<ConversationView>) -> Seq<char>
    decreases chats.len(),
{
    if chats.len() == 0 {
        Seq::empty()
    } else {
        chat_lines(chats.drop_last()) + chat_line(chats.last())
    }
}

/// All chats, one line each.
pub fn list_text(chats: &[Conversation]) -> (output: String)
    ensures
        output@ == chat_lines(conversation_views(chats@)),
{
    let ghost views = conversation_views(chats@);
    let mut output: String = String::new();
    for i in 0..chats.len()
        invariant
            views == conversation_views(chats@),
            output@ == chat_lines(views.take(i as int)),
    {
        assert(views.take(i + 1).drop_last() =~= views.take(i as int));
        assert(views.take(i + 1).last() == chats@[i as int]@);
        let mut line = chats[i].id.stable_id();
        line.push_str("  ");
        line.push_str(chats[i].title.as_str());
        line.push_str("  ");
        line.push_str(chats[i].subtitle.as_str());
        line.push_str("\n");
        output.push_str(line.as_str());
    }
    assert(views.take(views.len() as int) =~= views);
    output
}

// ---------------------------------------------------------------------------
// The messages of a chat
// ---------------------------------------------------------------------------

/// The times of some messages as they are shown.
pub fn message_stamps(messages: &Vec<ChatMessage>) -> (stamps: Vec<String>)
    ensures
        stamps@.len() == messages@.len(),
        forall|i: int|
            0 <= i < messages@.len() ==> shows_time(
                messages@[i].timestamp,
                (#[trigger] stamps@[i])@,
            ),
{
    let mut stamps: Vec<String> = Vec::new();
    for i in 0..messages.len()
        invariant
            stamps@.len() == i,
            forall|j: int|
                0 <= j < i ==> shows_time(messages@[j].timestamp, (#[trigger] stamps@[j])@),
    {
        stamps.push(timestamp(messages[i].timestamp));
    }
    stamps
}

pub open spec fn message_objects(
    messages: Seq<ChatMessageView>,
    stamps: Seq<Seq<char>>,
) -> Seq<JsonView> {
    Seq::new(messages.len(), |i: int| message_object(messages[i], stamps[i]))
}

pub open spec fn read_object(
    chat: ConversationView,
    messages: Seq<ChatMessageView>,
    stamps: Seq<Seq<char>>,
) -> JsonView {
    JsonView::Object(
        seq![
            ("chat"@, chat_object(chat)),
            ("messages"@, JsonView::Array(message_objects(messages, stamps))),
        ],
    )
}

/// The messages of a chat in JSON, with their times as they are shown.
pub fn read_json(chat: &Conversation, messages: &Vec<ChatMessage>, stamps: &Vec<String>) -> (value:
    Json)
    requires
        stamps@.len() == messages@.len(),
    ensures
        value@ == read_object(chat@, message_views(messages@), texts(stamps@)),
{
    let mut items: Vec<Json> = Vec::new();
    for i in 0..messages.len()
        invariant
            stamps@.len() == messages@.len(),
            items@.len() == i,
            forall|j: int|
                0 <= j < i ==> (#[trigger] items@[j])@ == message_object(
                    messages@[j]@,
                    stamps@[j]@,
                ),
    {
        items.push(stamped_message_json(&messages[i], stamps[i].as_str()));
    }
    assert(json_views(items@) =~= message_objects(message_views(messages@), texts(stamps@)));
    let mut fields = no_fields();
    put(&mut fields, "chat", chat_json(chat));
    put(&mut fields, "messages", array(items));
    let value = object(fields);
    assert(value@->Object_0 =~= read_object(
        chat@,
        message_views(messages@),
        texts(stamps@),
    )->Object_0);
    value
}

/// The heading above the messages of a chat.
pub fn read_heading(chat: &Conversation) -> (text: String)
    ensures
        text@ == chat@.title + "  "@ + chat@.id.stable_id() + "\n\n"@,
{
    let mut text: String = chat.title.clone();
    text.push_str("  ");
    text.push_str(chat.id.stable_id().as_str());
    text.push_str("\n\n");
    text
}

pub open spec fn read_rows_view(messages: Seq<ChatMessageView>, rows: Seq<HumanMessageRowView>) -> bool {
    &&& rows.len() == messages.len()
    &&& forall|i: int|
        0 <= i < messages.len() ==> {
            &&& shows_short_time(messages[i].timestamp, (#[trigger] rows[i]).datetime)
            &&& rows[i] == row_of(messages[i], read_name(messages[i]), rows[i].datetime)
        }
}

/// The messages of a chat in columns.
pub fn read_rows(messages: &Vec<ChatMessage>) -> (rows: Vec<HumanMessageRow>)
    ensures
        read_rows_view(message_views(messages@), row_views(rows@)),
{
    let mut rows: Vec<HumanMessageRow> = Vec::new();
    for i in 0..messages.len()
        invariant
            rows@.len() == i,
            forall|j: int|
                0 <= j < i ==> {
                    &&& shows_short_time(messages@[j].timestamp, (#[trigger] rows@[j])@.datetime)
                    &&& rows@[j]@ == row_of(
                        messages@[j]@,
                        read_name(messages@[j]@),
                        rows@[j]@.datetime,
                    )
                },
    {
        rows.push(message_row(&messages[i], read_message_name(&messages[i])));
    }
    rows
}

// ---------------------------------------------------------------------------
// Sending
// ---------------------------------------------------------------------------

pub open spec fn sent_object(
    chat: ConversationView,
    message: ChatMessageView,
    stamp: Seq<char>,
) -> JsonView {
    JsonView::Object(
        seq![
            ("sent"@, JsonView::Bool(true)),
            ("chat"@, chat_object(chat)),
            ("message"@, message_object(message, stamp)),
        ],
    )
}

/// A sent message in JSON, with its time as it is shown.
pub fn sent_json(chat: &Conversation, message: &ChatMessage, stamp: &str) -> (value: Json)
    ensures
        value@ == sent_object(chat@, message@, stamp@),
{
    let mut fields = no_fields();
    put(&mut fields, "sent", Json::Bool(true));
    put(&mut fields, "chat", chat_json(chat));
    put(&mut fields, "message", stamped_message_json(message, stamp));
    let value = object(fields);
    assert(value@->Object_0 =~= sent_object(chat@, message@, stamp@)->Object_0);
    value
}

/// What is printed once a message is sent.
pub fn sent_text(chat: &Conversation, stamp: &str) -> (text: String)
    ensures
        text@ == "sent to "@ + chat@.title + " ("@ + chat@.id.stable_id() + ") at "@ + stamp@
            + "\n"@,
{
    let mut text: String = "sent to ".to_owned();
    text.push_str(chat.title.as_str());
    text.push_str(" (");
    text.push_str(chat.id.stable_id().as_str());
    text.push_str(") at ");
    text.push_str(stamp);
    text.push_str("\n");
    text
}

// ---------------------------------------------------------------------------
// The newest messages of all chats
// ---------------------------------------------------------------------------

/// A message with its chat.
#[derive(Debug, PartialEq, Eq)]
pub struct BriefMessage {
    pub chat: Conversation,
    pub message: ChatMessage,
}

#[verifier::ext_equal]
pub struct BriefMessageView {
    pub chat: ConversationView,
    pub message: ChatMessageView,
}

impl View for BriefMessage {
    type V = BriefMessageView;

    open spec fn view(&self) -> BriefMessageView {
        BriefMessageView { chat: self.chat@, message: self.message@ }
    }
}

impl Clone for BriefMessage {
    fn clone(&self) -> (copy: Self)
        ensures
            copy@ == self@,
    {
        BriefMessage { chat: self.chat.clone(), message: self.message.clone() }
    }
}

pub open spec fn brief_views(list: Seq<BriefMessage>) -> Seq<BriefMessageView> {
    list.map_values(|entry: BriefMessage| entry@)
}

/// The messages of one chat, each with the chat.
pub open spec fn with_chat(chat: ConversationView, messages: Seq<ChatMessageView>) -> Seq<
    BriefMessageView,
> {
    messages.map_values(|message: ChatMessageView| BriefMessageView { chat, message })
}

/// The messages of all chats, each with its chat.
pub open spec fn all_with_chats(chats: Seq<ChatMessages>) -> Seq<BriefMessageView>
    decreases chats.len(),
{
    if chats.len() == 0 {
        Seq::empty()
    } else {
        all_with_chats(chats.drop_last()) + with_chat(
            chats.last().chat@,
            message_views(chats.last().messages@),
        )
    }
}

/// What the messages of all chats are sorted by: the newest first, then the id
/// of the chat, then the text.
pub open spec fn brief_key(entry: BriefMessageView) -> SortKeyView {
    SortKeyView {
        number: -(entry.message.timestamp as int),
        first: entry.chat.id.stable_id(),
        second: entry.message.body,
    }
}

pub open spec fn sorted_brief(list: Seq<BriefMessageView>) -> Seq<BriefMessageView> {
    sorted_by_key(list, list.map_values(|entry: BriefMessageView| brief_key(entry)))
}

/// The newest messages of all chats.
pub open spec fn brief(chats: Seq<ChatMessages>, limit: nat) -> Seq<BriefMessageView> {
    let sorted = sorted_brief(all_with_chats(chats));
    if sorted.len() > limit {
        sorted.take(limit as int)
    } else {
        sorted
    }
}

fn collect_brief(chats: &Vec<ChatMessages>) -> (list: Vec<BriefMessage>)
    ensures
        brief_views(list@) == all_with_chats(chats@),
{
    let mut list: Vec<BriefMessage> = Vec::new();
    assert(brief_views(list@) =~= all_with_chats(chats@.take(0)));
    for i in 0..chats.len()
        invariant
            brief_views(list@) == all_with_chats(chats@.take(i as int)),
    {
        let entry = &chats[i];
        let ghost before = brief_views(list@);
        let ghost more = with_chat(entry.chat@, message_views(entry.messages@));
        assert(before + more.take(0) =~= before);
        for j in 0..entry.messages.len()
            invariant
                more == with_chat(entry.chat@, message_views(entry.messages@)),
                brief_views(list@) == before + more.take(j as int),
        {
            let ghost so_far = list@;
            let next = BriefMessage {
                chat: entry.chat.clone(),
                message: entry.messages[j].clone(),
            };
            list.push(next);
            assert(brief_views(list@) =~= brief_views(so_far).push(next@));
            assert(more.take(j + 1) =~= more.take(j as int).push(more[j as int]));
            assert(brief_views(list@) =~= before + more.take(j + 1));
        }
        assert(more.take(more.len() as int) =~= more);
        assert(chats@.take(i + 1).drop_last() =~= chats@.take(i as int));
    }
    assert(chats@.take(chats@.len() as int) =~= chats@);
    list
}

/// The newest messages of all chats, out of the newest of each.
pub fn brief_messages(chats: &Vec<ChatMessages>, limit: usize) -> (list: Vec<BriefMessage>)
    ensures
        brief_views(list@) == brief(chats@, limit as nat),
{
    let unsorted = collect_brief(chats);
    let ghost all = brief_views(unsorted@);
    let ghost all_keys = all.map_values(|entry: BriefMessageView| brief_key(entry));
    let mut keys: Vec<SortKey> = Vec::new();
    for i in 0..unsorted.len()
        invariant
            keys@.len() == i,
            forall|j: int| 0 <= j < i ==> (#[trigger] keys@[j])@ == brief_key(unsorted@[j]@),
    {
        let number: i128 = 0 - unsorted[i].message.timestamp as i128;
        keys.push(
            SortKey {
                number,
                first: unsorted[i].chat.id.stable_id(),
                second: unsorted[i].message.body.clone(),
            },
        );
    }
    let order = sort_indices(&keys);
    assert(key_views(keys@) =~= all_keys);
    let ghost sorted = sorted_brief(all);
    assert(sorted.len() == order@.len()) by {
        assert(as_ints(order@).len() == order@.len());
    }
    let count: usize = if order.len() > limit {
        limit
    } else {
        order.len()
    };
    let mut list: Vec<BriefMessage> = Vec::new();
    for i in 0..count
        invariant
            count <= order@.len(),
            is_order(key_views(keys@), as_ints(order@)),
            keys@.len() == unsorted@.len(),
            list@.len() == i,
            forall|j: int| 0 <= j < i ==> (#[trigger] list@[j])@ == unsorted@[order@[j] as int]@,
    {
        assert(as_ints(order@)[i as int] == order@[i as int]);
        list.push(unsorted[order[i]].clone());
    }
    proof {
        let ints = as_ints(order@);
        assert forall|j: int| 0 <= j < list@.len() implies (#[trigger] list@[j])@ == sorted[j] by {
            assert(ints[j] == order@[j]);
            assert(0 <= ints[j] < keys@.len());
            assert(sorted[j] == all[ints[j]]);
        }
        assert(brief_views(list@) =~= brief(chats@, limit as nat));
    }
    list
}

/// The newest messages of all chats come newest first, and none of them is
/// older than one that was left out.
pub proof fn brief_shows_the_newest(chats: Seq<ChatMessages>, limit: nat, i: int, j: int)
    requires
        0 <= i < j < sorted_brief(all_with_chats(chats)).len(),
    ensures
        brief(chats, limit).len() <= limit,
        i < limit ==> brief(chats, limit)[i] == sorted_brief(all_with_chats(chats))[i],
        sorted_brief(all_with_chats(chats))[i].message.timestamp >= sorted_brief(
            all_with_chats(chats),
        )[j].message.timestamp,
{
    let list = all_with_chats(chats);
    let keys = list.map_values(|entry: BriefMessageView| brief_key(entry));
    crate::order::order_exists(keys);
    let order = crate::order::stable_order(keys);
    assert(crate::order::comes_first(keys, order[i], order[j]));
    assert(0 <= order[i] < keys.len());
    assert(0 <= order[j] < keys.len());
}

/// The newest messages are picked from the messages of all chats, none of which
/// is lost or doubled when they are sorted.
pub proof fn brief_draws_on_every_message(chats: Seq<ChatMessages>)
    ensures
        sorted_brief(all_with_chats(chats)).to_multiset() == all_with_chats(chats).to_multiset(),
{
    let list = all_with_chats(chats);
    let keys = list.map_values(|entry: BriefMessageView| brief_key(entry));
    crate::order::sorted_list_holds_every_item(list, keys);
}

pub open spec fn brief_message_object(entry: BriefMessageView, stamp: Seq<char>) -> JsonView {
    JsonView::Object(
        message_object(entry.message, stamp)->Object_0.push(("chat"@, chat_object(entry.chat))),
    )
}

pub open spec fn brief_object(list: Seq<BriefMessageView>, stamps: Seq<Seq<char>>) -> JsonView {
    JsonView::Object(
        seq![
            (
                "messages"@,
                JsonView::Array(
                    Seq::new(list.len(), |i: int| brief_message_object(list[i], stamps[i])),
                ),
            ),
        ],
    )
}

/// The times of some messages as they are shown.
pub fn brief_stamps(list: &Vec<BriefMessage>) -> (stamps: Vec<String>)
    ensures
        stamps@.len() == list@.len(),
        forall|i: int|
            0 <= i < list@.len() ==> shows_time(
                list@[i].message.timestamp,
                (#[trigger] stamps@[i])@,
            ),
{
    let mut stamps: Vec<String> = Vec::new();
    for i in 0..list.len()
        invariant
            stamps@.len() == i,
            forall|j: int|
                0 <= j < i ==> shows_time(list@[j].message.timestamp, (#[trigger] stamps@[j])@),
    {
        stamps.push(timestamp(list[i].message.timestamp));
    }
    stamps
}

/// The newest messages of all chats in JSON, with their times as they are shown.
pub fn brief_json(list: &Vec<BriefMessage>, stamps: &Vec<String>) -> (value: Json)
    requires
        stamps@.len() == list@.len(),
    ensures
        value@ == brief_object(brief_views(list@), texts(stamps@)),
{
    let mut items: Vec<Json> = Vec::new();
    for i in 0..list.len()
        invariant
            stamps@.len() == list@.len(),
            items@.len() == i,
            forall|j: int|
                0 <= j < i ==> (#[trigger] items@[j])@ == brief_message_object(
                    list@[j]@,
                    stamps@[j]@,
                ),
    {
        let mut fields = message_fields(&list[i].message, stamps[i].as_str());
        put(&mut fields, "chat", chat_json(&list[i].chat));
        items.push(object(fields));
    }
    let ghost wanted = Seq::new(
        list@.len(),
        |i: int| brief_message_object(brief_views(list@)[i], texts(stamps@)[i]),
    );
    assert(json_views(items@) =~= wanted);
    let mut fields = no_fields();
    put(&mut fields, "messages", array(items));
    let value = object(fields);
    assert(value@->Object_0 =~= brief_object(brief_views(list@), texts(stamps@))->Object_0);
    value
}

pub open spec fn brief_rows_view(
    list: Seq<BriefMessageView>,
    rows: Seq<HumanMessageRowView>,
) -> bool {
    &&& rows.len() == list.len()
    &&& forall|i: int|
        0 <= i < list.len() ==> {
            &&& shows_short_time(list[i].message.timestamp, (#[trigger] rows[i]).datetime)
            &&& rows[i] == row_of(
                list[i].message,
                brief_name(list[i].chat, list[i].message),
                rows[i].datetime,
            )
        }
}

/// The newest messages of all chats in columns.
pub fn brief_rows(list: &Vec<BriefMessage>) -> (rows: Vec<HumanMessageRow>)
    ensures
        brief_rows_view(brief_views(list@), row_views(rows@)),
{
    let mut rows: Vec<HumanMessageRow> = Vec::new();
    for i in 0..list.len()
        invariant
            rows@.len() == i,
            forall|j: int|
                0 <= j < i ==> {
                    &&& shows_short_time(list@[j].message.timestamp, (#[trigger] rows@[j])@.datetime)
                    &&& rows@[j]@ == row_of(
                        list@[j].message@,
                        brief_name(list@[j].chat@, list@[j].message@),
                        rows@[j]@.datetime,
                    )
                },
    {
        let name = brief_message_name(&list[i].chat, &list[i].message);
        rows.push(message_row(&list[i].message, name));
    }
    rows
}

// ---------------------------------------------------------------------------
// Downloading
// ---------------------------------------------------------------------------

pub open spec fn downloaded_object(
    occurrence: AttachmentOccurrenceView,
    path: Seq<char>,
    stamp: Seq<char>,
) -> JsonView {
    JsonView::Object(
        seq![
            ("downloaded"@, JsonView::Bool(true)),
            (
                "file"@,
                JsonView::Object(
                    seq![
                        ("id"@, text_or_null(occurrence.attachment.download_id())),
                        ("name"@, JsonView::Text(file_title(occurrence.attachment))),
                        ("size"@, number_or_null(occurrence.attachment.size)),
                        ("content_type"@, text_or_null(occurrence.attachment.content_type)),
                        ("chat"@, chat_object(occurrence.chat)),
                        ("timestamp"@, JsonView::Text(stamp)),
                        ("timestamp_ms"@, JsonView::Number(occurrence.timestamp)),
                    ],
                ),
            ),
            ("path"@, JsonView::Text(path)),
        ],
    )
}

/// A downloaded file in JSON, with the time of its message as it is shown.
pub fn downloaded_json(occurrence: &AttachmentOccurrence, path: &str, stamp: &str) -> (value: Json)
    ensures
        value@ == downloaded_object(occurrence@, path@, stamp@),
{
    let attachment = &occurrence.attachment;
    let mut file = no_fields();
    put(&mut file, "id", optional_text(attachment.download_id()));
    put(&mut file, "name", Json::Text(file_name_of(attachment)));
    put(&mut file, "size", optional_number(attachment.size));
    put(&mut file, "content_type", copied_text(&attachment.content_type));
    put(&mut file, "chat", chat_json(&occurrence.chat));
    put(&mut file, "timestamp", Json::Text(stamp.to_owned()));
    put(&mut file, "timestamp_ms", Json::Number(occurrence.timestamp));
    let ghost wanted = downloaded_object(occurrence@, path@, stamp@);
    assert(field_views(file@) =~= wanted->Object_0[1].1->Object_0);
    let mut fields = no_fields();
    put(&mut fields, "downloaded", Json::Bool(true));
    put(&mut fields, "file", object(file));
    put(&mut fields, "path", Json::Text(path.to_owned()));
    let value = object(fields);
    assert(value@->Object_0 =~= wanted->Object_0);
    value
}

/// What is printed once a file is downloaded.
pub fn downloaded_text(occurrence: &AttachmentOccurrence, path: &str) -> (text: String)
    ensures
        text@ == "downloaded "@ + occurrence@.attachment.display_name() + " ("@ + size_text(
            occurrence@.attachment.size,
        ) + ", "@ + text_or(occurrence@.attachment.download_id(), ""@) + ") from "@
            + occurrence@.chat.title + " to "@ + path@ + "\n"@,
{
    let id = occurrence.attachment.download_id();
    let mut text: String = "downloaded ".to_owned();
    text.push_str(occurrence.attachment.display_name());
    text.push_str(" (");
    text.push_str(human_size(occurrence.attachment.size).as_str());
    text.push_str(", ");
    text.push_str(str_or(&id, ""));
    text.push_str(") from ");
    text.push_str(occurrence.chat.title.as_str());
    text.push_str(" to ");
    text.push_str(path);
    text.push_str("\n");
    text
}

// ---------------------------------------------------------------------------
// What is printed
// ---------------------------------------------------------------------------

/// Whether an object has a field with that name and that value at that place.
pub open spec fn has_field(value: JsonView, at: int, name: Seq<char>, field: JsonView) -> bool {
    value matches JsonView::Object(fields) && 0 <= at < fields.len() && fields[at] == (name, field)
}

/// Whether an object has that many fields.
pub open spec fn has_fields(value: JsonView, count: nat) -> bool {
    value matches JsonView::Object(fields) && fields.len() == count
}

/// A chat in JSON has its identifier, its kind, its name and its subtitle.
pub proof fn chats_in_json(chat: ConversationView)
    ensures
        ({
            let value = chat_object(chat);
            &&& has_fields(value, 4)
            &&& has_field(value, 0, "id"@, JsonView::Text(chat.id.stable_id()))
            &&& chat.id is Contact ==> has_field(
                value,
                1,
                "kind"@,
                JsonView::Text("contact"@),
            )
            &&& chat.id is Group ==> has_field(value, 1, "kind"@, JsonView::Text("group"@))
            &&& has_field(value, 2, "name"@, JsonView::Text(chat.title))
            &&& has_field(value, 3, "subtitle"@, JsonView::Text(chat.subtitle))
        }),
{
}

/// An attachment in JSON has its identifier, its name, its type and its sizes;
/// what is not known of it is null, but for the name, which is then made up.
pub proof fn attachments_in_json(attachment: ChatAttachmentView)
    ensures
        ({
            let value = attachment_object(attachment);
            let id = attachment.download_id();
            &&& has_fields(value, 6)
            &&& id is Some ==> has_field(value, 0, "id"@, JsonView::Text(id->0))
            &&& id is None ==> has_field(value, 0, "id"@, JsonView::Null)
            &&& attachment.file_name is Some ==> has_field(
                value,
                1,
                "name"@,
                JsonView::Text(attachment.file_name->0),
            )
            &&& attachment.file_name is None ==> has_field(
                value,
                1,
                "name"@,
                JsonView::Text("attachment"@),
            )
            &&& attachment.content_type is Some ==> has_field(
                value,
                2,
                "content_type"@,
                JsonView::Text(attachment.content_type->0),
            )
            &&& attachment.content_type is None ==> has_field(
                value,
                2,
                "content_type"@,
                JsonView::Null,
            )
            &&& attachment.size is Some ==> has_field(
                value,
                3,
                "size"@,
                JsonView::Number(attachment.size->0 as u64),
            )
            &&& attachment.size is None ==> has_field(value, 3, "size"@, JsonView::Null)
            &&& attachment.width is Some ==> has_field(
                value,
                4,
                "width"@,
                JsonView::Number(attachment.width->0 as u64),
            )
            &&& attachment.width is None ==> has_field(value, 4, "width"@, JsonView::Null)
            &&& attachment.height is Some ==> has_field(
                value,
                5,
                "height"@,
                JsonView::Number(attachment.height->0 as u64),
            )
            &&& attachment.height is None ==> has_field(value, 5, "height"@, JsonView::Null)
        }),
{
    reveal_strlit("attachment");
    reveal_strlit(".");
    reveal_strlit("..");
    let name = "attachment"@;
    assert(name.len() == 10);
    assert(crate::attachments::safe_chars(name) =~= name);
}

/// A message in JSON says when it was sent, by whom and in which direction, what
/// kind it is, what it says, and what came with it.
pub proof fn messages_in_json(message: ChatMessageView, stamp: Seq<char>, i: int)
    requires
        0 <= i < message.attachments.len() <= u64::MAX || message.attachments.len() == 0,
    ensures
        ({
            let value = message_object(message, stamp);
            &&& has_fields(value, 8)
            &&& has_field(value, 0, "timestamp"@, JsonView::Text(stamp))
            &&& has_field(value, 1, "timestamp_ms"@, JsonView::Number(message.timestamp))
            &&& message.mine ==> has_field(value, 2, "direction"@, JsonView::Text("sent"@))
            &&& !message.mine ==> has_field(value, 2, "direction"@, JsonView::Text("received"@))
            &&& message.mine ==> has_field(value, 3, "sender"@, JsonView::Text("you"@))
            &&& !message.mine && message.sender is Some ==> has_field(
                value,
                3,
                "sender"@,
                JsonView::Text(message.sender->0),
            )
            &&& !message.mine && message.sender is None ==> has_field(
                value,
                3,
                "sender"@,
                JsonView::Text("unknown"@),
            )
            &&& has_field(value, 4, "kind"@, JsonView::Text(kind_word(message.kind)))
            &&& has_field(value, 5, "body"@, JsonView::Text(message.body))
            &&& has_field(
                value,
                6,
                "attachment_count"@,
                JsonView::Number(message.attachments.len() as u64),
            )
            &&& value->Object_0[7].0 == "attachments"@
            &&& value->Object_0[7].1 matches JsonView::Array(items) && items.len()
                == message.attachments.len() && (items.len() > 0 ==> items[i] == attachment_object(
                message.attachments[i],
            ))
        }),
{
}

/// Every kind of message has its own word.
pub proof fn kinds_have_their_words(kind: crate::backend::MessageKind)
    ensures
        kind is Text ==> kind_word(kind) == "text"@,
        kind is Attachment ==> kind_word(kind) == "attachment"@,
        kind is Sticker ==> kind_word(kind) == "sticker"@,
        kind is Reaction ==> kind_word(kind) == "reaction"@,
        kind is Deleted ==> kind_word(kind) == "deleted"@,
        kind is Edited ==> kind_word(kind) == "edited"@,
        kind is Poll ==> kind_word(kind) == "poll"@,
        kind is Payment ==> kind_word(kind) == "payment"@,
        kind is Contact ==> kind_word(kind) == "contact"@,
        kind is Call ==> kind_word(kind) == "call"@,
        kind is Story ==> kind_word(kind) == "story"@,
        kind is NonText ==> kind_word(kind) == "non_text"@,
{
}

/// What the commands print in JSON: the list of all chats, a chat with its
/// messages, a message that was sent with its chat, and the newest messages each
/// with its chat; every one of them in order.
pub proof fn commands_in_json(
    chats: Seq<ConversationView>,
    chat: ConversationView,
    messages: Seq<ChatMessageView>,
    stamps: Seq<Seq<char>>,
    list: Seq<BriefMessageView>,
)
    ensures
        ({
            let value = chat_list_object(chats);
            &&& has_fields(value, 1)
            &&& value->Object_0[0].0 == "chats"@
            &&& value->Object_0[0].1 matches JsonView::Array(items) && items.len() == chats.len()
                && forall|i: int|
                0 <= i < chats.len() ==> #[trigger] items[i] == chat_object(chats[i])
        }),
        ({
            let value = read_object(chat, messages, stamps);
            &&& has_fields(value, 2)
            &&& has_field(value, 0, "chat"@, chat_object(chat))
            &&& value->Object_0[1].0 == "messages"@
            &&& value->Object_0[1].1 matches JsonView::Array(items) && items.len()
                == messages.len() && forall|i: int|
                0 <= i < messages.len() ==> #[trigger] items[i] == message_object(
                    messages[i],
                    stamps[i],
                )
        }),
        ({
            let value = brief_object(list, stamps);
            &&& has_fields(value, 1)
            &&& value->Object_0[0].0 == "messages"@
            &&& value->Object_0[0].1 matches JsonView::Array(items) && items.len() == list.len()
                && forall|i: int|
                0 <= i < list.len() ==> {
                    &&& has_fields(#[trigger] items[i], 9)
                    &&& has_field(items[i], 8, "chat"@, chat_object(list[i].chat))
                    &&& items[i]->Object_0.take(8) == message_object(
                        list[i].message,
                        stamps[i],
                    )->Object_0
                }
        }),
{
    let value = brief_object(list, stamps);
    let items = value->Object_0[0].1->Array_0;
    assert forall|i: int| 0 <= i < list.len() implies {
        &&& has_fields(#[trigger] items[i], 9)
        &&& has_field(items[i], 8, "chat"@, chat_object(list[i].chat))
        &&& items[i]->Object_0.take(8) == message_object(list[i].message, stamps[i])->Object_0
    } by {
        let inner = message_object(list[i].message, stamps[i])->Object_0;
        assert(items[i]->Object_0 == inner.push(("chat"@, chat_object(list[i].chat))));
        assert(inner.push(("chat"@, chat_object(list[i].chat))).take(8) =~= inner);
    }
}

/// What is printed of a message that was sent, and of a file that was
/// downloaded, in JSON.
pub proof fn outcomes_in_json(
    chat: ConversationView,
    message: ChatMessageView,
    occurrence: AttachmentOccurrenceView,
    path: Seq<char>,
    stamp: Seq<char>,
)
    ensures
        ({
            let value = sent_object(chat, message, stamp);
            &&& has_fields(value, 3)
            &&& has_field(value, 0, "sent"@, JsonView::Bool(true))
            &&& has_field(value, 1, "chat"@, chat_object(chat))
            &&& has_field(value, 2, "message"@, message_object(message, stamp))
        }),
        ({
            let value = downloaded_object(occurrence, path, stamp);
            let file = value->Object_0[1].1;
            let own = attachment_object(occurrence.attachment)->Object_0;
            &&& has_fields(value, 3)
            &&& has_field(value, 0, "downloaded"@, JsonView::Bool(true))
            &&& value->Object_0[1].0 == "file"@
            &&& has_field(value, 2, "path"@, JsonView::Text(path))
            &&& has_fields(file, 7)
            &&& has_field(file, 0, "id"@, own[0].1)
            &&& has_field(file, 1, "name"@, own[1].1)
            &&& has_field(file, 2, "size"@, own[3].1)
            &&& has_field(file, 3, "content_type"@, own[2].1)
            &&& has_field(file, 4, "chat"@, chat_object(occurrence.chat))
            &&& has_field(file, 5, "timestamp"@, JsonView::Text(stamp))
            &&& has_field(file, 6, "timestamp_ms"@, JsonView::Number(occurrence.timestamp))
        }),
{
}

/// A message is listed under whoever wrote it: under "you" where it is one's own;
/// among the newest messages also with the chat that it went to. One in a group
/// is listed with the group and its sender, one from a contact with the contact
/// alone.
pub proof fn messages_are_listed_by_name(chat: ConversationView, message: ChatMessageView)
    ensures
        message.mine ==> read_name(message) == seq!['y', 'o', 'u'],
        !message.mine && message.sender is Some ==> read_name(message) == message.sender->0,
        !message.mine && message.sender is None ==> read_name(message) == "unknown"@,
        message.mine ==> brief_name(chat, message) == "you → "@ + chat.title,
        !message.mine && chat.id is Contact ==> brief_name(chat, message) == chat.title,
        !message.mine && chat.id is Group && message.sender is Some ==> brief_name(chat, message)
            == chat.title + " · "@ + message.sender->0,
        !message.mine && chat.id is Group && message.sender is None ==> brief_name(chat, message)
            == chat.title + " · "@ + "Unknown contact"@,
{
    reveal_strlit("you");
    assert("you"@ =~= seq!['y', 'o', 'u']);
}

/// The tenths of a unit in a size are the nearest number of them; where two are
/// as near, the even one.
pub proof fn sizes_are_rounded(size: nat, unit: nat)
    requires
        unit > 0,
    ensures
        2 * (tenths(size, unit) * unit) <= 2 * (size * 10) + unit,
        2 * (size * 10) <= 2 * (tenths(size, unit) * unit) + unit,
        2 * (tenths(size, unit) * unit) == 2 * (size * 10) + unit || 2 * (size * 10) == 2 * (tenths(
            size,
            unit,
        ) * unit) + unit ==> tenths(size, unit) % 2 == 0,
{
    let parts = size * 10;
    let whole = parts / unit;
    let rest = parts % unit;
    assert(parts == whole * unit + rest && 0 <= rest < unit) by (nonlinear_arith)
        requires
            unit > 0,
            whole == parts / unit,
            rest == parts % unit,
            0 <= parts,
    ;
    assert((whole + 1) * unit == whole * unit + unit) by (nonlinear_arith);
    if rest * 2 == unit && whole % 2 == 0 {
        assert(tenths(size, unit) == whole);
    }
}

/// A size is shown in the largest of the four units that it reaches, each a
/// thousand and twenty-four times the one before; in bytes it is exact, and
/// otherwise it has one digit behind the point.
pub proof fn sizes_have_units(size: u32)
    ensures
        size_text(None) == "unknown size"@,
        size < 1_024 ==> size_text(Some(size)) == decimal(size as nat) + " B"@,
        1_024 <= size < 1_024 * 1_024 ==> ({
            let count = tenths(size as nat, 1_024);
            size_text(Some(size)) == decimal(count / 10) + seq!['.'] + decimal(count % 10)
                + " KiB"@
        }),
        1_024 * 1_024 <= size < 1_024 * 1_024 * 1_024 ==> ({
            let count = tenths(size as nat, 1_024 * 1_024);
            size_text(Some(size)) == decimal(count / 10) + seq!['.'] + decimal(count % 10)
                + " MiB"@
        }),
        1_024 * 1_024 * 1_024 <= size ==> ({
            let count = tenths(size as nat, 1_024 * 1_024 * 1_024);
            size_text(Some(size)) == decimal(count / 10) + seq!['.'] + decimal(count % 10)
                + " GiB"@
        }),
{
    reveal_strlit(".");
    assert("."@ =~= seq!['.']);
}

/// A message is shown by the lines of its text, and below them one line for each
/// file that came with it; one with neither is shown by an empty line.
pub proof fn messages_show_text_and_files(message: ChatMessageView)
    ensures
        ({
            let lines = content_lines(message);
            let text = if message.body.len() == 0 {
                0nat
            } else {
                pieces(message.body, '\n').len()
            };
            let files = message.attachments.len();
            &&& lines.len() >= 1
            &&& text + files > 0 ==> lines.len() == text + files
            &&& text + files == 0 ==> lines == seq![Seq::<char>::empty()]
            &&& text > 0 ==> joined(lines.take(text as int), seq!['\n']) == message.body
            &&& forall|i: int|
                0 <= i < files ==> {
                    let file = message.attachments[i];
                    #[trigger] lines[text + i] == "file "@ + (if file.download_id() is Some {
                        file.download_id()->0
                    } else {
                        "unavailable"@
                    }) + " · "@ + file_title(file) + " · "@ + size_text(file.size) + " · "@ + (
                    if file.content_type is Some {
                        file.content_type->0
                    } else {
                        "unknown type"@
                    })
                }
        }),
{
    let lines = content_lines(message);
    if message.body.len() > 0 {
        let text = pieces(message.body, '\n');
        crate::text::lemma_pieces_nonempty(message.body, '\n');
        crate::text::pieces_join_to_the_text(message.body, '\n');
        assert(lines.take(text.len() as int) =~= text);
    }
}

/// A text is filled up with blanks on its right to the width of its column; one
/// that is too wide stays.
pub proof fn columns_are_filled_up(text: Seq<char>, own: nat, width: nat)
    ensures
        own >= width ==> padded(text, own, width) == text,
        own < width ==> {
            let filled = padded(text, own, width);
            &&& filled.len() == text.len() + (width - own)
            &&& filled.take(text.len() as int) == text
            &&& forall|i: int| text.len() <= i < filled.len() ==> #[trigger] filled[i] == ' '
        },
{
    if own < width {
        assert(padded(text, own, width).take(text.len() as int) =~= text);
    }
}

/// A column is as wide as its widest entry.
pub proof fn columns_hold_their_widest(widths: Seq<nat>)
    ensures
        forall|i: int| 0 <= i < widths.len() ==> #[trigger] widths[i] <= widest(widths),
        widths.len() > 0 ==> widths.contains(widest(widths)),
        widths.len() == 0 ==> widest(widths) == 0,
    decreases widths.len(),
{
    if widths.len() > 0 {
        let fewer = widths.drop_last();
        columns_hold_their_widest(fewer);
        assert forall|i: int| 0 <= i < widths.len() implies #[trigger] widths[i] <= widest(
            widths,
        ) by {
            if i < fewer.len() {
                assert(fewer[i] == widths[i]);
            }
        }
        if widths.last() > widest(fewer) || fewer.len() == 0 {
            assert(widths[widths.len() - 1] == widest(widths));
        } else {
            let i = choose|i: int| 0 <= i < fewer.len() && fewer[i] == widest(fewer);
            assert(widths[i] == widest(widths));
        }
    }
}

/// A line of the table has the time, the name and the content, with two blanks
/// between; the time and the name stand in the first line of a message only, and
/// below them there are blanks.
pub proof fn lines_have_three_columns(
    row: HumanMessageRowView,
    datetime: nat,
    name: nat,
    columns: Columns,
    index: int,
)
    requires
        0 <= index < row.content.len(),
    ensures
        index == 0 ==> line_columns(row, datetime, name, columns, false, index) == padded(
            row.datetime,
            datetime,
            columns.datetime,
        ) + seq![' ', ' '] + padded(row.name, name, columns.name) + seq![' ', ' ']
            + row.content[0],
        index > 0 ==> line_columns(row, datetime, name, columns, false, index) == blanks(
            columns.datetime + 2 + columns.name + 2,
        ) + row.content[index],
        line_text(row, datetime, name, columns, false, index) == line_columns(
            row,
            datetime,
            name,
            columns,
            false,
            index,
        ) + seq!['\n'],
{
    reveal_strlit("  ");
    reveal_strlit("\n");
    assert("  "@ =~= seq![' ', ' ']);
    assert("\n"@ =~= seq!['\n']);
    if index > 0 {
        assert(line_columns(row, datetime, name, columns, false, index) =~= blanks(
            columns.datetime + 2 + columns.name + 2,
        ) + row.content[index]);
    }
}

/// A row of the table is a message with its time and its name; it counts as
/// incoming exactly where the message is not one's own.
pub proof fn rows_are_messages(message: ChatMessageView, name: Seq<char>, stamp: Seq<char>)
    ensures
        ({
            let row = row_of(message, name, stamp);
            &&& row.datetime == stamp
            &&& row.name == name
            &&& row.incoming <==> !message.mine
            &&& row.content == content_lines(message)
        }),
{
}

/// The list of chats has a line for each chat, in order: its identifier, its
/// title and its subtitle, with two blanks between.
pub proof fn chats_are_listed(chats: Seq<ConversationView>)
    ensures
        chat_lines(chats) == chats.map_values(
            |chat: ConversationView|
                chat.id.stable_id() + "  "@ + chat.title + "  "@ + chat.subtitle + "\n"@,
        ).flatten(),
    decreases chats.len(),
{
    let line = |chat: ConversationView|
        chat.id.stable_id() + "  "@ + chat.title + "  "@ + chat.subtitle + "\n"@;
    let lines = chats.map_values(line);
    if chats.len() > 0 {
        chats_are_listed(chats.drop_last());
        lines.lemma_flatten_and_flatten_alt_are_equivalent();
        lines.drop_last().lemma_flatten_and_flatten_alt_are_equivalent();
        assert(lines.drop_last() =~= chats.drop_last().map_values(line));
        assert(lines.last() == line(chats.last()));
    } else {
        assert(lines =~= Seq::<Seq<char>>::empty());
        assert(lines.flatten() =~= Seq::<char>::empty());
    }
}

// ---------------------------------------------------------------------------
// What is found
// ---------------------------------------------------------------------------

/// A query stands for a chat exactly where it finds one and no other. An empty
/// one is refused, one that finds nothing is told so, and one that finds several
/// is shown them all, each with its identifier.
pub proof fn queries_must_be_clear(list: Seq<ConversationView>, query: Seq<char>)
    ensures
        ({
            let found = matching(list, query);
            let result = resolved_chat(list, query);
            &&& query.len() == 0 ==> result == Err::<ConversationView, ResolveErrorView>(
                ResolveErrorView::EmptyQuery,
            )
            &&& query.len() > 0 && found.len() == 0 ==> result == Err::<
                ConversationView,
                ResolveErrorView,
            >(ResolveErrorView::NoMatch { query })
            &&& query.len() > 0 && found.len() == 1 ==> result == Ok::<
                ConversationView,
                ResolveErrorView,
            >(found[0])
            &&& query.len() > 0 && found.len() > 1 ==> {
                &&& result is Err
                &&& result->Err_0 matches ResolveErrorView::Ambiguous { query: asked, choices }
                    && asked == query && choices.len() == found.len() && forall|i: int|
                    0 <= i < found.len() ==> #[trigger] choices[i] == "  "@
                        + found[i].id.stable_id() + "  "@ + found[i].title
            }
        }),
{
}

/// What a query that does not stand for a chat is answered.
pub proof fn unclear_queries_are_answered(query: Seq<char>, choices: Seq<Seq<char>>)
    ensures
        ResolveErrorView::EmptyQuery.message() == "chat query cannot be empty"@,
        (ResolveErrorView::NoMatch { query }).message() == "no chat matches "@ + debug_text(query)
            + "; run `signal list` to see available chats"@,
        (ResolveErrorView::Ambiguous { query, choices }).message() == "multiple chats match "@
            + debug_text(query) + "; use one of these stable IDs:\n"@ + joined(choices, "\n"@),
{
}

/// A fragment of a name finds every file that has it in its name and can be
/// downloaded, each once: the first time that it occurs.
pub proof fn fragments_find_files(
    list: Seq<AttachmentOccurrenceView>,
    query: Seq<char>,
    index: int,
)
    requires
        0 <= index < list.len(),
        list[index].attachment.file_name is Some,
        has_part(lowercase(list[index].attachment.file_name->0), lowercase(query)),
        list[index].attachment.download_id() is Some,
    ensures
        exists|i: int|
            0 <= i < named_files(list, query).len() && (#[trigger] named_files(
                list,
                query,
            )[i]).attachment.download_id() == list[index].attachment.download_id(),
        (forall|other: int|
            0 <= other < index ==> (#[trigger] list[other]).attachment.download_id()
                != list[index].attachment.download_id()) ==> named_files(list, query).contains(
            list[index],
        ),
    decreases list.len(),
{
    let fewer = list.drop_last();
    let before = named_files(fewer, query);
    let all = named_files(list, query);
    let id = list[index].attachment.download_id()->0;
    if index < list.len() - 1 {
        fragments_find_files(fewer, query, index);
        assert(fewer[index] == list[index]);
        let i = choose|i: int|
            0 <= i < before.len() && (#[trigger] before[i]).attachment.download_id() == Some(id);
        assert(all[i] == before[i]);
        if forall|other: int|
            0 <= other < index ==> (#[trigger] list[other]).attachment.download_id() != Some(id) {
            assert forall|other: int| 0 <= other < index implies (
            #[trigger] fewer[other]).attachment.download_id() != Some(id) by {
                assert(fewer[other] == list[other]);
            }
            let k = choose|k: int| 0 <= k < before.len() && before[k] == list[index];
            assert(all[k] == list[index]);
        }
    } else if id_listed(before, id) {
        let i = choose|i: int|
            0 <= i < before.len() && (#[trigger] before[i]).attachment.download_id() == Some(id);
        assert(all[i] == before[i]);
        lemma_named_files_are_listed(fewer, query, i);
        let k = choose|k: int| 0 <= k < fewer.len() && fewer[k] == before[i];
        assert(list[k] == before[i]);
    } else {
        assert(all[before.len() as int] == list[index]);
    }
}

proof fn lemma_named_files_are_listed(
    list: Seq<AttachmentOccurrenceView>,
    query: Seq<char>,
    i: int,
)
    requires
        0 <= i < named_files(list, query).len(),
    ensures
        list.contains(named_files(list, query)[i]),
    decreases list.len(),
{
    if list.len() > 0 {
        let fewer = list.drop_last();
        if i < named_files(fewer, query).len() {
            lemma_named_files_are_listed(fewer, query, i);
            let k = choose|k: int| 0 <= k < fewer.len() && fewer[k] == named_files(fewer, query)[i];
            assert(list[k] == named_files(list, query)[i]);
        } else {
            assert(list[list.len() - 1] == named_files(list, query)[i]);
        }
    }
}

/// A query stands for a file where it is the identifier of one, and otherwise
/// where it finds one and no other. An empty one is refused, one that finds
/// nothing is told so, and one that finds several is shown them all.
pub proof fn file_queries_must_be_clear(list: Seq<AttachmentOccurrenceView>, query: Seq<char>)
    requires
        forall|i: int| 0 <= i < list.len() ==> !has_id(#[trigger] list[i], query),
    ensures
        ({
            let found = named_files(list, query);
            let result = resolved_file(list, query);
            &&& query.len() == 0 ==> result == Err::<AttachmentOccurrenceView, FileErrorView>(
                FileErrorView::EmptyQuery,
            )
            &&& query.len() > 0 && found.len() == 0 ==> result == Err::<
                AttachmentOccurrenceView,
                FileErrorView,
            >(FileErrorView::NoMatch { query })
            &&& query.len() > 0 && found.len() == 1 ==> result == Ok::<
                AttachmentOccurrenceView,
                FileErrorView,
            >(found[0])
            &&& query.len() > 0 && found.len() > 1 ==> result == Err::<
                AttachmentOccurrenceView,
                FileErrorView,
            >(FileErrorView::Ambiguous { query, files: found })
        }),
{
    lemma_no_file_id(list, query, 0);
}

proof fn lemma_no_file_id(list: Seq<AttachmentOccurrenceView>, query: Seq<char>, from: int)
    requires
        0 <= from,
        forall|i: int| 0 <= i < list.len() ==> !has_id(#[trigger] list[i], query),
    ensures
        index_of_file(list, query, from) is None,
    decreases list.len() - from,
{
    if from < list.len() {
        lemma_no_file_id(list, query, from + 1);
    }
}

/// What a query that does not stand for a file is answered. A choice is shown by
/// its identifier, its name, its size, its chat and its time.
pub proof fn unclear_file_queries_are_answered(
    query: Seq<char>,
    files: Seq<AttachmentOccurrenceView>,
    stamps: Seq<Seq<char>>,
)
    ensures
        FileErrorView::EmptyQuery.message(stamps) == "file query cannot be empty"@,
        (FileErrorView::NoMatch { query }).message(stamps) == "no downloadable file matches "@
            + debug_text(query) + "; use `signal read` or `signal brief` to see file IDs"@,
        (FileErrorView::Ambiguous { query, files }).message(stamps) == "multiple files match "@
            + debug_text(query) + "; use one of these IDs:\n"@ + joined(
            file_choices(files, stamps),
            "\n"@,
        ),
        file_choices(files, stamps).len() == files.len(),
        forall|i: int|
            0 <= i < files.len() && files[i].attachment.download_id() is Some
                ==> #[trigger] file_choices(files, stamps)[i] == "  "@
                + files[i].attachment.download_id()->0 + "  "@ + files[i].attachment.display_name()
                + "  "@ + size_text(files[i].attachment.size) + "  "@ + files[i].chat.title + "  "@
                + stamps[i],
{
}

/// A command becomes what it asks for, with everything that was given for it: a
/// chat that is read or written to must be clear, and a message must say
/// something, which is checked first.
pub proof fn commands_become_requests(command: Command, list: Seq<ConversationView>)
    ensures
        command is List ==> request_of(command, list) == Ok::<RequestView, CommandErrorView>(
            RequestView::List,
        ),
        command matches Command::Brief { limit } ==> request_of(command, list) == Ok::<
            RequestView,
            CommandErrorView,
        >(RequestView::Brief { limit: limit as nat }),
        command matches Command::Download { file } ==> request_of(command, list) == Ok::<
            RequestView,
            CommandErrorView,
        >(RequestView::Download { file: file@ }),
        command matches Command::Read { chat, since, until, limit } ==> {
            let found = resolved_chat(list, chat@);
            &&& found is Ok ==> request_of(command, list) == Ok::<RequestView, CommandErrorView>(
                RequestView::Read {
                    chat: found->Ok_0,
                    since: optional(since),
                    until: optional(until),
                    limit: limit as nat,
                },
            )
            &&& found is Err ==> request_of(command, list) == Err::<RequestView, CommandErrorView>(
                CommandErrorView::Chat(found->Err_0),
            )
        },
        command matches Command::Send { chat, message } ==> {
            let found = resolved_chat(list, chat@);
            &&& message@.len() == 0 <==> request_of(command, list) == Err::<
                RequestView,
                CommandErrorView,
            >(CommandErrorView::EmptyMessage)
            &&& message@.len() > 0 && found is Ok ==> request_of(command, list) == Ok::<
                RequestView,
                CommandErrorView,
            >(RequestView::Send { chat: found->Ok_0, message: message@ })
            &&& message@.len() > 0 && found is Err ==> request_of(command, list) == Err::<
                RequestView,
                CommandErrorView,
            >(CommandErrorView::Chat(found->Err_0))
        },
{
}

/// Every message of every chat is among those that the newest are picked from,
/// with its own chat.
pub proof fn brief_leaves_no_chat_out(chats: Seq<ChatMessages>, chat: int, message: int)
    requires
        0 <= chat < chats.len(),
        0 <= message < chats[chat].messages@.len(),
    ensures
        all_with_chats(chats).contains(
            BriefMessageView {
                chat: chats[chat].chat@,
                message: chats[chat].messages@[message]@,
            },
        ),
    decreases chats.len(),
{
    let wanted = BriefMessageView {
        chat: chats[chat].chat@,
        message: chats[chat].messages@[message]@,
    };
    let fewer = chats.drop_last();
    let before = all_with_chats(fewer);
    let last = with_chat(chats.last().chat@, message_views(chats.last().messages@));
    if chat == chats.len() - 1 {
        assert((before + last)[before.len() + message] == wanted);
    } else {
        brief_leaves_no_chat_out(fewer, chat, message);
        let at = choose|at: int| 0 <= at < before.len() && before[at] == wanted;
        assert((before + last)[at] == wanted);
    }
}

/// There are as many of the newest messages as were asked for, or all there are.
/// Of two at the same time, the one in the chat with the smaller identifier
/// comes first.
pub proof fn brief_is_as_long_as_asked(chats: Seq<ChatMessages>, limit: nat, i: int, j: int)
    requires
        0 <= i < j < brief(chats, limit).len(),
    ensures
        all_with_chats(chats).len() <= limit ==> brief(chats, limit).len() == all_with_chats(
            chats,
        ).len(),
        all_with_chats(chats).len() > limit ==> brief(chats, limit).len() == limit,
        ({
            let newer = brief(chats, limit)[i];
            let older = brief(chats, limit)[j];
            &&& newer.message.timestamp >= older.message.timestamp
            &&& newer.message.timestamp == older.message.timestamp ==> !crate::text::precedes(
                older.chat.id.stable_id(),
                newer.chat.id.stable_id(),
            )
            &&& newer.message.timestamp == older.message.timestamp && newer.chat.id
                == older.chat.id ==> !crate::text::precedes(older.message.body, newer.message.body)
        }),
{
    let list = all_with_chats(chats);
    let keys = list.map_values(|entry: BriefMessageView| brief_key(entry));
    crate::order::order_exists(keys);
    let order = crate::order::stable_order(keys);
    assert(crate::order::comes_first(keys, order[i], order[j]));
    assert(0 <= order[i] < keys.len());
    assert(0 <= order[j] < keys.len());
    let newer = brief(chats, limit)[i];
    let older = brief(chats, limit)[j];
    assert(newer == list[order[i]]);
    assert(older == list[order[j]]);
    crate::text::lemma_precedes_total(newer.chat.id.stable_id(), older.chat.id.stable_id());
    crate::text::lemma_precedes_total(newer.message.body, older.message.body);
}

/// A message in one line is its text, with further lines set in by four blanks,
/// and behind it the number of files that came with it.
pub proof fn bodies_fit_in_a_list(message: ChatMessageView)
    ensures
        message.attachments.len() == 0 && !message.body.contains('\n') ==> body_text(message)
            == message.body,
        message.attachments.len() == 0 ==> body_text(message) == joined(
            pieces(message.body, '\n'),
            "\n    "@,
        ),
        message.attachments.len() == 1 ==> crate::text::has_suffix(
            body_text(message),
            "[1 attachment]"@,
        ),
        message.attachments.len() > 1 ==> crate::text::has_suffix(
            body_text(message),
            "["@ + decimal(message.attachments.len()) + " attachments]"@,
        ),
{
    reveal_strlit("[");
    reveal_strlit("]");
    reveal_strlit(" ");
    reveal_strlit("attachment");
    reveal_strlit("attachments");
    reveal_strlit("[1 attachment]");
    reveal_strlit(" attachments]");
    let count = message.attachments.len();
    let text = body_text(message);
    if count == 0 && !message.body.contains('\n') {
        lemma_one_piece(message.body);
    }
    if count == 1 {
        assert(decimal(1) =~= seq!['1']);
        let tail = "[1 attachment]"@;
        assert("["@ + decimal(1) + " "@ + "attachment"@ + "]"@ =~= tail);
        assert(text.subrange(text.len() - tail.len(), text.len() as int) =~= tail);
    }
    if count > 1 {
        let tail = "["@ + decimal(count) + " attachments]"@;
        assert("["@ + decimal(count) + " "@ + "attachments"@ + "]"@ =~= tail);
        assert(text.subrange(text.len() - tail.len(), text.len() as int) =~= tail);
    }
}

proof fn lemma_one_piece(s: Seq<char>)
    requires
        !s.contains('\n'),
    ensures
        pieces(s, '\n') == seq![s],
{
    lemma_pieces_append(Seq::empty(), s, '\n');
    assert(Seq::<char>::empty() + s =~= s);
    let none = pieces(Seq::<char>::empty(), '\n');
    assert(none.drop_last().push(none.last() + s) =~= seq![s]);
}

/// A limit is refused for what is wrong with it.
pub proof fn limits_are_refused(error: LimitError)
    ensures
        error is NoNumber ==> error.described() == "must be a positive integer"@,
        error is Zero ==> error.described() == "must be greater than zero"@,
{
}

/// The rows of a chat and of the newest messages have a message each, in order:
/// its time, its name, its lines, and whether it came in.
pub proof fn rows_follow_the_messages(
    messages: Seq<ChatMessageView>,
    list: Seq<BriefMessageView>,
    rows: Seq<HumanMessageRowView>,
    i: int,
)
    ensures
        read_rows_view(messages, rows) && 0 <= i < messages.len() ==> {
            &&& rows.len() == messages.len()
            &&& rows[i].content == content_lines(messages[i])
            &&& rows[i].incoming == !messages[i].mine
            &&& messages[i].mine ==> rows[i].name == "you"@
            &&& !messages[i].mine && messages[i].sender is Some ==> rows[i].name
                == messages[i].sender->0
            &&& shows_short_time(messages[i].timestamp, rows[i].datetime)
        },
        brief_rows_view(list, rows) && 0 <= i < list.len() ==> {
            &&& rows.len() == list.len()
            &&& rows[i].content == content_lines(list[i].message)
            &&& rows[i].incoming == !list[i].message.mine
            &&& list[i].message.mine ==> rows[i].name == "you → "@ + list[i].chat.title
            &&& !list[i].message.mine && list[i].chat.id is Contact ==> rows[i].name
                == list[i].chat.title
            &&& shows_short_time(list[i].message.timestamp, rows[i].datetime)
        },
{
}

/// A text is coloured by an escape before it and one behind it, where colours are
/// wanted and there is a text.
pub proof fn colors_go_round_the_text(text: Seq<char>)
    ensures
        colored(text, false) == text,
        text.len() > 0 ==> colored(text, true) == "\x1b[38;2;70;130;255m"@ + text + "\x1b[0m"@,
        text.len() == 0 ==> colored(text, true) == text,
{
}

/// A limit is a positive number that the machine can hold; zero and what is no
/// number are told apart.
pub proof fn limits_are_positive(value: Seq<char>, number: nat)
    ensures
        0 < number <= usize::MAX ==> limit_of(decimal(number)) == Ok::<usize, LimitError>(
            number as usize,
        ),
        limit_of(decimal(0)) == Err::<usize, LimitError>(LimitError::Zero),
        number > usize::MAX ==> limit_of(decimal(number)) == Err::<usize, LimitError>(
            LimitError::NoNumber,
        ),
        unsigned(value) is None ==> limit_of(value) == Err::<usize, LimitError>(
            LimitError::NoNumber,
        ),
        limit_of(value) matches Ok(limit) ==> limit > 0,
{
    crate::number::unsigned_reads_decimal(number);
    crate::number::unsigned_reads_decimal(0);
}

/// Colors are used on a terminal only, never where they are not wanted or cannot
/// be shown, and on every other.
pub proof fn colors_need_a_terminal(no_color: bool, term: Option<Seq<char>>)
    ensures
        !colors_wanted(false, no_color, term),
        !colors_wanted(true, true, term),
        !colors_wanted(true, no_color, Some("dumb"@)),
        colors_wanted(true, false, None),
        term matches Some(kind) ==> (kind != "dumb"@ ==> colors_wanted(true, false, term)),
{
}

/// An identifier is a file's own, in whatever case it is typed; of two files
/// with one identifier the first is taken. A file that cannot be downloaded has
/// none.
pub proof fn file_ids_are_typed_in_any_case(
    list: Seq<AttachmentOccurrenceView>,
    query: Seq<char>,
    index: int,
)
    requires
        0 <= index < list.len(),
        query.len() > 0,
        list[index].attachment.download_id() is Some,
        list[index].attachment.download_id()->0.len() == query.len(),
        forall|i: int|
            0 <= i < query.len() ==> crate::text::ascii_lower(#[trigger] query[i])
                == crate::text::ascii_lower(list[index].attachment.download_id()->0[i]),
        forall|other: int|
            0 <= other < index ==> {
                let id = (#[trigger] list[other]).attachment.download_id();
                id is None || id->0.len() != query.len()
            },
    ensures
        resolved_file(list, query) == Ok::<AttachmentOccurrenceView, FileErrorView>(list[index]),
{
    let id = list[index].attachment.download_id()->0;
    assert forall|i: int| 0 <= i < id.len() implies crate::text::ascii_lower(#[trigger] id[i])
        == crate::text::ascii_lower(query[i]) by {
        assert(crate::text::ascii_lower(query[i]) == crate::text::ascii_lower(id[i]));
    }
    assert(has_id(list[index], query));
    lemma_first_file_with_id(list, query, 0, index);
}

proof fn lemma_first_file_with_id(
    list: Seq<AttachmentOccurrenceView>,
    query: Seq<char>,
    from: int,
    index: int,
)
    requires
        0 <= from <= index < list.len(),
        has_id(list[index], query),
        forall|other: int|
            from <= other < index ==> {
                let id = (#[trigger] list[other]).attachment.download_id();
                id is None || id->0.len() != query.len()
            },
    ensures
        index_of_file(list, query, from) == Some(index),
    decreases index - from,
{
    if from < index {
        assert(!has_id(list[from], query));
        lemma_first_file_with_id(list, query, from + 1, index);
    }
}

/// What a fragment finds has the fragment in its name, compared in lower case.
pub proof fn found_files_have_the_fragment(
    list: Seq<AttachmentOccurrenceView>,
    query: Seq<char>,
    i: int,
)
    requires
        0 <= i < named_files(list, query).len(),
    ensures
        ({
            let file = named_files(list, query)[i];
            &&& list.contains(file)
            &&& file.attachment.file_name is Some
            &&& has_part(lowercase(file.attachment.file_name->0), lowercase(query))
        }),
{
    choices_are_different_files(list, query);
    lemma_named_files_are_listed(list, query, i);
}

/// The columns of a table are as wide as their widest entries.
pub proof fn tables_have_their_widths(
    rows: Seq<HumanMessageRowView>,
    datetimes: Seq<nat>,
    names: Seq<nat>,
    color: bool,
    columns: Columns,
)
    requires
        rows.len() > 0,
        datetimes.len() == rows.len(),
        names.len() == rows.len(),
        forall|i: int| 0 <= i < rows.len() ==> row_without(#[trigger] rows[i], '\n'),
        datetimes.contains(columns.datetime),
        forall|i: int| 0 <= i < datetimes.len() ==> #[trigger] datetimes[i] <= columns.datetime,
        names.contains(columns.name),
        forall|i: int| 0 <= i < names.len() ==> #[trigger] names[i] <= columns.name,
    ensures
        pieces(table_text(rows, datetimes, names, color), '\n') == rows_lines(
            rows,
            datetimes,
            names,
            columns,
            color,
            rows.len(),
        ).push(Seq::<char>::empty()),
{
    columns_hold_their_widest(datetimes);
    columns_hold_their_widest(names);
    let i = choose|i: int| 0 <= i < datetimes.len() && datetimes[i] == columns.datetime;
    let j = choose|j: int| 0 <= j < names.len() && names[j] == columns.name;
    let k = choose|k: int| 0 <= k < datetimes.len() && datetimes[k] == widest(datetimes);
    let l = choose|l: int| 0 <= l < names.len() && names[l] == widest(names);
    assert(datetimes[k] <= columns.datetime && datetimes[i] <= widest(datetimes));
    assert(names[l] <= columns.name && names[j] <= widest(names));
    table_has_a_line_for_each_content(rows, datetimes, names, columns, color, rows.len());
}

/// The lines of a table are those of its first rows, and then those of the next.
pub proof fn tables_go_row_by_row(
    rows: Seq<HumanMessageRowView>,
    datetimes: Seq<nat>,
    names: Seq<nat>,
    columns: Columns,
    color: bool,
    count: nat,
    index: int,
)
    requires
        count < rows.len(),
        0 <= index < rows[count as int].content.len(),
    ensures
        ({
            let before = rows_lines(rows, datetimes, names, columns, color, count);
            let after = rows_lines(rows, datetimes, names, columns, color, count + 1);
            let row = rows[count as int];
            &&& after.len() == before.len() + row.content.len()
            &&& after.take(before.len() as int) == before
            &&& after[before.len() + index] == line_columns(
                row,
                datetimes[count as int],
                names[count as int],
                columns,
                color,
                index,
            )
        }),
{
    let before = rows_lines(rows, datetimes, names, columns, color, count);
    let after = rows_lines(rows, datetimes, names, columns, color, count + 1);
    assert(after.take(before.len() as int) =~= before);
}

/// The widths of a table are those of the times and of the names.
pub proof fn widths_are_measured(rows: Seq<HumanMessageRowView>, i: int)
    requires
        0 <= i < rows.len(),
    ensures
        datetime_widths(rows).len() == rows.len(),
        datetime_widths(rows)[i] == display_width(rows[i].datetime),
        name_widths(rows).len() == rows.len(),
        name_widths(rows)[i] == display_width(rows[i].name),
{
}

/// What the newest messages are picked from: the messages of each chat, in order,
/// each once, with its chat.
pub proof fn messages_go_chat_by_chat(chats: Seq<ChatMessages>)
    ensures
        all_with_chats(chats) == chats.flat_map(
            |chat: ChatMessages|
                message_views(chat.messages@).map_values(
                    |message: ChatMessageView| BriefMessageView { chat: chat.chat@, message },
                ),
        ),
    decreases chats.len(),
{
    let pick = |chat: ChatMessages|
        message_views(chat.messages@).map_values(
            |message: ChatMessageView| BriefMessageView { chat: chat.chat@, message },
        );
    if chats.len() > 0 {
        let fewer = chats.drop_last();
        let last = chats.last();
        messages_go_chat_by_chat(fewer);
        fewer.lemma_flat_map_push(pick, last);
        assert(fewer.push(last) =~= chats);
        assert(pick(last) =~= with_chat(last.chat@, message_views(last.messages@)));
    } else {
        assert(chats.map_values(pick) =~= Seq::<Seq<BriefMessageView>>::empty());
        assert(chats.flat_map(pick) =~= Seq::<BriefMessageView>::empty());
    }
}

/// The files that a fragment finds come in the order of the list: one more entry
/// in the list adds at most itself, at the end.
pub proof fn found_files_keep_their_order(
    list: Seq<AttachmentOccurrenceView>,
    query: Seq<char>,
    last: AttachmentOccurrenceView,
)
    ensures
        ({
            let before = named_files(list, query);
            let after = named_files(list.push(last), query);
            after == before || after == before.push(last)
        }),
        named_files(Seq::empty(), query).len() == 0,
{
    assert(list.push(last).drop_last() =~= list);
}

} // verus!
