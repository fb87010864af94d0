//! What the terminal shows: which lines, in which style, at which place.
use std::sync::Arc;

use vstd::prelude::*;

use crate::app::{ints, search_finds_every_match, App, AppView, LayoutMode, Screen};
use crate::attachments::{AttachmentState, AttachmentStateView, Picture, PictureView};
use crate::backend::{
    attachment_views, message_views, str_or, text_or, ChatAttachment, ChatAttachmentView,
    ChatMessage, ChatMessageView, ConversationView, MessageKind,
};
use crate::cli::{human_size, size_text};
use crate::dates::{clock_time, shows_clock_time};
use crate::edit::{index_of, spot};
use crate::states::state_in;
use crate::text::{
    chars_of, contains, debug_text, equal_ignoring_ascii_case, has_part, has_prefix,
    lemma_texts_push, pieces, quoted, same_ignoring_ascii_case, same_text, split_on, starts_with,
    text_between, texts, trim, trimmed,
};
use crate::wrap::{wrap, wrap_text};

verus! {

/// The width of the list of chats beside a chat.
pub const SIDEBAR_WIDTH: u16 = 32;

// ---------------------------------------------------------------------------
// Styles
// ---------------------------------------------------------------------------

#[derive(Debug, Clone, Copy, PartialEq, Eq, Structural)]
pub enum Color {
    /// The terminal's own color.
    Reset,
    Green,
    Red,
    Rgb(u8, u8, u8),
}

/// The color of what is selected.
pub open spec fn accent_color() -> Color {
    Color::Rgb(70, 130, 255)
}

/// How a text is shown.
#[derive(Debug, Clone, Copy, PartialEq, Eq, Structural)]
pub struct Style {
    pub fg: Option<Color>,
    pub bold: bool,
    pub dim: bool,
}

pub open spec fn plain_style() -> Style {
    Style { fg: None, bold: false, dim: false }
}

pub open spec fn primary_style() -> Style {
    Style { fg: Some(Color::Reset), bold: false, dim: false }
}

pub open spec fn muted_style() -> Style {
    Style { fg: Some(Color::Reset), bold: false, dim: true }
}

pub open spec fn accent_style() -> Style {
    Style { fg: Some(accent_color()), bold: false, dim: false }
}

pub open spec fn bold_style(style: Style) -> Style {
    Style { bold: true, ..style }
}

pub fn plain() -> (style: Style)
    ensures
        style == plain_style(),
{
    Style { fg: None, bold: false, dim: false }
}

/// The style of ordinary text, which follows the theme of the terminal.
pub fn primary() -> (style: Style)
    ensures
        style == primary_style(),
{
    Style { fg: Some(Color::Reset), bold: false, dim: false }
}

/// The style of text in the background, which follows the theme too.
pub fn muted() -> (style: Style)
    ensures
        style == muted_style(),
{
    Style { fg: Some(Color::Reset), bold: false, dim: true }
}

pub fn accent() -> (style: Style)
    ensures
        style == accent_style(),
{
    Style { fg: Some(Color::Rgb(70, 130, 255)), bold: false, dim: false }
}

fn bold(style: Style) -> (result: Style)
    ensures
        result == bold_style(style),
{
    Style { fg: style.fg, bold: true, dim: style.dim }
}

fn colored(color: Color) -> (style: Style)
    ensures
        style == (Style { fg: Some(color), bold: false, dim: false }),
{
    Style { fg: Some(color), bold: false, dim: false }
}

/// A text in one style.
#[derive(Debug, PartialEq, Eq)]
pub struct Span {
    pub content: String,
    pub style: Style,
}

pub struct SpanView {
    pub content: Seq<char>,
    pub style: Style,
}

impl View for Span {
    type V = SpanView;

    open spec fn view(&self) -> SpanView {
        SpanView { content: self.content@, style: self.style }
    }
}

pub open spec fn span_views(spans: Seq<Span>) -> Seq<SpanView> {
    spans.map_values(|span: Span| span@)
}

pub open spec fn lines_views(list: Seq<Vec<Span>>) -> Seq<Seq<SpanView>> {
    list.map_values(|spans: Vec<Span>| span_views(spans@))
}

fn push_span(spans: &mut Vec<Span>, content: &str, style: Style)
    ensures
        span_views(final(spans)@) == span_views(old(spans)@).push(
            SpanView { content: content@, style },
        ),
{
    let ghost before = spans@;
    let span = Span { content: content.to_owned(), style };
    spans.push(span);
    assert(span_views(spans@) =~= span_views(before).push(span@));
}

fn no_spans() -> (spans: Vec<Span>)
    ensures
        span_views(spans@) == Seq::<SpanView>::empty(),
{
    let spans: Vec<Span> = Vec::new();
    assert(span_views(spans@) =~= Seq::<SpanView>::empty());
    spans
}

fn line(content: &str, style: Style) -> (spans: Vec<Span>)
    ensures
        span_views(spans@) == one_span(content@, style),
{
    let mut spans = no_spans();
    push_span(&mut spans, content, style);
    assert(span_views(spans@) =~= one_span(content@, style));
    spans
}

/// A line of one text in one style.
pub open spec fn one_span(content: Seq<char>, style: Style) -> Seq<SpanView> {
    seq![SpanView { content, style }]
}

// ---------------------------------------------------------------------------
// Areas
// ---------------------------------------------------------------------------

/// A part of the terminal.
#[derive(Debug, Clone, Copy, PartialEq, Eq, Structural)]
pub struct Rect {
    pub x: u16,
    pub y: u16,
    pub width: u16,
    pub height: u16,
}

/// How much of an area a part of it takes: exactly so much, or at least.
#[derive(Debug, Clone, Copy, PartialEq, Eq, Structural)]
pub enum Share {
    Length(u16),
    Min(u16),
}

/// The size that the shares of an area ask for together, in lengths and in
/// minimal sizes.
pub open spec fn lengths(shares: Seq<Share>) -> int
    decreases shares.len(),
{
    if shares.len() == 0 {
        0
    } else {
        lengths(shares.drop_last()) + match shares.last() {
            Share::Length(size) => size as int,
            Share::Min(_) => 0,
        }
    }
}

pub open spec fn minimums(shares: Seq<Share>) -> int
    decreases shares.len(),
{
    if shares.len() == 0 {
        0
    } else {
        minimums(shares.drop_last()) + match shares.last() {
            Share::Length(_) => 0,
            Share::Min(size) => size as int,
        }
    }
}

pub open spec fn count_minimums(shares: Seq<Share>) -> nat
    decreases shares.len(),
{
    if shares.len() == 0 {
        0
    } else {
        count_minimums(shares.drop_last()) + if shares.last() is Min {
            1nat
        } else {
            0nat
        }
    }
}

/// The extent of an area in the direction in which it is divided.
pub open spec fn extent(area: Rect, vertical: bool) -> int {
    if vertical {
        area.height as int
    } else {
        area.width as int
    }
}

/// Whether an area lies within the coordinates that there are.
pub open spec fn on_screen(area: Rect) -> bool {
    area.x + area.width <= u16::MAX && area.y + area.height <= u16::MAX
}

/// Whether a part of an area lies within it, and takes all of it in the direction
/// in which it is not divided.
pub open spec fn lies_in(part: Rect, area: Rect, vertical: bool) -> bool {
    if vertical {
        &&& part.x == area.x
        &&& part.width == area.width
        &&& area.y <= part.y
        &&& part.y + part.height <= area.y + area.height
    } else {
        &&& part.y == area.y
        &&& part.height == area.height
        &&& area.x <= part.x
        &&& part.x + part.width <= area.x + area.width
    }
}

/// Whether there is room for all shares, one of which takes what is left.
pub open spec fn has_room(area: Rect, vertical: bool, shares: Seq<Share>) -> bool {
    &&& count_minimums(shares) == 1
    &&& minimums(shares) <= i16::MAX
    &&& lengths(shares) + minimums(shares) <= extent(area, vertical)
    &&& on_screen(area)
}

/// The size of a part: its length, or what the lengths leave.
pub open spec fn part_size(area: Rect, vertical: bool, shares: Seq<Share>, index: int) -> int {
    match shares[index] {
        Share::Length(size) => size as int,
        Share::Min(_) => extent(area, vertical) - lengths(shares),
    }
}

/// Where a part starts within the area.
pub open spec fn part_start(area: Rect, vertical: bool, shares: Seq<Share>, index: int) -> int
    decreases index,
{
    if index <= 0 {
        0
    } else {
        part_start(area, vertical, shares, index - 1) + part_size(
            area,
            vertical,
            shares,
            index - 1,
        )
    }
}

/// A part of an area in which there is room for all of them.
pub open spec fn part_of(area: Rect, vertical: bool, shares: Seq<Share>, index: int) -> Rect {
    let start = part_start(area, vertical, shares, index);
    let size = part_size(area, vertical, shares, index);
    if vertical {
        Rect { x: area.x, y: (area.y + start) as u16, width: area.width, height: size as u16 }
    } else {
        Rect { x: (area.x + start) as u16, y: area.y, width: size as u16, height: area.height }
    }
}

/// `ratatui::layout::Layout::split`: one part for each share, and each of them
/// within the area. Where there is room for all shares and one of them is a
/// minimum, each length is kept, the minimum takes what is left, and the parts
/// lie side by side in their order. How an area that is too small is shared out
/// is left open: the solver walks hash maps in the order that they have in the
/// process.
#[verifier::external_body]
fn split(area: Rect, vertical: bool, shares: &Vec<Share>) -> (parts: Vec<Rect>)
    ensures
        parts@.len() == shares@.len(),
        on_screen(area) ==> forall|i: int|
            0 <= i < shares@.len() ==> lies_in(#[trigger] parts@[i], area, vertical),
        has_room(area, vertical, shares@) ==> forall|i: int|
            0 <= i < shares@.len() ==> #[trigger] parts@[i] == part_of(area, vertical, shares@, i),
{
    let direction = match vertical {
        true => ratatui::layout::Direction::Vertical,
        false => ratatui::layout::Direction::Horizontal,
    };
    let constraints = shares.iter().map(|share| match share {
        Share::Length(size) => ratatui::layout::Constraint::Length(*size),
        Share::Min(size) => ratatui::layout::Constraint::Min(*size),
    });
    let area = ratatui::layout::Rect::new(area.x, area.y, area.width, area.height);
    let parts = ratatui::layout::Layout::new(direction, constraints).split(area);
    let rect = |ratatui::layout::Rect { x, y, width, height }| Rect { x, y, width, height };
    parts.iter().copied().map(rect).collect()
}

/// The part of an area from one row on, with so many rows.
pub open spec fn rows_of(area: Rect, start: int, count: int) -> Rect {
    Rect { x: area.x, y: (area.y + start) as u16, width: area.width, height: count as u16 }
}

/// The part of an area from one column on, with so many columns.
pub open spec fn columns_of(area: Rect, start: int, count: int) -> Rect {
    Rect { x: (area.x + start) as u16, y: area.y, width: count as u16, height: area.height }
}

/// Divides an area in two.
fn two_parts(area: Rect, vertical: bool, first: Share, second: Share) -> (parts: (Rect, Rect))
    ensures
        on_screen(area) ==> lies_in(parts.0, area, vertical) && lies_in(parts.1, area, vertical),
        has_room(area, vertical, seq![first, second]) ==> {
            &&& parts.0 == part_of(area, vertical, seq![first, second], 0)
            &&& parts.1 == part_of(area, vertical, seq![first, second], 1)
        },
{
    let mut shares: Vec<Share> = Vec::new();
    shares.push(first);
    shares.push(second);
    assert(shares@ =~= seq![first, second]);
    let parts = split(area, vertical, &shares);
    (parts[0], parts[1])
}

proof fn lemma_two_shares(first: Share, second: Share)
    ensures
        ({
            let shares = seq![first, second];
            &&& lengths(shares) == lengths(seq![first]) + lengths(seq![second])
            &&& minimums(shares) == minimums(seq![first]) + minimums(seq![second])
            &&& count_minimums(shares) == count_minimums(seq![first]) + count_minimums(
                seq![second],
            )
        }),
{
    let shares = seq![first, second];
    assert(shares.drop_last() =~= seq![first]);
    assert(seq![second].drop_last() =~= Seq::<Share>::empty());
    assert(lengths(Seq::<Share>::empty()) == 0);
    assert(minimums(Seq::<Share>::empty()) == 0);
    assert(count_minimums(Seq::<Share>::empty()) == 0);
}

proof fn lemma_one_share(share: Share)
    ensures
        lengths(seq![share]) == (match share {
            Share::Length(size) => size as int,
            Share::Min(_) => 0,
        }),
        minimums(seq![share]) == (match share {
            Share::Length(_) => 0,
            Share::Min(size) => size as int,
        }),
        count_minimums(seq![share]) == if share is Min {
            1nat
        } else {
            0nat
        },
{
    assert(seq![share].drop_last() =~= Seq::<Share>::empty());
    assert(lengths(Seq::<Share>::empty()) == 0);
    assert(minimums(Seq::<Share>::empty()) == 0);
    assert(count_minimums(Seq::<Share>::empty()) == 0);
}

proof fn lemma_more_shares(shares: Seq<Share>, share: Share)
    ensures
        lengths(shares.push(share)) == lengths(shares) + lengths(seq![share]),
        minimums(shares.push(share)) == minimums(shares) + minimums(seq![share]),
        count_minimums(shares.push(share)) == count_minimums(shares) + count_minimums(seq![share]),
{
    assert(shares.push(share).drop_last() =~= shares);
    lemma_one_share(share);
}

/// The head, the body and the foot of the screen.
pub fn shell(area: Rect) -> (parts: (Rect, Rect, Rect))
    ensures
        on_screen(area) ==> {
            &&& lies_in(parts.0, area, true)
            &&& lies_in(parts.1, area, true)
            &&& lies_in(parts.2, area, true)
        },
        on_screen(area) && area.height >= 6 ==> parts == (
            rows_of(area, 0, 3),
            rows_of(area, 3, area.height - 5),
            rows_of(area, area.height - 2, 2),
        ),
{
    let mut shares: Vec<Share> = Vec::new();
    shares.push(Share::Length(3));
    shares.push(Share::Min(1));
    shares.push(Share::Length(2));
    proof {
        lemma_one_share(Share::Length(3));
        lemma_one_share(Share::Min(1));
        lemma_one_share(Share::Length(2));
        let two = seq![Share::Length(3), Share::Min(1)];
        lemma_two_shares(Share::Length(3), Share::Min(1));
        lemma_more_shares(two, Share::Length(2));
        assert(shares@ =~= two.push(Share::Length(2)));
        reveal_with_fuel(part_start, 3);
    }
    let parts = split(area, true, &shares);
    (parts[0], parts[1], parts[2])
}

/// The list of chats and the chat, side by side.
pub fn wide_columns(area: Rect) -> (parts: (Rect, Rect))
    ensures
        on_screen(area) ==> lies_in(parts.0, area, false) && lies_in(parts.1, area, false),
        on_screen(area) && area.width > SIDEBAR_WIDTH ==> parts == (
            columns_of(area, 0, SIDEBAR_WIDTH as int),
            columns_of(area, SIDEBAR_WIDTH as int, area.width - SIDEBAR_WIDTH),
        ),
{
    proof {
        lemma_one_share(Share::Length(SIDEBAR_WIDTH));
        lemma_one_share(Share::Min(1));
        lemma_two_shares(Share::Length(SIDEBAR_WIDTH), Share::Min(1));
        reveal_with_fuel(part_start, 2);
    }
    two_parts(area, false, Share::Length(SIDEBAR_WIDTH), Share::Min(1))
}

/// The search line and the list below it.
pub fn sidebar_parts(area: Rect) -> (parts: (Rect, Rect))
    ensures
        on_screen(area) ==> lies_in(parts.0, area, true) && lies_in(parts.1, area, true),
        on_screen(area) && area.height >= 4 ==> parts == (
            rows_of(area, 0, 3),
            rows_of(area, 3, area.height - 3),
        ),
{
    proof {
        lemma_one_share(Share::Length(3));
        lemma_one_share(Share::Min(1));
        lemma_two_shares(Share::Length(3), Share::Min(1));
        reveal_with_fuel(part_start, 2);
    }
    two_parts(area, true, Share::Length(3), Share::Min(1))
}

/// The messages and the line to write in, in a wide terminal.
pub fn chat_parts(area: Rect) -> (parts: (Rect, Rect))
    ensures
        on_screen(area) ==> lies_in(parts.0, area, true) && lies_in(parts.1, area, true),
        on_screen(area) && area.height >= 7 ==> parts == (
            rows_of(area, 0, area.height - 4),
            rows_of(area, area.height - 4, 4),
        ),
{
    proof {
        lemma_one_share(Share::Length(4));
        lemma_one_share(Share::Min(3));
        lemma_two_shares(Share::Min(3), Share::Length(4));
        reveal_with_fuel(part_start, 2);
    }
    two_parts(area, true, Share::Min(3), Share::Length(4))
}

/// The head, the messages, the line to write in and the foot, in a narrow
/// terminal.
pub fn narrow_chat_parts(area: Rect) -> (parts: (Rect, Rect, Rect, Rect))
    ensures
        on_screen(area) ==> {
            &&& lies_in(parts.0, area, true)
            &&& lies_in(parts.1, area, true)
            &&& lies_in(parts.2, area, true)
            &&& lies_in(parts.3, area, true)
        },
        on_screen(area) && area.height >= 12 ==> parts == (
            rows_of(area, 0, 3),
            rows_of(area, 3, area.height - 9),
            rows_of(area, area.height - 6, 4),
            rows_of(area, area.height - 2, 2),
        ),
{
    let mut shares: Vec<Share> = Vec::new();
    shares.push(Share::Length(3));
    shares.push(Share::Min(3));
    shares.push(Share::Length(4));
    shares.push(Share::Length(2));
    proof {
        lemma_one_share(Share::Length(3));
        lemma_one_share(Share::Min(3));
        lemma_one_share(Share::Length(4));
        lemma_one_share(Share::Length(2));
        let two = seq![Share::Length(3), Share::Min(3)];
        lemma_two_shares(Share::Length(3), Share::Min(3));
        lemma_more_shares(two, Share::Length(4));
        lemma_more_shares(two.push(Share::Length(4)), Share::Length(2));
        assert(shares@ =~= two.push(Share::Length(4)).push(Share::Length(2)));
        reveal_with_fuel(part_start, 4);
    }
    let parts = split(area, true, &shares);
    (parts[0], parts[1], parts[2], parts[3])
}

// ---------------------------------------------------------------------------
// Heads and feet
// ---------------------------------------------------------------------------

pub open spec fn logo_spans() -> Seq<SpanView> {
    seq![
        SpanView { content: "● "@, style: accent_style() },
        SpanView { content: "signal"@, style: bold_style(primary_style()) },
    ]
}

pub fn logo() -> (spans: Vec<Span>)
    ensures
        span_views(spans@) == logo_spans(),
{
    let mut spans = no_spans();
    push_span(&mut spans, "● ", accent());
    push_span(&mut spans, "signal", bold(primary()));
    assert(span_views(spans@) =~= logo_spans());
    spans
}

/// The status at the foot. Where it says that the terminal is connected, the
/// name of the device is left out.
pub open spec fn status_view(status: Seq<char>) -> Seq<SpanView> {
    if same_ignoring_ascii_case(status, "Connected to Signal CLI"@) || status == "Connected"@ {
        seq![
            SpanView {
                content: "● "@,
                style: Style { fg: Some(Color::Green), bold: false, dim: false },
            },
            SpanView { content: "Connected"@, style: muted_style() },
        ]
    } else {
        one_span(status, muted_style())
    }
}

/// The status at the foot.
pub fn status_spans(status: &str) -> (spans: Vec<Span>)
    ensures
        span_views(spans@) == status_view(status@),
{
    if equal_ignoring_ascii_case(status, "Connected to Signal CLI") || same_text(
        status,
        "Connected",
    ) {
        let mut spans = no_spans();
        push_span(&mut spans, "● ", colored(Color::Green));
        push_span(&mut spans, "Connected", muted());
        assert(span_views(spans@) =~= status_view(status@));
        spans
    } else {
        line(status, muted())
    }
}

fn append(spans: &mut Vec<Span>, more: Vec<Span>)
    ensures
        span_views(final(spans)@) == span_views(old(spans)@) + span_views(more@),
{
    let ghost before = span_views(spans@);
    assert(before + span_views(more@).take(0) =~= before);
    for i in 0..more.len()
        invariant
            span_views(spans@) == before + span_views(more@).take(i as int),
    {
        push_span(spans, more[i].content.as_str(), more[i].style);
        assert(span_views(more@).take(i + 1) =~= span_views(more@).take(i as int).push(
            more@[i as int]@,
        ));
        assert(span_views(spans@) =~= before + span_views(more@).take(i + 1));
    }
    assert(span_views(more@).take(more@.len() as int) =~= span_views(more@));
}

pub open spec fn key_hint(key: Seq<char>, hint: Seq<char>) -> Seq<SpanView> {
    seq![
        SpanView { content: key, style: primary_style() },
        SpanView { content: hint, style: muted_style() },
    ]
}

fn push_hint(spans: &mut Vec<Span>, key: &str, hint: &str)
    ensures
        span_views(final(spans)@) == span_views(old(spans)@) + key_hint(key@, hint@),
{
    let ghost before = span_views(spans@);
    push_span(spans, key, primary());
    push_span(spans, hint, muted());
    assert(span_views(spans@) =~= before + key_hint(key@, hint@));
}

/// The foot of the list of chats.
pub open spec fn list_footer(app: AppView) -> Seq<SpanView> {
    key_hint("type"@, " search   "@) + key_hint("↑↓"@, " move   "@) + key_hint(
        "enter"@,
        " open   "@,
    ) + key_hint("ctrl-s"@, " sync   "@) + key_hint("ctrl-r"@, " refresh   "@) + key_hint(
        "ctrl-d"@,
        " Disconnect   "@,
    ) + key_hint(
        "esc"@,
        if app.search.text.len() == 0 {
            " quit   "@
        } else {
            " clear   "@
        },
    ) + status_view(app.status)
}

/// The foot of the list of chats.
pub fn conversation_footer(app: &App) -> (spans: Vec<Span>)
    ensures
        span_views(spans@) == list_footer(app@),
{
    let mut spans = no_spans();
    push_hint(&mut spans, "type", " search   ");
    assert(span_views(spans@) =~= key_hint("type"@, " search   "@));
    push_hint(&mut spans, "↑↓", " move   ");
    push_hint(&mut spans, "enter", " open   ");
    push_hint(&mut spans, "ctrl-s", " sync   ");
    push_hint(&mut spans, "ctrl-r", " refresh   ");
    push_hint(&mut spans, "ctrl-d", " Disconnect   ");
    push_hint(
        &mut spans,
        "esc",
        if app.search.as_str().is_empty() {
            " quit   "
        } else {
            " clear   "
        },
    );
    append(&mut spans, status_spans(app.status.as_str()));
    spans
}

/// The foot of a chat.
pub open spec fn chat_footer_view(app: AppView, wide: bool) -> Seq<SpanView> {
    key_hint("enter"@, " send   "@) + key_hint(
        "esc"@,
        if wide {
            " sidebar   "@
        } else {
            " chats   "@
        },
    ) + key_hint("pgup/dn"@, " scroll   "@) + key_hint("ctrl-s"@, " sync   "@) + key_hint(
        "ctrl-c"@,
        " quit   "@,
    ) + status_view(app.status)
}

/// The foot of a chat.
pub fn chat_footer(app: &App, wide: bool) -> (spans: Vec<Span>)
    ensures
        span_views(spans@) == chat_footer_view(app@, wide),
{
    let mut spans = no_spans();
    push_hint(&mut spans, "enter", " send   ");
    assert(span_views(spans@) =~= key_hint("enter"@, " send   "@));
    push_hint(
        &mut spans,
        "esc",
        if wide {
            " sidebar   "
        } else {
            " chats   "
        },
    );
    push_hint(&mut spans, "pgup/dn", " scroll   ");
    push_hint(&mut spans, "ctrl-s", " sync   ");
    push_hint(&mut spans, "ctrl-c", " quit   ");
    append(&mut spans, status_spans(app.status.as_str()));
    spans
}

/// The title of the shown chat.
pub open spec fn chat_title(app: AppView) -> Seq<char> {
    match app.opened_conversation() {
        Some(conversation) => conversation.title,
        None => "Signal"@,
    }
}

fn title_of(app: &App) -> (title: &str)
    ensures
        title@ == chat_title(app@),
{
    match app.opened_conversation() {
        Some(conversation) => conversation.title.as_str(),
        None => "Signal",
    }
}

/// The head of a chat.
pub open spec fn chat_header_view(app: AppView, with_logo: bool) -> Seq<SpanView> {
    let title = SpanView { content: chat_title(app), style: muted_style() };
    if with_logo {
        logo_spans().push(SpanView { content: "  "@, style: plain_style() }).push(title)
    } else {
        seq![title]
    }
}

/// The head of a chat.
pub fn chat_header(app: &App, with_logo: bool) -> (spans: Vec<Span>)
    ensures
        span_views(spans@) == chat_header_view(app@, with_logo),
{
    let mut spans = if with_logo {
        logo()
    } else {
        no_spans()
    };
    if with_logo {
        push_span(&mut spans, "  ", plain());
    }
    push_span(&mut spans, title_of(app), muted());
    assert(span_views(spans@) =~= chat_header_view(app@, with_logo));
    spans
}

/// What fills the screen.
#[derive(Debug, Clone, Copy, PartialEq, Eq, Structural)]
pub enum Page {
    /// The question whether to disconnect.
    Confirm,
    /// The list of chats alone.
    List,
    /// A chat alone.
    Chat,
    /// The list of chats beside a chat.
    Both,
}

/// What fills the screen.
pub open spec fn page_view(app: AppView) -> Page {
    if app.screen == Screen::DisconnectConfirm {
        Page::Confirm
    } else if app.layout() == LayoutMode::Wide {
        Page::Both
    } else if app.screen == Screen::Chat {
        Page::Chat
    } else {
        Page::List
    }
}

/// What fills the screen.
pub fn page(app: &App) -> (page: Page)
    ensures
        page == page_view(app@),
{
    match app.screen {
        Screen::DisconnectConfirm => Page::Confirm,
        Screen::Conversations => match app.layout_mode() {
            LayoutMode::Wide => Page::Both,
            LayoutMode::Narrow => Page::List,
        },
        Screen::Chat => match app.layout_mode() {
            LayoutMode::Wide => Page::Both,
            LayoutMode::Narrow => Page::Chat,
        },
    }
}

/// The foot of the screen.
pub open spec fn page_footer(app: AppView) -> Seq<SpanView> {
    match page_view(app) {
        Page::Confirm => warning_footer(),
        Page::List => list_footer(app),
        Page::Chat => chat_footer_view(app, false),
        Page::Both => if app.screen == Screen::Conversations {
            list_footer(app)
        } else {
            chat_footer_view(app, true)
        },
    }
}

/// The foot of the screen.
pub fn footer(app: &App) -> (spans: Vec<Span>)
    ensures
        span_views(spans@) == page_footer(app@),
{
    match page(app) {
        Page::Confirm => disconnect_footer(),
        Page::List => conversation_footer(app),
        Page::Chat => chat_footer(app, false),
        Page::Both => if app.screen == Screen::Conversations {
            conversation_footer(app)
        } else {
            chat_footer(app, true)
        },
    }
}

// ---------------------------------------------------------------------------
// The list of chats
// ---------------------------------------------------------------------------

/// The list of chats: its items, each of some lines, and its frame.
#[derive(Debug, PartialEq, Eq)]
pub struct ChatList {
    pub items: Vec<Vec<Vec<Span>>>,
    /// Whether the frame has a right side.
    pub right_border: bool,
    pub border_style: Style,
    pub padding: u16,
}

pub open spec fn item_views(items: Seq<Vec<Vec<Span>>>) -> Seq<Seq<Seq<SpanView>>> {
    items.map_values(|item: Vec<Vec<Span>>| lines_views(item@))
}

/// The lines of a chat in the list.
pub open spec fn chat_item(chat: ConversationView, selected: bool) -> Seq<Seq<SpanView>> {
    seq![
        seq![
            SpanView {
                content: if selected {
                    "› "@
                } else {
                    "  "@
                },
                style: if selected {
                    accent_style()
                } else {
                    primary_style()
                },
            },
            SpanView {
                content: chat.title,
                style: bold_style(
                    if selected {
                        accent_style()
                    } else {
                        primary_style()
                    },
                ),
            },
        ],
        seq![
            SpanView { content: "  "@, style: plain_style() },
            SpanView { content: chat.subtitle, style: muted_style() },
        ],
        one_span(""@, plain_style()),
    ]
}

/// A hint in place of the list.
pub open spec fn hint_item(first: Seq<char>, second: Seq<char>) -> Seq<Seq<SpanView>> {
    seq![one_span(first, plain_style()), one_span(second, muted_style())]
}

/// The items of the list of chats.
pub open spec fn chat_items(app: AppView) -> Seq<Seq<Seq<SpanView>>> {
    if app.conversations.len() == 0 {
        seq![
            hint_item(
                "No conversations synced yet"@,
                "Keep this open while Signal syncs from your iPhone."@,
            ),
        ]
    } else if app.filtered().len() == 0 {
        seq![
            hint_item(
                "No chats match "@ + debug_text(app.search.text),
                "Press Esc to clear the search."@,
            ),
        ]
    } else {
        app.filtered().map_values(
            |index: int| chat_item(app.conversations[index], index == app.selected),
        )
    }
}

fn push_line(item: &mut Vec<Vec<Span>>, spans: Vec<Span>)
    ensures
        lines_views(final(item)@) == lines_views(old(item)@).push(span_views(spans@)),
{
    let ghost before = item@;
    item.push(spans);
    assert(lines_views(item@) =~= lines_views(before).push(span_views(spans@)));
}

fn no_lines() -> (item: Vec<Vec<Span>>)
    ensures
        lines_views(item@) == Seq::<Seq<SpanView>>::empty(),
{
    let item: Vec<Vec<Span>> = Vec::new();
    assert(lines_views(item@) =~= Seq::<Seq<SpanView>>::empty());
    item
}

fn hint(first: &str, second: &str) -> (item: Vec<Vec<Span>>)
    ensures
        lines_views(item@) == hint_item(first@, second@),
{
    let mut item = no_lines();
    push_line(&mut item, line(first, plain()));
    push_line(&mut item, line(second, muted()));
    assert(lines_views(item@) =~= hint_item(first@, second@));
    item
}

fn list_item(title: &str, subtitle: &str, selected: bool) -> (item: Vec<Vec<Span>>)
    ensures
        forall|chat: ConversationView|
            chat.title == title@ && chat.subtitle == subtitle@ ==> lines_views(item@)
                == #[trigger] chat_item(chat, selected),
{
    let mut first = no_spans();
    push_span(
        &mut first,
        if selected {
            "› "
        } else {
            "  "
        },
        if selected {
            accent()
        } else {
            primary()
        },
    );
    push_span(
        &mut first,
        title,
        bold(
            if selected {
                accent()
            } else {
                primary()
            },
        ),
    );
    let mut second = no_spans();
    push_span(&mut second, "  ", plain());
    push_span(&mut second, subtitle, muted());
    let ghost first_view = span_views(first@);
    let ghost second_view = span_views(second@);
    let mut item = no_lines();
    push_line(&mut item, first);
    push_line(&mut item, second);
    push_line(&mut item, line("", plain()));
    assert forall|chat: ConversationView|
        chat.title == title@ && chat.subtitle == subtitle@ implies lines_views(item@)
        == #[trigger] chat_item(chat, selected) by {
        let wanted = chat_item(chat, selected);
        assert(first_view =~= wanted[0]);
        assert(second_view =~= wanted[1]);
        assert(lines_views(item@) =~= wanted);
    }
    item
}

fn one_item(item: Vec<Vec<Span>>) -> (items: Vec<Vec<Vec<Span>>>)
    ensures
        item_views(items@) == seq![lines_views(item@)],
{
    let mut items: Vec<Vec<Vec<Span>>> = Vec::new();
    items.push(item);
    assert(item_views(items@) =~= seq![lines_views(item@)]);
    items
}

fn list_items(app: &App) -> (items: Vec<Vec<Vec<Span>>>)
    ensures
        item_views(items@) == chat_items(app@),
{
    if app.conversations.len() == 0 {
        return one_item(
            hint(
                "No conversations synced yet",
                "Keep this open while Signal syncs from your iPhone.",
            ),
        );
    }
    let indices = app.filtered_conversation_indices();
    if indices.len() == 0 {
        let mut text: String = "No chats match ".to_owned();
        text.push_str(quoted(app.search.as_str()).as_str());
        return one_item(hint(text.as_str(), "Press Esc to clear the search."));
    }
    let ghost all = app@.filtered();
    proof {
        search_finds_every_match(app@.conversations, app@.search.text);
    }
    let mut items: Vec<Vec<Vec<Span>>> = Vec::new();
    for i in 0..indices.len()
        invariant
            all == app@.filtered(),
            all == ints(indices@),
            forall|j: int| 0 <= j < all.len() ==> 0 <= #[trigger] all[j] < app@.conversations.len(),
            items@.len() == i,
            forall|j: int|
                0 <= j < i ==> lines_views((#[trigger] items@[j])@) == chat_item(
                    app@.conversations[all[j]],
                    all[j] == app@.selected,
                ),
    {
        let index: usize = indices[i];
        assert(all[i as int] == index);
        let chat = &app.conversations[index];
        assert(app@.conversations[index as int] == chat@);
        let item = list_item(chat.title.as_str(), chat.subtitle.as_str(), index == app.selected);
        assert(lines_views(item@) == chat_item(chat@, index == app.selected));
        items.push(item);
    }
    assert(item_views(items@) =~= chat_items(app@));
    items
}

/// The list of chats.
pub fn conversation_list(app: &App, wide: bool, focused: bool) -> (list: ChatList)
    ensures
        item_views(list.items@) == chat_items(app@),
        list.right_border == wide,
        list.border_style == (if focused {
            accent_style()
        } else {
            muted_style()
        }),
        list.padding == if wide {
            1u16
        } else {
            2u16
        },
{
    ChatList {
        items: list_items(app),
        right_border: wide,
        border_style: frame_style(focused),
        padding: if wide {
            1
        } else {
            2
        },
    }
}

/// The style of a frame.
pub fn frame_style(focused: bool) -> (style: Style)
    ensures
        style == (if focused {
            accent_style()
        } else {
            muted_style()
        }),
{
    if focused {
        accent()
    } else {
        muted()
    }
}

/// The list has an item for each match, and marks the selected one and no other.
pub proof fn list_marks_the_selection(app: AppView, place: int)
    requires
        0 <= place < app.filtered().len(),
        app.conversations.len() > 0,
    ensures
        chat_items(app).len() == app.filtered().len(),
        chat_items(app)[place] == chat_item(
            app.conversations[app.filtered()[place]],
            app.filtered()[place] == app.selected,
        ),
{
}

// ---------------------------------------------------------------------------
// The search line
// ---------------------------------------------------------------------------

/// The number of columns that a character takes in a terminal; none for a
/// control character.
pub uninterp spec fn char_columns(c: char) -> Option<nat>;

/// `unicode_width::UnicodeWidthChar::width`. The result is a function of the
/// character alone, and is named `char_columns`; Unicode's tables are not spelled
/// out.
#[verifier::external_body]
fn char_width(c: char) -> (width: Option<usize>)
    ensures
        char_columns(c) == (match width {
            Some(width) => Some(width as nat),
            None => None,
        }),
{
    unicode_width::UnicodeWidthChar::width(c)
}

/// The columns of a character in a line; a control character takes none.
pub open spec fn columns_of_char(c: char) -> nat {
    match char_columns(c) {
        Some(columns) => columns,
        None => 0,
    }
}

fn width_in_line(c: char) -> (width: usize)
    ensures
        width == columns_of_char(c),
{
    match char_width(c) {
        Some(width) => width,
        None => 0,
    }
}

/// The columns of some characters.
pub open spec fn widths_of(s: Seq<char>) -> Seq<nat> {
    s.map_values(|c: char| columns_of_char(c))
}

/// The last characters that fit some columns: the index of the first of them,
/// and the columns that they take.
pub struct Window {
    pub start: int,
    pub width: nat,
}

/// The characters from `from` on fit; this adds those before it that fit too.
pub open spec fn widen(widths: Seq<nat>, available: nat, window: Window) -> Window
    decreases window.start,
{
    if window.start <= 0 || window.width + widths[window.start - 1] > available {
        window
    } else {
        widen(
            widths,
            available,
            Window {
                start: window.start - 1,
                width: window.width + widths[window.start - 1],
            },
        )
    }
}

/// The last characters that fit some columns, given the columns of each.
pub open spec fn last_that_fit(widths: Seq<nat>, available: nat) -> Window {
    widen(widths, available, Window { start: widths.len() as int, width: 0 })
}

pub open spec fn widths_view(widths: Seq<usize>) -> Seq<nat> {
    widths.map_values(|width: usize| width as nat)
}

/// The last characters that fit some columns, given the columns of each: the
/// index of the first of them, and the columns that they take.
pub fn fit_window(widths: &Vec<usize>, available: usize) -> (window: (usize, usize))
    ensures
        (Window { start: window.0 as int, width: window.1 as nat }) == last_that_fit(
            widths_view(widths@),
            available as nat,
        ),
        window.0 <= widths@.len(),
        window.1 <= available,
{
    let ghost views = widths_view(widths@);
    let mut start: usize = widths.len();
    let mut width: usize = 0;
    while start > 0 && widths[start - 1] <= available - width
        invariant
            views == widths_view(widths@),
            start <= widths@.len(),
            width <= available,
            last_that_fit(views, available as nat) == widen(
                views,
                available as nat,
                Window { start: start as int, width: width as nat },
            ),
        decreases start,
    {
        assert(views[start - 1] == widths@[start - 1]);
        width = width + widths[start - 1];
        start = start - 1;
    }
    assert(start > 0 ==> views[start - 1] == widths@[start - 1]);
    (start, width)
}

/// What fits never takes more than the columns that there are.
pub proof fn window_fits(widths: Seq<nat>, available: nat, window: Window)
    requires
        window.width <= available,
        0 <= window.start <= widths.len(),
    ensures
        widen(widths, available, window).width <= available,
        0 <= widen(widths, available, window).start <= window.start,
    decreases window.start,
{
    if window.start > 0 && window.width + widths[window.start - 1] <= available {
        window_fits(
            widths,
            available,
            Window { start: window.start - 1, width: window.width + widths[window.start - 1] },
        );
    }
}

/// The search line: what it shows, and where the cursor stands.
#[derive(Debug, PartialEq, Eq)]
pub struct SearchLine {
    pub spans: Vec<Span>,
    pub cursor: Option<(u16, u16)>,
}

/// The columns of a search line without its frame.
pub open spec fn search_room(area: Rect) -> nat {
    if area.width >= 4 {
        (area.width - 4) as nat
    } else {
        0
    }
}

/// The part of the search that is shown.
pub open spec fn search_window(app: AppView, area: Rect) -> Window {
    last_that_fit(
        widths_of(app.search.text.take(spot(app.search.text, app.search.cursor))),
        search_room(area),
    )
}

/// The right end of an area.
pub open spec fn right_end(area: Rect) -> int {
    if area.x + area.width <= u16::MAX {
        area.x + area.width
    } else {
        u16::MAX as int
    }
}

/// The last column inside the frame of an area.
pub open spec fn last_column(area: Rect) -> int {
    if right_end(area) >= 2 {
        right_end(area) - 2
    } else {
        0
    }
}

/// A cursor `columns` behind the front of a framed line, but not on its frame.
pub open spec fn framed_cursor(area: Rect, columns: int) -> (u16, u16) {
    (
        if area.x + 2 + columns <= last_column(area) {
            (area.x + 2 + columns) as u16
        } else {
            last_column(area) as u16
        },
        (area.y + 1) as u16,
    )
}

fn place_cursor(area: Rect, columns: u16) -> (position: (u16, u16))
    requires
        area.x + 2 + columns <= u16::MAX,
        area.y + 1 <= u16::MAX,
    ensures
        position == framed_cursor(area, columns as int),
{
    let right: u16 = area.x.saturating_add(area.width);
    let last: u16 = right.saturating_sub(2);
    let wanted: u16 = area.x + 2 + columns;
    (
        if wanted <= last {
            wanted
        } else {
            last
        },
        area.y + 1,
    )
}

/// What the search line shows.
pub open spec fn search_spans(app: AppView, area: Rect) -> Seq<SpanView> {
    if app.search.text.len() == 0 {
        one_span("Search chats…"@, muted_style())
    } else {
        one_span(app.search.text.skip(search_window(app, area).start), plain_style())
    }
}

/// Where the cursor of the search stands.
pub open spec fn search_cursor(app: AppView, area: Rect, focused: bool) -> Option<(u16, u16)> {
    if focused {
        Some(framed_cursor(area, search_window(app, area).width as int))
    } else {
        None
    }
}

/// The search line, scrolled so that the cursor is in view.
pub fn render_search(app: &App, area: Rect, focused: bool) -> (search: SearchLine)
    requires
        app@.search.valid(),
        focused ==> area.x + 2 + search_room(area) <= u16::MAX && area.y + 1 <= u16::MAX,
    ensures
        span_views(search.spans@) == search_spans(app@, area),
        search.cursor == search_cursor(app@, area, focused),
{
    let available: u16 = area.width.saturating_sub(4);
    let chars = chars_of(app.search.as_str());
    let at: usize = index_of(&chars, app.search_cursor);
    let ghost front = app@.search.text.take(at as int);
    let mut widths: Vec<usize> = Vec::new();
    for i in 0..at
        invariant
            at <= chars@.len(),
            widths@.len() == i,
            forall|j: int| 0 <= j < i ==> #[trigger] widths@[j] == columns_of_char(chars@[j]),
    {
        widths.push(width_in_line(chars[i]));
    }
    assert(widths_view(widths@) =~= widths_of(front));
    let (start, width) = fit_window(&widths, available as usize);
    let spans = if app.search.as_str().is_empty() {
        line("Search chats…", muted())
    } else {
        let shown = text_between(&chars, start, chars.len());
        assert(shown@ =~= app@.search.text.skip(start as int));
        line(shown.as_str(), plain())
    };
    let cursor = if focused {
        Some(place_cursor(area, width as u16))
    } else {
        None
    };
    SearchLine { spans, cursor }
}

/// Where the cursor of the line to write in stands.
pub open spec fn input_cursor(app: AppView, area: Rect, focused: bool) -> Option<(u16, u16)> {
    if focused && app.opened_conversation() is Some {
        Some(framed_cursor(area, spot(app.input.text, app.input.cursor) % 0x1_0000))
    } else {
        None
    }
}

/// Where the cursor of the line to write in stands. Columns are counted in
/// characters, as far as 16 bits hold them.
pub fn composer_cursor(app: &App, area: Rect, focused: bool) -> (cursor: Option<(u16, u16)>)
    requires
        app@.input.valid(),
        focused && app@.opened_conversation() is Some ==> {
            &&& area.x + 2 + spot(app@.input.text, app@.input.cursor) % 0x1_0000 <= u16::MAX
            &&& area.y + 1 <= u16::MAX
        },
    ensures
        cursor == input_cursor(app@, area, focused),
{
    if focused && app.opened_conversation().is_some() {
        let chars = chars_of(app.input.as_str());
        let at: usize = index_of(&chars, app.cursor);
        let columns: usize = at % 0x1_0000;
        Some(place_cursor(area, columns as u16))
    } else {
        None
    }
}

// ---------------------------------------------------------------------------
// Attachments
// ---------------------------------------------------------------------------

/// The name of a media type, up to its first parameter.
pub open spec fn media_name(content_type: Option<Seq<char>>) -> Seq<char> {
    let value = match content_type {
        Some(value) => trimmed(pieces(value, ';')[0]),
        None => "unknown type"@,
    };
    if value == "application/pdf"@ {
        "PDF"@
    } else if value == "image/jpeg"@ || value == "image/jpg"@ {
        "JPEG"@
    } else if value == "image/png"@ {
        "PNG"@
    } else if value == "image/webp"@ {
        "WebP"@
    } else if value == "image/gif"@ {
        "GIF"@
    } else if value == "video/mp4"@ {
        "MP4 video"@
    } else if value == "video/quicktime"@ {
        "QuickTime video"@
    } else {
        value
    }
}

/// The name of a media type.
pub fn friendly_type(content_type: Option<&str>) -> (name: String)
    ensures
        name@ == media_name(
            match content_type {
                Some(value) => Some(value@),
                None => None,
            },
        ),
{
    let value = match content_type {
        Some(value) => {
            let parts = split_on(value, ';');
            assert(texts(parts@)[0] == parts@[0]@);
            trim(parts[0].as_str())
        },
        None => "unknown type".to_owned(),
    };
    let media = value.as_str();
    if same_text(media, "application/pdf") {
        "PDF".to_owned()
    } else if same_text(media, "image/jpeg") || same_text(media, "image/jpg") {
        "JPEG".to_owned()
    } else if same_text(media, "image/png") {
        "PNG".to_owned()
    } else if same_text(media, "image/webp") {
        "WebP".to_owned()
    } else if same_text(media, "image/gif") {
        "GIF".to_owned()
    } else if same_text(media, "video/mp4") {
        "MP4 video".to_owned()
    } else if same_text(media, "video/quicktime") {
        "QuickTime video".to_owned()
    } else {
        value
    }
}

/// The line below a message that stands for an attachment.
pub open spec fn note_text(attachment: ChatAttachmentView) -> Seq<char> {
    "📎 "@ + attachment.display_name() + " · "@ + media_name(attachment.content_type) + " · "@
        + size_text(attachment.size)
}

fn attachment_note(attachment: &ChatAttachment) -> (spans: Vec<Span>)
    ensures
        span_views(spans@) == one_span(note_text(attachment@), muted_style()),
{
    let mut text: String = "📎 ".to_owned();
    text.push_str(attachment.display_name());
    text.push_str(" · ");
    let content_type = match &attachment.content_type {
        Some(value) => Some(value.as_str()),
        None => None,
    };
    text.push_str(friendly_type(content_type).as_str());
    text.push_str(" · ");
    text.push_str(human_size(attachment.size).as_str());
    line(text.as_str(), muted())
}

/// Why a picture is not shown, in a few words.
pub open spec fn failure_text(error: Seq<char>) -> Seq<char> {
    if has_part(error, "50 MiB"@) {
        "image is larger than 50 MiB"@
    } else if has_part(error, "40 megapixel"@) {
        "image is larger than 40 megapixels"@
    } else if has_part(error, "decode image"@) || has_part(error, "detect image format"@) {
        "unsupported or malformed image"@
    } else {
        "could not load preview"@
    }
}

/// Why a picture is not shown, in a few words.
pub fn image_failure(error: &str) -> (text: &'static str)
    ensures
        text@ == failure_text(error@),
{
    if contains(error, "50 MiB") {
        "image is larger than 50 MiB"
    } else if contains(error, "40 megapixel") {
        "image is larger than 40 megapixels"
    } else if contains(error, "decode image") || contains(error, "detect image format") {
        "unsupported or malformed image"
    } else {
        "could not load preview"
    }
}

/// The most rows that a picture takes.
pub const MAX_IMAGE_ROWS: u16 = 12;

/// The rows of a picture whose size is not known.
pub const UNKNOWN_IMAGE_ROWS: u16 = 8;

/// Twice a number, as far as 16 bits hold it.
pub open spec fn doubled(number: u16) -> int {
    if number <= 32_767 {
        2 * number
    } else {
        65_535
    }
}

fn twice(number: u16) -> (result: u16)
    ensures
        result == doubled(number),
{
    if number <= 32_767 {
        number * 2
    } else {
        65_535
    }
}

/// The columns that a picture may take: two fifths of the width.
pub open spec fn image_columns(width: u16) -> int {
    if doubled(width) / 5 > 1 {
        doubled(width) / 5
    } else {
        1
    }
}

/// A quotient, rounded up.
pub open spec fn quotient_up(numerator: int, denominator: int) -> int {
    if numerator % denominator == 0 {
        numerator / denominator
    } else {
        numerator / denominator + 1
    }
}

/// The rows of a picture that fills its columns and keeps its proportions, in
/// cells of the given size.
pub open spec fn image_rows(
    pixel_width: Option<u32>,
    pixel_height: Option<u32>,
    width: u16,
    cell: (u16, u16),
) -> int {
    match (pixel_width, pixel_height) {
        (Some(pixel_width), Some(pixel_height)) => if pixel_width == 0 || pixel_height == 0 {
            UNKNOWN_IMAGE_ROWS as int
        } else {
            let cell_height = if cell.1 > 0 {
                cell.1 as int
            } else {
                1
            };
            let rows = quotient_up(
                image_columns(width) * pixel_height * cell.0,
                pixel_width * cell_height,
            );
            if rows < 1 {
                1
            } else if rows > MAX_IMAGE_ROWS {
                MAX_IMAGE_ROWS as int
            } else {
                rows
            }
        },
        _ => UNKNOWN_IMAGE_ROWS as int,
    }
}

/// The rows of a picture, in cells of the given size.
pub fn image_height(attachment: &ChatAttachment, width: u16, cell: (u16, u16)) -> (rows: u16)
    ensures
        rows == image_rows(attachment@.width, attachment@.height, width, cell),
        1 <= rows <= MAX_IMAGE_ROWS,
{
    let fifth: u16 = twice(width) / 5;
    let columns: u64 = if fifth > 1 {
        fifth as u64
    } else {
        1
    };
    match (attachment.width, attachment.height) {
        (Some(pixel_width), Some(pixel_height)) => {
            if pixel_width == 0 || pixel_height == 0 {
                return UNKNOWN_IMAGE_ROWS;
            }
            let cell_height: u64 = if cell.1 > 0 {
                cell.1 as u64
            } else {
                1
            };
            assert(columns == image_columns(width));
            assert(0 <= columns * pixel_height <= 13_107 * 0xffff_ffff) by (nonlinear_arith)
                requires
                    0 <= columns <= 13_107,
                    0 <= pixel_height <= 0xffff_ffff,
            ;
            assert(0 <= columns * pixel_height * cell.0 <= 13_107 * 0xffff_ffff * 0xffff)
                by (nonlinear_arith)
                requires
                    0 <= columns * pixel_height <= 13_107 * 0xffff_ffff,
                    0 <= cell.0 <= 0xffff,
            ;
            assert(0 < pixel_width * cell_height <= 0xffff_ffff * 0xffff) by (nonlinear_arith)
                requires
                    0 < pixel_width <= 0xffff_ffff,
                    0 < cell_height <= 0xffff,
            ;
            let numerator: u64 = columns * pixel_height as u64 * cell.0 as u64;
            let denominator: u64 = pixel_width as u64 * cell_height;
            let whole: u64 = numerator / denominator;
            assert(whole <= numerator) by (nonlinear_arith)
                requires
                    whole == numerator / denominator,
                    denominator > 0,
            ;
            let rows: u64 = if numerator % denominator == 0 {
                whole
            } else {
                whole + 1
            };
            if rows < 1 {
                1
            } else if rows > MAX_IMAGE_ROWS as u64 {
                MAX_IMAGE_ROWS
            } else {
                rows as u16
            }
        },
        _ => UNKNOWN_IMAGE_ROWS,
    }
}

// ---------------------------------------------------------------------------
// The elements of a chat
// ---------------------------------------------------------------------------

/// A part of a chat: a line, or a picture of some rows.
#[derive(Debug, PartialEq, Eq)]
pub enum MessageElement {
    Text(Vec<Span>),
    Image { key: String, name: String, height: u16 },
}

pub enum MessageElementView {
    Text(Seq<SpanView>),
    Image { key: Seq<char>, name: Seq<char>, height: u16 },
}

impl View for MessageElement {
    type V = MessageElementView;

    open spec fn view(&self) -> MessageElementView {
        match self {
            MessageElement::Text(spans) => MessageElementView::Text(span_views(spans@)),
            MessageElement::Image { key, name, height } => MessageElementView::Image {
                key: key@,
                name: name@,
                height: *height,
            },
        }
    }
}

impl MessageElementView {
    pub open spec fn height(self) -> u16 {
        match self {
            MessageElementView::Text(_) => 1,
            MessageElementView::Image { height, .. } => height,
        }
    }
}

impl MessageElement {
    pub fn height(&self) -> (rows: u16)
        ensures
            rows == self@.height(),
    {
        match self {
            MessageElement::Text(_) => 1,
            MessageElement::Image { height, .. } => *height,
        }
    }
}

pub open spec fn element_views(elements: Seq<MessageElement>) -> Seq<MessageElementView> {
    elements.map_values(|element: MessageElement| element@)
}

/// The line above a message: who it is from, and when.
pub open spec fn heading(message: ChatMessageView, title: Seq<char>, time: Seq<char>) -> Seq<
    SpanView,
> {
    seq![
        SpanView {
            content: if message.mine {
                "you"@
            } else {
                text_or(message.sender, title)
            },
            style: Style {
                fg: Some(
                    if message.mine {
                        accent_color()
                    } else {
                        Color::Green
                    },
                ),
                bold: true,
                dim: false,
            },
        },
        SpanView { content: "  "@ + time, style: muted_style() },
    ]
}

/// The lines of the text of a message.
pub open spec fn body_elements(message: ChatMessageView, width: nat) -> Seq<MessageElementView> {
    if message.body.len() == 0 || message.kind == MessageKind::Attachment && has_prefix(
        message.body,
        "[attachment"@,
    ) {
        Seq::empty()
    } else {
        wrap(message.body, width).map_values(
            |text: Seq<char>| MessageElementView::Text(one_span(text, plain_style())),
        )
    }
}

/// The most pictures that one message shows.
pub const MAX_INLINE_IMAGES: usize = 3;

/// What stands for a picture that may be shown.
pub open spec fn picture_element(
    attachment: ChatAttachmentView,
    state: AttachmentStateView,
    width: u16,
    cell: (u16, u16),
) -> MessageElementView {
    match state {
        AttachmentStateView::Failed(error) => MessageElementView::Text(
            one_span(
                "Image unavailable: "@ + attachment.display_name() + " · "@ + failure_text(error),
                muted_style(),
            ),
        ),
        _ => MessageElementView::Image {
            key: attachment.key,
            name: attachment.display_name(),
            height: image_rows(attachment.width, attachment.height, width, cell) as u16,
        },
    }
}

/// The elements of the first attachments of a message, and the number of
/// pictures among them.
pub struct AttachmentElements {
    pub elements: Seq<MessageElementView>,
    pub pictures: nat,
}

/// The elements of some attachments. Only the first few that may be shown are
/// shown as pictures, and only in a terminal that can.
pub open spec fn attachment_elements(
    attachments: Seq<ChatAttachmentView>,
    states: Map<Seq<char>, AttachmentStateView>,
    width: u16,
    cell: Option<(u16, u16)>,
) -> AttachmentElements
    decreases attachments.len(),
{
    if attachments.len() == 0 {
        AttachmentElements { elements: Seq::empty(), pictures: 0 }
    } else {
        let before = attachment_elements(attachments.drop_last(), states, width, cell);
        let attachment = attachments.last();
        let note = MessageElementView::Text(one_span(note_text(attachment), muted_style()));
        if cell is Some && attachment.can_preview() && before.pictures < MAX_INLINE_IMAGES {
            AttachmentElements {
                elements: before.elements.push(
                    picture_element(attachment, state_in(states, attachment.key), width, cell->0),
                ).push(note),
                pictures: before.pictures + 1,
            }
        } else {
            AttachmentElements { elements: before.elements.push(note), ..before }
        }
    }
}

/// The elements of a message.
pub open spec fn elements_of(
    message: ChatMessageView,
    states: Map<Seq<char>, AttachmentStateView>,
    title: Seq<char>,
    time: Seq<char>,
    width: u16,
    cell: Option<(u16, u16)>,
) -> Seq<MessageElementView> {
    let columns = if width > 1 {
        width as nat
    } else {
        1
    };
    seq![MessageElementView::Text(heading(message, title, time))] + body_elements(message, columns)
        + attachment_elements(message.attachments, states, width, cell).elements
        + seq![MessageElementView::Text(one_span(""@, plain_style()))]
}

/// The elements of some messages, given the times of day of each.
pub open spec fn all_elements(
    messages: Seq<ChatMessageView>,
    states: Map<Seq<char>, AttachmentStateView>,
    title: Seq<char>,
    times: Seq<Seq<char>>,
    width: u16,
    cell: Option<(u16, u16)>,
) -> Seq<MessageElementView>
    decreases messages.len(),
{
    if messages.len() == 0 {
        Seq::empty()
    } else {
        all_elements(messages.drop_last(), states, title, times, width, cell) + elements_of(
            messages.last(),
            states,
            title,
            times[messages.len() - 1],
            width,
            cell,
        )
    }
}

fn push_element(elements: &mut Vec<MessageElement>, element: MessageElement)
    ensures
        element_views(final(elements)@) == element_views(old(elements)@).push(element@),
{
    let ghost before = elements@;
    elements.push(element);
    assert(element_views(elements@) =~= element_views(before).push(element@));
}

fn push_heading(
    elements: &mut Vec<MessageElement>,
    message: &ChatMessage,
    title: &str,
    time: &str,
)
    ensures
        element_views(final(elements)@) == element_views(old(elements)@).push(
            MessageElementView::Text(heading(message@, title@, time@)),
        ),
{
    let mut spans = no_spans();
    push_span(
        &mut spans,
        if message.mine {
            "you"
        } else {
            str_or(&message.sender, title)
        },
        bold(
            if message.mine {
                accent()
            } else {
                colored(Color::Green)
            },
        ),
    );
    let mut stamp: String = "  ".to_owned();
    stamp.push_str(time);
    push_span(&mut spans, stamp.as_str(), muted());
    assert(span_views(spans@) =~= heading(message@, title@, time@));
    push_element(elements, MessageElement::Text(spans));
}

fn push_body(elements: &mut Vec<MessageElement>, message: &ChatMessage, width: usize)
    ensures
        element_views(final(elements)@) == element_views(old(elements)@) + body_elements(
            message@,
            width as nat,
        ),
{
    let ghost before = element_views(elements@);
    let generic = message.kind == MessageKind::Attachment && starts_with(
        message.body.as_str(),
        "[attachment",
    );
    if message.body.as_str().is_empty() || generic {
        assert(before + body_elements(message@, width as nat) =~= before);
        return;
    }
    let wrapped = wrap_text(message.body.as_str(), width);
    let ghost more = body_elements(message@, width as nat);
    assert(before + more.take(0) =~= before);
    for i in 0..wrapped.len()
        invariant
            more == wrap(message@.body, width as nat).map_values(
                |text: Seq<char>| MessageElementView::Text(one_span(text, plain_style())),
            ),
            texts(wrapped@) == wrap(message@.body, width as nat),
            element_views(elements@) == before + more.take(i as int),
    {
        assert(texts(wrapped@)[i as int] == wrapped@[i as int]@);
        push_element(elements, MessageElement::Text(line(wrapped[i].as_str(), plain())));
        assert(more.take(i + 1) =~= more.take(i as int).push(more[i as int]));
        assert(element_views(elements@) =~= before + more.take(i + 1));
    }
    assert(more.take(more.len() as int) =~= more);
}

fn picture_of(
    attachment: &ChatAttachment,
    state: AttachmentState,
    width: u16,
    cell: (u16, u16),
) -> (element: MessageElement)
    ensures
        element@ == picture_element(attachment@, state@, width, cell),
{
    match state {
        AttachmentState::Failed(error) => {
            let mut text: String = "Image unavailable: ".to_owned();
            text.push_str(attachment.display_name());
            text.push_str(" · ");
            text.push_str(image_failure(error.as_str()));
            MessageElement::Text(line(text.as_str(), muted()))
        },
        _ => MessageElement::Image {
            key: attachment.key.clone(),
            name: attachment.display_name().to_owned(),
            height: image_height(attachment, width, cell),
        },
    }
}

fn push_attachments(
    elements: &mut Vec<MessageElement>,
    app: &App,
    message: &ChatMessage,
    width: u16,
    cell: Option<(u16, u16)>,
)
    ensures
        element_views(final(elements)@) == element_views(old(elements)@) + attachment_elements(
            message@.attachments,
            app@.attachment_states,
            width,
            cell,
        ).elements,
{
    let ghost states = app@.attachment_states;
    let ghost views = message@.attachments;
    let ghost before = element_views(elements@);
    assert(before + attachment_elements(views.take(0), states, width, cell).elements =~= before);
    let mut pictures: usize = 0;
    for i in 0..message.attachments.len()
        invariant
            states == app@.attachment_states,
            views == attachment_views(message.attachments@),
            element_views(elements@) == before + attachment_elements(
                views.take(i as int),
                states,
                width,
                cell,
            ).elements,
            pictures == attachment_elements(views.take(i as int), states, width, cell).pictures,
            pictures <= MAX_INLINE_IMAGES,
    {
        let ghost so_far = attachment_elements(views.take(i as int), states, width, cell);
        let ghost next = attachment_elements(views.take(i + 1), states, width, cell);
        assert(views.take(i + 1).drop_last() =~= views.take(i as int));
        assert(views.take(i + 1).last() == message.attachments@[i as int]@);
        let attachment = &message.attachments[i];
        if let Some(size) = cell {
            if attachment.can_preview() && pictures < MAX_INLINE_IMAGES {
                pictures = pictures + 1;
                let state = app.attachment_state(attachment.key.as_str());
                push_element(elements, picture_of(attachment, state, width, size));
            }
        }
        push_element(elements, MessageElement::Text(attachment_note(attachment)));
        assert(element_views(elements@) =~= before + next.elements);
    }
    assert(views.take(views.len() as int) =~= views);
}

fn push_message(
    elements: &mut Vec<MessageElement>,
    app: &App,
    message: &ChatMessage,
    title: &str,
    time: &str,
    width: u16,
    cell: Option<(u16, u16)>,
)
    ensures
        element_views(final(elements)@) == element_views(old(elements)@) + elements_of(
            message@,
            app@.attachment_states,
            title@,
            time@,
            width,
            cell,
        ),
{
    let ghost before = element_views(elements@);
    let columns: u16 = if width > 1 {
        width
    } else {
        1
    };
    push_heading(elements, message, title, time);
    push_body(elements, message, columns as usize);
    push_attachments(elements, app, message, width, cell);
    push_element(elements, MessageElement::Text(line("", plain())));
    assert(element_views(elements@) =~= before + elements_of(
        message@,
        app@.attachment_states,
        title@,
        time@,
        width,
        cell,
    ));
}

/// The times of day of the messages, in the time zone of the machine.
pub fn message_times(app: &App) -> (times: Vec<String>)
    ensures
        times@.len() == app@.messages.len(),
        forall|i: int|
            0 <= i < times@.len() ==> shows_clock_time(
                app@.messages[i].timestamp,
                (#[trigger] times@[i])@,
            ),
{
    let mut times: Vec<String> = Vec::new();
    for i in 0..app.messages.len()
        invariant
            times@.len() == i,
            forall|j: int|
                0 <= j < i ==> shows_clock_time(
                    app.messages@[j].timestamp,
                    (#[trigger] times@[j])@,
                ),
    {
        times.push(clock_time(app.messages[i].timestamp));
    }
    times
}

/// The elements of the shown chat, given the times of day of its messages, the
/// width, and the size of a cell where the terminal can show pictures.
pub fn message_elements(
    app: &App,
    title: &str,
    times: &Vec<String>,
    width: u16,
    cell: Option<(u16, u16)>,
) -> (elements: Vec<MessageElement>)
    requires
        times@.len() == app@.messages.len(),
    ensures
        element_views(elements@) == all_elements(
            app@.messages,
            app@.attachment_states,
            title@,
            texts(times@),
            width,
            cell,
        ),
{
    let ghost views = app@.messages;
    let ghost states = app@.attachment_states;
    let mut elements: Vec<MessageElement> = Vec::new();
    assert(element_views(elements@) =~= all_elements(
        views.take(0),
        states,
        title@,
        texts(times@),
        width,
        cell,
    ));
    for i in 0..app.messages.len()
        invariant
            times@.len() == app@.messages.len(),
            views == message_views(app.messages@),
            states == app@.attachment_states,
            element_views(elements@) == all_elements(
                views.take(i as int),
                states,
                title@,
                texts(times@),
                width,
                cell,
            ),
    {
        assert(views.take(i + 1).drop_last() =~= views.take(i as int));
        assert(views.take(i + 1).last() == app.messages@[i as int]@);
        assert(texts(times@)[i as int] == times@[i as int]@);
        push_message(
            &mut elements,
            app,
            &app.messages[i],
            title,
            times[i].as_str(),
            width,
            cell,
        );
    }
    assert(views.take(views.len() as int) =~= views);
    elements
}

/// No message shows more than three pictures, and a terminal that cannot show
/// pictures shows none.
pub proof fn pictures_are_few(
    attachments: Seq<ChatAttachmentView>,
    states: Map<Seq<char>, AttachmentStateView>,
    width: u16,
    cell: Option<(u16, u16)>,
)
    ensures
        attachment_elements(attachments, states, width, cell).pictures <= MAX_INLINE_IMAGES,
        cell is None ==> attachment_elements(attachments, states, width, cell).pictures == 0,
        count_images(attachment_elements(attachments, states, width, cell).elements)
            <= attachment_elements(attachments, states, width, cell).pictures,
    decreases attachments.len(),
{
    if attachments.len() > 0 {
        let fewer = attachments.drop_last();
        pictures_are_few(fewer, states, width, cell);
        let before = attachment_elements(fewer, states, width, cell);
        let attachment = attachments.last();
        let note = MessageElementView::Text(one_span(note_text(attachment), muted_style()));
        assert(before.elements.push(note).drop_last() =~= before.elements);
        if cell is Some && attachment.can_preview() && before.pictures < MAX_INLINE_IMAGES {
            let picture = picture_element(
                attachment,
                state_in(states, attachment.key),
                width,
                cell->0,
            );
            let with_picture = before.elements.push(picture);
            assert(with_picture.drop_last() =~= before.elements);
            assert(with_picture.push(note).drop_last() =~= with_picture);
            assert(count_images(with_picture) <= count_images(before.elements) + 1);
            assert(count_images(with_picture.push(note)) == count_images(with_picture));
        } else {
            assert(count_images(before.elements.push(note)) == count_images(before.elements));
        }
    }
}

/// The number of pictures among some elements.
pub open spec fn count_images(elements: Seq<MessageElementView>) -> nat
    decreases elements.len(),
{
    if elements.len() == 0 {
        0
    } else {
        count_images(elements.drop_last()) + if elements.last() is Image {
            1nat
        } else {
            0nat
        }
    }
}

// ---------------------------------------------------------------------------
// The messages on the screen
// ---------------------------------------------------------------------------

pub const NO_CHAT_HINT: &'static str = "Your conversations will appear here after Signal syncs.";

pub const NO_MESSAGES_HINT: &'static str = "No messages yet. Say hello.";

/// What is drawn at one place.
#[derive(Debug, PartialEq, Eq)]
pub enum Drawn {
    Line(Vec<Span>),
    Picture { key: String, picture: Arc<Picture> },
}

#[derive(Debug, PartialEq, Eq)]
pub struct Drawing {
    pub area: Rect,
    pub drawn: Drawn,
}

pub enum DrawnView {
    Line(Seq<SpanView>),
    Picture { key: Seq<char>, picture: PictureView },
}

pub struct DrawingView {
    pub area: Rect,
    pub drawn: DrawnView,
}

impl View for Drawing {
    type V = DrawingView;

    open spec fn view(&self) -> DrawingView {
        DrawingView {
            area: self.area,
            drawn: match self.drawn {
                Drawn::Line(spans) => DrawnView::Line(span_views(spans@)),
                Drawn::Picture { key, picture } => DrawnView::Picture {
                    key: key@,
                    picture: (*picture)@,
                },
            },
        }
    }
}

pub open spec fn drawing_views(drawings: Seq<Drawing>) -> Seq<DrawingView> {
    drawings.map_values(|drawing: Drawing| drawing@)
}

/// What is drawn of a chat, and the keys of the pictures that are in view or
/// close to it.
#[derive(Debug, PartialEq, Eq)]
pub struct Pane {
    pub drawings: Vec<Drawing>,
    pub visible_images: Vec<String>,
}

#[verifier::ext_equal]
pub struct PaneView {
    pub drawings: Seq<DrawingView>,
    pub visible_images: Seq<Seq<char>>,
}

impl View for Pane {
    type V = PaneView;

    open spec fn view(&self) -> PaneView {
        PaneView {
            drawings: drawing_views(self.drawings@),
            visible_images: texts(self.visible_images@),
        }
    }
}

pub open spec fn sum_within(left: int, right: int) -> int {
    if left + right <= u16::MAX {
        left + right
    } else {
        u16::MAX as int
    }
}

pub open spec fn difference_within(left: int, right: int) -> int {
    if left >= right {
        left - right
    } else {
        0
    }
}

/// The columns that stay free on each side of the messages.
pub const MESSAGE_PADDING: u16 = 2;

/// The part of an area below the upper side of its frame, with some columns free
/// on each side.
pub open spec fn below_frame(area: Rect, padding: u16) -> Rect {
    Rect {
        x: sum_within(area.x as int, padding as int) as u16,
        y: if area.height == 0 {
            area.y
        } else {
            sum_within(area.y as int, 1) as u16
        },
        width: difference_within(area.width as int, 2 * padding) as u16,
        height: difference_within(area.height as int, 1) as u16,
    }
}

/// `ratatui::widgets::Block::inner` of a frame that has an upper side only and is
/// padded on the left and on the right: the row of that side and the columns of
/// the padding are left out. The two paddings together have to fit 16 bits.
#[verifier::external_body]
fn inside_frame(area: Rect, padding: u16) -> (inside: Rect)
    requires
        2 * padding <= u16::MAX,
    ensures
        inside == below_frame(area, padding),
{
    let Rect { x, y, width, height } = area;
    let area = ratatui::layout::Rect { x, y, width, height };
    let block = ratatui::widgets::Block::new()
        .borders(ratatui::widgets::Borders::TOP)
        .padding(ratatui::widgets::Padding::horizontal(padding));
    let ratatui::layout::Rect { x, y, width, height } = block.inner(area);
    Rect { x, y, width, height }
}

/// The area of the messages inside their frame.
pub fn message_area(area: Rect) -> (content: Rect)
    ensures
        content == below_frame(area, MESSAGE_PADDING),
        on_screen(area) && area.width >= 2 * MESSAGE_PADDING ==> on_screen(content),
{
    inside_frame(area, MESSAGE_PADDING)
}

/// The row where an element starts, counted from the first element.
pub open spec fn top_of(elements: Seq<MessageElementView>, index: int) -> int
    decreases index,
{
    if index <= 0 {
        0
    } else {
        sum_within(top_of(elements, index - 1), elements[index - 1].height() as int)
    }
}

/// The first row in view: the last ones, scrolled up as far as there are any.
pub open spec fn first_row(elements: Seq<MessageElementView>, scroll: u16, height: u16) -> int {
    let bottom = difference_within(top_of(elements, elements.len() as int), height as int);
    difference_within(
        bottom,
        if scroll < bottom {
            scroll as int
        } else {
            bottom
        },
    )
}

/// Whether an element is in view.
pub open spec fn in_view(top: int, end: int, start: int, height: u16) -> bool {
    end > start && top < sum_within(start, height as int)
}

/// Whether a picture is in view or at most one screen away from it.
pub open spec fn nearly_in_view(top: int, end: int, start: int, height: u16) -> bool {
    end > difference_within(start, height as int) && top < sum_within(start, doubled(height))
}

/// The rows of an element above the view, and those below it.
pub open spec fn rows_above(top: int, start: int) -> int {
    difference_within(start, top)
}

pub open spec fn rows_below(end: int, start: int, height: u16) -> int {
    difference_within(end, sum_within(start, height as int))
}

/// Where an element that is in view is drawn.
pub open spec fn element_area(
    element: MessageElementView,
    top: int,
    end: int,
    start: int,
    content: Rect,
) -> Rect {
    Rect {
        x: content.x,
        y: sum_within(content.y as int, difference_within(top, start)) as u16,
        width: content.width,
        height: difference_within(
            difference_within(element.height() as int, rows_above(top, start)),
            rows_below(end, start, content.height),
        ) as u16,
    }
}

/// What is drawn of an element that is in view. A picture is drawn as a whole or
/// not at all.
pub open spec fn drawing_of(
    element: MessageElementView,
    states: Map<Seq<char>, AttachmentStateView>,
    top: int,
    end: int,
    start: int,
    content: Rect,
) -> Option<DrawingView> {
    let area = element_area(element, top, end, start, content);
    match element {
        MessageElementView::Text(spans) => Some(
            DrawingView { area, drawn: DrawnView::Line(spans) },
        ),
        MessageElementView::Image { key, name, height } => if rows_above(top, start) > 0
            || rows_below(end, start, content.height) > 0 {
            Some(
                DrawingView {
                    area,
                    drawn: DrawnView::Line(one_span("[image continues…]"@, muted_style())),
                },
            )
        } else {
            match state_in(states, key) {
                AttachmentStateView::Ready(picture) => Some(
                    DrawingView {
                        area: Rect { width: (doubled(content.width) / 5) as u16, height, ..area },
                        drawn: DrawnView::Picture { key, picture },
                    },
                ),
                AttachmentStateView::Failed(_) => None,
                _ => Some(
                    DrawingView {
                        area,
                        drawn: DrawnView::Line(
                            one_span("Loading "@ + name + "…"@, muted_style()),
                        ),
                    },
                ),
            }
        },
    }
}

/// What is drawn of the first `count` elements.
pub open spec fn pane_of(
    elements: Seq<MessageElementView>,
    states: Map<Seq<char>, AttachmentStateView>,
    start: int,
    content: Rect,
    count: int,
) -> PaneView
    decreases count,
{
    if count <= 0 {
        PaneView { drawings: Seq::empty(), visible_images: Seq::empty() }
    } else {
        let before = pane_of(elements, states, start, content, count - 1);
        let element = elements[count - 1];
        let top = top_of(elements, count - 1);
        let end = top_of(elements, count);
        PaneView {
            drawings: match drawing_of(element, states, top, end, start, content) {
                Some(drawing) => if in_view(top, end, start, content.height) {
                    before.drawings.push(drawing)
                } else {
                    before.drawings
                },
                None => before.drawings,
            },
            visible_images: match element {
                MessageElementView::Image { key, .. } => if nearly_in_view(
                    top,
                    end,
                    start,
                    content.height,
                ) {
                    before.visible_images.push(key)
                } else {
                    before.visible_images
                },
                MessageElementView::Text(_) => before.visible_images,
            },
        }
    }
}

/// What is drawn of a chat with these elements.
pub open spec fn chat_pane(
    elements: Seq<MessageElementView>,
    states: Map<Seq<char>, AttachmentStateView>,
    scroll: u16,
    content: Rect,
) -> PaneView {
    pane_of(
        elements,
        states,
        first_row(elements, scroll, content.height),
        content,
        elements.len() as int,
    )
}

proof fn lemma_top_within(elements: Seq<MessageElementView>, index: int)
    ensures
        0 <= top_of(elements, index) <= u16::MAX,
    decreases index,
{
    if index > 0 {
        lemma_top_within(elements, index - 1);
    }
}

fn copy_spans(spans: &Vec<Span>) -> (copy: Vec<Span>)
    ensures
        span_views(copy@) == span_views(spans@),
{
    let mut copy = no_spans();
    for i in 0..spans.len()
        invariant
            span_views(copy@) == span_views(spans@).take(i as int),
    {
        push_span(&mut copy, spans[i].content.as_str(), spans[i].style);
        assert(span_views(spans@).take(i + 1) =~= span_views(spans@).take(i as int).push(
            spans@[i as int]@,
        ));
    }
    assert(span_views(spans@).take(spans@.len() as int) =~= span_views(spans@));
    copy
}

fn total_height(elements: &Vec<MessageElement>) -> (total: u16)
    ensures
        total == top_of(element_views(elements@), elements@.len() as int),
{
    let ghost views = element_views(elements@);
    let mut total: u16 = 0;
    for i in 0..elements.len()
        invariant
            views == element_views(elements@),
            total == top_of(views, i as int),
    {
        assert(views[i as int] == elements@[i as int]@);
        total = total.saturating_add(elements[i].height());
    }
    total
}

fn draw_element(
    element: &MessageElement,
    app: &App,
    top: u16,
    end: u16,
    start: u16,
    content: Rect,
) -> (drawing: Option<Drawing>)
    ensures
        drawing_of(
            element@,
            app@.attachment_states,
            top as int,
            end as int,
            start as int,
            content,
        ) == (match drawing {
            Some(drawing) => Some(drawing@),
            None => None,
        }),
{
    let above: u16 = start.saturating_sub(top);
    let below: u16 = end.saturating_sub(start.saturating_add(content.height));
    let height: u16 = element.height();
    let area = Rect {
        x: content.x,
        y: content.y.saturating_add(top.saturating_sub(start)),
        width: content.width,
        height: height.saturating_sub(above).saturating_sub(below),
    };
    assert(area == element_area(element@, top as int, end as int, start as int, content));
    match element {
        MessageElement::Text(spans) => Some(
            Drawing { area, drawn: Drawn::Line(copy_spans(spans)) },
        ),
        MessageElement::Image { key, name, height } => {
            if above > 0 || below > 0 {
                return Some(
                    Drawing { area, drawn: Drawn::Line(line("[image continues…]", muted())) },
                );
            }
            match app.attachment_state(key.as_str()) {
                AttachmentState::Ready(picture) => Some(
                    Drawing {
                        area: Rect {
                            x: area.x,
                            y: area.y,
                            width: twice(content.width) / 5,
                            height: *height,
                        },
                        drawn: Drawn::Picture { key: key.clone(), picture },
                    },
                ),
                AttachmentState::Failed(_) => None,
                _ => {
                    let mut text: String = "Loading ".to_owned();
                    text.push_str(name.as_str());
                    text.push_str("…");
                    Some(Drawing { area, drawn: Drawn::Line(line(text.as_str(), muted())) })
                },
            }
        },
    }
}

/// What is drawn of the shown chat, given its elements and the area inside its
/// frame.
pub fn render_elements(app: &App, elements: &Vec<MessageElement>, content: Rect) -> (pane: Pane)
    ensures
        pane@ == chat_pane(
            element_views(elements@),
            app@.attachment_states,
            app@.scroll,
            content,
        ),
{
    let ghost views = element_views(elements@);
    let ghost states = app@.attachment_states;
    let bottom: u16 = total_height(elements).saturating_sub(content.height);
    let start: u16 = bottom.saturating_sub(
        if app.scroll < bottom {
            app.scroll
        } else {
            bottom
        },
    );
    assert(start == first_row(views, app@.scroll, content.height));
    let prefetch_start: u16 = start.saturating_sub(content.height);
    let prefetch_end: u16 = start.saturating_add(twice(content.height));
    let view_end: u16 = start.saturating_add(content.height);
    let mut drawings: Vec<Drawing> = Vec::new();
    let mut visible_images: Vec<String> = Vec::new();
    assert(drawing_views(drawings@) =~= Seq::<DrawingView>::empty());
    assert(texts(visible_images@) =~= Seq::<Seq<char>>::empty());
    let mut top: u16 = 0;
    for i in 0..elements.len()
        invariant
            views == element_views(elements@),
            states == app@.attachment_states,
            top == top_of(views, i as int),
            prefetch_start == difference_within(start as int, content.height as int),
            prefetch_end == sum_within(start as int, doubled(content.height)),
            view_end == sum_within(start as int, content.height as int),
            drawing_views(drawings@) == pane_of(
                views,
                states,
                start as int,
                content,
                i as int,
            ).drawings,
            texts(visible_images@) == pane_of(
                views,
                states,
                start as int,
                content,
                i as int,
            ).visible_images,
    {
        let element = &elements[i];
        assert(views[i as int] == element@);
        let end: u16 = top.saturating_add(element.height());
        assert(end == top_of(views, i + 1));
        if let MessageElement::Image { key, .. } = element {
            if end > prefetch_start && top < prefetch_end {
                let copy = key.clone();
                proof {
                    lemma_texts_push(visible_images@, copy);
                }
                visible_images.push(copy);
            }
        }
        if end > start && top < view_end {
            if let Some(drawing) = draw_element(element, app, top, end, start, content) {
                let ghost before = drawings@;
                drawings.push(drawing);
                assert(drawing_views(drawings@) =~= drawing_views(before).push(drawing@));
            }
        }
        top = end;
    }
    Pane { drawings, visible_images }
}

/// What is drawn in place of, or of, the messages.
#[derive(Debug, PartialEq, Eq)]
pub enum MessagesPane {
    /// No chat is shown.
    NoChat,
    /// The shown chat has no messages.
    NoMessages,
    Messages(Pane),
}

/// What is drawn of the shown chat: a hint where there is none or it is empty,
/// else its messages. The times of day are those of its messages; `content` is
/// the area inside the frame, and `cell` the size of a cell where the terminal
/// can show pictures.
pub fn render_messages(
    app: &App,
    times: &Vec<String>,
    content: Rect,
    cell: Option<(u16, u16)>,
) -> (pane: MessagesPane)
    requires
        times@.len() == app@.messages.len(),
    ensures
        match pane {
            MessagesPane::NoChat => app@.opened_conversation() is None,
            MessagesPane::NoMessages => app@.opened_conversation() is Some && app@.messages.len()
                == 0,
            MessagesPane::Messages(pane) => {
                &&& app@.opened_conversation() is Some
                &&& app@.messages.len() > 0
                &&& pane@ == chat_pane(
                    all_elements(
                        app@.messages,
                        app@.attachment_states,
                        chat_title(app@),
                        texts(times@),
                        content.width,
                        cell,
                    ),
                    app@.attachment_states,
                    app@.scroll,
                    content,
                )
            },
        },
{
    if app.opened_conversation().is_none() {
        return MessagesPane::NoChat;
    }
    if app.messages.len() == 0 {
        return MessagesPane::NoMessages;
    }
    let elements = message_elements(app, title_of(app), times, content.width, cell);
    MessagesPane::Messages(render_elements(app, &elements, content))
}

// ---------------------------------------------------------------------------
// Laws of the messages on the screen
// ---------------------------------------------------------------------------

/// The rows of all elements together.
pub open spec fn all_rows(elements: Seq<MessageElementView>, count: int) -> int
    decreases count,
{
    if count <= 0 {
        0
    } else {
        all_rows(elements, count - 1) + elements[count - 1].height()
    }
}

proof fn lemma_rows(elements: Seq<MessageElementView>, count: int, end: int)
    requires
        0 <= count <= end <= elements.len(),
        all_rows(elements, end) <= u16::MAX,
    ensures
        top_of(elements, count) == all_rows(elements, count),
        0 <= all_rows(elements, count) <= all_rows(elements, end),
    decreases end,
{
    if end > 0 {
        if count < end {
            lemma_rows(elements, count, end - 1);
        } else {
            lemma_rows(elements, count - 1, end - 1);
        }
    }
}

/// Every drawing lies inside the area of the messages, as long as the chat has
/// no more rows than 16 bits count.
pub proof fn drawings_stay_inside(
    elements: Seq<MessageElementView>,
    states: Map<Seq<char>, AttachmentStateView>,
    scroll: u16,
    content: Rect,
    count: int,
)
    requires
        0 <= count <= elements.len(),
        all_rows(elements, elements.len() as int) <= u16::MAX,
        on_screen(content),
    ensures
        ({
            let pane = pane_of(
                elements,
                states,
                first_row(elements, scroll, content.height),
                content,
                count,
            );
            forall|i: int|
                0 <= i < pane.drawings.len() ==> {
                    let area = (#[trigger] pane.drawings[i]).area;
                    &&& content.x == area.x
                    &&& area.width <= content.width
                    &&& content.y <= area.y
                    &&& area.y + area.height <= content.y + content.height
                }
        }),
    decreases count,
{
    if count > 0 {
        let start = first_row(elements, scroll, content.height);
        drawings_stay_inside(elements, states, scroll, content, count - 1);
        lemma_rows(elements, count - 1, elements.len() as int);
        lemma_rows(elements, count, elements.len() as int);
        lemma_rows(elements, elements.len() as int, elements.len() as int);
        let before = pane_of(elements, states, start, content, count - 1);
        let pane = pane_of(elements, states, start, content, count);
        assert forall|i: int| 0 <= i < pane.drawings.len() implies {
            let area = (#[trigger] pane.drawings[i]).area;
            &&& content.x == area.x
            &&& area.width <= content.width
            &&& content.y <= area.y
            &&& area.y + area.height <= content.y + content.height
        } by {
            if i < before.drawings.len() {
                assert(pane.drawings[i] == before.drawings[i]);
            }
        }
    }
}

/// Unscrolled, a chat that fills the area ends at its bottom, and one that does
/// not starts at its top.
pub proof fn newest_rows_are_shown(elements: Seq<MessageElementView>, height: u16)
    requires
        all_rows(elements, elements.len() as int) <= u16::MAX,
    ensures
        all_rows(elements, elements.len() as int) >= height ==> first_row(elements, 0, height)
            + height == all_rows(elements, elements.len() as int),
        all_rows(elements, elements.len() as int) < height ==> first_row(elements, 0, height) == 0,
{
    lemma_rows(elements, elements.len() as int, elements.len() as int);
}

/// Every picture that is drawn is among those to load.
pub proof fn drawn_pictures_are_requested(
    elements: Seq<MessageElementView>,
    states: Map<Seq<char>, AttachmentStateView>,
    start: int,
    content: Rect,
    count: int,
)
    requires
        0 <= count <= elements.len(),
        0 <= start,
    ensures
        ({
            let pane = pane_of(elements, states, start, content, count);
            forall|i: int|
                0 <= i < pane.drawings.len() ==> (#[trigger] pane.drawings[i].drawn matches
                    DrawnView::Picture { key, .. } ==> pane.visible_images.contains(key))
        }),
    decreases count,
{
    if count > 0 {
        drawn_pictures_are_requested(elements, states, start, content, count - 1);
        let before = pane_of(elements, states, start, content, count - 1);
        let pane = pane_of(elements, states, start, content, count);
        let last = pane.visible_images.len() - 1;
        assert forall|i: int| 0 <= i < pane.drawings.len() implies (
        #[trigger] pane.drawings[i].drawn matches DrawnView::Picture {
            key,
            ..
        } ==> pane.visible_images.contains(key)) by {
            if let DrawnView::Picture { key, .. } = pane.drawings[i].drawn {
                if i < before.drawings.len() {
                    assert(pane.drawings[i] == before.drawings[i]);
                    assert(before.drawings[i].drawn matches DrawnView::Picture { .. });
                    let j = choose|j: int|
                        0 <= j < before.visible_images.len() && before.visible_images[j] == key;
                    assert(pane.visible_images[j] == key);
                } else {
                    assert(pane.visible_images[last] == key);
                }
            }
        }
    }
}

// ---------------------------------------------------------------------------
// The question whether to disconnect
// ---------------------------------------------------------------------------

pub open spec fn warning_lines() -> Seq<Seq<SpanView>> {
    seq![
        one_span("Disconnect Signal CLI?"@, bold_style(primary_style())),
        one_span(""@, plain_style()),
        one_span(
            "This removes local credentials, sessions, contacts, groups, and messages."@,
            muted_style(),
        ),
        one_span(
            "Afterward, also remove “Signal CLI” on your iPhone under Settings → Linked Devices."@,
            muted_style(),
        ),
    ]
}

/// The question whether to disconnect.
pub fn disconnect_warning() -> (lines: Vec<Vec<Span>>)
    ensures
        lines_views(lines@) == warning_lines(),
{
    let mut lines = no_lines();
    push_line(&mut lines, line("Disconnect Signal CLI?", bold(primary())));
    push_line(&mut lines, line("", plain()));
    push_line(
        &mut lines,
        line("This removes local credentials, sessions, contacts, groups, and messages.", muted()),
    );
    push_line(
        &mut lines,
        line(
            "Afterward, also remove “Signal CLI” on your iPhone under Settings → Linked Devices.",
            muted(),
        ),
    );
    assert(lines_views(lines@) =~= warning_lines());
    lines
}

pub open spec fn warning_footer() -> Seq<SpanView> {
    seq![
        SpanView {
            content: "ctrl-y"@,
            style: Style { fg: Some(Color::Red), bold: false, dim: false },
        },
        SpanView { content: " Disconnect and erase local data   "@, style: muted_style() },
        SpanView { content: "esc/ctrl-n"@, style: primary_style() },
        SpanView { content: " Cancel"@, style: muted_style() },
    ]
}

/// The foot below the question whether to disconnect.
pub fn disconnect_footer() -> (spans: Vec<Span>)
    ensures
        span_views(spans@) == warning_footer(),
{
    let mut spans = no_spans();
    push_span(&mut spans, "ctrl-y", colored(Color::Red));
    push_span(&mut spans, " Disconnect and erase local data   ", muted());
    push_span(&mut spans, "esc/ctrl-n", primary());
    push_span(&mut spans, " Cancel", muted());
    assert(span_views(spans@) =~= warning_footer());
    spans
}

// ---------------------------------------------------------------------------
// What stands over a message
// ---------------------------------------------------------------------------

/// The first line of a message names who wrote it: "you" for one's own message,
/// whatever the sender and the chat are called; the sender where there is one;
/// the chat where there is none. The time follows after two blanks. The last
/// line is blank.
pub proof fn messages_are_headed_by_their_sender(
    message: ChatMessageView,
    states: Map<Seq<char>, AttachmentStateView>,
    title: Seq<char>,
    time: Seq<char>,
    width: u16,
    cell: Option<(u16, u16)>,
)
    ensures
        ({
            let elements = elements_of(message, states, title, time, width, cell);
            &&& elements.len() >= 2
            &&& elements[0] matches MessageElementView::Text(line) && {
                &&& line.len() == 2
                &&& message.mine ==> line[0].content == seq!['y', 'o', 'u']
                &&& !message.mine && message.sender is Some ==> line[0].content
                    == message.sender->0
                &&& !message.mine && message.sender is None ==> line[0].content == title
                &&& line[1].content == seq![' ', ' '] + time
                &&& line[0].style.bold
                &&& message.mine ==> line[0].style.fg == Some(Color::Rgb(70, 130, 255))
                &&& !message.mine ==> line[0].style.fg == Some(Color::Green)
            }
            &&& elements.last() matches MessageElementView::Text(line) && line.len() == 1
                && line[0].content.len() == 0
        }),
{
    reveal_strlit("you");
    reveal_strlit("  ");
    reveal_strlit("");
    assert("you"@ =~= seq!['y', 'o', 'u']);
    assert("  "@ =~= seq![' ', ' ']);
}

/// A chat shows its messages one after the other, each as a whole: the elements
/// of a message stand right behind those of the messages before it.
pub proof fn messages_follow_each_other(
    messages: Seq<ChatMessageView>,
    states: Map<Seq<char>, AttachmentStateView>,
    title: Seq<char>,
    times: Seq<Seq<char>>,
    width: u16,
    cell: Option<(u16, u16)>,
    index: int,
)
    requires
        0 <= index < messages.len(),
    ensures
        ({
            let all = all_elements(messages, states, title, times, width, cell);
            let start = all_elements(
                messages.take(index),
                states,
                title,
                times,
                width,
                cell,
            ).len() as int;
            let own = elements_of(messages[index], states, title, times[index], width, cell);
            &&& 0 <= start
            &&& start + own.len() <= all.len()
            &&& all.subrange(start, start + own.len()) == own
            &&& index == 0 ==> start == 0
            &&& index + 1 == messages.len() ==> start + own.len() == all.len()
            &&& index + 1 < messages.len() ==> start + own.len() == all_elements(
                messages.take(index + 1),
                states,
                title,
                times,
                width,
                cell,
            ).len()
        }),
    decreases messages.len(),
{
    let all = all_elements(messages, states, title, times, width, cell);
    let fewer = messages.drop_last();
    let before = all_elements(fewer, states, title, times, width, cell);
    let own = elements_of(messages[index], states, title, times[index], width, cell);
    assert(messages.take(index + 1).drop_last() =~= messages.take(index));
    assert(messages.take(index + 1).last() == messages[index]);
    if index + 1 == messages.len() {
        assert(messages.take(index) =~= fewer);
        assert(all.subrange(before.len() as int, (before.len() + own.len()) as int) =~= own);
    } else {
        messages_follow_each_other(fewer, states, title, times, width, cell, index);
        assert(fewer.take(index) =~= messages.take(index));
        let start = all_elements(messages.take(index), states, title, times, width, cell).len() as int;
        assert(all.subrange(start, start + own.len()) =~= before.subrange(
            start,
            start + own.len(),
        ));
    }
}

// ---------------------------------------------------------------------------
// What is shown where
// ---------------------------------------------------------------------------

/// The status is shown as it is; that the connection stands is shown by a green
/// dot, however it is worded.
pub proof fn status_is_shown(status: Seq<char>)
    ensures
        ({
            let connected = status == "Connected"@ || same_ignoring_ascii_case(
                status,
                "Connected to Signal CLI"@,
            );
            let shown = status_view(status);
            &&& !connected ==> shown.len() == 1 && shown[0].content == status
                && shown[0].style.dim
            &&& connected ==> shown.len() == 2 && shown[0].content == "● "@ && shown[0].style.fg
                == Some(Color::Green) && shown[1].content == "Connected"@
        }),
{
}

/// The last line of the list tells its keys, and ends with the status. Escape
/// quits where nothing is searched for, and clears the search otherwise.
pub proof fn list_tells_its_keys(app: AppView)
    ensures
        ({
            let line = list_footer(app);
            let keys = seq!["type"@, "↑↓"@, "enter"@, "ctrl-s"@, "ctrl-r"@, "ctrl-d"@, "esc"@];
            let hints = seq![
                " search   "@,
                " move   "@,
                " open   "@,
                " sync   "@,
                " refresh   "@,
                " Disconnect   "@,
            ];
            &&& line.len() == 14 + status_view(app.status).len()
            &&& forall|i: int| 0 <= i < 7 ==> (#[trigger] line[2 * i]).content == keys[i]
            &&& forall|i: int| 0 <= i < 6 ==> (#[trigger] line[2 * i + 1]).content == hints[i]
            &&& app.search.text.len() == 0 ==> line[13].content == " quit   "@
            &&& app.search.text.len() > 0 ==> line[13].content == " clear   "@
            &&& line.skip(14) == status_view(app.status)
        }),
{
    let line = list_footer(app);
    assert(line.skip(14) =~= status_view(app.status));
    assert(line[0].content == "type"@ && line[1].content == " search   "@);
    assert(line[2].content == "↑↓"@ && line[3].content == " move   "@);
    assert(line[4].content == "enter"@ && line[5].content == " open   "@);
    assert(line[6].content == "ctrl-s"@ && line[7].content == " sync   "@);
    assert(line[8].content == "ctrl-r"@ && line[9].content == " refresh   "@);
    assert(line[10].content == "ctrl-d"@ && line[11].content == " Disconnect   "@);
    assert(line[12].content == "esc"@);
}

/// The last line of a chat tells its keys, and ends with the status. Escape goes
/// to the list, which a wide terminal shows beside the chat.
pub proof fn chat_tells_its_keys(app: AppView, wide: bool)
    ensures
        ({
            let line = chat_footer_view(app, wide);
            &&& line.len() == 10 + status_view(app.status).len()
            &&& line[0].content == "enter"@ && line[1].content == " send   "@
            &&& line[2].content == "esc"@
            &&& wide ==> line[3].content == " sidebar   "@
            &&& !wide ==> line[3].content == " chats   "@
            &&& line[4].content == "pgup/dn"@ && line[5].content == " scroll   "@
            &&& line[6].content == "ctrl-s"@ && line[7].content == " sync   "@
            &&& line[8].content == "ctrl-c"@ && line[9].content == " quit   "@
            &&& line.skip(10) == status_view(app.status)
        }),
{
    assert(chat_footer_view(app, wide).skip(10) =~= status_view(app.status));
}

/// The header of a chat is its title, behind the logo where there is room for
/// it; without a chat it is the name of the service.
pub proof fn header_is_the_title(app: AppView, index: int)
    requires
        0 <= index < app.conversations.len(),
        app.opened == Some(app.conversations[index].id),
        forall|other: int|
            0 <= other < index ==> (#[trigger] app.conversations[other]).id
                != app.conversations[index].id,
    ensures
        chat_header_view(app, false).len() == 1,
        chat_header_view(app, false)[0].content == app.conversations[index].title,
        chat_header_view(app, true).len() == 4,
        chat_header_view(app, true)[0].content == "● "@,
        chat_header_view(app, true)[1].content == "signal"@,
        chat_header_view(app, true)[3].content == app.conversations[index].title,
        chat_title(AppView { opened: None, ..app }) == "Signal"@,
{
    crate::app::lemma_first_with_id(app.conversations, index, 0);
}

/// The question about disconnecting takes the whole screen. Otherwise a wide
/// terminal shows the list and the chat, and a narrow one the one that is in
/// front. The last line is that of what is in front.
pub proof fn pages_follow_the_screen(app: AppView)
    ensures
        app.screen == Screen::DisconnectConfirm <==> page_view(app) is Confirm,
        app.screen != Screen::DisconnectConfirm && app.terminal_width >= 120 <==> page_view(
            app,
        ) is Both,
        app.screen == Screen::Chat && app.terminal_width < 120 <==> page_view(app) is Chat,
        app.screen == Screen::Conversations && app.terminal_width < 120 <==> page_view(app) is List,
        app.screen == Screen::Conversations ==> page_footer(app) == list_footer(app),
        app.screen == Screen::Chat ==> page_footer(app) == chat_footer_view(
            app,
            app.terminal_width >= 120,
        ),
        app.screen == Screen::DisconnectConfirm ==> page_footer(app) == warning_footer(),
{
}

/// The list shows one entry for each conversation that matches, in the order of
/// the list: its title, bold, behind a mark where it is selected and blanks where
/// it is not; below it its subtitle; and then an empty line.
pub proof fn entries_show_title_and_subtitle(app: AppView, place: int)
    requires
        0 <= place < app.filtered().len(),
        app.conversations.len() > 0,
    ensures
        chat_items(app).len() == app.filtered().len(),
        ({
            let index = app.filtered()[place];
            let chat = app.conversations[index];
            let entry = chat_items(app)[place];
            &&& entry.len() == 3
            &&& entry[0].len() == 2
            &&& index == app.selected ==> entry[0][0].content == "› "@
            &&& index != app.selected ==> entry[0][0].content == "  "@
            &&& entry[0][1].content == chat.title
            &&& entry[0][1].style.bold
            &&& index == app.selected <==> entry[0][1].style.fg == Some(Color::Rgb(70, 130, 255))
            &&& entry[1].len() == 2
            &&& entry[1][0].content == "  "@
            &&& entry[1][1].content == chat.subtitle
            &&& entry[2].len() == 1
            &&& entry[2][0].content.len() == 0
        }),
{
    reveal_strlit("");
}

/// A list without entries says why: nothing was synchronized yet, or nothing
/// matches the search.
pub proof fn empty_lists_say_why(app: AppView)
    requires
        app.filtered().len() == 0,
    ensures
        ({
            let entry = chat_items(app)[0];
            &&& chat_items(app).len() == 1
            &&& entry.len() == 2
            &&& app.conversations.len() == 0 ==> entry[0][0].content
                == "No conversations synced yet"@ && entry[1][0].content
                == "Keep this open while Signal syncs from your iPhone."@
            &&& app.conversations.len() > 0 ==> entry[0][0].content == "No chats match "@
                + debug_text(app.search.text) && entry[1][0].content
                == "Press Esc to clear the search."@
        }),
{
}

/// The search shows the end of what stands before the cursor: as many characters
/// as fit, and one more would not.
pub proof fn search_shows_as_much_as_fits(widths: Seq<nat>, available: nat)
    ensures
        ({
            let window = last_that_fit(widths, available);
            &&& 0 <= window.start <= widths.len()
            &&& window.width <= available
            &&& window.width == sum(widths.skip(window.start))
            &&& window.start > 0 ==> sum(widths.skip(window.start - 1)) > available
        }),
{
    assert(widths.skip(widths.len() as int) =~= Seq::<nat>::empty());
    lemma_widen(widths, available, Window { start: widths.len() as int, width: 0 });
}

/// The sum of some widths.
pub open spec fn sum(widths: Seq<nat>) -> nat
    decreases widths.len(),
{
    if widths.len() == 0 {
        0
    } else {
        widths[0] + sum(widths.drop_first())
    }
}

proof fn lemma_widen(widths: Seq<nat>, available: nat, window: Window)
    requires
        0 <= window.start <= widths.len(),
        window.width <= available,
        window.width == sum(widths.skip(window.start)),
    ensures
        ({
            let wide = widen(widths, available, window);
            &&& 0 <= wide.start <= widths.len()
            &&& wide.width <= available
            &&& wide.width == sum(widths.skip(wide.start))
            &&& wide.start > 0 ==> sum(widths.skip(wide.start - 1)) > available
        }),
    decreases window.start,
{
    if window.start > 0 {
        let more = widths.skip(window.start - 1);
        assert(more.drop_first() =~= widths.skip(window.start));
        assert(more[0] == widths[window.start - 1]);
        if window.width + widths[window.start - 1] <= available {
            lemma_widen(
                widths,
                available,
                Window {
                    start: window.start - 1,
                    width: window.width + widths[window.start - 1],
                },
            );
        }
    }
}

/// The cursor of a framed line stands in its first row, two columns in and as
/// many further as stand before it, and never past the frame.
pub proof fn cursor_stays_in_the_frame(area: Rect, columns: int)
    requires
        0 <= columns,
        2 <= area.width,
        area.x + area.width <= u16::MAX,
        area.y + 1 <= u16::MAX,
    ensures
        ({
            let (column, row) = framed_cursor(area, columns);
            &&& row == area.y + 1
            &&& columns + 4 <= area.width ==> column == area.x + 2 + columns
            &&& columns + 4 > area.width ==> column == area.x + area.width - 2
        }),
{
}

/// A file is noted by its name, its type and its size; well-known types have
/// short names, and parameters behind a type are left out.
pub proof fn files_are_noted(attachment: ChatAttachmentView)
    ensures
        note_text(attachment) == "📎 "@ + attachment.display_name() + " · "@ + media_name(
            attachment.content_type,
        ) + " · "@ + size_text(attachment.size),
{
}

/// What the types of files are called.
pub proof fn types_have_short_names(content_type: Seq<char>)
    ensures
        ({
            let media = trimmed(pieces(content_type, ';')[0]);
            let name = media_name(Some(content_type));
            &&& media == "application/pdf"@ ==> name == "PDF"@
            &&& media == "image/jpeg"@ || media == "image/jpg"@ ==> name == "JPEG"@
            &&& media == "image/png"@ ==> name == "PNG"@
            &&& media == "image/webp"@ ==> name == "WebP"@
            &&& media == "image/gif"@ ==> name == "GIF"@
            &&& media == "video/mp4"@ ==> name == "MP4 video"@
            &&& media == "video/quicktime"@ ==> name == "QuickTime video"@
            &&& !has_prefix(media, "application/"@) && !has_prefix(media, "image/"@)
                && !has_prefix(media, "video/"@) ==> name == media
        }),
        media_name(None) == "unknown type"@,
{
    reveal_strlit("application/");
    reveal_strlit("image/");
    reveal_strlit("video/");
    reveal_strlit("application/pdf");
    reveal_strlit("image/jpeg");
    reveal_strlit("image/jpg");
    reveal_strlit("image/png");
    reveal_strlit("image/webp");
    reveal_strlit("image/gif");
    reveal_strlit("video/mp4");
    reveal_strlit("video/quicktime");
    reveal_strlit("unknown type");
    assert("application/pdf"@.subrange(0, 12) =~= "application/"@);
    assert("image/jpeg"@.subrange(0, 6) =~= "image/"@);
    assert("image/jpg"@.subrange(0, 6) =~= "image/"@);
    assert("image/png"@.subrange(0, 6) =~= "image/"@);
    assert("image/webp"@.subrange(0, 6) =~= "image/"@);
    assert("image/gif"@.subrange(0, 6) =~= "image/"@);
    assert("video/mp4"@.subrange(0, 6) =~= "video/"@);
    assert("video/quicktime"@.subrange(0, 6) =~= "video/"@);
    assert("application/pdf"@.len() == 15);
    assert("image/jpeg"@.len() == 10 && "image/jpeg"@[6] == 'j' && "image/jpeg"@[8] == 'e');
    assert("image/jpg"@.len() == 9 && "image/jpg"@[6] == 'j');
    assert("image/png"@.len() == 9 && "image/png"@[6] == 'p');
    assert("image/webp"@.len() == 10 && "image/webp"@[6] == 'w');
    assert("image/gif"@.len() == 9 && "image/gif"@[6] == 'g');
    assert("video/mp4"@.len() == 9 && "video/mp4"@[0] == 'v');
    assert("video/quicktime"@.len() == 15 && "video/quicktime"@[0] == 'v');
    assert("image/jpeg"@[0] == 'i' && "image/jpg"@[0] == 'i' && "image/png"@[0] == 'i'
        && "image/webp"@[0] == 'i' && "image/gif"@[0] == 'i');
    assert("application/pdf"@[0] == 'a');
    assert("unknown type"@.len() == 12);
}

/// A picture that could not be shown is explained by what its error speaks of:
/// the size first, then the pixels, then the format.
pub proof fn failures_are_explained(error: Seq<char>)
    ensures
        ({
            let large = has_part(error, "50 MiB"@);
            let pixels = has_part(error, "40 megapixel"@);
            let format = has_part(error, "decode image"@) || has_part(
                error,
                "detect image format"@,
            );
            &&& large ==> failure_text(error) == "image is larger than 50 MiB"@
            &&& !large && pixels ==> failure_text(error) == "image is larger than 40 megapixels"@
            &&& !large && !pixels && format ==> failure_text(error)
                == "unsupported or malformed image"@
            &&& !large && !pixels && !format ==> failure_text(error) == "could not load preview"@
        }),
{
}

/// A picture takes two fifths of the columns and as many rows as keep its shape,
/// rounded up, but at least one and at most twelve; one whose shape is not known
/// takes eight.
pub proof fn pictures_keep_their_shape(
    pixel_width: u32,
    pixel_height: u32,
    width: u16,
    cell: (u16, u16),
    rows: int,
)
    requires
        pixel_width > 0,
        pixel_height > 0,
        cell.1 > 0,
        3 <= width <= 32_767,
        rows == image_rows(Some(pixel_width), Some(pixel_height), width, cell),
    ensures
        image_columns(width) == 2 * width / 5,
        1 <= rows <= 12,
        1 < rows ==> (rows - 1) * (pixel_width * cell.1) < image_columns(width) * pixel_height
            * cell.0,
        rows < 12 ==> image_columns(width) * pixel_height * cell.0 <= rows * (pixel_width * cell.1),
        image_rows(None, Some(pixel_height), width, cell) == 8,
        image_rows(Some(pixel_width), None, width, cell) == 8,
        image_rows(Some(0), Some(pixel_height), width, cell) == 8,
        image_rows(Some(pixel_width), Some(0), width, cell) == 8,
{
    let above = image_columns(width) * pixel_height * cell.0;
    let below = pixel_width * cell.1;
    assert(below > 0) by (nonlinear_arith)
        requires
            pixel_width > 0,
            cell.1 > 0,
            below == pixel_width * cell.1,
    ;
    assert(above >= 0) by (nonlinear_arith)
        requires
            above == image_columns(width) * pixel_height * cell.0,
            image_columns(width) > 0,
            pixel_height > 0,
            cell.0 >= 0,
    ;
    let whole = above / below;
    let rest = above % below;
    assert(above == whole * below + rest && 0 <= rest < below && 0 <= whole) by (nonlinear_arith)
        requires
            below > 0,
            above >= 0,
            whole == above / below,
            rest == above % below,
    ;
    let exact = quotient_up(above, below);
    assert((exact - 1) * below < above <= exact * below) by (nonlinear_arith)
        requires
            above == whole * below + rest,
            0 <= rest < below,
            exact == whole && rest == 0 || exact == whole + 1 && rest > 0,
    ;
    if rows < exact {
        assert((rows - 1) * below <= (exact - 1) * below) by (nonlinear_arith)
            requires
                rows < exact,
                below > 0,
        ;
    }
    if exact < rows {
        assert(exact * below <= rows * below) by (nonlinear_arith)
            requires
                exact < rows,
                below > 0,
        ;
    }
}

/// The text of a message is shown in lines that fit, all of it, one below the
/// other; what only says that there are attachments is not.
pub proof fn text_is_shown_in_lines(message: ChatMessageView, width: nat)
    ensures
        message.body.len() > 0 && message.kind != MessageKind::Attachment ==> {
            let lines = wrap(message.body, width);
            &&& body_elements(message, width).len() == lines.len()
            &&& forall|i: int|
                0 <= i < lines.len() ==> (#[trigger] body_elements(message, width)[i] matches
                    MessageElementView::Text(spans) && spans.len() == 1 && spans[0].content
                    == lines[i])
        },
        message.body.len() == 0 ==> body_elements(message, width).len() == 0,
        message.kind == MessageKind::Attachment && has_prefix(message.body, "[attachment"@)
            ==> body_elements(message, width).len() == 0,
{
}

/// Behind the attachments before it an attachment is shown by its picture, where
/// it may be shown, there is a way to show it, and fewer than three were shown;
/// in any case by its note. A picture that failed says so instead.
pub proof fn attachments_are_shown_and_noted(
    attachments: Seq<ChatAttachmentView>,
    states: Map<Seq<char>, AttachmentStateView>,
    width: u16,
    cell: Option<(u16, u16)>,
)
    requires
        attachments.len() > 0,
    ensures
        ({
            let before = attachment_elements(attachments.drop_last(), states, width, cell);
            let after = attachment_elements(attachments, states, width, cell);
            let attachment = attachments.last();
            let shown = cell is Some && attachment.can_preview() && before.pictures < 3;
            let state = state_in(states, attachment.key);
            let count = before.elements.len() as int;
            &&& after.elements.len() == count + if shown {
                2int
            } else {
                1int
            }
            &&& after.elements.take(count) == before.elements
            &&& after.elements.last() matches MessageElementView::Text(spans) && spans.len() == 1
                && spans[0].content == note_text(attachment)
            &&& after.pictures == before.pictures + if shown {
                1nat
            } else {
                0nat
            }
            &&& shown && !(state is Failed) ==> after.elements[count]
                == (MessageElementView::Image {
                key: attachment.key,
                name: attachment.display_name(),
                height: image_rows(attachment.width, attachment.height, width, cell->0) as u16,
            })
            &&& shown ==> (state matches AttachmentStateView::Failed(error)
                ==> after.elements[count] matches MessageElementView::Text(spans) && spans.len()
                == 1 && spans[0].content == "Image unavailable: "@ + attachment.display_name()
                + " · "@ + failure_text(error))
        }),
{
    let before = attachment_elements(attachments.drop_last(), states, width, cell);
    let after = attachment_elements(attachments, states, width, cell);
    assert(after.elements.take(before.elements.len() as int) =~= before.elements);
}

/// Scrolling back by a row shows one row more of what came before, until the
/// first row is reached; there is no going further.
pub proof fn scrolling_goes_row_by_row(
    elements: Seq<MessageElementView>,
    scroll: u16,
    height: u16,
)
    ensures
        ({
            let bottom = first_row(elements, 0, height);
            &&& scroll <= bottom ==> first_row(elements, scroll, height) == bottom - scroll
            &&& scroll > bottom ==> first_row(elements, scroll, height) == 0
        }),
{
    lemma_top_within(elements, elements.len() as int);
}

/// An element is drawn as far below the top of the view as it lies below the
/// first row that is shown, over the full width, without the rows that are
/// scrolled away above and those that do not fit below.
pub proof fn elements_are_drawn_in_their_rows(
    element: MessageElementView,
    top: int,
    start: int,
    content: Rect,
)
    requires
        0 <= top,
        0 <= start,
        top + element.height() <= u16::MAX,
        start + content.height <= u16::MAX,
        on_screen(content),
        top < start + content.height,
        start < top + element.height(),
    ensures
        ({
            let end = top + element.height();
            let area = element_area(element, top, end, start, content);
            let first = if top > start {
                top
            } else {
                start
            };
            let last = if end < start + content.height {
                end
            } else {
                start + content.height
            };
            &&& area.x == content.x
            &&& area.width == content.width
            &&& area.y == content.y + (first - start)
            &&& area.height == last - first
        }),
{
}

/// A line of text is drawn as it is. A picture that is not in view as a whole is
/// announced; one in view is drawn where it is loaded, announced while it is
/// not, and left out where it failed.
pub proof fn pictures_are_drawn_when_loaded(
    element: MessageElementView,
    states: Map<Seq<char>, AttachmentStateView>,
    top: int,
    end: int,
    start: int,
    content: Rect,
)
    ensures
        ({
            let drawing = drawing_of(element, states, top, end, start, content);
            let whole = top >= start && end <= sum_within(start, content.height as int);
            &&& element matches MessageElementView::Text(spans) ==> drawing is Some
                && drawing->0.drawn == DrawnView::Line(spans)
            &&& element matches MessageElementView::Image { key, name, height } ==> {
                let state = state_in(states, key);
                &&& !whole ==> drawing is Some && (drawing->0.drawn matches DrawnView::Line(spans)
                    && spans.len() == 1 && spans[0].content == "[image continues…]"@)
                &&& whole ==> (state matches AttachmentStateView::Ready(picture) ==> drawing is Some
                    && drawing->0.drawn == (DrawnView::Picture { key, picture })
                    && drawing->0.area.height == height)
                &&& whole && state is Failed ==> drawing is None
                &&& whole && (state is Loading || state is NotRequested) ==> drawing is Some && (
                drawing->0.drawn matches DrawnView::Line(spans) && spans.len() == 1
                    && spans[0].content == "Loading "@ + name + "…"@)
            }
        }),
{
}

/// What is in view overlaps the rows that are shown; pictures are asked for
/// already when they are as much as a view away.
pub proof fn views_are_looked_ahead_of(top: int, end: int, start: int, height: u16)
    requires
        0 <= start,
        start + 2 * height <= u16::MAX,
        height <= 32_767,
    ensures
        in_view(top, end, start, height) <==> start < end && top < start + height,
        in_view(top, end, start, height) ==> nearly_in_view(top, end, start, height),
        height <= start ==> (nearly_in_view(top, end, start, height) <==> start - height < end
            && top < start + 2 * height),
{
}

/// The elements of a pane are drawn in their order, each that is in view and no
/// other.
pub proof fn panes_draw_what_is_in_view(
    elements: Seq<MessageElementView>,
    states: Map<Seq<char>, AttachmentStateView>,
    start: int,
    content: Rect,
    count: int,
)
    requires
        0 <= count < elements.len(),
    ensures
        ({
            let before = pane_of(elements, states, start, content, count);
            let after = pane_of(elements, states, start, content, count + 1);
            let top = top_of(elements, count);
            let end = top_of(elements, count + 1);
            let drawing = drawing_of(elements[count], states, top, end, start, content);
            let seen = in_view(top, end, start, content.height);
            &&& seen && drawing is Some ==> after.drawings == before.drawings.push(drawing->0)
            &&& !(seen && drawing is Some) ==> after.drawings == before.drawings
            &&& elements[count] is Text ==> after.visible_images == before.visible_images
            &&& elements[count] matches MessageElementView::Image { key, .. } ==> {
                &&& nearly_in_view(top, end, start, content.height) ==> after.visible_images
                    == before.visible_images.push(key)
                &&& !nearly_in_view(top, end, start, content.height) ==> after.visible_images
                    == before.visible_images
            }
        }),
{
}

/// The question about disconnecting says what will be erased and what is left to
/// do, and which keys answer it.
pub proof fn warning_says_what_goes(line: Seq<SpanView>)
    requires
        line == warning_footer(),
    ensures
        warning_lines().len() == 4,
        warning_lines()[0][0].content == "Disconnect Signal CLI?"@,
        warning_lines()[2][0].content
            == "This removes local credentials, sessions, contacts, groups, and messages."@,
        warning_lines()[3][0].content
            == "Afterward, also remove “Signal CLI” on your iPhone under Settings → Linked Devices."@,
        line.len() == 4,
        line[0].content == "ctrl-y"@,
        line[0].style.fg == Some(Color::Red),
        line[1].content == " Disconnect and erase local data   "@,
        line[2].content == "esc/ctrl-n"@,
        line[3].content == " Cancel"@,
{
}

/// The parts of an area follow each other without a gap, and fill it.
pub proof fn parts_fill_their_area(area: Rect, vertical: bool, shares: Seq<Share>)
    requires
        count_minimums(shares) == 1,
        on_screen(area),
    ensures
        part_start(area, vertical, shares, 0) == 0,
        forall|index: int|
            0 <= index < shares.len() ==> #[trigger] part_start(area, vertical, shares, index)
                + part_size(area, vertical, shares, index) == part_start(
                area,
                vertical,
                shares,
                index + 1,
            ),
        part_start(area, vertical, shares, shares.len() as int) == extent(area, vertical),
{
    lemma_parts_sum(area, vertical, shares, shares.len() as int);
    assert(shares.take(shares.len() as int) =~= shares);
}

proof fn lemma_parts_sum(area: Rect, vertical: bool, shares: Seq<Share>, count: int)
    requires
        0 <= count <= shares.len(),
    ensures
        count_minimums(shares.take(count)) == 0 ==> part_start(area, vertical, shares, count)
            == lengths(shares.take(count)),
        count_minimums(shares.take(count)) == 1 ==> part_start(area, vertical, shares, count)
            == lengths(shares.take(count)) + extent(area, vertical) - lengths(shares),
    decreases count,
{
    if count > 0 {
        lemma_parts_sum(area, vertical, shares, count - 1);
        assert(shares.take(count).drop_last() =~= shares.take(count - 1));
        assert(shares.take(count).last() == shares[count - 1]);
    } else {
        assert(shares.take(0) =~= Seq::<Share>::empty());
    }
}

/// Plain text has no style, muted text is dim, accents are blue; none of them is
/// bold, and what is made bold keeps its colour.
pub proof fn styles_are_told_apart(style: Style)
    ensures
        plain_style().fg is None && !plain_style().bold && !plain_style().dim,
        primary_style().fg == Some(Color::Reset) && !primary_style().bold && !primary_style().dim,
        muted_style().fg == Some(Color::Reset) && !muted_style().bold && muted_style().dim,
        accent_style().fg == Some(Color::Rgb(70, 130, 255)) && !accent_style().bold
            && !accent_style().dim,
        bold_style(style).bold && bold_style(style).fg == style.fg && bold_style(style).dim
            == style.dim,
{
}

/// The messages of a chat lie below the upper frame, with two blanks on either
/// side.
pub proof fn messages_lie_below_the_frame(area: Rect, padding: u16)
    requires
        on_screen(area),
        2 * padding <= area.width,
        1 <= area.height,
    ensures
        ({
            let inner = below_frame(area, padding);
            &&& inner.x == area.x + padding
            &&& inner.y == area.y + 1
            &&& inner.width == area.width - 2 * padding
            &&& inner.height == area.height - 1
        }),
{
}

/// The elements of a chat lie one below the other: each begins where the one
/// before it ends. A line takes one row, and a picture as many as it is high.
pub proof fn elements_stack_up(elements: Seq<MessageElementView>, index: int)
    requires
        0 <= index < elements.len(),
        all_rows(elements, elements.len() as int) <= u16::MAX,
    ensures
        top_of(elements, 0) == 0,
        elements[index] is Text ==> top_of(elements, index + 1) == top_of(elements, index) + 1,
        elements[index] matches MessageElementView::Image { height, .. } ==> top_of(
            elements,
            index + 1,
        ) == top_of(elements, index) + height,
{
    lemma_rows(elements, index + 1, elements.len() as int);
    lemma_rows(elements, index, elements.len() as int);
}

/// The room for a search is its line without the frame and its padding.
pub proof fn search_has_its_room(app: AppView, area: Rect)
    ensures
        area.width >= 4 ==> search_room(area) == area.width - 4,
        area.width < 4 ==> search_room(area) == 0,
        search_window(app, area) == last_that_fit(
            app.search.text.take(spot(app.search.text, app.search.cursor)).map_values(
                |c: char|
                    match char_columns(c) {
                        Some(columns) => columns,
                        None => 0nat,
                    },
            ),
            search_room(area),
        ),
{
    let front = app.search.text.take(spot(app.search.text, app.search.cursor));
    assert(widths_of(front) =~= front.map_values(
        |c: char|
            match char_columns(c) {
                Some(columns) => columns,
                None => 0nat,
            },
    ));
}

/// The search line shows the end of the search, from the first character on that
/// fits before the cursor; an empty one invites to search. It has a cursor where
/// the list is in front, and so has the line of a chat that is shown.
pub proof fn search_line_ends_with_the_search(app: AppView, area: Rect, focused: bool)
    ensures
        app.search.text.len() == 0 ==> search_spans(app, area).len() == 1 && search_spans(
            app,
            area,
        )[0].content == "Search chats…"@,
        app.search.text.len() > 0 ==> search_spans(app, area).len() == 1 && search_spans(
            app,
            area,
        )[0].content == app.search.text.skip(search_window(app, area).start),
        focused <==> search_cursor(app, area, focused) is Some,
        focused ==> search_cursor(app, area, focused) == Some(
            framed_cursor(area, search_window(app, area).width as int),
        ),
        focused && app.opened_conversation() is Some <==> input_cursor(app, area, focused) is Some,
        focused && app.opened_conversation() is Some && 0 <= spot(
            app.input.text,
            app.input.cursor,
        ) < 65_536 ==> input_cursor(app, area, focused) == Some(
            framed_cursor(area, spot(app.input.text, app.input.cursor)),
        ),
{
}

/// Rows are cut out of an area from its top, and columns from its left; the other
/// measures stay.
pub proof fn areas_are_cut(area: Rect, start: int, count: int)
    requires
        0 <= start,
        0 <= count,
        on_screen(area),
    ensures
        start + count <= area.height ==> {
            let part = rows_of(area, start, count);
            &&& part.x == area.x && part.width == area.width
            &&& part.y == area.y + start && part.height == count
        },
        start + count <= area.width ==> {
            let part = columns_of(area, start, count);
            &&& part.y == area.y && part.height == area.height
            &&& part.x == area.x + start && part.width == count
        },
{
}

/// However narrow the chat is, a picture has a column; however wide, it is
/// measured as far as the machine counts.
pub proof fn pictures_have_a_column(width: u16)
    ensures
        width < 5 ==> image_columns(width) == 1,
        5 <= width <= 32_767 ==> image_columns(width) == 2 * width / 5,
        width > 32_767 ==> image_columns(width) == 13_107,
{
}

/// The first line that a message is handed over with names who wrote it, and when.
pub proof fn handed_over_heading_names_the_sender(
    message: ChatMessage,
    states: Map<Seq<char>, AttachmentStateView>,
    title: Seq<char>,
    time: Seq<char>,
    width: u16,
    cell: Option<(u16, u16)>,
    elements: Seq<MessageElement>,
)
    requires
        element_views(elements) == elements_of(message@, states, title, time, width, cell),
    ensures
        elements.len() >= 2,
        elements[0] matches MessageElement::Text(spans) && {
            &&& spans@.len() == 2
            &&& message.mine ==> spans@[0].content@ == "you"@
            &&& !message.mine ==> (message.sender matches Some(sender) ==> spans@[0].content@
                == sender@)
            &&& !message.mine && message.sender is None ==> spans@[0].content@ == title
            &&& spans@[1].content@ == "  "@ + time
        },
{
    let views = element_views(elements);
    let all = elements_of(message@, states, title, time, width, cell);
    messages_are_headed_by_their_sender(message@, states, title, time, width, cell);
    assert(views.len() == all.len());
    assert(views[0] == elements[0]@);
    assert(all[0] == MessageElementView::Text(heading(message@, title, time)));
    if let MessageElement::Text(spans) = elements[0] {
        assert(span_views(spans@) == heading(message@, title, time));
        assert(span_views(spans@)[0] == spans@[0]@);
        assert(span_views(spans@)[1] == spans@[1]@);
    }
}

} // verus!
