//! Bringing this terminal up to date: the history transfer after linking, and
//! the messages that wait on the service.
use vstd::prelude::*;

use crate::backend::{
    ConversationId, ConversationIdView, NetworkEvent, NetworkEventView, Wait, WaitView,
    STREAM_ENDED,
};
use crate::bytes::fixed_32;
use crate::number::{decimal, decimal_text, decode_hex, hex_bytes, hex_failure};
use crate::paths::with_suffix;
use crate::text::{chars_of, contains, copy_optional, has_part, optional, text_between, texts};

verus! {

// ---------------------------------------------------------------------------
// Files
// ---------------------------------------------------------------------------

/// The files beside the database that the history transfer uses.
#[derive(Debug, PartialEq, Eq)]
pub struct LinkSyncPaths {
    pub state: String,
    pub archive: String,
}

impl Clone for LinkSyncPaths {
    fn clone(&self) -> (copy: Self)
        ensures
            copy.state@ == self.state@,
            copy.archive@ == self.archive@,
    {
        LinkSyncPaths { state: self.state.clone(), archive: self.archive.clone() }
    }
}

impl LinkSyncPaths {
    pub fn for_database(database: &str) -> (paths: LinkSyncPaths)
        ensures
            paths.state@ == database@ + ".sync.json"@,
            paths.archive@ == database@ + ".transfer.partial"@,
    {
        LinkSyncPaths {
            state: with_suffix(database, ".sync.json"),
            archive: with_suffix(database, ".transfer.partial"),
        }
    }

    /// The file that the state is written to before it replaces the old one.
    pub fn temporary_state(&self) -> (path: String)
        ensures
            path@ == self.state@ + ".tmp"@,
    {
        with_suffix(self.state.as_str(), ".tmp")
    }

    /// The files to remove once the transfer is over, in that order.
    pub fn cleanup(&self) -> (files: Vec<String>)
        ensures
            texts(files@) == seq![self.state@, self.state@ + ".tmp"@, self.archive@],
    {
        let mut files: Vec<String> = Vec::new();
        files.push(self.state.clone());
        files.push(self.temporary_state());
        files.push(self.archive.clone());
        assert(texts(files@) =~= seq![self.state@, self.state@ + ".tmp"@, self.archive@]);
        files
    }
}

// ---------------------------------------------------------------------------
// State and reports
// ---------------------------------------------------------------------------

/// What is remembered of a history transfer until it is over.
#[derive(Debug, PartialEq, Eq)]
pub struct LinkSyncState {
    pub ephemeral_backup_key: Option<String>,
    pub account_aci: Option<String>,
    pub device_id: Option<u32>,
    pub password: Option<String>,
    pub cdn: Option<u32>,
    pub archive_key: Option<String>,
    pub downloaded_bytes: u64,
    pub download_complete: bool,
    pub imported_messages: u64,
}

#[verifier::ext_equal]
pub struct LinkSyncStateView {
    pub ephemeral_backup_key: Option<Seq<char>>,
    pub account_aci: Option<Seq<char>>,
    pub device_id: Option<u32>,
    pub password: Option<Seq<char>>,
    pub cdn: Option<u32>,
    pub archive_key: Option<Seq<char>>,
    pub downloaded_bytes: u64,
    pub download_complete: bool,
    pub imported_messages: u64,
}

impl View for LinkSyncState {
    type V = LinkSyncStateView;

    open spec fn view(&self) -> LinkSyncStateView {
        LinkSyncStateView {
            ephemeral_backup_key: optional(self.ephemeral_backup_key),
            account_aci: optional(self.account_aci),
            device_id: self.device_id,
            password: optional(self.password),
            cdn: self.cdn,
            archive_key: optional(self.archive_key),
            downloaded_bytes: self.downloaded_bytes,
            download_complete: self.download_complete,
            imported_messages: self.imported_messages,
        }
    }
}

impl Clone for LinkSyncState {
    fn clone(&self) -> (copy: Self)
        ensures
            copy@ == self@,
    {
        LinkSyncState {
            ephemeral_backup_key: copy_optional(&self.ephemeral_backup_key),
            account_aci: copy_optional(&self.account_aci),
            device_id: self.device_id,
            password: copy_optional(&self.password),
            cdn: self.cdn,
            archive_key: copy_optional(&self.archive_key),
            downloaded_bytes: self.downloaded_bytes,
            download_complete: self.download_complete,
            imported_messages: self.imported_messages,
        }
    }
}

impl Default for LinkSyncState {
    fn default() -> (state: Self)
        ensures
            state@ == (LinkSyncStateView {
                ephemeral_backup_key: None,
                account_aci: None,
                device_id: None,
                password: None,
                cdn: None,
                archive_key: None,
                downloaded_bytes: 0,
                download_complete: false,
                imported_messages: 0,
            }),
    {
        LinkSyncState {
            ephemeral_backup_key: None,
            account_aci: None,
            device_id: None,
            password: None,
            cdn: None,
            archive_key: None,
            downloaded_bytes: 0,
            download_complete: false,
            imported_messages: 0,
        }
    }
}

/// How far a synchronization is.
#[derive(Clone, Copy, Debug, PartialEq, Eq, Structural)]
pub enum SyncProgress {
    WaitingForPhone,
    Downloading { downloaded_bytes: u64, total_bytes: Option<u64> },
    Validating,
    Importing { imported_messages: u64 },
    RefreshingPending,
}

/// What a synchronization has brought.
#[derive(Debug, PartialEq, Eq)]
pub struct SyncReport {
    pub imported_messages: u64,
    pub received_messages: u64,
    pub incoming_conversations: Vec<ConversationId>,
    pub contacts_updated: bool,
}

#[verifier::ext_equal]
pub struct SyncReportView {
    pub imported_messages: nat,
    pub received_messages: nat,
    pub incoming_conversations: Seq<ConversationIdView>,
    pub contacts_updated: bool,
}

pub open spec fn id_views(list: Seq<ConversationId>) -> Seq<ConversationIdView> {
    list.map_values(|id: ConversationId| id@)
}

impl View for SyncReport {
    type V = SyncReportView;

    open spec fn view(&self) -> SyncReportView {
        SyncReportView {
            imported_messages: self.imported_messages as nat,
            received_messages: self.received_messages as nat,
            incoming_conversations: id_views(self.incoming_conversations@),
            contacts_updated: self.contacts_updated,
        }
    }
}

/// A report of nothing.
pub open spec fn empty_report() -> SyncReportView {
    SyncReportView {
        imported_messages: 0,
        received_messages: 0,
        incoming_conversations: Seq::empty(),
        contacts_updated: false,
    }
}

impl Default for SyncReport {
    fn default() -> (report: Self)
        ensures
            report@ == empty_report(),
    {
        let report = SyncReport {
            imported_messages: 0,
            received_messages: 0,
            incoming_conversations: Vec::new(),
            contacts_updated: false,
        };
        assert(report@ =~= empty_report());
        report
    }
}

impl SyncReport {
    /// The report of an import.
    pub fn of_import(imported_messages: u64) -> (report: SyncReport)
        ensures
            report@ == (SyncReportView {
                imported_messages: imported_messages as nat,
                ..empty_report()
            }),
    {
        let mut report = SyncReport::default();
        report.imported_messages = imported_messages;
        report
    }
}

/// Whether there is an archive to import.
#[derive(Clone, Copy, Debug, PartialEq, Eq, Structural)]
pub enum TransferOutcome {
    NoTransfer,
    Ready,
}

// ---------------------------------------------------------------------------
// The start of a transfer
// ---------------------------------------------------------------------------

/// What is missing from the state of a transfer.
#[derive(Clone, Copy, Debug, PartialEq, Eq, Structural)]
pub enum MissingField {
    AccountAci,
    DeviceId,
    Password,
}

pub open spec fn missing_text(field: MissingField) -> Seq<char> {
    match field {
        MissingField::AccountAci => "link-sync state is missing the account ACI"@,
        MissingField::DeviceId => "link-sync state is missing the linked device ID"@,
        MissingField::Password => "link-sync state is missing transfer authentication"@,
    }
}

impl MissingField {
    pub fn message(self) -> (text: &'static str)
        ensures
            text@ == missing_text(self),
    {
        match self {
            MissingField::AccountAci => "link-sync state is missing the account ACI",
            MissingField::DeviceId => "link-sync state is missing the linked device ID",
            MissingField::Password => "link-sync state is missing transfer authentication",
        }
    }
}

/// Where the service keeps an archive.
#[derive(Debug, PartialEq, Eq)]
pub struct TransferArchive {
    pub cdn: u32,
    pub key: String,
}

/// How a transfer starts.
#[derive(Debug, PartialEq, Eq)]
pub enum TransferStart {
    Finish(TransferOutcome),
    /// There is nothing to transfer: remove the files of the transfer.
    CleanUp,
    Fail(MissingField),
    /// The archive is known already: download it.
    Download(TransferArchive),
    /// Report that the phone is awaited, and ask for the archive.
    Poll { username: String, password: String },
}

pub enum TransferStartView {
    Finish(TransferOutcome),
    CleanUp,
    Fail(MissingField),
    Download { cdn: u32, key: Seq<char> },
    Poll { username: Seq<char>, password: Seq<char> },
}

impl View for TransferStart {
    type V = TransferStartView;

    open spec fn view(&self) -> TransferStartView {
        match self {
            TransferStart::Finish(outcome) => TransferStartView::Finish(*outcome),
            TransferStart::CleanUp => TransferStartView::CleanUp,
            TransferStart::Fail(field) => TransferStartView::Fail(*field),
            TransferStart::Download(archive) => TransferStartView::Download {
                cdn: archive.cdn,
                key: archive.key@,
            },
            TransferStart::Poll { username, password } => TransferStartView::Poll {
                username: username@,
                password: password@,
            },
        }
    }
}

pub open spec fn transfer_start(
    state: Option<LinkSyncStateView>,
    archive_exists: bool,
) -> TransferStartView {
    match state {
        None => TransferStartView::Finish(TransferOutcome::NoTransfer),
        Some(state) => if state.ephemeral_backup_key is None {
            TransferStartView::CleanUp
        } else if archive_exists && state.download_complete {
            TransferStartView::Finish(TransferOutcome::Ready)
        } else if state.account_aci is None {
            TransferStartView::Fail(MissingField::AccountAci)
        } else if state.device_id is None {
            TransferStartView::Fail(MissingField::DeviceId)
        } else if state.password is None {
            TransferStartView::Fail(MissingField::Password)
        } else if state.cdn is Some && state.archive_key is Some {
            TransferStartView::Download { cdn: state.cdn->0, key: state.archive_key->0 }
        } else {
            TransferStartView::Poll {
                username: state.account_aci->0 + "."@ + decimal(state.device_id->0 as nat),
                password: state.password->0,
            }
        },
    }
}

pub open spec fn state_view(state: Option<LinkSyncState>) -> Option<LinkSyncStateView> {
    match state {
        Some(state) => Some(state@),
        None => None,
    }
}

/// How a transfer starts, given the remembered state and whether the archive is
/// on disk.
pub fn start_transfer(state: &Option<LinkSyncState>, archive_exists: bool) -> (start: TransferStart)
    ensures
        start@ == transfer_start(state_view(*state), archive_exists),
{
    let state = match state {
        Some(state) => state,
        None => {
            return TransferStart::Finish(TransferOutcome::NoTransfer);
        },
    };
    if state.ephemeral_backup_key.is_none() {
        return TransferStart::CleanUp;
    }
    if archive_exists && state.download_complete {
        return TransferStart::Finish(TransferOutcome::Ready);
    }
    let aci = match &state.account_aci {
        Some(aci) => aci,
        None => {
            return TransferStart::Fail(MissingField::AccountAci);
        },
    };
    let device_id: u32 = match state.device_id {
        Some(device_id) => device_id,
        None => {
            return TransferStart::Fail(MissingField::DeviceId);
        },
    };
    let password = match &state.password {
        Some(password) => password,
        None => {
            return TransferStart::Fail(MissingField::Password);
        },
    };
    match (state.cdn, &state.archive_key) {
        (Some(cdn), Some(key)) => TransferStart::Download(
            TransferArchive { cdn, key: key.clone() },
        ),
        _ => {
            let mut username: String = aci.clone();
            username.push_str(".");
            username.push_str(decimal_text(device_id as u64).as_str());
            TransferStart::Poll { username, password: password.clone() }
        },
    }
}

// ---------------------------------------------------------------------------
// Asking for the archive
// ---------------------------------------------------------------------------

/// How long the phone is given to prepare the archive, in milliseconds.
pub const POLL_LIMIT_MILLIS: u64 = 300_000;

/// The pause between two questions, in milliseconds.
pub const POLL_PAUSE_MILLIS: u64 = 2_000;

pub const POLL_TIMED_OUT: &'static str =
    "timed out waiting for the primary device to prepare history; the transfer will resume next launch";

pub const RELINK_REQUESTED: &'static str =
    "Signal requested relinking; scan a new linked-device QR code";

pub const TRANSFER_REJECTED: &'static str =
    "Signal rejected history-transfer authentication; relink this device";

/// Whether the phone may still be asked, given the milliseconds since the first
/// question.
pub fn may_poll(elapsed_millis: u64) -> (yes: bool)
    ensures
        yes == (elapsed_millis < POLL_LIMIT_MILLIS),
{
    elapsed_millis < POLL_LIMIT_MILLIS
}

/// What an answer of the service means.
#[derive(Debug, PartialEq, Eq)]
pub enum PollStep {
    /// Nothing yet: pause, and ask again.
    Wait,
    /// The answer says where the archive is.
    Located,
    /// There is no archive: remove the files of the transfer.
    CleanUp,
    /// Forget the link, and fail.
    RollBack(&'static str),
    Fail(String),
}

pub enum PollStepView {
    Wait,
    Located,
    CleanUp,
    RollBack(Seq<char>),
    Fail(Seq<char>),
}

impl View for PollStep {
    type V = PollStepView;

    open spec fn view(&self) -> PollStepView {
        match self {
            PollStep::Wait => PollStepView::Wait,
            PollStep::Located => PollStepView::Located,
            PollStep::CleanUp => PollStepView::CleanUp,
            PollStep::RollBack(error) => PollStepView::RollBack((*error)@),
            PollStep::Fail(error) => PollStepView::Fail(error@),
        }
    }
}

/// Whether an HTTP status reports success.
pub open spec fn is_success(status: u16) -> bool {
    200 <= status < 300
}

pub open spec fn poll_step(status: u16, shown: Seq<char>, body: Seq<char>) -> PollStepView {
    if status == 204 {
        PollStepView::Wait
    } else if is_success(status) {
        PollStepView::Located
    } else if has_part(body, "CONTINUE_WITHOUT_UPLOAD"@) {
        PollStepView::CleanUp
    } else if has_part(body, "RELINK_REQUESTED"@) {
        PollStepView::RollBack(RELINK_REQUESTED@)
    } else if status == 401 || status == 403 {
        PollStepView::RollBack(TRANSFER_REJECTED@)
    } else {
        PollStepView::Fail(
            "history-transfer poll failed with HTTP "@ + shown + ": "@ + body,
        )
    }
}

/// What an answer of the service means: its status, the status as it is shown,
/// and its text.
pub fn poll_reply(status: u16, shown: &str, body: &str) -> (step: PollStep)
    ensures
        step@ == poll_step(status, shown@, body@),
{
    if status == 204 {
        PollStep::Wait
    } else if 200 <= status && status < 300 {
        PollStep::Located
    } else if contains(body, "CONTINUE_WITHOUT_UPLOAD") {
        PollStep::CleanUp
    } else if contains(body, "RELINK_REQUESTED") {
        PollStep::RollBack(RELINK_REQUESTED)
    } else if status == 401 || status == 403 {
        PollStep::RollBack(TRANSFER_REJECTED)
    } else {
        let mut text: String = "history-transfer poll failed with HTTP ".to_owned();
        text.push_str(shown);
        text.push_str(": ");
        text.push_str(body);
        PollStep::Fail(text)
    }
}

// ---------------------------------------------------------------------------
// The download
// ---------------------------------------------------------------------------

impl LinkSyncState {
    /// Remembers where the archive is.
    pub fn locate(&mut self, archive: &TransferArchive)
        ensures
            final(self)@ == (LinkSyncStateView {
                cdn: Some(archive.cdn),
                archive_key: Some(archive.key@),
                ..old(self)@
            }),
    {
        self.cdn = Some(archive.cdn);
        self.archive_key = Some(archive.key.clone());
    }

    /// Remembers that the archive is there as a whole.
    pub fn complete(&mut self)
        ensures
            final(self)@ == (LinkSyncStateView { download_complete: true, ..old(self)@ }),
    {
        self.download_complete = true;
    }

    /// Remembers how many messages are imported.
    pub fn checkpoint(&mut self, imported_messages: u64)
        ensures
            final(self)@ == (LinkSyncStateView { imported_messages, ..old(self)@ }),
    {
        self.imported_messages = imported_messages;
    }
}

/// A request for the archive, or for the part of it that is not there yet.
#[derive(Debug, PartialEq, Eq)]
pub struct DownloadRequest {
    pub url: String,
    pub range: Option<String>,
}

/// The server of a content network.
pub open spec fn cdn_base(cdn: u32) -> Option<Seq<char>> {
    if cdn == 0 {
        Some("https://cdn.signal.org"@)
    } else if cdn == 2 {
        Some("https://cdn2.signal.org"@)
    } else if cdn == 3 {
        Some("https://cdn3.signal.org"@)
    } else {
        None
    }
}

/// A text without the slashes at its front.
pub open spec fn without_slashes(s: Seq<char>) -> Seq<char>
    decreases s.len(),
{
    if s.len() > 0 && s[0] == '/' {
        without_slashes(s.drop_first())
    } else {
        s
    }
}

fn strip_slashes(text: &str) -> (result: String)
    ensures
        result@ == without_slashes(text@),
{
    let chars = chars_of(text);
    let mut start: usize = 0;
    assert(chars@.subrange(0, chars@.len() as int) =~= chars@);
    while start < chars.len() && chars[start] == '/'
        invariant
            start <= chars@.len(),
            without_slashes(chars@) == without_slashes(
                chars@.subrange(start as int, chars@.len() as int),
            ),
        decreases chars@.len() - start,
    {
        assert(chars@.subrange(start as int, chars@.len() as int).drop_first()
            =~= chars@.subrange(start + 1, chars@.len() as int));
        start = start + 1;
    }
    text_between(&chars, start, chars.len())
}

/// The range of bytes from an offset on, where the offset is not the front.
pub open spec fn range_from(downloaded: u64) -> Option<Seq<char>> {
    if downloaded > 0 {
        Some("bytes="@ + decimal(downloaded as nat) + "-"@)
    } else {
        None
    }
}

/// The request for an archive of which some bytes are there already.
pub fn download_request(archive: &TransferArchive, downloaded: u64) -> (request: Result<
    DownloadRequest,
    String,
>)
    ensures
        match (request, cdn_base(archive.cdn)) {
            (Ok(request), Some(base)) => {
                &&& request.url@ == base + "/attachments/"@ + without_slashes(archive.key@)
                &&& optional(request.range) == range_from(downloaded)
            },
            (Err(error), None) => error@ == "unsupported Signal history-transfer CDN "@ + decimal(
                archive.cdn as nat,
            ),
            _ => false,
        },
{
    let base = if archive.cdn == 0 {
        "https://cdn.signal.org"
    } else if archive.cdn == 2 {
        "https://cdn2.signal.org"
    } else if archive.cdn == 3 {
        "https://cdn3.signal.org"
    } else {
        let mut text: String = "unsupported Signal history-transfer CDN ".to_owned();
        text.push_str(decimal_text(archive.cdn as u64).as_str());
        return Err(text);
    };
    let mut url: String = base.to_owned();
    url.push_str("/attachments/");
    url.push_str(strip_slashes(archive.key.as_str()).as_str());
    let range = if downloaded > 0 {
        let mut range: String = "bytes=".to_owned();
        range.push_str(decimal_text(downloaded).as_str());
        range.push_str("-");
        Some(range)
    } else {
        None
    };
    Ok(DownloadRequest { url, range })
}

/// A download under way.
#[derive(Clone, Copy, Debug, PartialEq, Eq, Structural)]
pub struct Download {
    /// Whether the bytes go behind those that are there, or replace them.
    pub append: bool,
    pub downloaded: u64,
    pub total: Option<u64>,
}

/// What the answer to a request for the archive means.
#[derive(Debug, PartialEq, Eq)]
pub enum DownloadReply {
    /// There is nothing behind the bytes that are there.
    Complete,
    Receive(Download),
    Fail(String),
}

pub enum DownloadReplyView {
    Complete,
    Receive(Download),
    Fail(Seq<char>),
}

impl View for DownloadReply {
    type V = DownloadReplyView;

    open spec fn view(&self) -> DownloadReplyView {
        match self {
            DownloadReply::Complete => DownloadReplyView::Complete,
            DownloadReply::Receive(download) => DownloadReplyView::Receive(*download),
            DownloadReply::Fail(error) => DownloadReplyView::Fail(error@),
        }
    }
}

/// What the answer to a request for the archive means.
pub open spec fn reply_of(
    status: u16,
    shown: Seq<char>,
    content_length: Option<u64>,
    present: u64,
) -> DownloadReplyView {
    let append = status == 206 && present > 0;
    let downloaded = if append {
        present
    } else {
        0
    };
    if status == 416 {
        DownloadReplyView::Complete
    } else if is_success(status) {
        DownloadReplyView::Receive(
            Download {
                append,
                downloaded,
                total: match content_length {
                    Some(length) => Some((length + downloaded) as u64),
                    None => None,
                },
            },
        )
    } else {
        DownloadReplyView::Fail("history archive download failed with HTTP "@ + shown)
    }
}

/// What the answer to a request for the archive means, given the bytes that are
/// there: a part of the archive goes behind them, the whole replaces them.
pub fn download_reply(status: u16, shown: &str, content_length: Option<u64>, present: u64) -> (reply:
    DownloadReply)
    requires
        status == 206 && content_length is Some ==> content_length->0 + present <= u64::MAX,
    ensures
        reply@ == reply_of(status, shown@, content_length, present),
        match reply {
            DownloadReply::Complete => status == 416,
            DownloadReply::Fail(error) => status != 416 && !is_success(status) && error@
                == "history archive download failed with HTTP "@ + shown@,
            DownloadReply::Receive(download) => {
                &&& is_success(status)
                &&& download.append == (status == 206 && present > 0)
                &&& download.downloaded == if download.append {
                    present
                } else {
                    0
                }
                &&& match content_length {
                    Some(length) => download.total is Some && download.total->0 == length
                        + download.downloaded,
                    None => download.total is None,
                }
            },
        },
{
    if status == 416 {
        return DownloadReply::Complete;
    }
    let append = status == 206 && present > 0;
    if !(200 <= status && status < 300) {
        let mut text: String = "history archive download failed with HTTP ".to_owned();
        text.push_str(shown);
        return DownloadReply::Fail(text);
    }
    let downloaded: u64 = if append {
        present
    } else {
        0
    };
    let total = match content_length {
        Some(length) => Some(length + downloaded),
        None => None,
    };
    DownloadReply::Receive(Download { append, downloaded, total })
}

impl Download {
    /// Counts some more bytes, and remembers the count in the state.
    pub fn receive(&mut self, state: &mut LinkSyncState, length: u64) -> (progress: SyncProgress)
        requires
            old(self).downloaded + length <= u64::MAX,
        ensures
            *final(self) == (Download {
                downloaded: (old(self).downloaded + length) as u64,
                ..*old(self)
            }),
            final(state)@ == (LinkSyncStateView {
                downloaded_bytes: (old(self).downloaded + length) as u64,
                ..old(state)@
            }),
            progress == (SyncProgress::Downloading {
                downloaded_bytes: final(self).downloaded,
                total_bytes: final(self).total,
            }),
    {
        self.downloaded = self.downloaded + length;
        state.downloaded_bytes = self.downloaded;
        SyncProgress::Downloading { downloaded_bytes: self.downloaded, total_bytes: self.total }
    }
}

/// Once the archive is on disk as a whole, a later start finds it ready and
/// asks for nothing.
pub proof fn completed_transfer_is_ready(state: LinkSyncStateView)
    requires
        state.ephemeral_backup_key is Some,
    ensures
        transfer_start(
            Some(LinkSyncStateView { download_complete: true, ..state }),
            true,
        ) == TransferStartView::Finish(TransferOutcome::Ready),
{
}

/// A transfer whose archive is located resumes with the download of that
/// archive, without asking the phone again.
pub proof fn located_transfer_resumes(state: LinkSyncStateView, cdn: u32, key: Seq<char>)
    requires
        transfer_start(Some(state), false) is Poll,
    ensures
        transfer_start(
            Some(LinkSyncStateView { cdn: Some(cdn), archive_key: Some(key), ..state }),
            false,
        ) == (TransferStartView::Download { cdn, key }),
{
}

// ---------------------------------------------------------------------------
// The start of an import
// ---------------------------------------------------------------------------

pub const ARCHIVE_AWAITED: &'static str =
    "waiting for the primary Signal device to provide the history archive";

/// How an import starts.
#[derive(Debug, PartialEq, Eq)]
pub enum ImportStart {
    /// There is nothing to import.
    Nothing,
    /// The phone has not handed over the archive yet.
    Wait,
    /// The archive can be opened with the key of this account.
    Open { ephemeral_key: String, account_aci: String },
}

pub enum ImportStartView {
    Nothing,
    Wait,
    Open { ephemeral_key: Seq<char>, account_aci: Seq<char> },
}

impl View for ImportStart {
    type V = ImportStartView;

    open spec fn view(&self) -> ImportStartView {
        match self {
            ImportStart::Nothing => ImportStartView::Nothing,
            ImportStart::Wait => ImportStartView::Wait,
            ImportStart::Open { ephemeral_key, account_aci } => ImportStartView::Open {
                ephemeral_key: ephemeral_key@,
                account_aci: account_aci@,
            },
        }
    }
}

/// How an import starts.
pub open spec fn import_start(
    state: Option<LinkSyncStateView>,
    archive_exists: bool,
) -> ImportStartView {
    match state {
        Some(state) => match (state.ephemeral_backup_key, state.account_aci) {
            (Some(ephemeral_key), Some(account_aci)) => if archive_exists {
                ImportStartView::Open { ephemeral_key, account_aci }
            } else {
                ImportStartView::Wait
            },
            _ => ImportStartView::Nothing,
        },
        None => ImportStartView::Nothing,
    }
}

/// How an import starts, given the remembered state and whether the archive is
/// on disk.
pub fn start_import(state: &Option<LinkSyncState>, archive_exists: bool) -> (start: ImportStart)
    ensures
        start@ == import_start(state_view(*state), archive_exists),
        match start {
            ImportStart::Nothing => match state_view(*state) {
                Some(state) => state.ephemeral_backup_key is None || state.account_aci is None,
                None => true,
            },
            ImportStart::Wait => !archive_exists && *state is Some
                && state->0.ephemeral_backup_key is Some && state->0.account_aci is Some,
            ImportStart::Open { ephemeral_key, account_aci } => archive_exists && *state is Some
                && state->0@.ephemeral_backup_key == Some(ephemeral_key@)
                && state->0@.account_aci == Some(account_aci@),
        },
{
    match state {
        Some(state) => match (&state.ephemeral_backup_key, &state.account_aci) {
            (Some(key), Some(aci)) => if archive_exists {
                ImportStart::Open { ephemeral_key: key.clone(), account_aci: aci.clone() }
            } else {
                ImportStart::Wait
            },
            _ => ImportStart::Nothing,
        },
        None => ImportStart::Nothing,
    }
}

/// The key of the archive that a text stands for, or why it stands for none.
pub open spec fn key_of(text: Seq<char>) -> Result<Seq<u8>, Seq<char>> {
    match hex_bytes(text) {
        Some(bytes) => if bytes.len() == 32 {
            Ok(bytes)
        } else {
            Err("ephemeral backup key is "@ + decimal(bytes.len()) + " bytes, expected 32"@)
        },
        None => Err("decode ephemeral backup key: "@ + hex_failure(text)),
    }
}

/// Reads the key of the archive.
pub fn backup_key(text: &str) -> (key: Result<[u8; 32], String>)
    ensures
        key_of(text@) == (match key {
            Ok(key) => Ok::<Seq<u8>, Seq<char>>(key@),
            Err(error) => Err::<Seq<u8>, Seq<char>>(error@),
        }),
        match (key, hex_bytes(text@)) {
            (Ok(key), Some(bytes)) => key@ == bytes,
            (Err(error), Some(bytes)) => bytes.len() != 32 && error@ == "ephemeral backup key is "@
                + decimal(bytes.len()) + " bytes, expected 32"@,
            (Err(error), None) => error@ == "decode ephemeral backup key: "@ + hex_failure(text@),
            (Ok(_), None) => false,
        },
{
    match decode_hex(text) {
        Ok(bytes) => match fixed_32(&bytes) {
            Some(key) => Ok(key),
            None => {
                let length: usize = bytes.len();
                let mut error: String = "ephemeral backup key is ".to_owned();
                error.push_str(decimal_text(length as u64).as_str());
                error.push_str(" bytes, expected 32");
                Err(error)
            },
        },
        Err(cause) => {
            let mut error: String = "decode ephemeral backup key: ".to_owned();
            error.push_str(cause.as_str());
            Err(error)
        },
    }
}

// ---------------------------------------------------------------------------
// Queued messages
// ---------------------------------------------------------------------------

pub const REFRESH_TIMED_OUT: &'static str = "timed out waiting for queued Signal messages";

/// A synchronization of the contacts and the queued messages.
#[derive(Debug, PartialEq, Eq)]
pub struct PendingRefresh {
    pub report: SyncReport,
    pub queue_empty: bool,
}

#[verifier::ext_equal]
pub struct PendingRefreshView {
    pub report: SyncReportView,
    pub queue_empty: bool,
}

impl View for PendingRefresh {
    type V = PendingRefreshView;

    open spec fn view(&self) -> PendingRefreshView {
        PendingRefreshView { report: self.report@, queue_empty: self.queue_empty }
    }
}

/// The synchronization after one more event.
pub open spec fn refresh_after(
    refresh: PendingRefreshView,
    event: NetworkEventView,
) -> PendingRefreshView {
    match event {
        NetworkEventView::Message { conversation, incoming } => PendingRefreshView {
            report: SyncReportView {
                received_messages: refresh.report.received_messages + 1,
                incoming_conversations: if incoming {
                    refresh.report.incoming_conversations.push(conversation)
                } else {
                    refresh.report.incoming_conversations
                },
                ..refresh.report
            },
            ..refresh
        },
        NetworkEventView::ConversationsChanged => PendingRefreshView {
            report: SyncReportView { contacts_updated: true, ..refresh.report },
            ..refresh
        },
        NetworkEventView::QueueEmpty => PendingRefreshView { queue_empty: true, ..refresh },
        NetworkEventView::Error(_) => refresh,
    }
}

/// Whether the synchronization is over after an event, and how.
pub open spec fn refresh_wait(
    refresh: PendingRefreshView,
    event: Option<NetworkEventView>,
) -> WaitView {
    match event {
        None => WaitView::Failed(STREAM_ENDED@),
        Some(NetworkEventView::Error(error)) => WaitView::Failed(error),
        Some(event) => {
            let next = refresh_after(refresh, event);
            if next.queue_empty && next.report.contacts_updated {
                WaitView::Done
            } else {
                WaitView::Pending
            }
        },
    }
}

pub open spec fn event_view(event: Option<NetworkEvent>) -> Option<NetworkEventView> {
    match event {
        Some(event) => Some(event@),
        None => None,
    }
}

impl PendingRefresh {
    pub fn new() -> (refresh: PendingRefresh)
        ensures
            refresh@ == (PendingRefreshView { report: empty_report(), queue_empty: false }),
    {
        PendingRefresh { report: SyncReport::default(), queue_empty: false }
    }

    /// Takes in one more event; no event is the end of the stream.
    pub fn refresh_pending(&mut self, event: Option<NetworkEvent>) -> (wait: Wait)
        requires
            old(self).report.received_messages < u64::MAX,
        ensures
            final(self)@ == (match event_view(event) {
                Some(event) => refresh_after(old(self)@, event),
                None => old(self)@,
            }),
            wait@ == refresh_wait(old(self)@, event_view(event)),
    {
        match event {
            None => Wait::Failed(STREAM_ENDED.to_owned()),
            Some(NetworkEvent::Error(error)) => Wait::Failed(error),
            Some(event) => {
                match event {
                    NetworkEvent::Message { conversation, incoming } => {
                        self.report.received_messages = self.report.received_messages + 1;
                        if incoming {
                            let ghost before = self.report.incoming_conversations@;
                            self.report.incoming_conversations.push(conversation);
                            assert(id_views(self.report.incoming_conversations@) =~= id_views(
                                before,
                            ).push(conversation@));
                        }
                    },
                    NetworkEvent::ConversationsChanged => {
                        self.report.contacts_updated = true;
                    },
                    NetworkEvent::QueueEmpty => {
                        self.queue_empty = true;
                    },
                    NetworkEvent::Error(_) => {},
                }
                if self.queue_empty && self.report.contacts_updated {
                    Wait::Done
                } else {
                    Wait::Pending
                }
            },
        }
    }
}

/// The synchronization after a list of events.
pub open spec fn refresh_after_all(events: Seq<NetworkEventView>) -> PendingRefreshView
    decreases events.len(),
{
    if events.len() == 0 {
        PendingRefreshView { report: empty_report(), queue_empty: false }
    } else {
        refresh_after(refresh_after_all(events.drop_last()), events.last())
    }
}

pub open spec fn count_messages(events: Seq<NetworkEventView>) -> nat
    decreases events.len(),
{
    if events.len() == 0 {
        0
    } else {
        count_messages(events.drop_last()) + if events.last() is Message {
            1nat
        } else {
            0nat
        }
    }
}

/// The report counts every message that came, and the synchronization ends as
/// soon as the queue was empty and the contacts were updated, in whatever order.
pub proof fn refresh_reports_what_came(events: Seq<NetworkEventView>)
    ensures
        refresh_after_all(events).report.received_messages == count_messages(events),
        refresh_after_all(events).report.imported_messages == 0,
        refresh_after_all(events).queue_empty == events.contains(NetworkEventView::QueueEmpty),
        refresh_after_all(events).report.contacts_updated == events.contains(
            NetworkEventView::ConversationsChanged,
        ),
    decreases events.len(),
{
    if events.len() > 0 {
        let fewer = events.drop_last();
        refresh_reports_what_came(fewer);
        assert forall|event: NetworkEventView| #[trigger]
            events.contains(event) == (fewer.contains(event) || events.last() == event) by {
            if fewer.contains(event) {
                let i = choose|i: int| 0 <= i < fewer.len() && fewer[i] == event;
                assert(events[i] == event);
            }
            if events.contains(event) {
                let i = choose|i: int| 0 <= i < events.len() && events[i] == event;
                if i < fewer.len() {
                    assert(fewer[i] == event);
                }
            }
        }
    }
}

// ---------------------------------------------------------------------------
// What a transfer does when
// ---------------------------------------------------------------------------

/// A transfer starts from what is remembered of it. Without anything there is
/// none; without the key of the archive there is only something to clean up. An
/// archive that is there as a whole is ready. Otherwise the account, the device
/// and the password are needed, in that order; with the place of the archive it
/// is downloaded from there, and without it the service is asked, in the name
/// of the device.
pub proof fn transfers_start_from_what_is_known(state: LinkSyncStateView, archive_exists: bool)
    ensures
        transfer_start(None, archive_exists) == TransferStartView::Finish(
            TransferOutcome::NoTransfer,
        ),
        ({
            let start = transfer_start(Some(state), archive_exists);
            let keyed = state.ephemeral_backup_key is Some;
            let whole = archive_exists && state.download_complete;
            let open = keyed && !whole;
            let known = state.account_aci is Some && state.device_id is Some
                && state.password is Some;
            let located = state.cdn is Some && state.archive_key is Some;
            &&& !keyed <==> start is CleanUp
            &&& keyed && whole <==> start == TransferStartView::Finish(TransferOutcome::Ready)
            &&& open && state.account_aci is None <==> start == TransferStartView::Fail(
                MissingField::AccountAci,
            )
            &&& open && state.account_aci is Some && state.device_id is None <==> start
                == TransferStartView::Fail(MissingField::DeviceId)
            &&& open && state.account_aci is Some && state.device_id is Some && state.password
                is None <==> start == TransferStartView::Fail(MissingField::Password)
            &&& open && known && located ==> start == (TransferStartView::Download {
                cdn: state.cdn->0,
                key: state.archive_key->0,
            })
            &&& open && known && !located ==> start == (TransferStartView::Poll {
                username: state.account_aci->0 + seq!['.'] + decimal(state.device_id->0 as nat),
                password: state.password->0,
            })
        }),
{
    reveal_strlit(".");
    assert("."@ =~= seq!['.']);
}

/// What the service answers: nothing yet, where there is no content; where the
/// archive is, on any other success. Of the failures, the word that there is
/// nothing to transfer ends the transfer, the wish to link again and a refused
/// password undo it, and any other is reported with its status and its text.
pub proof fn answers_of_the_service(status: u16, shown: Seq<char>, body: Seq<char>)
    ensures
        ({
            let step = poll_step(status, shown, body);
            let success = 200 <= status <= 299;
            let nothing = has_part(body, "CONTINUE_WITHOUT_UPLOAD"@);
            let again = has_part(body, "RELINK_REQUESTED"@);
            &&& step is Wait <==> status == 204
            &&& step is Located <==> success && status != 204
            &&& step is CleanUp <==> !success && nothing
            &&& !success && !nothing && again ==> step == PollStepView::RollBack(
                "Signal requested relinking; scan a new linked-device QR code"@,
            )
            &&& !success && !nothing && !again && (status == 401 || status == 403) ==> step
                == PollStepView::RollBack(
                "Signal rejected history-transfer authentication; relink this device"@,
            )
            &&& !success && !nothing && !again && status != 401 && status != 403 ==> step
                == PollStepView::Fail(
                "history-transfer poll failed with HTTP "@ + shown + ": "@ + body,
            )
        }),
{
}

/// There are three content networks, and each has its own server.
pub proof fn archives_have_their_servers(cdn: u32)
    ensures
        cdn_base(cdn) is Some <==> cdn == 0 || cdn == 2 || cdn == 3,
        cdn == 0 ==> cdn_base(cdn) == Some("https://cdn.signal.org"@),
        cdn == 2 ==> cdn_base(cdn) == Some("https://cdn2.signal.org"@),
        cdn == 3 ==> cdn_base(cdn) == Some("https://cdn3.signal.org"@),
{
}

/// Only slashes are taken from the front of a name, and all of them.
pub proof fn slashes_go_from_the_front(s: Seq<char>, count: int)
    requires
        0 <= count <= s.len(),
        forall|i: int| 0 <= i < count ==> #[trigger] s[i] == '/',
        count < s.len() ==> s[count] != '/',
    ensures
        without_slashes(s) == s.skip(count),
    decreases count,
{
    if count > 0 {
        assert(s[0] == '/');
        slashes_go_from_the_front(s.drop_first(), count - 1);
        assert(s.drop_first().skip(count - 1) =~= s.skip(count));
    } else {
        assert(s.skip(0) =~= s);
    }
}

/// A download that has begun goes on behind the last byte that is there; one that
/// has not asks for everything.
pub proof fn downloads_go_on_where_they_stopped(downloaded: u64)
    ensures
        downloaded == 0 <==> range_from(downloaded) is None,
        downloaded > 0 ==> range_from(downloaded) == Some(
            "bytes="@ + decimal(downloaded as nat) + "-"@,
        ),
{
}

/// What is missing of a transfer is named.
pub proof fn missing_fields_are_named(field: MissingField)
    ensures
        field is AccountAci ==> missing_text(field)
            == "link-sync state is missing the account ACI"@,
        field is DeviceId ==> missing_text(field)
            == "link-sync state is missing the linked device ID"@,
        field is Password ==> missing_text(field)
            == "link-sync state is missing transfer authentication"@,
{
}

/// The conversations that a refresh reports are those of the incoming messages,
/// in the order in which they came.
pub proof fn refresh_names_the_conversations(events: Seq<NetworkEventView>)
    ensures
        refresh_after_all(events).report.incoming_conversations == events.filter_map(
            |event: NetworkEventView|
                match event {
                    NetworkEventView::Message { conversation, incoming: true } => Some(
                        conversation,
                    ),
                    _ => None,
                },
        ),
    decreases events.len(),
{
    if events.len() > 0 {
        refresh_names_the_conversations(events.drop_last());
        let before = refresh_after_all(events.drop_last()).report.incoming_conversations;
        if let NetworkEventView::Message { conversation, incoming } = events.last() {
            assert(before + seq![conversation] =~= before.push(conversation));
        }
    }
}

/// A refresh is over once the queue was empty and the contacts came, in whichever
/// order; an error and the end of the stream end it before that, and nothing
/// else does.
pub proof fn refresh_waits_for_both(
    events: Seq<NetworkEventView>,
    last: NetworkEventView,
    refresh: PendingRefreshView,
)
    requires
        refresh == refresh_after_all(events),
    ensures
        last matches NetworkEventView::Error(error) ==> refresh_wait(refresh, Some(last))
            == WaitView::Failed(error),
        !(last is Error) ==> {
            let came = events.push(last);
            refresh_wait(refresh, Some(last)) is Done <==> came.contains(
                NetworkEventView::QueueEmpty,
            ) && came.contains(NetworkEventView::ConversationsChanged)
        },
        !(last is Error) ==> !(refresh_wait(refresh, Some(last)) is Failed),
        refresh_wait(refresh, None) is Failed,
{
    let came = events.push(last);
    assert(came.drop_last() =~= events);
    refresh_reports_what_came(came);
}

/// A report begins with nothing in it.
pub proof fn reports_begin_empty(report: SyncReportView)
    requires
        report == empty_report(),
    ensures
        report.imported_messages == 0,
        report.received_messages == 0,
        report.incoming_conversations.len() == 0,
        !report.contacts_updated,
{
}

/// The rest of an archive goes behind the bytes that are there and is counted
/// from them on; the whole replaces them and is counted from the start. Either
/// way it is complete once as many bytes have come as were announced. No more
/// bytes means that it is complete already, and any other answer is a failure.
pub proof fn downloads_resume_or_start_over(
    status: u16,
    shown: Seq<char>,
    content_length: Option<u64>,
    present: u64,
)
    requires
        status == 206 && content_length is Some ==> content_length->0 + present <= u64::MAX,
    ensures
        ({
            let reply = reply_of(status, shown, content_length, present);
            &&& reply is Complete <==> status == 416
            &&& reply is Receive <==> 200 <= status <= 299
            &&& reply is Fail ==> reply == DownloadReplyView::Fail(
                "history archive download failed with HTTP "@ + shown,
            )
            &&& reply matches DownloadReplyView::Receive(download) ==> {
                &&& download.append <==> status == 206 && present > 0
                &&& download.append ==> download.downloaded == present
                &&& !download.append ==> download.downloaded == 0
                &&& download.total is Some <==> content_length is Some
                &&& content_length is Some ==> download.downloaded + content_length->0
                    == download.total->0
            }
        }),
{
}

/// An import needs the key of the archive and the account; with both it waits
/// for the archive, and opens it with them once it is there.
pub proof fn imports_need_key_and_account(state: LinkSyncStateView, archive_exists: bool)
    ensures
        import_start(None, archive_exists) is Nothing,
        ({
            let start = import_start(Some(state), archive_exists);
            let ready = state.ephemeral_backup_key is Some && state.account_aci is Some;
            &&& !ready <==> start is Nothing
            &&& ready && !archive_exists <==> start is Wait
            &&& ready && archive_exists ==> start == (ImportStartView::Open {
                ephemeral_key: state.ephemeral_backup_key->0,
                account_aci: state.account_aci->0,
            })
        }),
{
}

/// A key is thirty-two bytes, written in hexadecimal; every such key is read back
/// as it was written, and nothing of another length is a key.
pub proof fn keys_are_thirty_two_bytes(bytes: Seq<u8>, text: Seq<char>)
    ensures
        bytes.len() == 32 ==> key_of(crate::number::hex_text(bytes)) == Ok::<Seq<u8>, Seq<char>>(bytes),
        bytes.len() != 32 ==> key_of(crate::number::hex_text(bytes)) == Err::<Seq<u8>, Seq<char>>(
            "ephemeral backup key is "@ + decimal(bytes.len()) + " bytes, expected 32"@,
        ),
        hex_bytes(text) is None ==> key_of(text) == Err::<Seq<u8>, Seq<char>>(
            "decode ephemeral backup key: "@ + hex_failure(text),
        ),
        key_of(text) matches Ok(key) ==> key.len() == 32 && text.len() == 64,
{
    crate::number::hex_reads_back(bytes);
    crate::number::hex_is_read_by_twos(text);
}

} // verus!
