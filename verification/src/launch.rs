//! The start of the program: where its data stands, and what it reports.
use vstd::prelude::*;

use crate::json::{no_fields, object, put, Json, JsonView};
use crate::number::{decimal, decimal_text};
use crate::paths::{join_path, joined_path, with_suffix};
use crate::sync::SyncProgress;
use crate::text::{optional, texts};

verus! {

/// Why the program has no place for its data.
pub const NO_DATA_DIRECTORY: &'static str = "could not determine the user data directory";

/// How long the notice of an update is shown, in milliseconds.
pub const UPDATE_NOTICE_MILLIS: u64 = 8_000;

/// The database: the one that was asked for, or one in the data directory.
pub open spec fn database_path(
    override_path: Option<Seq<char>>,
    directory: Option<Seq<char>>,
) -> Option<Seq<char>> {
    match override_path {
        Some(path) => Some(path),
        None => match directory {
            Some(directory) => Some(joined_path(directory, "signal.db"@)),
            None => None,
        },
    }
}

/// The database: the one that was asked for, or one in the data directory.
pub fn data_path(override_path: Option<String>, directory: Option<String>) -> (path: Result<
    String,
    String,
>)
    ensures
        match database_path(optional(override_path), optional(directory)) {
            Some(expected) => path matches Ok(path) && path@ == expected,
            None => path matches Err(error) && error@ == NO_DATA_DIRECTORY@,
        },
{
    match override_path {
        Some(path) => Ok(path),
        None => match directory {
            Some(directory) => Ok(join_path(directory.as_str(), "signal.db")),
            None => Err(NO_DATA_DIRECTORY.to_owned()),
        },
    }
}

/// Where the preferences of a database stand.
pub fn preference_path(database: &str) -> (path: String)
    ensures
        path@ == database@ + ".ui.json"@,
{
    with_suffix(database, ".ui.json")
}

/// Where the attachments of a database are kept.
pub fn attachment_cache_path(database: &str) -> (path: String)
    ensures
        path@ == database@ + ".attachments"@,
{
    with_suffix(database, ".attachments")
}

/// The files that hold local data, in the order of their removal.
pub open spec fn data_files(database: Seq<char>, preferences: Seq<char>) -> Seq<Seq<char>> {
    seq![
        database,
        database + "-wal"@,
        database + "-shm"@,
        preferences,
        preferences + ".tmp"@,
    ]
}

/// The files to remove with the local data. The attachments are removed behind
/// them, as a directory.
pub fn local_data_files(database: &str, preferences: &str) -> (files: Vec<String>)
    ensures
        texts(files@) == data_files(database@, preferences@),
{
    let mut files: Vec<String> = Vec::new();
    files.push(database.to_owned());
    files.push(with_suffix(database, "-wal"));
    files.push(with_suffix(database, "-shm"));
    files.push(preferences.to_owned());
    files.push(with_suffix(preferences, ".tmp"));
    assert(texts(files@) =~= data_files(database@, preferences@));
    files
}

/// The removal of local data takes the database with its companions, and the
/// preferences with the file that they are first written to.
pub proof fn removal_takes_every_file(database: Seq<char>)
    ensures
        data_files(database, database + ".ui.json"@).contains(database),
        data_files(database, database + ".ui.json"@).contains(database + "-wal"@),
        data_files(database, database + ".ui.json"@).contains(database + "-shm"@),
        data_files(database, database + ".ui.json"@).contains(database + ".ui.json"@),
        data_files(database, database + ".ui.json"@).contains(database + ".ui.json"@ + ".tmp"@),
{
    let files = data_files(database, database + ".ui.json"@);
    assert(files[0] == database);
    assert(files[1] == database + "-wal"@);
    assert(files[2] == database + "-shm"@);
    assert(files[3] == database + ".ui.json"@);
    assert(files[4] == database + ".ui.json"@ + ".tmp"@);
}

/// How much of a download is done, in hundredths.
pub open spec fn percent_of(downloaded: u64, total: u64) -> nat {
    (if downloaded * 100 > u64::MAX {
        u64::MAX as int
    } else {
        downloaded * 100
    } / (total as int)) as nat
}

fn percent(downloaded: u64, total: u64) -> (percent: u64)
    requires
        total > 0,
    ensures
        percent == percent_of(downloaded, total),
{
    let hundredfold: u64 = if downloaded > u64::MAX / 100 {
        u64::MAX
    } else {
        downloaded * 100
    };
    hundredfold / total
}

/// What is shown of the progress of a history transfer.
pub open spec fn progress_text(progress: SyncProgress) -> Seq<char> {
    match progress {
        SyncProgress::WaitingForPhone => "Waiting for phone to prepare history"@,
        SyncProgress::Downloading { downloaded_bytes, total_bytes } => match total_bytes {
            Some(total) if total > 0 => "Downloading history: "@ + decimal(downloaded_bytes as nat)
                + "/"@ + decimal(total as nat) + " bytes ("@ + decimal(
                percent_of(downloaded_bytes, total),
            ) + "%)"@,
            _ => "Downloading history: "@ + decimal(downloaded_bytes as nat) + " bytes"@,
        },
        SyncProgress::Validating => "Validating history archive"@,
        SyncProgress::Importing { imported_messages } => "Importing history: "@ + decimal(
            imported_messages as nat,
        ) + " messages"@,
        SyncProgress::RefreshingPending => "Refreshing contacts and queued messages"@,
    }
}

/// What is shown of the progress of a history transfer.
pub fn link_progress_message(progress: SyncProgress) -> (text: String)
    ensures
        text@ == progress_text(progress),
{
    match progress {
        SyncProgress::WaitingForPhone => "Waiting for phone to prepare history".to_owned(),
        SyncProgress::Downloading { downloaded_bytes, total_bytes } => {
            let mut text: String = "Downloading history: ".to_owned();
            text.push_str(decimal_text(downloaded_bytes).as_str());
            match total_bytes {
                Some(total) => {
                    if total > 0 {
                        text.push_str("/");
                        text.push_str(decimal_text(total).as_str());
                        text.push_str(" bytes (");
                        text.push_str(decimal_text(percent(downloaded_bytes, total)).as_str());
                        text.push_str("%)");
                        return text;
                    }
                },
                None => {},
            }
            text.push_str(" bytes");
            text
        },
        SyncProgress::Validating => "Validating history archive".to_owned(),
        SyncProgress::Importing { imported_messages } => {
            let mut text: String = "Importing history: ".to_owned();
            text.push_str(decimal_text(imported_messages).as_str());
            text.push_str(" messages");
            text
        },
        SyncProgress::RefreshingPending => "Refreshing contacts and queued messages".to_owned(),
    }
}

/// What is shown once the history is imported, if it held any message.
pub fn import_message(imported_messages: u64) -> (text: Option<String>)
    ensures
        optional(text) == (if imported_messages > 0 {
            Some(
                "History import complete: "@ + decimal(imported_messages as nat) + " messages"@,
            )
        } else {
            None
        }),
{
    if imported_messages > 0 {
        let mut text: String = "History import complete: ".to_owned();
        text.push_str(decimal_text(imported_messages).as_str());
        text.push_str(" messages");
        Some(text)
    } else {
        None
    }
}

/// What is logged if the environment does not say.
pub fn log_filter(verbose: bool) -> (filter: String)
    ensures
        filter@ == (if verbose {
            "signal=debug,warn"@
        } else {
            "error"@
        }),
{
    if verbose {
        "signal=debug,warn".to_owned()
    } else {
        "error".to_owned()
    }
}

/// An error for a machine.
pub fn error_json(message: String) -> (json: Json)
    ensures
        json@ == JsonView::Object(seq![("error"@, JsonView::Text(message@))]),
{
    let ghost text = message@;
    let mut fields = no_fields();
    put(&mut fields, "error", Json::Text(message));
    let json = object(fields);
    assert(json@->Object_0 =~= seq![("error"@, JsonView::Text(text))]);
    json
}

/// An error for a reader.
pub fn error_text(message: &str) -> (text: String)
    ensures
        text@ == "error: "@ + message@,
{
    let mut text: String = "error: ".to_owned();
    text.push_str(message);
    text
}

/// The database is where it was asked to be, or else in the data directory under
/// its own name.
pub proof fn database_is_found(path: Seq<char>, directory: Option<Seq<char>>)
    ensures
        database_path(Some(path), directory) == Some(path),
        database_path(None, None) is None,
        directory matches Some(directory) ==> database_path(None, Some(directory)) == Some(
            joined_path(directory, "signal.db"@),
        ),
{
}

/// A download is shown in bytes, and as a share of the whole where that is known:
/// the share is a hundredth part that is reached, and all of it at the end.
pub proof fn progress_is_a_share(downloaded: u64, total: u64)
    requires
        0 < total,
        downloaded <= total,
        downloaded <= 184_467_440_737_095_516,
    ensures
        percent_of(downloaded, total) * total <= downloaded * 100,
        downloaded * 100 < (percent_of(downloaded, total) + 1) * total,
        downloaded == total ==> percent_of(downloaded, total) == 100,
        downloaded == 0 ==> percent_of(downloaded, total) == 0,
{
    let parts = downloaded * 100;
    let whole = total as int;
    assert(parts / whole * whole <= parts < (parts / whole + 1) * whole) by (nonlinear_arith)
        requires
            0 <= parts,
            0 < whole,
    ;
    assert(percent_of(downloaded, total) == parts / whole) by {
        assert(0 <= parts / whole) by (nonlinear_arith)
            requires
                0 <= parts,
                0 < whole,
        ;
    }
    if downloaded == total {
        assert(parts / whole == 100) by (nonlinear_arith)
            requires
                parts == 100 * whole,
                0 < whole,
        ;
    }
    if downloaded == 0 {
        assert(parts / whole == 0) by (nonlinear_arith)
            requires
                parts == 0,
                0 < whole,
        ;
    }
}

/// What each step of a transfer is reported as.
pub proof fn progress_is_worded(done: u64, total: u64, imported: u64)
    ensures
        progress_text(SyncProgress::WaitingForPhone) == "Waiting for phone to prepare history"@,
        progress_text(SyncProgress::Validating) == "Validating history archive"@,
        progress_text(SyncProgress::RefreshingPending)
            == "Refreshing contacts and queued messages"@,
        progress_text(SyncProgress::Importing { imported_messages: imported })
            == "Importing history: "@ + decimal(imported as nat) + " messages"@,
        progress_text(SyncProgress::Downloading { downloaded_bytes: done, total_bytes: None })
            == "Downloading history: "@ + decimal(done as nat) + " bytes"@,
        total == 0 ==> progress_text(
            SyncProgress::Downloading { downloaded_bytes: done, total_bytes: Some(total) },
        ) == "Downloading history: "@ + decimal(done as nat) + " bytes"@,
        total > 0 ==> progress_text(
            SyncProgress::Downloading { downloaded_bytes: done, total_bytes: Some(total) },
        ) == "Downloading history: "@ + decimal(done as nat) + "/"@ + decimal(total as nat)
            + " bytes ("@ + decimal(percent_of(done, total)) + "%)"@,
{
}

/// The files of an installation are the database with its two companions, and
/// the preferences with their temporary copy; there are no others.
pub proof fn there_are_five_files(database: Seq<char>, preferences: Seq<char>, file: Seq<char>)
    ensures
        data_files(database, preferences).contains(file) <==> file == database || file == database
            + "-wal"@ || file == database + "-shm"@ || file == preferences || file == preferences
            + ".tmp"@,
{
    let files = data_files(database, preferences);
    assert(files[0] == database);
    assert(files[1] == database + "-wal"@);
    assert(files[2] == database + "-shm"@);
    assert(files[3] == preferences);
    assert(files[4] == preferences + ".tmp"@);
}

} // verus!
