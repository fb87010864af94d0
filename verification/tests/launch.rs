use signal_cli::json::Json;
use signal_cli::launch::{
    attachment_cache_path, data_path, error_json, error_text, import_message,
    link_progress_message, local_data_files, log_filter, preference_path, NO_DATA_DIRECTORY,
    UPDATE_NOTICE_MILLIS,
};
use signal_cli::paths::{join_path, with_suffix};
use signal_cli::sync::SyncProgress;

#[test]
fn main_explicit_data_path_wins() {
    let path = String::from("/tmp/signal-test.db");
    assert_eq!(data_path(Some(path.clone()), None).unwrap(), path);
}

#[test]
fn explicit_data_path_wins() {
    let path = String::from("/tmp/signal-test.db");
    assert_eq!(
        data_path(Some(path.clone()), Some("/home/me".into())).unwrap(),
        path
    );
}

#[test]
fn data_stands_in_the_data_directory_otherwise() {
    assert_eq!(
        data_path(None, Some("/home/me/.local/share/signal".into())).unwrap(),
        "/home/me/.local/share/signal/signal.db"
    );
    assert_eq!(data_path(None, None).unwrap_err(), NO_DATA_DIRECTORY);
}

#[test]
fn disconnect_removes_database_and_sidecars() {
    let database = "signal.db";
    let preferences = preference_path(database);
    let files = local_data_files(database, &preferences);
    assert!(files.contains(&database.to_string()));
    assert!(files.contains(&"signal.db-wal".to_string()));
    assert!(files.contains(&"signal.db-shm".to_string()));
    assert!(files.contains(&preferences));
    assert!(files.contains(&(preferences.clone() + ".tmp")));
    assert_eq!(attachment_cache_path(database), "signal.db.attachments");
    assert_eq!(preferences, "signal.db.ui.json");
    assert_eq!(files.len(), 5);
}

#[test]
fn paths_are_joined_as_the_system_does() {
    assert_eq!(join_path("/data", "signal.db"), "/data/signal.db");
    assert_eq!(join_path("/data/", "signal.db"), "/data/signal.db");
    assert_eq!(join_path("", "signal.db"), "signal.db");
    assert_eq!(join_path("/data", "/other"), "/other");
    assert_eq!(with_suffix("a", ".tmp"), "a.tmp");
}

#[test]
fn progress_is_reported_in_words() {
    assert_eq!(
        link_progress_message(SyncProgress::WaitingForPhone),
        "Waiting for phone to prepare history"
    );
    assert_eq!(
        link_progress_message(SyncProgress::Downloading {
            downloaded_bytes: 50,
            total_bytes: Some(200)
        }),
        "Downloading history: 50/200 bytes (25%)"
    );
    assert_eq!(
        link_progress_message(SyncProgress::Downloading {
            downloaded_bytes: u64::MAX,
            total_bytes: Some(u64::MAX)
        }),
        "Downloading history: 18446744073709551615/18446744073709551615 bytes (1%)"
    );
    assert_eq!(
        link_progress_message(SyncProgress::Downloading {
            downloaded_bytes: 7,
            total_bytes: Some(0)
        }),
        "Downloading history: 7 bytes"
    );
    assert_eq!(
        link_progress_message(SyncProgress::Downloading {
            downloaded_bytes: 7,
            total_bytes: None
        }),
        "Downloading history: 7 bytes"
    );
    assert_eq!(
        link_progress_message(SyncProgress::Validating),
        "Validating history archive"
    );
    assert_eq!(
        link_progress_message(SyncProgress::Importing {
            imported_messages: 3
        }),
        "Importing history: 3 messages"
    );
    assert_eq!(
        link_progress_message(SyncProgress::RefreshingPending),
        "Refreshing contacts and queued messages"
    );
}

#[test]
fn an_empty_import_is_not_mentioned() {
    assert_eq!(import_message(0), None);
    assert_eq!(
        import_message(12),
        Some("History import complete: 12 messages".into())
    );
}

#[test]
fn errors_are_shown_to_readers_and_machines() {
    assert_eq!(error_text("no chat"), "error: no chat");
    assert_eq!(
        error_json("no chat".into()),
        Json::Object(vec![("error".into(), Json::Text("no chat".into()))])
    );
}

#[test]
fn only_diagnostics_are_verbose() {
    assert_eq!(log_filter(true), "signal=debug,warn");
    assert_eq!(log_filter(false), "error");
    assert_eq!(UPDATE_NOTICE_MILLIS, 8_000);
}
