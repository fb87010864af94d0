use signal_cli::backend::{ConversationId, NetworkEvent, Wait, STREAM_ENDED};
use signal_cli::sync::{
    backup_key, download_reply, download_request, may_poll, poll_reply, start_import,
    start_transfer, Download, DownloadReply, ImportStart, LinkSyncPaths, LinkSyncState,
    MissingField, PendingRefresh, PollStep, SyncProgress, SyncReport, TransferArchive,
    TransferOutcome, TransferStart, RELINK_REQUESTED, TRANSFER_REJECTED,
};

#[test]
fn cleanup_names_every_sidecar() {
    let paths = LinkSyncPaths::for_database("signal.db");
    assert_eq!(paths.state, "signal.db.sync.json");
    assert_eq!(paths.archive, "signal.db.transfer.partial");
    assert_eq!(
        paths.cleanup(),
        vec![
            "signal.db.sync.json",
            "signal.db.sync.json.tmp",
            "signal.db.transfer.partial"
        ]
    );
}

fn state() -> LinkSyncState {
    LinkSyncState {
        ephemeral_backup_key: Some("secret".into()),
        account_aci: Some("aci".into()),
        device_id: Some(3),
        password: Some("pass".into()),
        ..Default::default()
    }
}

#[test]
fn a_transfer_starts_where_it_stopped() {
    assert_eq!(
        start_transfer(&None, true),
        TransferStart::Finish(TransferOutcome::NoTransfer)
    );
    assert_eq!(
        start_transfer(&Some(LinkSyncState::default()), false),
        TransferStart::CleanUp
    );
    assert_eq!(
        start_transfer(&Some(state()), false),
        TransferStart::Poll {
            username: "aci.3".into(),
            password: "pass".into()
        }
    );
    let archive = TransferArchive {
        cdn: 2,
        key: "place".into(),
    };
    let mut located = state();
    located.locate(&archive);
    assert_eq!(
        start_transfer(&Some(located.clone()), false),
        TransferStart::Download(archive)
    );
    located.complete();
    assert_eq!(
        start_transfer(&Some(located), true),
        TransferStart::Finish(TransferOutcome::Ready)
    );
}

#[test]
fn a_transfer_needs_its_credentials() {
    let start = |change: fn(&mut LinkSyncState)| {
        let mut changed = state();
        change(&mut changed);
        start_transfer(&Some(changed), false)
    };
    assert_eq!(
        start(|state| state.account_aci = None),
        TransferStart::Fail(MissingField::AccountAci)
    );
    assert_eq!(
        start(|state| state.device_id = None),
        TransferStart::Fail(MissingField::DeviceId)
    );
    assert_eq!(
        start(|state| state.password = None),
        TransferStart::Fail(MissingField::Password)
    );
    assert_eq!(
        MissingField::AccountAci.message(),
        "link-sync state is missing the account ACI"
    );
    assert_eq!(
        MissingField::DeviceId.message(),
        "link-sync state is missing the linked device ID"
    );
    assert_eq!(
        MissingField::Password.message(),
        "link-sync state is missing transfer authentication"
    );
}

#[test]
fn answers_about_the_archive_are_told_apart() {
    assert_eq!(poll_reply(204, "204 No Content", ""), PollStep::Wait);
    assert_eq!(poll_reply(200, "200 OK", "{}"), PollStep::Located);
    assert_eq!(
        poll_reply(409, "409 Conflict", "{\"error\":\"CONTINUE_WITHOUT_UPLOAD\"}"),
        PollStep::CleanUp
    );
    assert_eq!(
        poll_reply(409, "409 Conflict", "RELINK_REQUESTED"),
        PollStep::RollBack(RELINK_REQUESTED)
    );
    assert_eq!(
        poll_reply(403, "403 Forbidden", ""),
        PollStep::RollBack(TRANSFER_REJECTED)
    );
    assert_eq!(
        poll_reply(500, "500 Internal Server Error", "oops"),
        PollStep::Fail(
            "history-transfer poll failed with HTTP 500 Internal Server Error: oops".into()
        )
    );
    assert!(may_poll(299_999));
    assert!(!may_poll(300_000));
}

#[test]
fn a_download_resumes_behind_what_is_there() {
    let archive = |cdn| TransferArchive {
        cdn,
        key: "//a/b".into(),
    };
    let request = download_request(&archive(3), 500).unwrap();
    assert_eq!(request.url, "https://cdn3.signal.org/attachments/a/b");
    assert_eq!(request.range.as_deref(), Some("bytes=500-"));
    assert_eq!(download_request(&archive(0), 0).unwrap().range, None);
    assert_eq!(
        download_request(&archive(1), 0).unwrap_err(),
        "unsupported Signal history-transfer CDN 1"
    );

    assert_eq!(
        download_reply(416, "416", None, 500),
        DownloadReply::Complete
    );
    let mut download = Download {
        append: true,
        downloaded: 500,
        total: Some(600),
    };
    assert_eq!(
        download_reply(206, "206", Some(100), 500),
        DownloadReply::Receive(download)
    );
    assert_eq!(
        download_reply(200, "200", Some(600), 500),
        DownloadReply::Receive(Download {
            append: false,
            downloaded: 0,
            total: Some(600)
        })
    );
    assert_eq!(
        download_reply(200, "200", Some(u64::MAX), 500),
        DownloadReply::Receive(Download {
            append: false,
            downloaded: 0,
            total: Some(u64::MAX)
        })
    );
    assert_eq!(
        download_reply(416, "416", Some(u64::MAX), 500),
        DownloadReply::Complete
    );
    assert_eq!(
        download_reply(404, "404 Not Found", None, 0),
        DownloadReply::Fail("history archive download failed with HTTP 404 Not Found".into())
    );
    let mut state = state();
    assert_eq!(
        download.receive(&mut state, 60),
        SyncProgress::Downloading {
            downloaded_bytes: 560,
            total_bytes: Some(600)
        }
    );
    assert_eq!(state.downloaded_bytes, 560);
    state.checkpoint(12);
    assert_eq!(state.imported_messages, 12);
}

#[test]
fn an_import_needs_the_archive_and_the_key() {
    assert_eq!(start_import(&None, true), ImportStart::Nothing);
    assert_eq!(start_import(&Some(state()), false), ImportStart::Wait);
    assert_eq!(
        start_import(&Some(state()), true),
        ImportStart::Open {
            ephemeral_key: "secret".into(),
            account_aci: "aci".into()
        }
    );
    assert_eq!(backup_key(&"01".repeat(32)), Ok([1; 32]));
    assert_eq!(
        backup_key("0102"),
        Err("ephemeral backup key is 2 bytes, expected 32".into())
    );
    assert_eq!(
        backup_key("zz"),
        Err("decode ephemeral backup key: Invalid character 'z' at position 0".into())
    );
    assert_eq!(
        backup_key("012"),
        Err("decode ephemeral backup key: Odd number of digits".into())
    );
}

#[test]
fn a_refresh_ends_with_the_queue_and_the_contacts() {
    let message = |incoming| NetworkEvent::Message {
        conversation: ConversationId::Group([1; 32]),
        incoming,
    };
    let mut refresh = PendingRefresh::new();
    assert_eq!(
        refresh.refresh_pending(Some(message(true))),
        Wait::Pending
    );
    assert_eq!(
        refresh.refresh_pending(Some(message(false))),
        Wait::Pending
    );
    assert_eq!(
        refresh.refresh_pending(Some(NetworkEvent::QueueEmpty)),
        Wait::Pending
    );
    assert_eq!(
        refresh.refresh_pending(Some(NetworkEvent::ConversationsChanged)),
        Wait::Done
    );
    assert_eq!(refresh.report.received_messages, 2);
    assert_eq!(
        refresh.report.incoming_conversations,
        vec![ConversationId::Group([1; 32])]
    );
    assert_eq!(
        refresh.refresh_pending(None),
        Wait::Failed(STREAM_ENDED.into())
    );
    assert_eq!(
        refresh.refresh_pending(Some(NetworkEvent::Error("lost".into()))),
        Wait::Failed("lost".into())
    );
    assert_eq!(SyncReport::of_import(4).imported_messages, 4);
}
