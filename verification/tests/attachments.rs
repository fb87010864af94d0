use signal_cli::attachments::{
    after_cache, after_download, check_limits, decode_image_blocking, AfterCache,
    AttachmentCache, CacheEntry, DecodeError, MAX_ATTACHMENT_BYTES, MAX_IMAGE_PIXELS,
};
use signal_cli::attachments::evict_to_limit;
use signal_cli::backend::{ConversationId, ServiceId};
use signal_cli::preferences::{PreferencesStore, SavedConversation};

#[test]
fn malformed_images_are_rejected() {
    assert!(decode_image_blocking(b"not an image").is_err());
}

fn entry(name: &str, modified: i128, size: u64) -> CacheEntry {
    CacheEntry {
        name: name.into(),
        is_file: true,
        modified,
        size,
    }
}

#[test]
fn cache_evicts_oldest_files_to_its_limit() {
    let entries = vec![entry("aaaa", 10, 4), entry("bbbb", 30, 4)];
    assert_eq!(evict_to_limit(&entries, 4), vec!["aaaa"]);
    assert_eq!(evict_to_limit(&entries, 8), Vec::<String>::new());
    assert_eq!(evict_to_limit(&entries, 0), vec!["aaaa", "bbbb"]);
}

#[test]
fn directories_in_the_cache_are_left_alone() {
    let mut directory = entry("dddd", 1, 4_096);
    directory.is_file = false;
    let entries = vec![directory, entry("bbbb", 30, 4), entry("aaaa", 10, 4)];
    assert_eq!(evict_to_limit(&entries, 4), vec!["aaaa"]);
}

#[test]
fn cached_files_are_written_beside_their_place() {
    let cache = AttachmentCache::new("/data/attachments".into());
    assert_eq!(cache.path(), "/data/attachments");
    assert_eq!(cache.file("aabb"), "/data/attachments/aabb");
    assert_eq!(cache.temporary("aabb"), "/data/attachments/.aabb.tmp");
}

fn png(width: u32, height: u32) -> Vec<u8> {
    let mut bytes = Vec::new();
    let picture = image::RgbaImage::from_pixel(width, height, image::Rgba([9, 8, 7, 255]));
    picture
        .write_to(
            &mut std::io::Cursor::new(&mut bytes),
            image::ImageFormat::Png,
        )
        .unwrap();
    bytes
}

#[test]
fn pictures_are_decoded_to_their_pixels() {
    let picture = decode_image_blocking(&png(3, 2)).unwrap();
    assert_eq!((picture.width, picture.height), (3, 2));
    assert_eq!(picture.rgba.len(), 24);
    assert_eq!(picture.rgba[..4], [9, 8, 7, 255]);
}

#[test]
fn large_pictures_are_not_decoded() {
    assert_eq!(
        check_limits(MAX_ATTACHMENT_BYTES + 1, Ok((1, 1))),
        Err(DecodeError::TooLarge)
    );
    assert_eq!(
        check_limits(1, Ok((10_000, 10_000))),
        Err(DecodeError::TooManyPixels)
    );
    assert_eq!(
        check_limits(1, Err("no size".into())),
        Err(DecodeError::Dimensions("no size".into()))
    );
    assert_eq!(check_limits(1, Ok((8_000, 5_000))), Ok(()));
    assert_eq!(MAX_IMAGE_PIXELS, 40_000_000);
    let messages: Vec<String> = [
        DecodeError::TooLarge,
        DecodeError::TooManyPixels,
        DecodeError::Dimensions("x".into()),
        DecodeError::Undecodable("y".into()),
    ]
    .iter()
    .map(DecodeError::message)
    .collect();
    assert!(messages[2].contains("x") && messages[3].contains("y"));
    assert_ne!(messages[0], messages[1]);
}

#[test]
fn the_cache_is_asked_before_the_network() {
    assert!(matches!(after_cache(Ok(None)), AfterCache::Download));
    assert!(matches!(
        after_cache(Ok(Some(b"broken".to_vec()))),
        AfterCache::Replace
    ));
    assert!(matches!(
        after_cache(Ok(Some(png(1, 1)))),
        AfterCache::Show(_)
    ));
    match after_cache(Err("disk".into())) {
        AfterCache::Fail(error) => assert!(error.contains("disk")),
        other => panic!("not a failure: {other:?}"),
    }
    assert_eq!(after_download(&Ok(png(1, 1))).unwrap().width, 1);
    assert!(after_download(&Err("gone".into()))
        .unwrap_err()
        .contains("gone"));
}

#[test]
fn round_trips_group_conversation() {
    let id = ConversationId::Group([42; 32]);
    let saved = SavedConversation::of(&id);
    assert_eq!(saved, SavedConversation::Group("2a".repeat(32)));
    assert_eq!(saved.into_conversation_id(None), Some(id));
    let store = PreferencesStore::new("ui.json".into());
    assert_eq!(store.path(), "ui.json");
    assert_eq!(store.temporary_path(), "ui.json.tmp");
}

#[test]
fn saved_contacts_need_a_readable_identity() {
    let service = || ServiceId {
        text: "0b9240d8-ae86-42dd-bb03-df2805b010b7".into(),
    };
    let id = ConversationId::Contact(service());
    let saved = || SavedConversation::of(&id);
    assert_eq!(saved().into_conversation_id(Some(service())), Some(ConversationId::Contact(service())));
    assert_eq!(saved().into_conversation_id(None), None);
    assert_eq!(
        SavedConversation::Group("2a".into()).into_conversation_id(None),
        None
    );
}
