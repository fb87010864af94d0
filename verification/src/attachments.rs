//! Attachments on disk and as pictures.
use std::sync::Arc;

use vstd::prelude::*;

use crate::backend::ChatAttachment;
use crate::order::{
    as_ints, is_order, key_views, lemma_holds_every_index, order_exists, order_holds_every_index,
    sort_indices, sorted_by_key, stable_order, SortKey, SortKeyView,
};
use crate::paths::{join_path, joined_path};
use crate::text::{chars_of, has_prefix, same_text, starts_with, texts};

verus! {

/// The largest attachment that is shown, in bytes.
pub const MAX_ATTACHMENT_BYTES: usize = 52_428_800;

/// The largest image that is shown, in pixels.
pub const MAX_IMAGE_PIXELS: u64 = 40_000_000;

/// The size that the cache on disk is kept to, in bytes.
pub const MAX_CACHE_BYTES: u64 = 262_144_000;

// ---------------------------------------------------------------------------
// The cache
// ---------------------------------------------------------------------------

/// A directory with one file for each attachment.
#[derive(Debug)]
pub struct AttachmentCache {
    pub directory: String,
}

impl Clone for AttachmentCache {
    fn clone(&self) -> (copy: Self)
        ensures
            copy.directory@ == self.directory@,
    {
        AttachmentCache { directory: self.directory.clone() }
    }
}

impl AttachmentCache {
    pub fn new(path: String) -> (cache: AttachmentCache)
        ensures
            cache.directory@ == path@,
    {
        AttachmentCache { directory: path }
    }

    pub fn path(&self) -> (path: &str)
        ensures
            path@ == self.directory@,
    {
        self.directory.as_str()
    }

    /// The file of an attachment.
    pub fn file(&self, key: &str) -> (path: String)
        ensures
            path@ == joined_path(self.directory@, key@),
    {
        join_path(self.directory.as_str(), key)
    }

    /// The file that an attachment is written to before it gets its own name.
    pub fn temporary(&self, key: &str) -> (path: String)
        ensures
            path@ == joined_path(self.directory@, "."@ + key@ + ".tmp"@),
    {
        let mut name: String = ".".to_owned();
        name.push_str(key);
        name.push_str(".tmp");
        join_path(self.directory.as_str(), name.as_str())
    }
}

/// A directory entry of the cache. The time of its last change is in
/// nanoseconds since the Unix epoch.
#[derive(Debug, PartialEq, Eq)]
pub struct CacheEntry {
    pub name: String,
    pub is_file: bool,
    pub modified: i128,
    pub size: u64,
}

#[verifier::ext_equal]
pub struct CacheEntryView {
    pub name: Seq<char>,
    pub is_file: bool,
    pub modified: int,
    pub size: nat,
}

impl View for CacheEntry {
    type V = CacheEntryView;

    open spec fn view(&self) -> CacheEntryView {
        CacheEntryView {
            name: self.name@,
            is_file: self.is_file,
            modified: self.modified as int,
            size: self.size as nat,
        }
    }
}

impl Clone for CacheEntry {
    fn clone(&self) -> (copy: Self)
        ensures
            copy@ == self@,
    {
        CacheEntry {
            name: self.name.clone(),
            is_file: self.is_file,
            modified: self.modified,
            size: self.size,
        }
    }
}

pub open spec fn entry_views(entries: Seq<CacheEntry>) -> Seq<CacheEntryView> {
    entries.map_values(|entry: CacheEntry| entry@)
}

/// Whether an entry counts toward the size of the cache: files do, but for the
/// hidden ones that are still being written.
pub open spec fn counts(entry: CacheEntryView) -> bool {
    entry.is_file && !has_prefix(entry.name, "."@)
}

/// The entries that count.
pub open spec fn counted(entries: Seq<CacheEntryView>) -> Seq<CacheEntryView>
    decreases entries.len(),
{
    if entries.len() == 0 {
        Seq::empty()
    } else if counts(entries.last()) {
        counted(entries.drop_last()).push(entries.last())
    } else {
        counted(entries.drop_last())
    }
}

/// The size of all entries together.
pub open spec fn total_size(entries: Seq<CacheEntryView>) -> nat
    decreases entries.len(),
{
    if entries.len() == 0 {
        0
    } else {
        total_size(entries.drop_last()) + entries.last().size
    }
}

/// A size as the eviction sees it, at most what 64 bits hold.
pub open spec fn capped(size: nat) -> nat {
    if size <= u64::MAX {
        size
    } else {
        u64::MAX as nat
    }
}

pub open spec fn age_key(entry: CacheEntryView) -> SortKeyView {
    SortKeyView { number: entry.modified, first: ""@, second: ""@ }
}

/// The entries that count, the one changed longest ago first.
pub open spec fn oldest_first(entries: Seq<CacheEntryView>) -> Seq<CacheEntryView> {
    let list = counted(entries);
    sorted_by_key(list, list.map_values(|entry: CacheEntryView| age_key(entry)))
}

/// How many entries go, from the front, until the total is within the limit.
pub open spec fn evicted_count(entries: Seq<CacheEntryView>, total: nat, limit: nat) -> nat
    decreases entries.len(),
{
    if entries.len() == 0 || total <= limit {
        0
    } else {
        let left = if total >= entries[0].size {
            (total - entries[0].size) as nat
        } else {
            0
        };
        1 + evicted_count(entries.drop_first(), left, limit)
    }
}

/// The entries that go so that the cache is within the limit.
pub open spec fn evicted(entries: Seq<CacheEntryView>, limit: nat) -> Seq<CacheEntryView> {
    let sorted = oldest_first(entries);
    sorted.take(evicted_count(sorted, capped(total_size(counted(entries))), limit) as int)
}

pub open spec fn entry_names(entries: Seq<CacheEntryView>) -> Seq<Seq<char>> {
    entries.map_values(|entry: CacheEntryView| entry.name)
}

proof fn lemma_evicted_count(entries: Seq<CacheEntryView>, total: nat, limit: nat)
    ensures
        evicted_count(entries, total, limit) <= entries.len(),
    decreases entries.len(),
{
    if entries.len() > 0 && total > limit {
        let left = if total >= entries[0].size {
            (total - entries[0].size) as nat
        } else {
            0
        };
        lemma_evicted_count(entries.drop_first(), left, limit);
    }
}

fn counted_entries(entries: &Vec<CacheEntry>) -> (list: Vec<CacheEntry>)
    ensures
        entry_views(list@) == counted(entry_views(entries@)),
{
    let ghost views = entry_views(entries@);
    let mut list: Vec<CacheEntry> = Vec::new();
    assert(entry_views(list@) =~= counted(views.take(0)));
    for i in 0..entries.len()
        invariant
            views == entry_views(entries@),
            entry_views(list@) == counted(views.take(i as int)),
    {
        assert(views.take(i + 1).drop_last() =~= views.take(i as int));
        assert(views.take(i + 1).last() == entries@[i as int]@);
        let entry = &entries[i];
        if entry.is_file && !starts_with(entry.name.as_str(), ".") {
            let ghost before = entry_views(list@);
            let copy = entry.clone();
            list.push(copy);
            assert(entry_views(list@) =~= before.push(copy@));
        }
    }
    assert(views.take(views.len() as int) =~= views);
    list
}

fn sorted_by_age(list: &Vec<CacheEntry>) -> (sorted: Vec<CacheEntry>)
    ensures
        entry_views(sorted@) == sorted_by_key(
            entry_views(list@),
            entry_views(list@).map_values(|entry: CacheEntryView| age_key(entry)),
        ),
{
    let ghost views = entry_views(list@);
    let ghost ages = views.map_values(|entry: CacheEntryView| age_key(entry));
    let mut keys: Vec<SortKey> = Vec::new();
    for i in 0..list.len()
        invariant
            keys@.len() == i,
            forall|j: int| 0 <= j < i ==> (#[trigger] keys@[j])@ == age_key(list@[j]@),
    {
        keys.push(
            SortKey { number: list[i].modified, first: "".to_owned(), second: "".to_owned() },
        );
    }
    let order = sort_indices(&keys);
    assert(key_views(keys@) =~= ages);
    let mut sorted: Vec<CacheEntry> = Vec::new();
    for i in 0..order.len()
        invariant
            is_order(key_views(keys@), as_ints(order@)),
            keys@.len() == list@.len(),
            sorted@.len() == i,
            forall|j: int| 0 <= j < i ==> (#[trigger] sorted@[j])@ == list@[order@[j] as int]@,
    {
        assert(as_ints(order@)[i as int] == order@[i as int]);
        sorted.push(list[order[i]].clone());
    }
    proof {
        let ints = as_ints(order@);
        assert forall|j: int| 0 <= j < sorted@.len() implies (#[trigger] sorted@[j])@
            == views[ints[j]] by {
            assert(ints[j] == order@[j]);
            assert(0 <= ints[j] < keys@.len());
        }
        assert(entry_views(sorted@) =~= sorted_by_key(views, ages));
    }
    sorted
}

/// The names of the entries to remove, in that order, so that the cache is
/// within the limit.
pub fn evict_to_limit(entries: &Vec<CacheEntry>, limit: u64) -> (names: Vec<String>)
    ensures
        texts(names@) == entry_names(evicted(entry_views(entries@), limit as nat)),
{
    let list = counted_entries(entries);
    let ghost list_views = entry_views(list@);
    let mut total: u64 = 0;
    for i in 0..list.len()
        invariant
            list_views == entry_views(list@),
            total == capped(total_size(list_views.take(i as int))),
    {
        assert(list_views.take(i + 1).drop_last() =~= list_views.take(i as int));
        assert(list_views.take(i + 1).last() == list@[i as int]@);
        total = total.saturating_add(list[i].size);
    }
    assert(list_views.take(list_views.len() as int) =~= list_views);
    let sorted = sorted_by_age(&list);
    let ghost all = entry_views(sorted@);
    let ghost start = total as nat;
    let ghost goal = evicted_count(all, start, limit as nat);
    proof {
        lemma_evicted_count(all, start, limit as nat);
        assert(all.skip(0) =~= all);
    }
    let mut names: Vec<String> = Vec::new();
    let mut i: usize = 0;
    while i < sorted.len() && total > limit
        invariant
            all == entry_views(sorted@),
            i <= sorted@.len(),
            goal == i + evicted_count(all.skip(i as int), total as nat, limit as nat),
            names@.len() == i,
            forall|j: int| 0 <= j < i ==> (#[trigger] names@[j])@ == all[j].name,
        decreases sorted@.len() - i,
    {
        assert(all.skip(i as int).drop_first() =~= all.skip(i + 1));
        assert(all.skip(i as int)[0] == sorted@[i as int]@);
        names.push(sorted[i].name.clone());
        total = total.saturating_sub(sorted[i].size);
        i = i + 1;
    }
    assert(texts(names@) =~= entry_names(all.take(goal as int)));
    names
}

proof fn lemma_total_split(entries: Seq<CacheEntryView>, at: int)
    requires
        0 <= at <= entries.len(),
    ensures
        total_size(entries) == total_size(entries.take(at)) + total_size(entries.skip(at)),
    decreases entries.len() - at,
{
    if at == entries.len() {
        assert(entries.take(at) =~= entries);
        assert(total_size(entries.skip(at)) == 0);
    } else {
        let shorter = entries.drop_last();
        lemma_total_split(shorter, at);
        assert(shorter.take(at) =~= entries.take(at));
        assert(entries.skip(at).drop_last() =~= shorter.skip(at));
        assert(entries.skip(at).last() == entries.last());
    }
}

proof fn lemma_eviction(entries: Seq<CacheEntryView>, limit: nat)
    ensures
        ({
            let count = evicted_count(entries, total_size(entries), limit);
            &&& count <= entries.len()
            &&& total_size(entries.skip(count as int)) <= limit
            &&& count > 0 ==> total_size(entries.skip(count - 1)) > limit
        }),
    decreases entries.len(),
{
    let total = total_size(entries);
    if entries.len() == 0 || total <= limit {
        assert(entries.skip(0) =~= entries);
    } else {
        let rest = entries.drop_first();
        lemma_total_split(entries, 1);
        assert(entries.skip(1) =~= rest);
        let front = entries.take(1);
        assert(front.drop_last() =~= Seq::<CacheEntryView>::empty());
        assert(total_size(front.drop_last()) == 0);
        assert(total_size(front) == entries[0].size);
        lemma_eviction(rest, limit);
        let count = evicted_count(rest, total_size(rest), limit);
        assert(rest.skip(count as int) =~= entries.skip(count as int + 1));
        if count > 0 {
            assert(rest.skip(count - 1) =~= entries.skip(count as int));
        } else {
            assert(entries.skip(0) =~= entries);
        }
    }
}

proof fn lemma_total_remove(entries: Seq<CacheEntryView>, at: int)
    requires
        0 <= at < entries.len(),
    ensures
        total_size(entries) == total_size(entries.remove(at)) + entries[at].size,
{
    let shorter = entries.remove(at);
    lemma_total_split(entries, at);
    lemma_total_split(shorter, at);
    assert(shorter.take(at) =~= entries.take(at));
    assert(shorter.skip(at) =~= entries.skip(at + 1));
    let tail = entries.skip(at);
    lemma_total_split(tail, 1);
    assert(tail.skip(1) =~= entries.skip(at + 1));
    let one = tail.take(1);
    assert(one.drop_last() =~= Seq::<CacheEntryView>::empty());
    assert(total_size(one.drop_last()) == 0);
    assert(one.last() == entries[at]);
}

proof fn lemma_total_permuted(entries: Seq<CacheEntryView>, order: Seq<int>)
    requires
        order.len() == entries.len(),
        order.no_duplicates(),
        forall|i: int| 0 <= i < order.len() ==> 0 <= #[trigger] order[i] < order.len(),
    ensures
        total_size(order.map_values(|index: int| entries[index])) == total_size(entries),
    decreases entries.len(),
{
    let permuted = order.map_values(|index: int| entries[index]);
    if entries.len() == 0 {
        assert(permuted =~= entries);
    } else {
        let last = entries.len() - 1;
        lemma_holds_every_index(order, last);
        let at = choose|at: int| 0 <= at < order.len() && order[at] == last;
        let fewer = order.remove(at);
        let shorter = entries.drop_last();
        assert forall|i: int| 0 <= i < fewer.len() implies 0 <= #[trigger] fewer[i] < fewer.len() by {
            let j = if i < at { i } else { i + 1 };
            assert(fewer[i] == order[j]);
            assert(order[j] != order[at]);
        }
        assert(fewer.no_duplicates());
        lemma_total_permuted(shorter, fewer);
        assert(fewer.map_values(|index: int| shorter[index]) =~= permuted.remove(at)) by {
            assert forall|i: int| 0 <= i < fewer.len() implies shorter[#[trigger] fewer[i]]
                == permuted.remove(at)[i] by {
                assert(0 <= fewer[i] < fewer.len());
            }
        }
        lemma_total_remove(permuted, at);
    }
}

/// Sorting the entries by age keeps their total size.
pub proof fn sorting_keeps_the_total(entries: Seq<CacheEntryView>)
    ensures
        total_size(oldest_first(entries)) == total_size(counted(entries)),
        oldest_first(entries).len() == counted(entries).len(),
{
    let list = counted(entries);
    let keys = list.map_values(|entry: CacheEntryView| age_key(entry));
    order_exists(keys);
    let order = stable_order(keys);
    if list.len() > 0 {
        order_holds_every_index(keys, order, 0);
    }
    lemma_total_permuted(list, order);
}

/// After the eviction the files of the cache are within the limit, and putting
/// the last evicted file back would exceed it. The files that stay are those
/// changed last.
pub proof fn eviction_reaches_the_limit(entries: Seq<CacheEntryView>, limit: nat)
    requires
        total_size(counted(entries)) <= u64::MAX,
    ensures
        ({
            let sorted = oldest_first(entries);
            let gone = evicted(entries, limit);
            &&& gone.len() <= sorted.len()
            &&& gone == sorted.take(gone.len() as int)
            &&& total_size(sorted.skip(gone.len() as int)) <= limit
            &&& gone.len() > 0 ==> total_size(sorted.skip(gone.len() - 1)) > limit
        }),
{
    sorting_keeps_the_total(entries);
    lemma_eviction(oldest_first(entries), limit);
}

// ---------------------------------------------------------------------------
// Pictures
// ---------------------------------------------------------------------------

/// A decoded image: four bytes (red, green, blue, alpha) for each pixel, row by
/// row.
#[derive(Debug, PartialEq, Eq)]
pub struct Picture {
    pub width: u32,
    pub height: u32,
    pub rgba: Vec<u8>,
}

pub struct PictureView {
    pub width: u32,
    pub height: u32,
    pub rgba: Seq<u8>,
}

impl View for Picture {
    type V = PictureView;

    open spec fn view(&self) -> PictureView {
        PictureView { width: self.width, height: self.height, rgba: self.rgba@ }
    }
}

/// Why an image cannot be shown.
#[derive(Debug, PartialEq, Eq)]
pub enum DecodeError {
    TooLarge,
    TooManyPixels,
    Dimensions(String),
    Undecodable(String),
}

pub enum DecodeErrorView {
    TooLarge,
    TooManyPixels,
    Dimensions(Seq<char>),
    Undecodable(Seq<char>),
}

impl View for DecodeError {
    type V = DecodeErrorView;

    open spec fn view(&self) -> DecodeErrorView {
        match self {
            DecodeError::TooLarge => DecodeErrorView::TooLarge,
            DecodeError::TooManyPixels => DecodeErrorView::TooManyPixels,
            DecodeError::Dimensions(cause) => DecodeErrorView::Dimensions(cause@),
            DecodeError::Undecodable(cause) => DecodeErrorView::Undecodable(cause@),
        }
    }
}

impl DecodeErrorView {
    pub open spec fn message(self) -> Seq<char> {
        match self {
            DecodeErrorView::TooLarge => "image exceeds the 50 MiB preview limit"@,
            DecodeErrorView::TooManyPixels => "image exceeds the 40 megapixel preview limit"@,
            DecodeErrorView::Dimensions(cause) => "read image dimensions: "@ + cause,
            DecodeErrorView::Undecodable(cause) => "decode image: "@ + cause,
        }
    }
}

impl DecodeError {
    pub fn message(&self) -> (text: String)
        ensures
            text@ == self@.message(),
    {
        match self {
            DecodeError::TooLarge => "image exceeds the 50 MiB preview limit".to_owned(),
            DecodeError::TooManyPixels => "image exceeds the 40 megapixel preview limit".to_owned(),
            DecodeError::Dimensions(cause) => {
                let mut text: String = "read image dimensions: ".to_owned();
                text.push_str(cause.as_str());
                text
            },
            DecodeError::Undecodable(cause) => {
                let mut text: String = "decode image: ".to_owned();
                text.push_str(cause.as_str());
                text
            },
        }
    }
}

/// The width and height that the header of an image gives, or why it gives
/// none.
pub uninterp spec fn image_size(bytes: Seq<u8>) -> Result<(u32, u32), Seq<char>>;

/// The width, the height and the pixels of an image, or why it cannot be
/// decoded.
pub uninterp spec fn image_pixels(bytes: Seq<u8>) -> Result<(u32, u32, Seq<u8>), Seq<char>>;

/// `image::ImageReader::into_dimensions` on the bytes, with the format guessed
/// from them; an error is given as its text, with what caused it. The result is
/// a function of the bytes alone as long as no format hooks are registered, and
/// is named `image_size`. The formats are not spelled out.
#[verifier::external_body]
pub(crate) fn image_dimensions(bytes: &[u8]) -> (size: Result<(u32, u32), String>)
    ensures
        match size {
            Ok(size) => image_size(bytes@) == Ok::<(u32, u32), Seq<char>>(size),
            Err(cause) => image_size(bytes@) == Err::<(u32, u32), Seq<char>>(cause@),
        },
{
    image::ImageReader::new(std::io::Cursor::new(bytes))
        .with_guessed_format()
        .map_err(|error| error.to_string())?
        .into_dimensions()
        .map_err(|error| format!("{:#}", anyhow::Error::new(error)))
}

/// `image::ImageReader::decode` on the bytes, with the format guessed from
/// them, as 8-bit red, green, blue and alpha; an error is given as its text, with
/// what caused it. The result is a function of the bytes alone as long as no
/// format hooks are registered, and is named `image_pixels`. The formats are not
/// spelled out.
#[verifier::external_body]
pub(crate) fn decode_pixels(bytes: &[u8]) -> (picture: Result<Picture, String>)
    ensures
        match picture {
            Ok(picture) => image_pixels(bytes@) == Ok::<(u32, u32, Seq<u8>), Seq<char>>(
                (picture.width, picture.height, picture.rgba@),
            ),
            Err(cause) => image_pixels(bytes@) == Err::<(u32, u32, Seq<u8>), Seq<char>>(cause@),
        },
{
    let pixels = image::ImageReader::new(std::io::Cursor::new(bytes))
        .with_guessed_format()
        .map_err(|error| error.to_string())?
        .decode()
        .map_err(|error| format!("{:#}", anyhow::Error::new(error)))?
        .to_rgba8();
    Ok(Picture { width: pixels.width(), height: pixels.height(), rgba: pixels.into_raw() })
}

/// Why an image of that many bytes, with that header, is not even decoded.
pub open spec fn refusal(length: nat, size: Result<(u32, u32), Seq<char>>) -> Option<
    DecodeErrorView,
> {
    if length > MAX_ATTACHMENT_BYTES {
        Some(DecodeErrorView::TooLarge)
    } else {
        match size {
            Err(cause) => Some(DecodeErrorView::Dimensions(cause)),
            Ok((width, height)) => if width * height > MAX_IMAGE_PIXELS {
                Some(DecodeErrorView::TooManyPixels)
            } else {
                None
            },
        }
    }
}

/// The picture that an image shows, or why it shows none.
pub open spec fn decoded(
    length: nat,
    size: Result<(u32, u32), Seq<char>>,
    pixels: Result<(u32, u32, Seq<u8>), Seq<char>>,
) -> Result<PictureView, DecodeErrorView> {
    match refusal(length, size) {
        Some(error) => Err(error),
        None => match pixels {
            Ok((width, height, rgba)) => Ok(PictureView { width, height, rgba }),
            Err(cause) => Err(DecodeErrorView::Undecodable(cause)),
        },
    }
}

pub open spec fn size_view(size: Result<(u32, u32), String>) -> Result<(u32, u32), Seq<char>> {
    match size {
        Ok(size) => Ok(size),
        Err(cause) => Err(cause@),
    }
}

pub open spec fn picture_view(result: Result<Picture, DecodeError>) -> Result<
    PictureView,
    DecodeErrorView,
> {
    match result {
        Ok(picture) => Ok(picture@),
        Err(error) => Err(error@),
    }
}

/// Whether an image of that many bytes, with that header, may be decoded.
pub fn check_limits(length: usize, size: Result<(u32, u32), String>) -> (result: Result<
    (),
    DecodeError,
>)
    ensures
        match result {
            Ok(_) => refusal(length as nat, size_view(size)) is None,
            Err(error) => refusal(length as nat, size_view(size)) == Some(error@),
        },
{
    if length > MAX_ATTACHMENT_BYTES {
        return Err(DecodeError::TooLarge);
    }
    match size {
        Err(cause) => Err(DecodeError::Dimensions(cause)),
        Ok((width, height)) => {
            assert(width * height <= u32::MAX * u32::MAX) by (nonlinear_arith)
                requires
                    0 <= width <= u32::MAX,
                    0 <= height <= u32::MAX,
            ;
            if width as u64 * height as u64 > MAX_IMAGE_PIXELS {
                Err(DecodeError::TooManyPixels)
            } else {
                Ok(())
            }
        },
    }
}

/// The picture that an image shows, or why it shows none.
pub fn decode_image_blocking(bytes: &[u8]) -> (result: Result<Picture, DecodeError>)
    ensures
        picture_view(result) == decoded(bytes@.len(), image_size(bytes@), image_pixels(bytes@)),
{
    if bytes.len() > MAX_ATTACHMENT_BYTES {
        return Err(DecodeError::TooLarge);
    }
    let size = image_dimensions(bytes);
    assert(size_view(size) == image_size(bytes@));
    match check_limits(bytes.len(), size) {
        Err(error) => Err(error),
        Ok(_) => match decode_pixels(bytes) {
            Ok(picture) => Ok(picture),
            Err(cause) => Err(DecodeError::Undecodable(cause)),
        },
    }
}

// ---------------------------------------------------------------------------
// Loading
// ---------------------------------------------------------------------------

/// What is known of the picture of an attachment.
#[derive(Debug, PartialEq, Eq)]
pub enum AttachmentState {
    NotRequested,
    Loading,
    Ready(Arc<Picture>),
    Failed(String),
}

pub enum AttachmentStateView {
    NotRequested,
    Loading,
    Ready(PictureView),
    Failed(Seq<char>),
}

impl View for AttachmentState {
    type V = AttachmentStateView;

    open spec fn view(&self) -> AttachmentStateView {
        match self {
            AttachmentState::NotRequested => AttachmentStateView::NotRequested,
            AttachmentState::Loading => AttachmentStateView::Loading,
            AttachmentState::Ready(picture) => AttachmentStateView::Ready((**picture)@),
            AttachmentState::Failed(error) => AttachmentStateView::Failed(error@),
        }
    }
}

impl Clone for AttachmentState {
    fn clone(&self) -> (copy: Self)
        ensures
            copy@ == self@,
    {
        match self {
            AttachmentState::NotRequested => AttachmentState::NotRequested,
            AttachmentState::Loading => AttachmentState::Loading,
            AttachmentState::Ready(picture) => AttachmentState::Ready(picture.clone()),
            AttachmentState::Failed(error) => AttachmentState::Failed(error.clone()),
        }
    }
}

/// The end of loading an attachment.
#[derive(Debug)]
pub struct AttachmentEvent {
    pub key: String,
    pub result: Result<Arc<Picture>, String>,
}

/// The state that an end of loading leaves.
pub open spec fn loaded_state(result: Result<Arc<Picture>, String>) -> AttachmentStateView {
    match result {
        Ok(picture) => AttachmentStateView::Ready((*picture)@),
        Err(error) => AttachmentStateView::Failed(error@),
    }
}

/// What to do after a look into the cache.
#[derive(Debug)]
pub enum AfterCache {
    Show(Picture),
    /// What the cache holds is no image: remove it and download.
    Replace,
    Download,
    Fail(String),
}

pub enum AfterCacheView {
    Show(PictureView),
    Replace,
    Download,
    Fail(Seq<char>),
}

impl View for AfterCache {
    type V = AfterCacheView;

    open spec fn view(&self) -> AfterCacheView {
        match self {
            AfterCache::Show(picture) => AfterCacheView::Show(picture@),
            AfterCache::Replace => AfterCacheView::Replace,
            AfterCache::Download => AfterCacheView::Download,
            AfterCache::Fail(error) => AfterCacheView::Fail(error@),
        }
    }
}

/// What to do after a look into the cache, given what its bytes decode to.
pub open spec fn cache_step(
    cached: Result<Option<Vec<u8>>, String>,
    picture: Result<PictureView, DecodeErrorView>,
) -> AfterCacheView {
    match cached {
        Err(error) => AfterCacheView::Fail(error@),
        Ok(None) => AfterCacheView::Download,
        Ok(Some(_)) => match picture {
            Ok(picture) => AfterCacheView::Show(picture),
            Err(_) => AfterCacheView::Replace,
        },
    }
}

/// What to do after a look into the cache.
pub fn after_cache(cached: Result<Option<Vec<u8>>, String>) -> (step: AfterCache)
    ensures
        step@ == cache_step(
            cached,
            match cached {
                Ok(Some(bytes)) => decoded(
                    bytes@.len(),
                    image_size(bytes@),
                    image_pixels(bytes@),
                ),
                _ => Err(DecodeErrorView::TooLarge),
            },
        ),
{
    match cached {
        Err(error) => AfterCache::Fail(error),
        Ok(None) => AfterCache::Download,
        Ok(Some(bytes)) => match decode_image_blocking(bytes.as_slice()) {
            Ok(picture) => AfterCache::Show(picture),
            Err(_) => AfterCache::Replace,
        },
    }
}

/// What a download comes to: a picture to keep and show, or an error.
pub open spec fn downloaded(
    result: Result<Vec<u8>, String>,
    picture: Result<PictureView, DecodeErrorView>,
) -> Result<PictureView, Seq<char>> {
    match result {
        Err(error) => Err("download Signal attachment: "@ + error@),
        Ok(_) => match picture {
            Ok(picture) => Ok(picture),
            Err(error) => Err(error.message()),
        },
    }
}

/// What a download comes to. The bytes are worth keeping exactly where they
/// decode to a picture.
pub fn after_download(result: &Result<Vec<u8>, String>) -> (outcome: Result<Picture, String>)
    ensures
        downloaded(
            *result,
            match *result {
                Ok(bytes) => decoded(bytes@.len(), image_size(bytes@), image_pixels(bytes@)),
                Err(_) => Err(DecodeErrorView::TooLarge),
            },
        ) == (match outcome {
            Ok(picture) => Ok::<PictureView, Seq<char>>(picture@),
            Err(error) => Err::<PictureView, Seq<char>>(error@),
        }),
{
    match result {
        Err(error) => {
            let mut text: String = "download Signal attachment: ".to_owned();
            text.push_str(error.as_str());
            Err(text)
        },
        Ok(bytes) => match decode_image_blocking(bytes.as_slice()) {
            Ok(picture) => Ok(picture),
            Err(error) => Err(error.message()),
        },
    }
}

// ---------------------------------------------------------------------------
// Downloading to a file
// ---------------------------------------------------------------------------

/// Whether a character cannot stand in the name of a downloaded file: the
/// separators of paths and the control characters.
pub open spec fn unsafe_in_name(c: char) -> bool {
    c == '/' || c == '\\' || c < ' ' || '\u{7f}' <= c <= '\u{9f}'
}

pub open spec fn safe_chars(name: Seq<char>) -> Seq<char> {
    name.map_values(
        |c: char|
            if unsafe_in_name(c) {
                '_'
            } else {
                c
            },
    )
}

/// The name under which an attachment with that name is saved.
pub open spec fn safe_name(name: Seq<char>) -> Seq<char> {
    if name.len() == 0 || name == "."@ || name == ".."@ {
        "attachment"@
    } else {
        safe_chars(name)
    }
}

/// The name under which an attachment is saved.
pub fn safe_download_name(attachment: &ChatAttachment) -> (name: String)
    ensures
        name@ == safe_name(attachment@.display_name()),
{
    let shown = attachment.display_name();
    if shown.is_empty() || same_text(shown, ".") || same_text(shown, "..") {
        return "attachment".to_owned();
    }
    let chars = chars_of(shown);
    let mut name: String = String::new();
    assert(safe_chars(chars@.take(0)) =~= name@);
    for i in 0..chars.len()
        invariant
            name@ == safe_chars(chars@).take(i as int),
    {
        let c = chars[i];
        let unfit = c == '/' || c == '\\' || c < ' ' || ('\u{7f}' <= c && c <= '\u{9f}');
        name.push(
            if unfit {
                '_'
            } else {
                c
            },
        );
        assert(name@ =~= safe_chars(chars@).take(i + 1));
    }
    assert(name@ =~= safe_chars(chars@));
    name
}

/// A saved attachment stays in the directory that it is saved to: its name
/// holds no separator, is not empty and is neither `.` nor `..`.
#[verifier::spinoff_prover]
pub proof fn download_stays_in_directory(name: Seq<char>)
    ensures
        safe_name(name).len() > 0,
        safe_name(name) != "."@,
        safe_name(name) != ".."@,
        forall|i: int|
            0 <= i < safe_name(name).len() ==> #[trigger] safe_name(name)[i] != '/' && safe_name(
                name,
            )[i] != '\\',
{
    reveal_strlit("attachment");
    reveal_strlit(".");
    reveal_strlit("..");
    let safe = safe_name(name);
    if name.len() > 0 && name != "."@ && name != ".."@ {
        assert(safe.len() == name.len());
        assert forall|i: int| 0 <= i < safe.len() implies #[trigger] safe[i] != '/' && safe[i]
            != '\\' && (safe[i] == '.' ==> name[i] == '.') by {
            assert(safe[i] == if unsafe_in_name(name[i]) {
                '_'
            } else {
                name[i]
            });
        }
        if safe == "."@ {
            assert(safe[0] == '.');
            assert(name[0] == '.');
            assert(name =~= "."@);
        }
        if safe == ".."@ {
            assert(safe[0] == '.' && safe[1] == '.');
            assert(name[0] == '.' && name[1] == '.');
            assert(name =~= ".."@);
        }
    } else {
        assert(safe == "attachment"@);
        assert("attachment"@.len() == 10);
        assert(safe.len() != "."@.len());
        assert(safe.len() != ".."@.len());
    }
}

// ---------------------------------------------------------------------------
// What is kept, shown and refused
// ---------------------------------------------------------------------------

/// Only the files of the cache count, and hidden ones do not; all others do, in
/// their order.
pub proof fn hidden_files_do_not_count(entries: Seq<CacheEntryView>)
    ensures
        counted(entries) == entries.filter(
            |entry: CacheEntryView|
                entry.is_file && !(entry.name.len() > 0 && entry.name[0] == '.'),
        ),
    decreases entries.len(),
{
    reveal(Seq::filter);
    reveal_strlit(".");
    if entries.len() > 0 {
        hidden_files_do_not_count(entries.drop_last());
        let name = entries.last().name;
        if name.len() > 0 {
            assert(name.subrange(0, 1)[0] == name[0]);
            if name[0] == '.' {
                assert(name.subrange(0, 1) =~= "."@);
            }
        }
    }
}

/// What is evicted is what was touched the longest ago: no entry that stays is
/// older than one that goes. Nothing goes while the cache is within its limit.
pub proof fn oldest_entries_go_first(entries: Seq<CacheEntryView>, limit: nat)
    requires
        total_size(counted(entries)) <= u64::MAX,
    ensures
        ({
            let sorted = oldest_first(entries);
            let gone = evicted(entries, limit);
            &&& total_size(counted(entries)) <= limit ==> gone.len() == 0
            &&& forall|i: int, j: int|
                0 <= i < gone.len() && gone.len() <= j < sorted.len() ==> (
                #[trigger] gone[i]).modified <= (#[trigger] sorted[j]).modified
            &&& sorted.to_multiset() == counted(entries).to_multiset()
        }),
{
    let list = counted(entries);
    let keys = list.map_values(|entry: CacheEntryView| age_key(entry));
    let sorted = oldest_first(entries);
    let gone = evicted(entries, limit);
    eviction_reaches_the_limit(entries, limit);
    crate::order::sorted_list_holds_every_item(list, keys);
    order_exists(keys);
    let order = stable_order(keys);
    assert forall|i: int, j: int| 0 <= i < gone.len() && gone.len() <= j < sorted.len() implies (
    #[trigger] gone[i]).modified <= (#[trigger] sorted[j]).modified by {
        assert(0 <= order[i] < keys.len() && 0 <= order[j] < keys.len());
        assert(crate::order::comes_first(keys, order[i], order[j]));
        assert(gone[i] == sorted[i]);
        assert(keys[order[i]] == age_key(sorted[i]));
        assert(keys[order[j]] == age_key(sorted[j]));
        crate::text::lemma_precedes_total(""@, ""@);
    }
}

/// A picture is refused for its first fault: more than fifty mebibytes, a size
/// that cannot be read, more than forty million pixels, pixels that cannot be
/// read. Otherwise it is shown with exactly its pixels.
pub proof fn pictures_are_refused_for_a_reason(
    length: nat,
    size: Result<(u32, u32), Seq<char>>,
    pixels: Result<(u32, u32, Seq<u8>), Seq<char>>,
)
    ensures
        ({
            let result = decoded(length, size, pixels);
            let small = length <= 50 * 1024 * 1024;
            &&& !small ==> result == Err::<PictureView, DecodeErrorView>(DecodeErrorView::TooLarge)
            &&& small ==> (size matches Err(cause) ==> result == Err::<
                PictureView,
                DecodeErrorView,
            >(DecodeErrorView::Dimensions(cause)))
            &&& small ==> (size matches Ok((width, height)) && width * height > 40_000_000
                ==> result == Err::<PictureView, DecodeErrorView>(DecodeErrorView::TooManyPixels))
            &&& small ==> (size matches Ok((width, height)) && width * height <= 40_000_000 ==> (
            pixels matches Err(cause) ==> result == Err::<PictureView, DecodeErrorView>(
                DecodeErrorView::Undecodable(cause),
            )))
            &&& small ==> (size matches Ok((width, height)) && width * height <= 40_000_000 ==> (
            pixels matches Ok((columns, rows, rgba)) ==> result == Ok::<
                PictureView,
                DecodeErrorView,
            >(PictureView { width: columns, height: rows, rgba })))
        }),
{
}

/// What a refused picture is reported as.
pub proof fn refusals_are_worded(cause: Seq<char>)
    ensures
        DecodeErrorView::TooLarge.message() == "image exceeds the 50 MiB preview limit"@,
        DecodeErrorView::TooManyPixels.message() == "image exceeds the 40 megapixel preview limit"@,
        DecodeErrorView::Dimensions(cause).message() == "read image dimensions: "@ + cause,
        DecodeErrorView::Undecodable(cause).message() == "decode image: "@ + cause,
{
}

/// A file in the cache that is a picture is shown; one that is none is loaded
/// anew, and so is one that is not there. A cache that cannot be read fails.
pub proof fn cached_pictures_are_shown(
    cached: Result<Option<Vec<u8>>, String>,
    picture: Result<PictureView, DecodeErrorView>,
)
    ensures
        cached matches Err(error) ==> cache_step(cached, picture) == AfterCacheView::Fail(error@),
        cached == Ok::<Option<Vec<u8>>, String>(None) <==> cache_step(cached, picture) is Download,
        (cached matches Ok(Some(_))) && picture is Ok ==> cache_step(cached, picture)
            == AfterCacheView::Show(picture->Ok_0),
        (cached matches Ok(Some(_))) && picture is Err ==> cache_step(cached, picture) is Replace,
{
}

/// What was downloaded is shown where it is a picture, and reported otherwise;
/// so is a download that failed. Once loaded, a picture is ready or has failed.
pub proof fn downloaded_pictures_are_shown(
    result: Result<Vec<u8>, String>,
    picture: Result<PictureView, DecodeErrorView>,
    loaded: Result<Arc<Picture>, String>,
)
    ensures
        result matches Err(error) ==> downloaded(result, picture) == Err::<
            PictureView,
            Seq<char>,
        >("download Signal attachment: "@ + error@),
        result is Ok && picture is Ok ==> downloaded(result, picture) == Ok::<
            PictureView,
            Seq<char>,
        >(picture->Ok_0),
        result is Ok && picture is Err ==> downloaded(result, picture) == Err::<
            PictureView,
            Seq<char>,
        >(picture->Err_0.message()),
        loaded matches Ok(picture) ==> loaded_state(loaded) == AttachmentStateView::Ready(
            (*picture)@,
        ),
        loaded matches Err(error) ==> loaded_state(loaded) == AttachmentStateView::Failed(error@),
{
}

/// A file keeps its name but for slashes, backslashes and control characters,
/// each of which becomes an underscore. A name that would be a directory is
/// replaced.
pub proof fn file_names_are_kept(name: Seq<char>)
    ensures
        name.len() == 0 || name == "."@ || name == ".."@ ==> safe_name(name) == "attachment"@,
        name.len() > 0 && name != "."@ && name != ".."@ ==> {
            &&& safe_name(name).len() == name.len()
            &&& forall|i: int|
                0 <= i < name.len() ==> {
                    let c = #[trigger] name[i];
                    let bad = c == '/' || c == '\\' || c <= '\u{1f}' || '\u{7f}' <= c <= '\u{9f}';
                    &&& bad ==> safe_name(name)[i] == '_'
                    &&& !bad ==> safe_name(name)[i] == c
                }
        },
{
}

/// The size of some entries is that of each of them together.
pub proof fn sizes_add_up(entries: Seq<CacheEntryView>, more: Seq<CacheEntryView>)
    ensures
        total_size(entries + more) == total_size(entries) + total_size(more),
        forall|entry: CacheEntryView| total_size(#[trigger] seq![entry]) == entry.size,
        total_size(Seq::empty()) == 0,
    decreases more.len(),
{
    assert forall|entry: CacheEntryView| total_size(#[trigger] seq![entry]) == entry.size by {
        reveal_with_fuel(total_size, 2);
        assert(seq![entry].drop_last() =~= Seq::<CacheEntryView>::empty());
    }
    if more.len() == 0 {
        assert(entries + more =~= entries);
    } else {
        sizes_add_up(entries, more.drop_last());
        assert((entries + more).drop_last() =~= entries + more.drop_last());
    }
}

/// The names of evicted entries are their names, in order.
pub proof fn entries_go_by_name(entries: Seq<CacheEntryView>, i: int)
    requires
        0 <= i < entries.len(),
    ensures
        entry_names(entries).len() == entries.len(),
        entry_names(entries)[i] == entries[i].name,
{
}

} // verus!
