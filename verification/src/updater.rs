//! Updates of the installed program.
use vstd::prelude::*;

use crate::number::{all_hex_digits, decimal, decimal_text, hex_encode, hex_text, is_hex_digit};
use crate::paths::{join_path, joined_path};
use crate::text::{
    chars_of, debug_text, equal_ignoring_ascii_case, optional, quoted, same_ignoring_ascii_case,
    same_text, texts, word_texts, words,
};

verus! {

/// The file that marks a directory in which the program keeps itself up to date.
pub const MANAGED_MARKER: &'static str = ".signal-managed-install";

/// The file that keeps two updates from running at once.
pub const UPDATE_LOCK: &'static str = ".signal-update.lock";

/// The file that tells the next start of a finished update.
pub const SUCCESS_MARKER: &'static str = ".signal-update-success.json";

pub const LATEST_RELEASE: &'static str =
    "https://github.com/emilianscheel/signal-cli/releases/latest/download";

/// The largest manifest that is read, in bytes.
pub const MAX_MANIFEST_BYTES: u64 = 65_536;

/// The largest program that is downloaded, in bytes.
pub const MAX_ARTIFACT_BYTES: u64 = 536_870_912;

// ---------------------------------------------------------------------------
// Versions
// ---------------------------------------------------------------------------

/// A version after the rules of Semantic Versioning.
#[derive(Debug, PartialEq, Eq)]
pub struct Version {
    pub major: u64,
    pub minor: u64,
    pub patch: u64,
    pub pre: String,
    pub build: String,
}

#[verifier::ext_equal]
pub struct VersionView {
    pub major: u64,
    pub minor: u64,
    pub patch: u64,
    pub pre: Seq<char>,
    pub build: Seq<char>,
}

impl View for Version {
    type V = VersionView;

    open spec fn view(&self) -> VersionView {
        VersionView {
            major: self.major,
            minor: self.minor,
            patch: self.patch,
            pre: self.pre@,
            build: self.build@,
        }
    }
}

impl Clone for Version {
    fn clone(&self) -> (copy: Self)
        ensures
            copy@ == self@,
    {
        Version {
            major: self.major,
            minor: self.minor,
            patch: self.patch,
            pre: self.pre.clone(),
            build: self.build.clone(),
        }
    }
}

impl VersionView {
    /// A version as a text.
    pub open spec fn text(self) -> Seq<char> {
        decimal(self.major as nat) + "."@ + decimal(self.minor as nat) + "."@ + decimal(
            self.patch as nat,
        ) + (if self.pre.len() > 0 {
            "-"@ + self.pre
        } else {
            ""@
        }) + (if self.build.len() > 0 {
            "+"@ + self.build
        } else {
            ""@
        })
    }

    /// Whether the version is a plain one, with nothing behind its numbers.
    pub open spec fn plain(self) -> bool {
        self.pre.len() == 0 && self.build.len() == 0
    }

    /// Whether two versions have the same numbers.
    pub open spec fn same_numbers(self, other: VersionView) -> bool {
        self.major == other.major && self.minor == other.minor && self.patch == other.patch
    }

    /// Whether the numbers of this version are at most those of another.
    pub open spec fn numbers_at_most(self, other: VersionView) -> bool {
        self.major < other.major || self.major == other.major && (self.minor < other.minor
            || self.minor == other.minor && self.patch <= other.patch)
    }
}

impl Version {
    /// The version as a text.
    pub fn text(&self) -> (text: String)
        ensures
            text@ == self@.text(),
    {
        let mut text = decimal_text(self.major);
        text.push_str(".");
        text.push_str(decimal_text(self.minor).as_str());
        text.push_str(".");
        text.push_str(decimal_text(self.patch).as_str());
        let mut pre: String = String::new();
        if !self.pre.as_str().is_empty() {
            pre.push_str("-");
            pre.push_str(self.pre.as_str());
            assert(pre@ =~= "-"@ + self.pre@);
        } else {
            proof {
                reveal_strlit("");
            }
            assert(pre@ =~= ""@);
        }
        let mut build: String = String::new();
        if !self.build.as_str().is_empty() {
            build.push_str("+");
            build.push_str(self.build.as_str());
            assert(build@ =~= "+"@ + self.build@);
        } else {
            proof {
                reveal_strlit("");
            }
            assert(build@ =~= ""@);
        }
        text.push_str(pre.as_str());
        text.push_str(build.as_str());
        text
    }

    /// Whether two versions are the same.
    pub fn same(&self, other: &Version) -> (yes: bool)
        ensures
            yes == (self@ == other@),
    {
        self.major == other.major && self.minor == other.minor && self.patch == other.patch
            && same_text(self.pre.as_str(), other.pre.as_str()) && same_text(
            self.build.as_str(),
            other.build.as_str(),
        )
    }
}

/// The parts of a text that is a version: its three numbers, what stands behind
/// a hyphen, and what stands behind a plus sign.
pub uninterp spec fn version_parts(text: Seq<char>) -> Option<(u64, u64, u64, Seq<char>, Seq<char>)>;

/// `semver::Version::parse`: the parts of a version. The result is a function of
/// the text alone, and is named `version_parts`; the grammar is not spelled out.
#[verifier::external_body]
pub(crate) fn split_version(text: &str) -> (version: Option<Version>)
    ensures
        version_parts(text@) == (match version {
            Some(version) => Some(
                (version.major, version.minor, version.patch, version.pre@, version.build@),
            ),
            None => None,
        }),
{
    let version = semver::Version::parse(text).ok()?;
    Some(Version {
        major: version.major,
        minor: version.minor,
        patch: version.patch,
        pre: version.pre.to_string(),
        build: version.build.to_string(),
    })
}

pub open spec fn version_of(parts: Option<(u64, u64, u64, Seq<char>, Seq<char>)>) -> Option<
    VersionView,
> {
    match parts {
        Some((major, minor, patch, pre, build)) => Some(
            VersionView { major, minor, patch, pre, build },
        ),
        None => None,
    }
}

impl Version {
    /// Reads a version.
    pub fn parse(text: &str) -> (version: Option<Version>)
        ensures
            version_of(version_parts(text@)) == (match version {
                Some(version) => Some(version@),
                None => None,
            }),
    {
        split_version(text)
    }
}

/// Whether one version is at most another in the order of Semantic Versioning.
/// The arguments are the parts of both.
pub uninterp spec fn version_at_most(
    left: (u64, u64, u64, Seq<char>, Seq<char>),
    right: (u64, u64, u64, Seq<char>, Seq<char>),
) -> bool;

pub open spec fn parts_of(version: VersionView) -> (u64, u64, u64, Seq<char>, Seq<char>) {
    (version.major, version.minor, version.patch, version.pre, version.build)
}

/// The order of `semver::Version`. The result is a function of the parts of both
/// versions, and is named `version_at_most`. Two plain versions are ordered by
/// their numbers, and so are any two whose numbers differ; how a pre-release or
/// build text orders versions with the same numbers is not spelled out.
#[verifier::external_body]
pub(crate) fn at_most(left: &Version, right: &Version) -> (yes: bool)
    ensures
        yes == version_at_most(parts_of(left@), parts_of(right@)),
        left@.plain() && right@.plain() ==> yes == left@.numbers_at_most(right@),
        !left@.same_numbers(right@) ==> yes == left@.numbers_at_most(right@),
{
    let version = |version: &Version| semver::Version {
        major: version.major,
        minor: version.minor,
        patch: version.patch,
        pre: semver::Prerelease::new(&version.pre).unwrap_or_default(),
        build: semver::BuildMetadata::new(&version.build).unwrap_or_default(),
    };
    version(left) <= version(right)
}

// ---------------------------------------------------------------------------
// The manifest of a release
// ---------------------------------------------------------------------------

/// A program of a release, for one kind of machine.
#[derive(Debug, PartialEq, Eq)]
pub struct ReleaseArtifact {
    pub name: String,
    pub sha256: String,
}

#[verifier::ext_equal]
pub struct ReleaseArtifactView {
    pub name: Seq<char>,
    pub sha256: Seq<char>,
}

impl View for ReleaseArtifact {
    type V = ReleaseArtifactView;

    open spec fn view(&self) -> ReleaseArtifactView {
        ReleaseArtifactView { name: self.name@, sha256: self.sha256@ }
    }
}

impl Clone for ReleaseArtifact {
    fn clone(&self) -> (copy: Self)
        ensures
            copy@ == self@,
    {
        ReleaseArtifact { name: self.name.clone(), sha256: self.sha256.clone() }
    }
}

/// The manifest of a release: its programs by the kind of machine.
#[derive(Debug, PartialEq, Eq)]
pub struct ReleaseManifest {
    pub schema: u32,
    pub version: Version,
    pub artifacts: Vec<(String, ReleaseArtifact)>,
}

pub open spec fn artifact_views(artifacts: Seq<(String, ReleaseArtifact)>) -> Seq<
    (Seq<char>, ReleaseArtifactView),
> {
    artifacts.map_values(|entry: (String, ReleaseArtifact)| (entry.0@, entry.1@))
}

/// The first program for a kind of machine.
pub open spec fn artifact_for(
    artifacts: Seq<(Seq<char>, ReleaseArtifactView)>,
    target: Seq<char>,
) -> Option<ReleaseArtifactView>
    decreases artifacts.len(),
{
    if artifacts.len() == 0 {
        None
    } else if artifacts[0].0 == target {
        Some(artifacts[0].1)
    } else {
        artifact_for(artifacts.drop_first(), target)
    }
}

/// Why a manifest is refused.
#[derive(Debug, PartialEq, Eq)]
pub enum ManifestError {
    Schema(u32),
    NoArtifact(String),
    Name(String),
    Checksum,
}

pub enum ManifestErrorView {
    Schema(u32),
    NoArtifact(Seq<char>),
    Name(Seq<char>),
    Checksum,
}

impl View for ManifestError {
    type V = ManifestErrorView;

    open spec fn view(&self) -> ManifestErrorView {
        match self {
            ManifestError::Schema(schema) => ManifestErrorView::Schema(*schema),
            ManifestError::NoArtifact(target) => ManifestErrorView::NoArtifact(target@),
            ManifestError::Name(name) => ManifestErrorView::Name(name@),
            ManifestError::Checksum => ManifestErrorView::Checksum,
        }
    }
}

impl ManifestErrorView {
    pub open spec fn message(self) -> Seq<char> {
        match self {
            ManifestErrorView::Schema(schema) => "unsupported release manifest schema "@ + decimal(
                schema as nat,
            ),
            ManifestErrorView::NoArtifact(target) => "release has no artifact for "@ + target,
            ManifestErrorView::Name(name) => "unexpected artifact name "@ + debug_text(name),
            ManifestErrorView::Checksum => "invalid artifact checksum"@,
        }
    }
}

impl ManifestError {
    pub fn message(&self) -> (text: String)
        ensures
            text@ == self@.message(),
    {
        match self {
            ManifestError::Schema(schema) => {
                let mut text: String = "unsupported release manifest schema ".to_owned();
                text.push_str(decimal_text(*schema as u64).as_str());
                text
            },
            ManifestError::NoArtifact(target) => {
                let mut text: String = "release has no artifact for ".to_owned();
                text.push_str(target.as_str());
                text
            },
            ManifestError::Name(name) => {
                let mut text: String = "unexpected artifact name ".to_owned();
                text.push_str(quoted(name.as_str()).as_str());
                text
            },
            ManifestError::Checksum => "invalid artifact checksum".to_owned(),
        }
    }
}

/// Whether a text is a checksum: 64 hexadecimal digits.
pub open spec fn is_checksum(text: Seq<char>) -> bool {
    text.len() == 64 && all_hex_digits(text)
}

fn checksum_shape(text: &str) -> (yes: bool)
    ensures
        yes == is_checksum(text@),
{
    let chars = chars_of(text);
    if chars.len() != 64 {
        return false;
    }
    for i in 0..chars.len()
        invariant
            chars@ == text@,
            forall|j: int| 0 <= j < i ==> is_hex_digit(#[trigger] chars@[j]),
    {
        let c = chars[i];
        if !(('0' <= c && c <= '9') || ('a' <= c && c <= 'f') || ('A' <= c && c <= 'F')) {
            return false;
        }
    }
    true
}

/// Whether a release is worth installing: it is no pre-release, and not at most
/// the current version, as `at_most` says.
pub open spec fn is_news(version: VersionView, at_most: bool) -> bool {
    version.pre.len() == 0 && !at_most
}

/// The program of a release that is to be installed, if any.
pub open spec fn validated(
    schema: u32,
    version: VersionView,
    artifacts: Seq<(Seq<char>, ReleaseArtifactView)>,
    at_most: bool,
    target: Seq<char>,
) -> Result<Option<(VersionView, ReleaseArtifactView)>, ManifestErrorView> {
    if schema != 1 {
        Err(ManifestErrorView::Schema(schema))
    } else if !is_news(version, at_most) {
        Ok(None)
    } else {
        match artifact_for(artifacts, target) {
            None => Err(ManifestErrorView::NoArtifact(target)),
            Some(artifact) => if artifact.name != "signal-"@ + target {
                Err(ManifestErrorView::Name(artifact.name))
            } else if !is_checksum(artifact.sha256) {
                Err(ManifestErrorView::Checksum)
            } else {
                Ok(Some((version, artifact)))
            },
        }
    }
}

pub open spec fn validation_view(
    result: Result<Option<(Version, ReleaseArtifact)>, ManifestError>,
) -> Result<Option<(VersionView, ReleaseArtifactView)>, ManifestErrorView> {
    match result {
        Ok(Some((version, artifact))) => Ok(Some((version@, artifact@))),
        Ok(None) => Ok(None),
        Err(error) => Err(error@),
    }
}

fn find_artifact(artifacts: &Vec<(String, ReleaseArtifact)>, target: &str) -> (found: Option<
    ReleaseArtifact,
>)
    ensures
        artifact_for(artifact_views(artifacts@), target@) == (match found {
            Some(artifact) => Some(artifact@),
            None => None,
        }),
{
    let ghost views = artifact_views(artifacts@);
    assert(views.skip(0) =~= views);
    for i in 0..artifacts.len()
        invariant
            views == artifact_views(artifacts@),
            artifact_for(views, target@) == artifact_for(views.skip(i as int), target@),
    {
        let entry = &artifacts[i];
        assert(views.skip(i as int)[0] == (entry.0@, entry.1@));
        assert(views.skip(i as int).drop_first() =~= views.skip(i + 1));
        if same_text(entry.0.as_str(), target) {
            return Some(entry.1.clone());
        }
    }
    None
}

/// The program of a release that is to be installed, if any, given whether its
/// version is at most the current one.
pub fn check_manifest(manifest: &ReleaseManifest, at_most: bool, target: &str) -> (result: Result<
    Option<(Version, ReleaseArtifact)>,
    ManifestError,
>)
    ensures
        validation_view(result) == validated(
            manifest.schema,
            manifest.version@,
            artifact_views(manifest.artifacts@),
            at_most,
            target@,
        ),
{
    if manifest.schema != 1 {
        return Err(ManifestError::Schema(manifest.schema));
    }
    if !manifest.version.pre.as_str().is_empty() || at_most {
        return Ok(None);
    }
    match find_artifact(&manifest.artifacts, target) {
        None => Err(ManifestError::NoArtifact(target.to_owned())),
        Some(artifact) => {
            let mut expected: String = "signal-".to_owned();
            expected.push_str(target);
            if !same_text(artifact.name.as_str(), expected.as_str()) {
                return Err(ManifestError::Name(artifact.name));
            }
            if !checksum_shape(artifact.sha256.as_str()) {
                return Err(ManifestError::Checksum);
            }
            Ok(Some((manifest.version.clone(), artifact)))
        },
    }
}

/// The program of a release that is to be installed, if any.
pub fn validate_manifest(manifest: &ReleaseManifest, current: &Version, target: &str) -> (result:
    Result<Option<(Version, ReleaseArtifact)>, ManifestError>)
    ensures
        validation_view(result) == validated(
            manifest.schema,
            manifest.version@,
            artifact_views(manifest.artifacts@),
            version_at_most(parts_of(manifest.version@), parts_of(current@)),
            target@,
        ),
        manifest.version@.plain() && current@.plain() || !manifest.version@.same_numbers(current@)
            ==> validation_view(result) == validated(
            manifest.schema,
            manifest.version@,
            artifact_views(manifest.artifacts@),
            manifest.version@.numbers_at_most(current@),
            target@,
        ),
{
    check_manifest(manifest, at_most(&manifest.version, current), target)
}

/// Whatever is offered for installation is a stable version that is not at most
/// the current one, has the name that belongs to the machine, and comes with a
/// checksum.
pub proof fn offered_release_is_newer_and_stable(
    schema: u32,
    version: VersionView,
    artifacts: Seq<(Seq<char>, ReleaseArtifactView)>,
    at_most: bool,
    target: Seq<char>,
    offered: VersionView,
    artifact: ReleaseArtifactView,
)
    requires
        validated(schema, version, artifacts, at_most, target) == Ok::<
            Option<(VersionView, ReleaseArtifactView)>,
            ManifestErrorView,
        >(Some((offered, artifact))),
    ensures
        schema == 1,
        offered == version,
        offered.pre.len() == 0,
        !at_most,
        artifact.name == "signal-"@ + target,
        is_checksum(artifact.sha256),
        artifact_for(artifacts, target) == Some(artifact),
{
}

// ---------------------------------------------------------------------------
// The download of a release
// ---------------------------------------------------------------------------

/// The SHA-256 digest of some bytes.
pub uninterp spec fn sha256_digest(bytes: Seq<u8>) -> Seq<u8>;

/// `sha2::Sha256::digest`: the digest of some bytes. It is a function of the
/// bytes alone, and is named `sha256_digest`.
#[verifier::external_body]
pub(crate) fn sha256(bytes: &[u8]) -> (digest: Vec<u8>)
    ensures
        digest@ == sha256_digest(bytes@),
{
    let digest = <sha2::Sha256 as sha2::Digest>::digest(bytes);
    digest.to_vec()
}

/// Why a release is not installed.
#[derive(Debug, PartialEq, Eq)]
pub enum UpdateError {
    ManifestTooLarge,
    ArtifactTooLarge,
    ChecksumMismatch,
    VersionCheckFailed,
    UnexpectedVersion,
    NoTemporaryFile,
}

impl UpdateError {
    pub open spec fn text(self) -> Seq<char> {
        match self {
            UpdateError::ManifestTooLarge => "release manifest is too large"@,
            UpdateError::ArtifactTooLarge => "release artifact is too large"@,
            UpdateError::ChecksumMismatch =>
                "downloaded artifact checksum does not match release manifest"@,
            UpdateError::VersionCheckFailed => "downloaded binary failed its version check"@,
            UpdateError::UnexpectedVersion => "downloaded binary reports an unexpected version"@,
            UpdateError::NoTemporaryFile => "could not allocate a temporary update file"@,
        }
    }

    pub fn message(&self) -> (text: String)
        ensures
            text@ == self.text(),
    {
        match self {
            UpdateError::ManifestTooLarge => "release manifest is too large".to_owned(),
            UpdateError::ArtifactTooLarge => "release artifact is too large".to_owned(),
            UpdateError::ChecksumMismatch =>
                "downloaded artifact checksum does not match release manifest".to_owned(),
            UpdateError::VersionCheckFailed =>
                "downloaded binary failed its version check".to_owned(),
            UpdateError::UnexpectedVersion =>
                "downloaded binary reports an unexpected version".to_owned(),
            UpdateError::NoTemporaryFile => "could not allocate a temporary update file".to_owned(),
        }
    }
}

/// Accepts a manifest by the length that was announced, if any, or that came.
pub fn check_manifest_length(length: Option<u64>) -> (result: Result<(), UpdateError>)
    ensures
        result == (if length matches Some(bytes) && bytes > MAX_MANIFEST_BYTES {
            Err::<(), UpdateError>(UpdateError::ManifestTooLarge)
        } else {
            Ok(())
        }),
{
    match length {
        Some(bytes) => {
            if bytes > MAX_MANIFEST_BYTES {
                Err(UpdateError::ManifestTooLarge)
            } else {
                Ok(())
            }
        },
        None => Ok(()),
    }
}

/// A release that is being downloaded.
#[derive(Debug)]
pub struct PendingUpdate {
    pub version: Version,
    pub artifact: ReleaseArtifact,
    pub received: Vec<u8>,
}

#[verifier::ext_equal]
pub struct PendingUpdateView {
    pub version: VersionView,
    pub artifact: ReleaseArtifactView,
    pub received: Seq<u8>,
}

impl View for PendingUpdate {
    type V = PendingUpdateView;

    open spec fn view(&self) -> PendingUpdateView {
        PendingUpdateView {
            version: self.version@,
            artifact: self.artifact@,
            received: self.received@,
        }
    }
}

/// A download at its start, or why there is none, given the announced length.
pub open spec fn begun(
    version: VersionView,
    artifact: ReleaseArtifactView,
    length: Option<u64>,
) -> Result<PendingUpdateView, UpdateError> {
    if length matches Some(bytes) && bytes > MAX_ARTIFACT_BYTES {
        Err(UpdateError::ArtifactTooLarge)
    } else {
        Ok(PendingUpdateView { version, artifact, received: Seq::empty() })
    }
}

/// A download with the next bytes, or why it ends.
pub open spec fn after_chunk(update: PendingUpdateView, chunk: Seq<u8>) -> Result<
    PendingUpdateView,
    UpdateError,
> {
    if update.received.len() + chunk.len() > MAX_ARTIFACT_BYTES {
        Err(UpdateError::ArtifactTooLarge)
    } else {
        Ok(PendingUpdateView { received: update.received + chunk, ..update })
    }
}

/// A download with all of some pieces, or why it ends.
pub open spec fn after_chunks(update: PendingUpdateView, chunks: Seq<Seq<u8>>) -> Result<
    PendingUpdateView,
    UpdateError,
>
    decreases chunks.len(),
{
    if chunks.len() == 0 {
        Ok(update)
    } else {
        match after_chunks(update, chunks.drop_last()) {
            Ok(before) => after_chunk(before, chunks.last()),
            Err(error) => Err(error),
        }
    }
}

/// Whether the bytes of a release are those that its manifest announced.
pub open spec fn checksum_matches(received: Seq<u8>, checksum: Seq<char>) -> bool {
    same_ignoring_ascii_case(hex_text(sha256_digest(received)), checksum)
}

/// Whether a digest is the one that a checksum writes out, in either case.
pub fn same_checksum(digest: &[u8], checksum: &str) -> (yes: bool)
    ensures
        yes == same_ignoring_ascii_case(hex_text(digest@), checksum@),
{
    let text = hex_encode(digest);
    equal_ignoring_ascii_case(text.as_str(), checksum)
}

impl PendingUpdate {
    /// Begins the download of what a manifest offers, if it is worth it. The
    /// length that the server announces, if any, must be within the limit.
    pub fn begin(version: Version, artifact: ReleaseArtifact, length: Option<u64>) -> (result: Result<
        PendingUpdate,
        UpdateError,
    >)
        ensures
            (match result {
                Ok(update) => Ok::<PendingUpdateView, UpdateError>(update@),
                Err(error) => Err(error),
            }) == begun(version@, artifact@, length),
    {
        match length {
            Some(bytes) => {
                if bytes > MAX_ARTIFACT_BYTES {
                    return Err(UpdateError::ArtifactTooLarge);
                }
            },
            None => {},
        }
        let received: Vec<u8> = Vec::new();
        assert(received@ =~= Seq::<u8>::empty());
        Ok(PendingUpdate { version, artifact, received })
    }

    /// Takes in the next bytes of the download, up to the limit.
    pub fn receive(&mut self, chunk: &[u8]) -> (result: Result<(), UpdateError>)
        ensures
            match after_chunk(old(self)@, chunk@) {
                Ok(update) => result == Ok::<(), UpdateError>(()) && final(self)@ == update,
                Err(error) => result == Err::<(), UpdateError>(error) && final(self)@ == old(self)@,
            },
    {
        let downloaded: u64 = (self.received.len() as u64).saturating_add(chunk.len() as u64);
        if downloaded > MAX_ARTIFACT_BYTES {
            return Err(UpdateError::ArtifactTooLarge);
        }
        self.received.extend_from_slice(chunk);
        assert(self.received@ =~= old(self)@.received + chunk@);
        Ok(())
    }

    /// Accepts the download once it is complete.
    pub fn check(&self) -> (result: Result<(), UpdateError>)
        ensures
            result == (if checksum_matches(self@.received, self@.artifact.sha256) {
                Ok::<(), UpdateError>(())
            } else {
                Err(UpdateError::ChecksumMismatch)
            }),
    {
        let digest = sha256(self.received.as_slice());
        if same_checksum(digest.as_slice(), self.artifact.sha256.as_str()) {
            Ok(())
        } else {
            Err(UpdateError::ChecksumMismatch)
        }
    }
}

/// What comes of the version that a downloaded program reports.
pub open spec fn version_check(
    success: bool,
    output: Seq<char>,
    version: VersionView,
) -> Result<(), UpdateError> {
    if !success {
        Err(UpdateError::VersionCheckFailed)
    } else if word_texts(output).len() > 0 && word_texts(output).last() == version.text() {
        Ok(())
    } else {
        Err(UpdateError::UnexpectedVersion)
    }
}

/// Accepts a downloaded program that ran with success and whose output ends
/// with the expected version.
pub fn verify_version(success: bool, output: &str, version: &Version) -> (result: Result<
    (),
    UpdateError,
>)
    ensures
        result == version_check(success, output@, version@),
{
    if !success {
        return Err(UpdateError::VersionCheckFailed);
    }
    let list = words(output);
    if list.len() == 0 {
        return Err(UpdateError::UnexpectedVersion);
    }
    let last = &list[list.len() - 1];
    assert(texts(list@).last() == last@);
    if same_text(last.as_str(), version.text().as_str()) {
        Ok(())
    } else {
        Err(UpdateError::UnexpectedVersion)
    }
}

/// A download goes through exactly if its pieces stay within the limit, and then
/// holds all of them in their order, of the release that it was begun for. The
/// way in which the bytes are cut into pieces does not matter.
pub proof fn download_holds_every_piece(update: PendingUpdateView, chunks: Seq<Seq<u8>>)
    requires
        update.received.len() <= MAX_ARTIFACT_BYTES,
    ensures
        update.received.len() + chunks.flatten().len() <= MAX_ARTIFACT_BYTES ==> after_chunks(
            update,
            chunks,
        ) == Ok::<PendingUpdateView, UpdateError>(
            PendingUpdateView { received: update.received + chunks.flatten(), ..update },
        ),
        update.received.len() + chunks.flatten().len() > MAX_ARTIFACT_BYTES ==> after_chunks(
            update,
            chunks,
        ) == Err::<PendingUpdateView, UpdateError>(UpdateError::ArtifactTooLarge),
    decreases chunks.len(),
{
    if chunks.len() == 0 {
        assert(chunks.flatten() =~= Seq::<u8>::empty());
        assert(update.received + chunks.flatten() =~= update.received);
    } else {
        download_holds_every_piece(update, chunks.drop_last());
        let before = chunks.drop_last().flatten();
        chunks.lemma_flatten_and_flatten_alt_are_equivalent();
        chunks.drop_last().lemma_flatten_and_flatten_alt_are_equivalent();
        assert(chunks.flatten() =~= before + chunks.last());
        assert((update.received + before) + chunks.last() =~= update.received + chunks.flatten());
    }
}

// ---------------------------------------------------------------------------
// The installation
// ---------------------------------------------------------------------------

/// Whether updates are switched off, by the value of the setting for it.
pub fn updates_disabled_value(value: Option<&str>) -> (yes: bool)
    ensures
        yes == (value matches Some(text) && text@ == "1"@),
{
    match value {
        Some(text) => same_text(text, "1"),
        None => false,
    }
}

/// The kind of machine for which releases hold a program.
pub open spec fn target_of(arch: Seq<char>, os: Seq<char>) -> Option<Seq<char>> {
    if arch == "x86_64"@ && os == "macos"@ {
        Some("x86_64-apple-darwin"@)
    } else if arch == "aarch64"@ && os == "macos"@ {
        Some("aarch64-apple-darwin"@)
    } else if arch == "x86_64"@ && os == "linux"@ {
        Some("x86_64-unknown-linux-gnu"@)
    } else if arch == "aarch64"@ && os == "linux"@ {
        Some("aarch64-unknown-linux-gnu"@)
    } else {
        None
    }
}

/// The kind of machine for which releases hold a program.
pub fn release_target(arch: &str, os: &str) -> (target: Option<&'static str>)
    ensures
        target_of(arch@, os@) == (match target {
            Some(text) => Some(text@),
            None => None,
        }),
{
    let intel = same_text(arch, "x86_64");
    let arm = same_text(arch, "aarch64");
    let mac = same_text(os, "macos");
    let linux = same_text(os, "linux");
    if intel && mac {
        Some("x86_64-apple-darwin")
    } else if arm && mac {
        Some("aarch64-apple-darwin")
    } else if intel && linux {
        Some("x86_64-unknown-linux-gnu")
    } else if arm && linux {
        Some("aarch64-unknown-linux-gnu")
    } else {
        None
    }
}

/// An installation that keeps itself up to date.
#[derive(Debug, PartialEq, Eq)]
pub struct ManagedInstall {
    pub executable: String,
    pub directory: String,
}

impl ManagedInstall {
    /// The file by which the directory of a managed installation is known.
    pub fn marker_path(directory: &str) -> (path: String)
        ensures
            path@ == joined_path(directory@, MANAGED_MARKER@),
    {
        join_path(directory, MANAGED_MARKER)
    }

    /// The installation around a program in a directory, if the directory holds
    /// the marker.
    pub fn from_executable(executable: String, directory: Option<String>, marked: bool) -> (install:
        Option<ManagedInstall>)
        ensures
            install is Some <==> directory is Some && marked,
            install matches Some(found) ==> found.executable@ == executable@,
            install matches Some(found) ==> Some(found.directory@) == optional(directory),
    {
        match directory {
            Some(directory) => {
                if marked {
                    Some(ManagedInstall { executable, directory })
                } else {
                    None
                }
            },
            None => None,
        }
    }

    pub fn lock_path(&self) -> (path: String)
        ensures
            path@ == joined_path(self.directory@, UPDATE_LOCK@),
    {
        join_path(self.directory.as_str(), UPDATE_LOCK)
    }

    pub fn success_path(&self) -> (path: String)
        ensures
            path@ == joined_path(self.directory@, SUCCESS_MARKER@),
    {
        join_path(self.directory.as_str(), SUCCESS_MARKER)
    }
}

/// How often a name for a temporary file is tried.
pub const TEMPORARY_ATTEMPTS: u32 = 100;

pub open spec fn temporary_name_text(process: u32, attempt: u32) -> Seq<char> {
    ".signal-update-"@ + decimal(process as nat) + "-"@ + decimal(attempt as nat)
}

/// The name of a temporary file of a process.
pub fn temporary_name(process: u32, attempt: u32) -> (name: String)
    ensures
        name@ == temporary_name_text(process, attempt),
{
    let mut name: String = ".signal-update-".to_owned();
    name.push_str(decimal_text(process as u64).as_str());
    name.push_str("-");
    name.push_str(decimal_text(attempt as u64).as_str());
    name
}

/// Where the manifest of a release stands.
pub fn manifest_url(release: &str) -> (url: String)
    ensures
        url@ == release@ + "/release.json"@,
{
    let mut url: String = release.to_owned();
    url.push_str("/release.json");
    url
}

/// Where a program of a release stands.
pub fn artifact_url(release: &str, artifact: &ReleaseArtifact) -> (url: String)
    ensures
        url@ == release@ + "/"@ + artifact@.name,
{
    let mut url: String = release.to_owned();
    url.push_str("/");
    url.push_str(artifact.name.as_str());
    url
}

pub open spec fn notice_text(version: VersionView, current: VersionView) -> Seq<char> {
    if version == current {
        "Updated to v"@ + version.text()
    } else {
        "Updated to v"@ + version.text() + " — restart to use it"@
    }
}

/// What is said of a finished update.
pub fn success_notice(version: &Version, current: &Version) -> (notice: String)
    ensures
        notice@ == notice_text(version@, current@),
{
    let mut notice: String = "Updated to v".to_owned();
    notice.push_str(version.text().as_str());
    if !version.same(current) {
        notice.push_str(" — restart to use it");
    }
    notice
}

// ---------------------------------------------------------------------------
// What is installed and what is not
// ---------------------------------------------------------------------------

/// A manifest is used only in the format that is known, and a release only where
/// it is newer and no preview. It needs an artifact for this platform, under the
/// name for this platform, with a checksum of sixty-four hexadecimal digits; the
/// first of these that fails is what is reported.
pub proof fn manifests_are_checked(
    schema: u32,
    version: VersionView,
    artifacts: Seq<(Seq<char>, ReleaseArtifactView)>,
    at_most: bool,
    target: Seq<char>,
)
    ensures
        ({
            let result = validated(schema, version, artifacts, at_most, target);
            let news = schema == 1 && !at_most && version.pre.len() == 0;
            let found = artifact_for(artifacts, target);
            let named = found is Some && found->0.name == "signal-"@ + target;
            let sealed = found is Some && found->0.sha256.len() == 64 && all_hex_digits(
                found->0.sha256,
            );
            &&& schema != 1 ==> result == Err::<
                Option<(VersionView, ReleaseArtifactView)>,
                ManifestErrorView,
            >(ManifestErrorView::Schema(schema))
            &&& schema == 1 && !news ==> result == Ok::<
                Option<(VersionView, ReleaseArtifactView)>,
                ManifestErrorView,
            >(None)
            &&& news && found is None ==> result == Err::<
                Option<(VersionView, ReleaseArtifactView)>,
                ManifestErrorView,
            >(ManifestErrorView::NoArtifact(target))
            &&& news && found is Some && !named ==> result == Err::<
                Option<(VersionView, ReleaseArtifactView)>,
                ManifestErrorView,
            >(ManifestErrorView::Name(found->0.name))
            &&& news && named && !sealed ==> result == Err::<
                Option<(VersionView, ReleaseArtifactView)>,
                ManifestErrorView,
            >(ManifestErrorView::Checksum)
            &&& news && named && sealed ==> result == Ok::<
                Option<(VersionView, ReleaseArtifactView)>,
                ManifestErrorView,
            >(Some((version, found->0)))
        }),
{
}

/// The artifact for a platform is the one that is listed for it.
pub proof fn artifacts_are_found_by_platform(
    artifacts: Seq<(Seq<char>, ReleaseArtifactView)>,
    target: Seq<char>,
    index: int,
)
    requires
        0 <= index <= artifacts.len(),
        forall|other: int| 0 <= other < index ==> (#[trigger] artifacts[other]).0 != target,
        index < artifacts.len() ==> artifacts[index].0 == target,
    ensures
        index < artifacts.len() ==> artifact_for(artifacts, target) == Some(artifacts[index].1),
        index == artifacts.len() ==> artifact_for(artifacts, target) is None,
    decreases artifacts.len(),
{
    if artifacts.len() > 0 && index > 0 {
        assert(artifacts[0].0 != target);
        let rest = artifacts.drop_first();
        assert forall|other: int| 0 <= other < index - 1 implies (#[trigger] rest[other]).0
            != target by {
            assert(rest[other] == artifacts[other + 1]);
        }
        artifacts_are_found_by_platform(rest, target, index - 1);
    }
}

/// A version is written as its three numbers with dots between, the name of a
/// preview behind a hyphen, and the build behind a plus.
pub proof fn versions_are_written_out(version: VersionView)
    ensures
        ({
            let numbers = decimal(version.major as nat) + seq!['.'] + decimal(
                version.minor as nat,
            ) + seq!['.'] + decimal(version.patch as nat);
            &&& version.pre.len() == 0 && version.build.len() == 0 ==> version.text() == numbers
            &&& version.pre.len() > 0 && version.build.len() == 0 ==> version.text() == numbers
                + seq!['-'] + version.pre
            &&& version.pre.len() == 0 && version.build.len() > 0 ==> version.text() == numbers
                + seq!['+'] + version.build
            &&& version.pre.len() > 0 && version.build.len() > 0 ==> version.text() == numbers
                + seq!['-'] + version.pre + seq!['+'] + version.build
        }),
{
    reveal_strlit(".");
    reveal_strlit("-");
    reveal_strlit("+");
    reveal_strlit("");
    assert("."@ =~= seq!['.']);
    assert("-"@ =~= seq!['-']);
    assert("+"@ =~= seq!['+']);
    assert(""@ =~= Seq::<char>::empty());
    let numbers = decimal(version.major as nat) + seq!['.'] + decimal(version.minor as nat)
        + seq!['.'] + decimal(version.patch as nat);
    assert(numbers + Seq::<char>::empty() =~= numbers);
    let named = numbers + (seq!['-'] + version.pre);
    assert(named =~= numbers + seq!['-'] + version.pre);
    assert(named + Seq::<char>::empty() =~= named);
    assert(numbers + (seq!['+'] + version.build) =~= numbers + seq!['+'] + version.build);
    assert(named + (seq!['+'] + version.build) =~= named + seq!['+'] + version.build);
}

/// A program that was downloaded passes only where it ran and the last word that
/// it printed is exactly the version that was offered.
pub proof fn downloads_must_say_their_version(
    success: bool,
    output: Seq<char>,
    version: VersionView,
)
    ensures
        !success <==> version_check(success, output, version) == Err::<(), UpdateError>(
            UpdateError::VersionCheckFailed,
        ),
        version_check(success, output, version) is Ok <==> success && word_texts(output).len() > 0
            && word_texts(output).last() == version.text(),
        success && !(word_texts(output).len() > 0 && word_texts(output).last() == version.text())
            ==> version_check(success, output, version) == Err::<(), UpdateError>(
            UpdateError::UnexpectedVersion,
        ),
{
}

/// A piece of a download goes behind what is there, and nothing else changes; a
/// download over half a gibibyte is given up.
pub proof fn pieces_go_behind_each_other(update: PendingUpdateView, chunk: Seq<u8>)
    ensures
        update.received.len() + chunk.len() <= 512 * 1024 * 1024 ==> after_chunk(update, chunk)
            == Ok::<PendingUpdateView, UpdateError>(
            PendingUpdateView {
                version: update.version,
                artifact: update.artifact,
                received: update.received + chunk,
            },
        ),
        update.received.len() + chunk.len() > 512 * 1024 * 1024 ==> after_chunk(update, chunk)
            == Err::<PendingUpdateView, UpdateError>(UpdateError::ArtifactTooLarge),
{
}

/// A checksum is that of the bytes in hexadecimal, in either case, and no other
/// text is.
pub proof fn checksums_are_hexadecimal(received: Seq<u8>, checksum: Seq<char>)
    ensures
        checksum_matches(received, hex_text(sha256_digest(received))),
        checksum_matches(received, checksum) ==> checksum.len() == 2 * sha256_digest(
            received,
        ).len(),
        checksum_matches(received, checksum) <==> checksum.map_values(
            |c: char| crate::text::ascii_lower(c),
        ) == hex_text(sha256_digest(received)).map_values(|c: char| crate::text::ascii_lower(c)),
{
    let own = hex_text(sha256_digest(received));
    let left = checksum.map_values(|c: char| crate::text::ascii_lower(c));
    let right = own.map_values(|c: char| crate::text::ascii_lower(c));
    if checksum_matches(received, checksum) {
        assert(left =~= right);
    }
    if left == right {
        assert(left.len() == right.len());
        assert forall|i: int| 0 <= i < own.len() implies crate::text::ascii_lower(
            #[trigger] own[i],
        ) == crate::text::ascii_lower(checksum[i]) by {
            assert(left[i] == right[i]);
        }
    }
}

/// There are releases for four platforms: two processors on two systems.
pub proof fn platforms_have_their_names(arch: Seq<char>, os: Seq<char>)
    ensures
        arch == "x86_64"@ && os == "macos"@ ==> target_of(arch, os) == Some(
            "x86_64-apple-darwin"@,
        ),
        arch == "aarch64"@ && os == "macos"@ ==> target_of(arch, os) == Some(
            "aarch64-apple-darwin"@,
        ),
        arch == "x86_64"@ && os == "linux"@ ==> target_of(arch, os) == Some(
            "x86_64-unknown-linux-gnu"@,
        ),
        arch == "aarch64"@ && os == "linux"@ ==> target_of(arch, os) == Some(
            "aarch64-unknown-linux-gnu"@,
        ),
        target_of(arch, os) is Some ==> (arch == "x86_64"@ || arch == "aarch64"@) && (os
            == "macos"@ || os == "linux"@),
{
    reveal_strlit("x86_64");
    reveal_strlit("aarch64");
    reveal_strlit("macos");
    reveal_strlit("linux");
    assert("x86_64"@[0] == 'x');
    assert("aarch64"@[0] == 'a');
    assert("macos"@[0] == 'm');
    assert("linux"@[0] == 'l');
}

/// The notice of an update names the version that was installed, and asks for a
/// restart exactly where another one is running.
pub proof fn notices_name_the_version(version: VersionView, current: VersionView)
    ensures
        version == current ==> notice_text(version, current) == "Updated to v"@ + version.text(),
        version != current ==> notice_text(version, current) == "Updated to v"@ + version.text()
            + " — restart to use it"@,
{
}

/// The temporary files of two processes, and those of two attempts of one
/// process, have different names.
pub proof fn temporary_files_are_told_apart(process: u32, attempt: u32, other: u32)
    ensures
        temporary_name_text(process, attempt) == ".signal-update-"@ + decimal(process as nat)
            + "-"@ + decimal(attempt as nat),
        attempt != other ==> temporary_name_text(process, attempt) != temporary_name_text(
            process,
            other,
        ),
{
    crate::number::unsigned_reads_decimal(attempt as nat);
    crate::number::unsigned_reads_decimal(other as nat);
    let front = ".signal-update-"@ + decimal(process as nat) + "-"@;
    assert(temporary_name_text(process, attempt).skip(front.len() as int) =~= decimal(
        attempt as nat,
    ));
    assert(temporary_name_text(process, other).skip(front.len() as int) =~= decimal(other as nat));
}

/// One version is at most another by the numbers: the major first, then the
/// minor, then the patch.
pub proof fn numbers_are_compared_in_order(left: VersionView, right: VersionView)
    ensures
        left.major < right.major ==> left.numbers_at_most(right) && !right.numbers_at_most(left),
        left.major == right.major && left.minor < right.minor ==> left.numbers_at_most(right)
            && !right.numbers_at_most(left),
        left.major == right.major && left.minor == right.minor ==> (left.numbers_at_most(right)
            <==> left.patch <= right.patch),
        left.numbers_at_most(right) && right.numbers_at_most(left) <==> left.same_numbers(right),
{
}

/// What a manifest that is not used is reported as.
pub proof fn refused_manifests_are_worded(schema: u32, target: Seq<char>, name: Seq<char>)
    ensures
        ManifestErrorView::Schema(schema).message() == "unsupported release manifest schema "@
            + decimal(schema as nat),
        ManifestErrorView::NoArtifact(target).message() == "release has no artifact for "@ + target,
        ManifestErrorView::Name(name).message() == "unexpected artifact name "@ + debug_text(name),
        ManifestErrorView::Checksum.message() == "invalid artifact checksum"@,
{
}

/// What an update that is not installed is reported as.
pub proof fn refused_updates_are_worded(error: UpdateError)
    ensures
        error is ManifestTooLarge ==> error.text() == "release manifest is too large"@,
        error is ArtifactTooLarge ==> error.text() == "release artifact is too large"@,
        error is ChecksumMismatch ==> error.text()
            == "downloaded artifact checksum does not match release manifest"@,
        error is VersionCheckFailed ==> error.text()
            == "downloaded binary failed its version check"@,
        error is UnexpectedVersion ==> error.text()
            == "downloaded binary reports an unexpected version"@,
        error is NoTemporaryFile ==> error.text() == "could not allocate a temporary update file"@,
{
}

/// A download begins with nothing received, for exactly the release that was
/// offered; one that is announced to be over half a gibibyte does not begin.
pub proof fn downloads_begin_empty(
    version: VersionView,
    artifact: ReleaseArtifactView,
    length: Option<u64>,
)
    ensures
        length is None || length->0 <= 512 * 1024 * 1024 ==> {
            &&& begun(version, artifact, length) is Ok
            &&& begun(version, artifact, length)->Ok_0.version == version
            &&& begun(version, artifact, length)->Ok_0.artifact == artifact
            &&& begun(version, artifact, length)->Ok_0.received.len() == 0
        },
        length is Some && length->0 > 512 * 1024 * 1024 ==> begun(version, artifact, length)
            == Err::<PendingUpdateView, UpdateError>(UpdateError::ArtifactTooLarge),
{
}

/// A version is its five parts, each in its place.
pub proof fn versions_are_their_parts(version: VersionView)
    ensures
        parts_of(version) == (
            version.major,
            version.minor,
            version.patch,
            version.pre,
            version.build,
        ),
        version_of(Some(parts_of(version))) == Some(version),
        version_of(None) is None,
{
}

} // verus!
