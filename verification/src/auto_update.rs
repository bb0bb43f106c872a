//! The decisions of the auto-updater: which release channel polls, what an
//! update URL template expands to, whether a fetched release is newer than
//! the running one, and how the updater's status moves through a check.
use vstd::prelude::*;
use crate::extension_catalog::{join_path, path_joined};
use crate::text::{
    ascii_lower_seq, chars_ascii_lower, chars_concat, chars_end_with, chars_eq, chars_of,
    chars_replace, chars_split, decimal_text, has_suffix, opt_view, owned, replace_all,
    split_char, str_eq, string_of, trim, trim_chars, u32_to_text,
};

verus! {

/// The release channel the running editor was built for.
#[derive(Debug, Clone, Copy, PartialEq, Eq, Structural)]
pub enum ReleaseChannel {
    Dev,
    Nightly,
    Preview,
    Stable,
}

/// The name of a channel as it appears in paths and update URLs.
pub open spec fn channel_name(c: ReleaseChannel) -> &'static str {
    match c {
        ReleaseChannel::Dev => "dev",
        ReleaseChannel::Nightly => "nightly",
        ReleaseChannel::Preview => "preview",
        ReleaseChannel::Stable => "stable",
    }
}

impl ReleaseChannel {
    /// The name of the channel as it appears in paths and update URLs.
    pub fn dev_name(&self) -> (r: &'static str)
        ensures
            r == channel_name(*self),
    {
        match self {
            ReleaseChannel::Dev => "dev",
            ReleaseChannel::Nightly => "nightly",
            ReleaseChannel::Preview => "preview",
            ReleaseChannel::Stable => "stable",
        }
    }

    /// Whether builds of this channel look for updates: all but development builds.
    pub fn poll_for_updates(&self) -> (r: bool)
        ensures
            r == (*self != ReleaseChannel::Dev),
    {
        !matches!(self, ReleaseChannel::Dev)
    }
}

/// A semantic version: three numbers, a pre-release tag and build metadata
/// (each tag empty where the version has none).
#[derive(Debug)]
pub struct SemanticVersion {
    pub major: u64,
    pub minor: u64,
    pub patch: u64,
    pub pre: String,
    pub build: String,
}

/// The fields of a version as plain values.
pub open spec fn version_view(v: SemanticVersion) -> (u64, u64, u64, Seq<char>, Seq<char>) {
    (v.major, v.minor, v.patch, v.pre@, v.build@)
}

/// The text of a version: `major.minor.patch`, then `-pre` and `+build`
/// where those are not empty.
pub open spec fn version_text(v: (u64, u64, u64, Seq<char>, Seq<char>)) -> Seq<char> {
    decimal_text(v.0 as nat) + seq!['.'] + decimal_text(v.1 as nat) + seq!['.'] + decimal_text(v.2 as nat)
        + (if v.3.len() > 0 { seq!['-'] + v.3 } else { Seq::empty() })
        + (if v.4.len() > 0 { seq!['+'] + v.4 } else { Seq::empty() })
}

/// The digits of a 64-bit number.
fn u64_to_text(n: u64) -> (r: Vec<char>)
    ensures
        r@ == decimal_text(n as nat),
    decreases n,
{
    if n < 10 {
        let d = (n as u8 + 48u8) as char;
        let r = vec![d];
        assert(r@ =~= decimal_text(n as nat));
        r
    } else {
        let mut r = u64_to_text(n / 10);
        let d = ((n % 10) as u8 + 48u8) as char;
        r.push(d);
        r
    }
}

impl SemanticVersion {
    /// An equal copy of the version.
    pub fn copy(&self) -> (r: SemanticVersion)
        ensures
            version_view(r) == version_view(*self),
    {
        SemanticVersion {
            major: self.major,
            minor: self.minor,
            patch: self.patch,
            pre: self.pre.clone(),
            build: self.build.clone(),
        }
    }

    /// The text of the version, as `version_text` describes.
    pub fn to_string(&self) -> (r: String)
        ensures
            r@ == version_text(version_view(*self)),
    {
        let dot = vec!['.'];
        let a = u64_to_text(self.major);
        let b = u64_to_text(self.minor);
        let c = u64_to_text(self.patch);
        let mut t = chars_concat(a.as_slice(), dot.as_slice());
        t = chars_concat(t.as_slice(), b.as_slice());
        t = chars_concat(t.as_slice(), dot.as_slice());
        t = chars_concat(t.as_slice(), c.as_slice());
        let pre = chars_of(self.pre.as_str());
        let build = chars_of(self.build.as_str());
        let ghost base = t@;
        if pre.len() > 0 {
            t.push('-');
            t = chars_concat(t.as_slice(), pre.as_slice());
        }
        let ghost with_pre = t@;
        assert(with_pre =~= base + (if pre@.len() > 0 { seq!['-'] + pre@ } else { Seq::empty() }));
        if build.len() > 0 {
            t.push('+');
            t = chars_concat(t.as_slice(), build.as_slice());
        }
        assert(t@ =~= with_pre + (if build@.len() > 0 { seq!['+'] + build@ } else { Seq::empty() }));
        string_of(t.as_slice())
    }
}

/// What `semver::Version::parse` reads from a text: the version's fields, or
/// `None` where the text is not a semantic version.
pub uninterp spec fn semver_parsed(text: Seq<char>) -> Option<(u64, u64, u64, Seq<char>, Seq<char>)>;

/// The fields of an optional version as plain values.
pub open spec fn opt_version_view(v: Option<SemanticVersion>) -> Option<(u64, u64, u64, Seq<char>, Seq<char>)> {
    match v {
        Some(v) => Some(version_view(v)),
        None => None,
    }
}

/// `semver::Version::parse`, with the version's fields taken out.
#[verifier::external_body]
pub(crate) fn parse_semver(text: &str) -> (r: Option<SemanticVersion>)
    ensures
        opt_version_view(r) == semver_parsed(text@),
{
    match semver::Version::parse(text) {
        Ok(v) => Some(SemanticVersion {
            major: v.major,
            minor: v.minor,
            patch: v.patch,
            pre: v.pre.as_str().to_string(),
            build: v.build.as_str().to_string(),
        }),
        Err(_) => None,
    }
}

/// What a fetched release is compared by: a commit hash or a semantic version.
#[derive(Debug)]
pub enum VersionCheckType {
    Sha(String),
    Semantic(SemanticVersion),
}

/// A version check as plain values.
pub enum VersionCheckView {
    Sha(Seq<char>),
    Semantic((u64, u64, u64, Seq<char>, Seq<char>)),
}

/// The plain values of a version check.
pub open spec fn check_view(v: VersionCheckType) -> VersionCheckView {
    match v {
        VersionCheckType::Sha(s) => VersionCheckView::Sha(s@),
        VersionCheckType::Semantic(v) => VersionCheckView::Semantic(version_view(v)),
    }
}

impl VersionCheckType {
    /// An equal copy of the check.
    pub fn copy(&self) -> (r: VersionCheckType)
        ensures
            check_view(r) == check_view(*self),
    {
        match self {
            VersionCheckType::Sha(s) => VersionCheckType::Sha(s.clone()),
            VersionCheckType::Semantic(v) => VersionCheckType::Semantic(v.copy()),
        }
    }

    /// Whether two checks are the same: the same hash, or versions equal in
    /// every field.
    pub fn same_as(&self, other: &VersionCheckType) -> (r: bool)
        ensures
            r == (check_view(*self) == check_view(*other)),
    {
        match (self, other) {
            (VersionCheckType::Sha(a), VersionCheckType::Sha(b)) => str_eq(a.as_str(), b.as_str()),
            (VersionCheckType::Semantic(a), VersionCheckType::Semantic(b)) => {
                a.major == b.major && a.minor == b.minor && a.patch == b.patch && str_eq(
                    a.pre.as_str(),
                    b.pre.as_str(),
                ) && str_eq(a.build.as_str(), b.build.as_str())
            },
            _ => false,
        }
    }
}

/// A release that an update manifest announces: its version and where to
/// download it.
#[derive(Debug, Clone)]
pub struct ReleaseAsset {
    pub version: String,
    pub url: String,
}

/// Where the updater stands.
#[derive(Debug)]
pub enum AutoUpdateStatus {
    Idle,
    Checking,
    Downloading { version: VersionCheckType },
    Installing { version: VersionCheckType },
    Updated { version: VersionCheckType },
    Errored { error: String },
}

/// A status as plain values.
pub enum StatusView {
    Idle,
    Checking,
    Downloading(VersionCheckView),
    Installing(VersionCheckView),
    Updated(VersionCheckView),
    Errored(Seq<char>),
}

/// The plain values of a status; two errors are the same where their
/// messages are.
pub open spec fn status_view(s: AutoUpdateStatus) -> StatusView {
    match s {
        AutoUpdateStatus::Idle => StatusView::Idle,
        AutoUpdateStatus::Checking => StatusView::Checking,
        AutoUpdateStatus::Downloading { version } => StatusView::Downloading(check_view(version)),
        AutoUpdateStatus::Installing { version } => StatusView::Installing(check_view(version)),
        AutoUpdateStatus::Updated { version } => StatusView::Updated(check_view(version)),
        AutoUpdateStatus::Errored { error } => StatusView::Errored(error@),
    }
}

impl AutoUpdateStatus {
    /// Whether an update has been installed.
    pub fn is_updated(&self) -> (r: bool)
        ensures
            r == (*self is Updated),
    {
        matches!(self, AutoUpdateStatus::Updated { .. })
    }

    /// An equal copy of the status.
    pub fn copy(&self) -> (r: AutoUpdateStatus)
        ensures
            status_view(r) == status_view(*self),
    {
        match self {
            AutoUpdateStatus::Idle => AutoUpdateStatus::Idle,
            AutoUpdateStatus::Checking => AutoUpdateStatus::Checking,
            AutoUpdateStatus::Downloading { version } => AutoUpdateStatus::Downloading { version: version.copy() },
            AutoUpdateStatus::Installing { version } => AutoUpdateStatus::Installing { version: version.copy() },
            AutoUpdateStatus::Updated { version } => AutoUpdateStatus::Updated { version: version.copy() },
            AutoUpdateStatus::Errored { error } => AutoUpdateStatus::Errored { error: error.clone() },
        }
    }

    /// Whether two statuses are the same: the same state with the same
    /// version, or errors with the same message.
    pub fn eq(&self, other: &AutoUpdateStatus) -> (r: bool)
        ensures
            r == (status_view(*self) == status_view(*other)),
    {
        match (self, other) {
            (AutoUpdateStatus::Idle, AutoUpdateStatus::Idle) => true,
            (AutoUpdateStatus::Checking, AutoUpdateStatus::Checking) => true,
            (AutoUpdateStatus::Downloading { version: a }, AutoUpdateStatus::Downloading { version: b }) => a.same_as(b),
            (AutoUpdateStatus::Installing { version: a }, AutoUpdateStatus::Installing { version: b }) => a.same_as(b),
            (AutoUpdateStatus::Updated { version: a }, AutoUpdateStatus::Updated { version: b }) => a.same_as(b),
            (AutoUpdateStatus::Errored { error: a }, AutoUpdateStatus::Errored { error: b }) => str_eq(a.as_str(), b.as_str()),
            _ => false,
        }
    }
}

/// Whether a check was asked for by the user or runs on its own.
#[derive(Debug, Clone, Copy, PartialEq, Eq, Structural)]
pub enum UpdateCheckType {
    Automatic,
    Manual,
}

/// Whether an update URL names a JSON manifest: it ends in `.json` or
/// `.jsonc`, in any ASCII case.
pub open spec fn is_manifest_url(url: Seq<char>) -> bool {
    let l = ascii_lower_seq(url);
    has_suffix(l, seq!['.', 'j', 's', 'o', 'n']) || has_suffix(l, seq!['.', 'j', 's', 'o', 'n', 'c'])
}

/// Whether the update URL names a JSON manifest rather than the artifact itself.
pub fn looks_like_manifest_url(url: &str) -> (r: bool)
    ensures
        r == is_manifest_url(url@),
{
    let chars = chars_of(url);
    let lower = chars_ascii_lower(chars.as_slice());
    let json = vec!['.', 'j', 's', 'o', 'n'];
    let jsonc = vec!['.', 'j', 's', 'o', 'n', 'c'];
    assert(json@ =~= seq!['.', 'j', 's', 'o', 'n']);
    assert(jsonc@ =~= seq!['.', 'j', 's', 'o', 'n', 'c']);
    chars_end_with(lower.as_slice(), json.as_slice()) || chars_end_with(lower.as_slice(), jsonc.as_slice())
}

/// A template with `{channel}`, `{os}`, `{arch}` and `{version}` replaced,
/// in that order.
pub open spec fn expanded_template(
    template: Seq<char>,
    channel: Seq<char>,
    os: Seq<char>,
    arch: Seq<char>,
    version: Seq<char>,
) -> Seq<char> {
    replace_all(
        replace_all(
            replace_all(replace_all(template, "{channel}"@, channel), "{os}"@, os),
            "{arch}"@,
            arch,
        ),
        "{version}"@,
        version,
    )
}

/// Fills in an update URL template for this channel, platform and version.
pub fn expand_template(
    template: &str,
    release_channel: ReleaseChannel,
    current_version: &SemanticVersion,
    os: &str,
    arch: &str,
) -> (r: String)
    ensures
        r@ == expanded_template(
            template@,
            channel_name(release_channel)@,
            os@,
            arch@,
            version_text(version_view(*current_version)),
        ),
{
    proof {
        reveal_strlit("{channel}");
        reveal_strlit("{os}");
        reveal_strlit("{arch}");
        reveal_strlit("{version}");
    }
    let t = chars_of(template);
    let channel = chars_of(release_channel.dev_name());
    let os_chars = chars_of(os);
    let arch_chars = chars_of(arch);
    let version = current_version.to_string();
    let version_chars = chars_of(version.as_str());
    let key_channel = chars_of("{channel}");
    let key_os = chars_of("{os}");
    let key_arch = chars_of("{arch}");
    let key_version = chars_of("{version}");
    let a = chars_replace(t.as_slice(), key_channel.as_slice(), channel.as_slice());
    let b = chars_replace(a.as_slice(), key_os.as_slice(), os_chars.as_slice());
    let c = chars_replace(b.as_slice(), key_arch.as_slice(), arch_chars.as_slice());
    let d = chars_replace(c.as_slice(), key_version.as_slice(), version_chars.as_slice());
    string_of(d.as_slice())
}

/// The key under which the last downloaded artifact's token is kept.
pub open spec fn token_key_text(channel: Seq<char>, os: Seq<char>, arch: Seq<char>) -> Seq<char> {
    "auto-updater-last-seen-asset-token"@ + seq!['-'] + channel + seq!['-'] + os + seq!['-'] + arch
}

/// The key, for this channel and platform, under which the last downloaded
/// artifact's token is kept.
pub fn last_seen_asset_token_key(release_channel: ReleaseChannel, os: &str, arch: &str) -> (r: String)
    ensures
        r@ == token_key_text(channel_name(release_channel)@, os@, arch@),
{
    let dash = vec!['-'];
    let prefix = chars_of("auto-updater-last-seen-asset-token");
    let channel = chars_of(release_channel.dev_name());
    let os_chars = chars_of(os);
    let arch_chars = chars_of(arch);
    let mut t = chars_concat(prefix.as_slice(), dash.as_slice());
    t = chars_concat(t.as_slice(), channel.as_slice());
    t = chars_concat(t.as_slice(), dash.as_slice());
    t = chars_concat(t.as_slice(), os_chars.as_slice());
    t = chars_concat(t.as_slice(), dash.as_slice());
    t = chars_concat(t.as_slice(), arch_chars.as_slice());
    string_of(t.as_slice())
}

/// The check for a release version, given how it parsed as a semantic
/// version: on the nightly channel the last dot-separated part of the build
/// metadata is a commit hash; on the others the version itself is compared;
/// text that is no semantic version is taken as a hash.
pub open spec fn version_check_of(
    channel: ReleaseChannel,
    version: Seq<char>,
    parsed: Option<(u64, u64, u64, Seq<char>, Seq<char>)>,
) -> VersionCheckView {
    match parsed {
        Some(v) => if channel == ReleaseChannel::Nightly {
            VersionCheckView::Sha(split_char(v.4, '.').last())
        } else {
            VersionCheckView::Semantic(v)
        },
        None => VersionCheckView::Sha(version),
    }
}

/// The check for a release version from its parse result, as
/// `version_check_of` describes.
pub fn version_check_from_parsed(
    release_channel: ReleaseChannel,
    version: &str,
    parsed: Option<SemanticVersion>,
) -> (r: VersionCheckType)
    ensures
        check_view(r) == version_check_of(release_channel, version@, opt_version_view(parsed)),
{
    match parsed {
        Some(semantic) => {
            if matches!(release_channel, ReleaseChannel::Nightly) {
                let build = chars_of(semantic.build.as_str());
                let parts = chars_split(build.as_slice(), '.');
                let ghost pv = parts@.map_values(|p: Vec<char>| p@);
                assert(pv.len() > 0) by {
                    crate::text::lemma_split_nonempty(build@, '.');
                }
                let last = &parts[parts.len() - 1];
                assert(last@ == pv.last());
                VersionCheckType::Sha(string_of(last.as_slice()))
            } else {
                VersionCheckType::Semantic(semantic)
            }
        },
        None => VersionCheckType::Sha(owned(version)),
    }
}

/// The check for a release version read from a manifest, as
/// `version_check_of` describes for the way `semver` parses it.
pub fn parse_version_check_type(release_channel: ReleaseChannel, version: &str) -> (r: VersionCheckType)
    ensures
        check_view(r) == version_check_of(release_channel, version@, semver_parsed(version@)),
{
    let parsed = parse_semver(version);
    version_check_from_parsed(release_channel, version, parsed)
}

/// Whether version `a` is newer than `b` by major, minor and patch number
/// alone.
pub open spec fn release_newer(a: (u64, u64, u64, Seq<char>, Seq<char>), b: (u64, u64, u64, Seq<char>, Seq<char>)) -> bool {
    ||| a.0 > b.0
    ||| a.0 == b.0 && a.1 > b.1
    ||| a.0 == b.0 && a.1 == b.1 && a.2 > b.2
}

/// Whether a release announced by a manifest is to be downloaded: not if it
/// is the one just installed; a semantic version must be newer than the
/// running one by its numbers; a hash must differ from the running build's.
pub open spec fn manifest_update_wanted(
    app_commit_sha: Option<Seq<char>>,
    installed: (u64, u64, u64, Seq<char>, Seq<char>),
    fetched: VersionCheckView,
    previous: StatusView,
) -> bool {
    if previous matches StatusView::Updated(cached) && cached == fetched {
        false
    } else {
        match fetched {
            VersionCheckView::Semantic(v) => release_newer(v, installed),
            VersionCheckView::Sha(sha) => !(app_commit_sha == Some(sha)),
        }
    }
}

/// Release order: of two releases whose major, minor and patch numbers
/// differ, exactly one is newer; no release is newer than one with the same
/// numbers; newer is transitive; and a release whose numbers are each at
/// least those of another, and not all equal, is newer than it (so a later
/// patch of the same major and minor release is newer).
pub proof fn lemma_release_order(
    a: (u64, u64, u64, Seq<char>, Seq<char>),
    b: (u64, u64, u64, Seq<char>, Seq<char>),
    c: (u64, u64, u64, Seq<char>, Seq<char>),
)
    ensures
        (a.0, a.1, a.2) != (b.0, b.1, b.2) ==> release_newer(a, b) != release_newer(b, a),
        (a.0, a.1, a.2) == (b.0, b.1, b.2) ==> !release_newer(a, b),
        release_newer(a, b) && release_newer(b, c) ==> release_newer(a, c),
        a.0 >= b.0 && a.1 >= b.1 && a.2 >= b.2 && (a.0, a.1, a.2) != (b.0, b.1, b.2) ==> release_newer(a, b),
{
}

/// A release announced by version number is downloaded exactly when it is
/// newer, by major, minor and patch, than the running one, unless it is the
/// update already installed; and of two different release numbers exactly
/// one counts as an update over the other.
pub proof fn lemma_semantic_update_wanted_when_newer(
    app_commit_sha: Option<Seq<char>>,
    installed: (u64, u64, u64, Seq<char>, Seq<char>),
    fetched: (u64, u64, u64, Seq<char>, Seq<char>),
    previous: StatusView,
)
    requires
        !(previous matches StatusView::Updated(cached) && cached == VersionCheckView::Semantic(fetched)),
        !(previous matches StatusView::Updated(cached) && cached == VersionCheckView::Semantic(installed)),
    ensures
        manifest_update_wanted(app_commit_sha, installed, VersionCheckView::Semantic(fetched), previous) <==> (
        fetched.0 > installed.0 || (fetched.0 == installed.0 && (fetched.1 > installed.1 || (fetched.1 == installed.1
            && fetched.2 > installed.2)))),
        (fetched.0, fetched.1, fetched.2) != (installed.0, installed.1, installed.2) ==> manifest_update_wanted(
            app_commit_sha,
            installed,
            VersionCheckView::Semantic(fetched),
            previous,
        ) != manifest_update_wanted(app_commit_sha, fetched, VersionCheckView::Semantic(installed), previous),
{
    lemma_release_order(fetched, installed, installed);
}

/// A build announced by commit is downloaded exactly when its commit is not
/// the running build's, unless it is the update already installed.
pub proof fn lemma_commit_update_wanted_when_different(
    app_commit_sha: Option<Seq<char>>,
    installed: (u64, u64, u64, Seq<char>, Seq<char>),
    sha: Seq<char>,
    previous: StatusView,
)
    ensures
        previous matches StatusView::Updated(cached) && cached == VersionCheckView::Sha(sha) ==> !manifest_update_wanted(
            app_commit_sha,
            installed,
            VersionCheckView::Sha(sha),
            previous,
        ),
        !(previous matches StatusView::Updated(cached) && cached == VersionCheckView::Sha(sha)) ==> (manifest_update_wanted(
            app_commit_sha,
            installed,
            VersionCheckView::Sha(sha),
            previous,
        ) <==> app_commit_sha != Some(sha)),
{
}

/// Whether the release a manifest announces is to be downloaded, as
/// `manifest_update_wanted` describes.
pub fn should_download_manifest_update(
    _release_channel: ReleaseChannel,
    app_commit_sha: Option<&str>,
    installed_version: &SemanticVersion,
    fetched_version: &VersionCheckType,
    previous_status: &AutoUpdateStatus,
) -> (r: bool)
    ensures
        r == manifest_update_wanted(
            match app_commit_sha {
                Some(s) => Some(s@),
                None => None,
            },
            version_view(*installed_version),
            check_view(*fetched_version),
            status_view(*previous_status),
        ),
{
    if let AutoUpdateStatus::Updated { version: cached } = previous_status {
        if cached.same_as(fetched_version) {
            return false;
        }
    }
    match fetched_version {
        VersionCheckType::Semantic(fetched) => {
            let a = fetched;
            let b = installed_version;
            a.major > b.major || (a.major == b.major && a.minor > b.minor) || (a.major == b.major
                && a.minor == b.minor && a.patch > b.patch)
        },
        VersionCheckType::Sha(fetched_sha) => {
            match app_commit_sha {
                Some(app) => !str_eq(fetched_sha.as_str(), app),
                None => true,
            }
        },
    }
}

/// The update URL setting trimmed, where anything is left of it.
pub open spec fn configured_url_of(setting: Option<Seq<char>>) -> Option<Seq<char>> {
    match setting {
        Some(s) => if trim(s).len() > 0 {
            Some(trim(s))
        } else {
            None
        },
        None => None,
    }
}

/// The configured update URL: the setting trimmed, where it is not blank.
pub fn configured_update_url(setting: Option<&str>) -> (r: Option<String>)
    ensures
        opt_view(r) == configured_url_of(
            match setting {
                Some(s) => Some(s@),
                None => None,
            },
        ),
{
    match setting {
        Some(s) => {
            let chars = chars_of(s);
            let t = trim_chars(chars.as_slice());
            if t.len() > 0 {
                Some(string_of(t.as_slice()))
            } else {
                None
            }
        },
        None => None,
    }
}

/// Whether to poll for updates in the background: not for a build a package
/// manager installed (it comes with an explanation), only on a channel that
/// polls, with auto-update on and an update URL configured.
pub fn should_poll_for_updates(
    has_update_explanation: bool,
    release_channel: Option<ReleaseChannel>,
    auto_update_enabled: bool,
    has_configured_url: bool,
) -> (r: bool)
    ensures
        r == (!has_update_explanation && (release_channel matches Some(c) && c != ReleaseChannel::Dev)
            && auto_update_enabled && has_configured_url),
{
    if has_update_explanation {
        return false;
    }
    let poll_for_channel = match release_channel {
        Some(c) => c.poll_for_updates(),
        None => false,
    };
    poll_for_channel && auto_update_enabled && has_configured_url
}

/// The token that tells one build of an artifact from another: its `ETag`,
/// else its `Last-Modified` date, else its length.
pub open spec fn artifact_token_of(
    etag: Option<Seq<char>>,
    last_modified: Option<Seq<char>>,
    content_length: Option<Seq<char>>,
) -> Option<Seq<char>> {
    match etag {
        Some(e) => Some(e),
        None => match last_modified {
            Some(m) => Some(m),
            None => match content_length {
                Some(l) => Some("content-length:"@ + l),
                None => None,
            },
        },
    }
}

/// The artifact token from the response headers that could be read as text,
/// as `artifact_token_of` describes.
pub fn artifact_token(etag: Option<String>, last_modified: Option<String>, content_length: Option<String>) -> (r: Option<String>)
    ensures
        opt_view(r) == artifact_token_of(opt_view(etag), opt_view(last_modified), opt_view(content_length)),
{
    match etag {
        Some(e) => Some(e),
        None => match last_modified {
            Some(m) => Some(m),
            None => match content_length {
                Some(l) => {
                    let prefix = chars_of("content-length:");
                    let len = chars_of(l.as_str());
                    let t = chars_concat(prefix.as_slice(), len.as_slice());
                    Some(string_of(t.as_slice()))
                },
                None => None,
            },
        },
    }
}

/// The file name an update is downloaded to on each supported system.
pub open spec fn target_filename_of(os: Seq<char>) -> Option<&'static str> {
    if os == "macos"@ {
        Some("Vector.dmg")
    } else if os == "linux"@ {
        Some("vector.tar.gz")
    } else if os == "windows"@ {
        Some("Vector.exe")
    } else {
        None
    }
}

/// The file name an update is downloaded to on this system; `None` on a
/// system updates are not supported on.
pub fn target_filename(os: &str) -> (r: Option<&'static str>)
    ensures
        r == target_filename_of(os@),
{
    if str_eq(os, "macos") {
        Some("Vector.dmg")
    } else if str_eq(os, "linux") {
        Some("vector.tar.gz")
    } else if str_eq(os, "windows") {
        Some("Vector.exe")
    } else {
        None
    }
}

/// The name of the application folder in a Linux release archive: `vector`,
/// with `-channel` after it for channels other than stable, then `.app`.
pub open spec fn linux_app_folder_of(channel: Seq<char>) -> Seq<char> {
    "vector"@ + (if channel != "stable"@ { seq!['-'] + channel } else { Seq::empty() }) + ".app"@
}

/// The application folder name of a Linux release for the given channel name.
pub fn linux_app_folder_name(channel: &str) -> (r: String)
    ensures
        r@ == linux_app_folder_of(channel@),
{
    let mut t = chars_of("vector");
    if !str_eq(channel, "stable") {
        t.push('-');
        let c = chars_of(channel);
        t = chars_concat(t.as_slice(), c.as_slice());
    }
    let app = chars_of(".app");
    let t = chars_concat(t.as_slice(), app.as_slice());
    string_of(t.as_slice())
}

/// The path, below an installation prefix, of the running binary of a Linux
/// installation.
pub open spec fn linux_binary_suffix_of(app_folder: Seq<char>) -> Seq<char> {
    app_folder + "/libexec/vector-editor"@
}

/// The installation prefix of the running binary: what precedes the
/// expected `<app folder>/libexec/vector-editor` at the end of its path, or
/// `None` where the path does not end so.
pub fn linux_install_prefix(running_app_path: &str, app_folder_name: &str) -> (r: Option<String>)
    ensures
        ({
            let suffix = linux_binary_suffix_of(app_folder_name@);
            let p = running_app_path@;
            match r {
                Some(prefix) => has_suffix(p, suffix) && prefix@ == p.subrange(0, p.len() - suffix.len()),
                None => !has_suffix(p, suffix),
            }
        }),
{
    let folder = chars_of(app_folder_name);
    let rest = chars_of("/libexec/vector-editor");
    let suffix = chars_concat(folder.as_slice(), rest.as_slice());
    let p = chars_of(running_app_path);
    if chars_end_with(p.as_slice(), suffix.as_slice()) {
        let prefix = crate::text::chars_range(p.as_slice(), 0, p.len() - suffix.len());
        Some(string_of(prefix.as_slice()))
    } else {
        None
    }
}

/// Where a Linux update is installed for the given home directory, running
/// binary and channel name: the prefix of the running binary where it sits
/// at `<app folder>/libexec/vector-editor`, else `.local` in the home
/// directory.
pub open spec fn linux_install_dir_of(home: Seq<char>, running_app_path: Seq<char>, channel: Seq<char>) -> Seq<char> {
    let suffix = linux_binary_suffix_of(linux_app_folder_of(channel));
    if has_suffix(running_app_path, suffix) {
        running_app_path.subrange(0, running_app_path.len() - suffix.len())
    } else {
        path_joined(home, ".local"@)
    }
}

/// The directory a Linux update is copied into, and the path of the binary
/// it installs there (the directory joined with
/// `<app folder>/libexec/vector-editor`).
pub fn linux_install_target(home: &str, running_app_path: &str, channel: &str) -> (r: (String, String))
    ensures
        r.0@ == linux_install_dir_of(home@, running_app_path@, channel@),
        r.1@ == path_joined(r.0@, linux_binary_suffix_of(linux_app_folder_of(channel@))),
{
    proof {
        reveal_strlit(".local");
        reveal_strlit("/libexec/vector-editor");
    }
    let folder = linux_app_folder_name(channel);
    let target = match linux_install_prefix(running_app_path, folder.as_str()) {
        Some(prefix) => prefix,
        None => join_path(home, ".local"),
    };
    let folder_chars = chars_of(folder.as_str());
    let rest = chars_of("/libexec/vector-editor");
    let suffix = string_of(chars_concat(folder_chars.as_slice(), rest.as_slice()).as_slice());
    let binary = join_path(target.as_str(), suffix.as_str());
    (target, binary)
}

/// What the `Check` action does.
#[derive(Debug)]
pub enum CheckOutcome {
    /// The build came from a package manager: show its explanation.
    ExplainPackageManager { message: String },
    /// No update URL is configured: say how to set one.
    UpdateUrlMissing,
    /// Auto-update is off: say how to turn it on.
    AutoUpdateDisabled,
    /// Poll for an update now.
    Poll,
}

/// What the `Check` action does: explain a package-manager build, point out
/// a missing update URL or a disabled auto-update, in that order, else poll.
pub fn check_outcome(update_explanation: Option<String>, has_configured_url: bool, auto_update_enabled: bool) -> (r: CheckOutcome)
    ensures
        match update_explanation {
            Some(m) => r matches CheckOutcome::ExplainPackageManager { message } && message@ == m@,
            None => if !has_configured_url {
                r is UpdateUrlMissing
            } else if !auto_update_enabled {
                r is AutoUpdateDisabled
            } else {
                r is Poll
            },
        },
{
    if let Some(message) = update_explanation {
        return CheckOutcome::ExplainPackageManager { message };
    }
    if !has_configured_url {
        return CheckOutcome::UpdateUrlMissing;
    }
    if !auto_update_enabled {
        return CheckOutcome::AutoUpdateDisabled;
    }
    CheckOutcome::Poll
}

/// What `url::Url::parse` makes of a text: its serialization, or `None`
/// where the text is not an absolute URL.
pub uninterp spec fn url_parsed(input: Seq<char>) -> Option<Seq<char>>;

/// What `url::Url::join` makes of a relative reference against a base URL,
/// given by its serialization: the serialization of the result, or `None`.
pub uninterp spec fn url_joined(base: Seq<char>, input: Seq<char>) -> Option<Seq<char>>;

/// `url::Url::parse`, giving the URL's serialization.
#[verifier::external_body]
pub(crate) fn parse_url(input: &str) -> (r: Option<String>)
    ensures
        opt_view(r) == url_parsed(input@),
{
    match url::Url::parse(input) {
        Ok(u) => Some(u.as_str().to_string()),
        Err(_) => None,
    }
}

/// `url::Url::join` on the base URL with the given serialization.
#[verifier::external_body]
pub(crate) fn join_url(base: &str, input: &str) -> (r: Option<String>)
    ensures
        opt_view(r) == url_joined(base@, input@),
{
    match url::Url::parse(base) {
        Ok(b) => match b.join(input) {
            Ok(u) => Some(u.as_str().to_string()),
            Err(_) => None,
        },
        Err(_) => None,
    }
}

/// Why an update check failed.
#[derive(Debug, Clone, Copy, PartialEq, Eq, Structural)]
pub enum UpdateError {
    /// `rsync`, which installing needs, is not on the system.
    MissingRsync,
    /// The configured update URL is no absolute URL.
    InvalidUpdateUrl,
    /// The download URL of a manifest is neither an absolute URL nor one
    /// relative to the manifest.
    InvalidDownloadUrl,
}

impl UpdateError {
    /// The message shown for the error.
    pub fn message(&self) -> (r: &'static str)
        ensures
            r == match *self {
                UpdateError::MissingRsync => "Could not auto-update because the required rsync utility was not found.",
                UpdateError::InvalidUpdateUrl => "invalid auto_update_url",
                UpdateError::InvalidDownloadUrl => "invalid download url in update manifest",
            },
    {
        match self {
            UpdateError::MissingRsync => "Could not auto-update because the required rsync utility was not found.",
            UpdateError::InvalidUpdateUrl => "invalid auto_update_url",
            UpdateError::InvalidDownloadUrl => "invalid download url in update manifest",
        }
    }
}

/// Where an update comes from, once a check has started.
#[derive(Debug)]
pub enum UpdateSource {
    /// Updating is not configured or is turned off: nothing to do.
    Skip,
    /// A manifest to fetch, which names the release.
    Manifest { manifest_url: String },
    /// The artifact itself, whose cache headers tell builds apart.
    Artifact { download_url: String },
}

/// The status to fall back to when a check finds nothing to install: an
/// installed update stays announced, anything else goes idle.
pub open spec fn settled_status(previous: StatusView) -> StatusView {
    if previous is Updated {
        previous
    } else {
        StatusView::Idle
    }
}

/// The updater: its status, the version running, and whether a check is under way.
pub struct AutoUpdater {
    pub status: AutoUpdateStatus,
    pub current_version: SemanticVersion,
    pub pending_poll: bool,
}

impl AutoUpdater {
    /// An idle updater for the running version.
    pub fn new(current_version: SemanticVersion) -> (r: AutoUpdater)
        ensures
            r.status is Idle,
            version_view(r.current_version) == version_view(current_version),
            !r.pending_poll,
    {
        AutoUpdater { status: AutoUpdateStatus::Idle, current_version, pending_poll: false }
    }

    /// The running version.
    pub fn current_version(&self) -> (r: SemanticVersion)
        ensures
            version_view(r) == version_view(self.current_version),
    {
        self.current_version.copy()
    }

    /// The status.
    pub fn status(&self) -> (r: AutoUpdateStatus)
        ensures
            status_view(r) == status_view(self.status),
    {
        self.status.copy()
    }

    /// Starts a check unless one is under way; returns whether it started.
    pub fn poll(&mut self) -> (started: bool)
        ensures
            started == !old(self).pending_poll,
            final(self).pending_poll,
            status_view(final(self).status) == status_view(old(self).status),
            version_view(final(self).current_version) == version_view(old(self).current_version),
    {
        if self.pending_poll {
            return false;
        }
        self.pending_poll = true;
        true
    }

    /// Ends a check. A failed automatic check goes idle quietly; a failed
    /// manual one shows its error.
    pub fn poll_finished(&mut self, check_type: UpdateCheckType, error: Option<String>)
        ensures
            !final(self).pending_poll,
            version_view(final(self).current_version) == version_view(old(self).current_version),
            match error {
                None => status_view(final(self).status) == status_view(old(self).status),
                Some(e) => match check_type {
                    UpdateCheckType::Automatic => final(self).status is Idle,
                    UpdateCheckType::Manual => status_view(final(self).status) == StatusView::Errored(e@),
                },
            },
    {
        self.pending_poll = false;
        if let Some(e) = error {
            self.status = match check_type {
                UpdateCheckType::Automatic => AutoUpdateStatus::Idle,
                UpdateCheckType::Manual => AutoUpdateStatus::Errored { error: e },
            };
        }
    }

    /// Dismisses whatever the status shows; returns whether there was
    /// anything to dismiss.
    pub fn dismiss(&mut self) -> (dismissed: bool)
        ensures
            dismissed == !(old(self).status is Idle),
            final(self).status is Idle,
            final(self).pending_poll == old(self).pending_poll,
            version_view(final(self).current_version) == version_view(old(self).current_version),
    {
        if let AutoUpdateStatus::Idle = self.status {
            return false;
        }
        self.status = AutoUpdateStatus::Idle;
        true
    }

    /// Begins a check: nothing happens without an update URL or with
    /// auto-update off; without `rsync` the check fails; otherwise the status
    /// becomes `Checking` and the expanded URL is either a manifest or the
    /// artifact, where it is a URL at all.
    pub fn start_update(
        &mut self,
        update_url: Option<String>,
        auto_update_enabled: bool,
        rsync_found: bool,
        release_channel: ReleaseChannel,
        os: &str,
        arch: &str,
    ) -> (r: Result<UpdateSource, UpdateError>)
        ensures
            final(self).pending_poll == old(self).pending_poll,
            version_view(final(self).current_version) == version_view(old(self).current_version),
            match update_url {
                None => r matches Ok(UpdateSource::Skip) && status_view(final(self).status) == status_view(old(self).status),
                Some(template) => if !auto_update_enabled {
                    r matches Ok(UpdateSource::Skip) && status_view(final(self).status) == status_view(old(self).status)
                } else if !rsync_found {
                    r == Err::<UpdateSource, UpdateError>(UpdateError::MissingRsync)
                        && status_view(final(self).status) == status_view(old(self).status)
                } else {
                    let url = expanded_template(
                        template@,
                        channel_name(release_channel)@,
                        os@,
                        arch@,
                        version_text(version_view(old(self).current_version)),
                    );
                    &&& final(self).status is Checking
                    &&& match url_parsed(url) {
                        None => r == Err::<UpdateSource, UpdateError>(UpdateError::InvalidUpdateUrl),
                        Some(parsed) => if is_manifest_url(url) {
                            r matches Ok(UpdateSource::Manifest { manifest_url }) && manifest_url@ == parsed
                        } else {
                            r matches Ok(UpdateSource::Artifact { download_url }) && download_url@ == parsed
                        },
                    }
                },
            },
    {
        let template = match update_url {
            Some(t) => t,
            None => return Ok(UpdateSource::Skip),
        };
        if !auto_update_enabled {
            return Ok(UpdateSource::Skip);
        }
        if !rsync_found {
            return Err(UpdateError::MissingRsync);
        }
        self.status = AutoUpdateStatus::Checking;
        let url = expand_template(template.as_str(), release_channel, &self.current_version, os, arch);
        let parsed = match parse_url(url.as_str()) {
            Some(p) => p,
            None => return Err(UpdateError::InvalidUpdateUrl),
        };
        if looks_like_manifest_url(url.as_str()) {
            Ok(UpdateSource::Manifest { manifest_url: parsed })
        } else {
            Ok(UpdateSource::Artifact { download_url: parsed })
        }
    }

    /// Takes in the release a manifest announced. Where it is not to be
    /// downloaded, the status settles back and `None` comes back; else the
    /// version to download and its URL: the expanded asset URL as an
    /// absolute URL, else relative to the manifest.
    pub fn manifest_fetched(
        &mut self,
        asset: &ReleaseAsset,
        manifest_url: &str,
        release_channel: ReleaseChannel,
        app_commit_sha: Option<&str>,
        previous_status: &AutoUpdateStatus,
        os: &str,
        arch: &str,
    ) -> (r: Result<Option<(VersionCheckType, String)>, UpdateError>)
        ensures
            final(self).pending_poll == old(self).pending_poll,
            version_view(final(self).current_version) == version_view(old(self).current_version),
            ({
                let check = version_check_of(release_channel, asset.version@, semver_parsed(asset.version@));
                let sha = match app_commit_sha {
                    Some(s) => Some(s@),
                    None => None,
                };
                let installed = version_view(old(self).current_version);
                if !manifest_update_wanted(sha, installed, check, status_view(*previous_status)) {
                    &&& r matches Ok(None)
                    &&& status_view(final(self).status) == settled_status(status_view(*previous_status))
                } else {
                    let raw = expanded_template(asset.url@, channel_name(release_channel)@, os@, arch@, version_text(installed));
                    let resolved = match url_parsed(raw) {
                        Some(u) => Some(u),
                        None => url_joined(manifest_url@, raw),
                    };
                    &&& status_view(final(self).status) == status_view(old(self).status)
                    &&& match resolved {
                        None => r == Err::<Option<(VersionCheckType, String)>, UpdateError>(UpdateError::InvalidDownloadUrl),
                        Some(u) => r matches Ok(Some((v, url))) && check_view(v) == check && url@ == u,
                    }
                }
            }),
    {
        let version_check = parse_version_check_type(release_channel, asset.version.as_str());
        if !should_download_manifest_update(
            release_channel,
            app_commit_sha,
            &self.current_version,
            &version_check,
            previous_status,
        ) {
            self.status = if previous_status.is_updated() {
                previous_status.copy()
            } else {
                AutoUpdateStatus::Idle
            };
            return Ok(None);
        }
        let raw = expand_template(asset.url.as_str(), release_channel, &self.current_version, os, arch);
        let url = match parse_url(raw.as_str()) {
            Some(u) => u,
            None => match join_url(manifest_url, raw.as_str()) {
                Some(u) => u,
                None => return Err(UpdateError::InvalidDownloadUrl),
            },
        };
        Ok(Some((version_check, url)))
    }

    /// Takes in the token of the artifact at the update URL and the one last
    /// installed. The same token again means nothing new: the status settles
    /// back. An automatic check without a token does not download: the
    /// status goes idle. Otherwise the version to download is the token, or
    /// `manual` where there is none.
    pub fn artifact_token_fetched(
        &mut self,
        check_type: UpdateCheckType,
        token: &Option<String>,
        previous_token: &Option<String>,
        previous_status: &AutoUpdateStatus,
    ) -> (r: Option<VersionCheckType>)
        ensures
            final(self).pending_poll == old(self).pending_poll,
            version_view(final(self).current_version) == version_view(old(self).current_version),
            if token is Some && opt_view(*previous_token) == opt_view(*token) {
                r is None && status_view(final(self).status) == settled_status(status_view(*previous_status))
            } else if check_type == UpdateCheckType::Automatic && token is None {
                r is None && final(self).status is Idle
            } else {
                &&& status_view(final(self).status) == status_view(old(self).status)
                &&& r matches Some(v) && check_view(v) == VersionCheckView::Sha(
                    match token {
                        Some(t) => t@,
                        None => "manual"@,
                    },
                )
            },
    {
        if let Some(t) = token {
            if let Some(p) = previous_token {
                if str_eq(p.as_str(), t.as_str()) {
                    self.status = if previous_status.is_updated() {
                        previous_status.copy()
                    } else {
                        AutoUpdateStatus::Idle
                    };
                    return None;
                }
            }
        }
        if check_type == UpdateCheckType::Automatic && token.is_none() {
            self.status = AutoUpdateStatus::Idle;
            return None;
        }
        let sha = match token {
            Some(t) => t.clone(),
            None => owned("manual"),
        };
        Some(VersionCheckType::Sha(sha))
    }

    /// The download of the given version has begun.
    pub fn download_started(&mut self, version: VersionCheckType)
        ensures
            status_view(final(self).status) == StatusView::Downloading(check_view(version)),
            final(self).pending_poll == old(self).pending_poll,
            version_view(final(self).current_version) == version_view(old(self).current_version),
    {
        self.status = AutoUpdateStatus::Downloading { version };
    }

    /// The installation of the given version has begun.
    pub fn install_started(&mut self, version: VersionCheckType)
        ensures
            status_view(final(self).status) == StatusView::Installing(check_view(version)),
            final(self).pending_poll == old(self).pending_poll,
            version_view(final(self).current_version) == version_view(old(self).current_version),
    {
        self.status = AutoUpdateStatus::Installing { version };
    }

    /// The given version is installed.
    pub fn update_installed(&mut self, version: VersionCheckType)
        ensures
            status_view(final(self).status) == StatusView::Updated(check_view(version)),
            final(self).pending_poll == old(self).pending_poll,
            version_view(final(self).current_version) == version_view(old(self).current_version),
    {
        self.status = AutoUpdateStatus::Updated { version };
    }
}

} // verus!
