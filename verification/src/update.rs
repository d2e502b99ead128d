//! Self-update decisions: which release is the latest, whether it is newer,
//! which archive to download for this platform, and where the binary is in it.

use vstd::prelude::*;
use vstd::string::*;
use crate::json::{json_member_text, json_str_member};
use crate::text::str_equal;

verus! {

/// `std::io::Error`, carried unchanged as the cause of an unreadable archive.
#[verifier::external_type_specification]
#[verifier::external_body]
pub struct ExIoError(std::io::Error);

/// The GitHub repository that releases are published in.
pub const REPO: &'static str = "kyeotic/vault-sync";

/// The version of this build.
pub const CURRENT_VERSION: &'static str = "0.6.0";

/// Why an update could not be carried out.
#[derive(Debug)]
#[allow(inconsistent_fields)]
pub enum UpdateError {
    /// No release is built for this operating system and architecture.
    UnsupportedPlatform { os: String, arch: String },
    /// The latest-release answer is not JSON.
    InvalidReleaseJson { source: serde_json::Error },
    /// The latest-release answer names no tag.
    MissingTagName,
    /// The downloaded archive could not be listed.
    ArchiveUnreadable { source: std::io::Error },
    /// The downloaded archive holds no readable `vault-sync` file.
    BinaryNotFound,
}

impl UpdateError {
    /// The message shown for the error (an underlying JSON or archive error
    /// goes with it as its source).
    pub fn message(&self) -> (r: String)
        ensures
            match self {
                UpdateError::UnsupportedPlatform { os, arch } => r@ == "Unsupported platform: "@
                    + os@ + "/"@ + arch@,
                UpdateError::InvalidReleaseJson { .. } => r@ == "Failed to parse release JSON"@,
                UpdateError::MissingTagName => r@ == "No tag_name in release response"@,
                UpdateError::ArchiveUnreadable { .. } => r@ == "Failed to read tar entries"@,
                UpdateError::BinaryNotFound => r@ == "Binary not found in archive"@,
            },
    {
        match self {
            UpdateError::UnsupportedPlatform { os, arch } => {
                let mut r = String::from_str("Unsupported platform: ");
                r.append(os.as_str());
                r.append("/");
                r.append(arch.as_str());
                r
            },
            UpdateError::InvalidReleaseJson { .. } => String::from_str("Failed to parse release JSON"),
            UpdateError::MissingTagName => String::from_str("No tag_name in release response"),
            UpdateError::ArchiveUnreadable { .. } => String::from_str("Failed to read tar entries"),
            UpdateError::BinaryNotFound => String::from_str("Binary not found in archive"),
        }
    }
}

/// The address that answers with the latest release.
pub fn latest_release_url() -> (r: String)
    ensures
        r@ == "https://api.github.com/repos/"@ + REPO@ + "/releases/latest"@,
{
    let mut r = String::from_str("https://api.github.com/repos/");
    r.append(REPO);
    r.append("/releases/latest");
    r
}

/// The tag of the latest release, from the `tag_name` member read out of the
/// release JSON: a parse failure, a missing tag, or the tag.
pub fn tag_from_member(member: Result<Option<String>, serde_json::Error>) -> (r: Result<
    String,
    UpdateError,
>)
    ensures
        match member {
            Err(e) => r matches Err(UpdateError::InvalidReleaseJson { source }) && source == e,
            Ok(None) => r matches Err(UpdateError::MissingTagName),
            Ok(Some(t)) => r matches Ok(s) && s@ == t@,
        },
{
    match member {
        Err(e) => Err(UpdateError::InvalidReleaseJson { source: e }),
        Ok(None) => Err(UpdateError::MissingTagName),
        Ok(Some(t)) => Ok(t),
    }
}

/// The tag of the latest release, out of the JSON that GitHub answered with.
pub fn tag_from_release(body: &[u8]) -> (r: Result<String, UpdateError>)
    ensures
        match json_member_text(body@, "tag_name"@) {
            None => r matches Err(UpdateError::InvalidReleaseJson { .. }),
            Some(None) => r matches Err(UpdateError::MissingTagName),
            Some(Some(t)) => r matches Ok(s) && s@ == t,
        },
{
    tag_from_member(json_str_member(body, "tag_name"))
}

/// The version that a release tag names: the tag without a leading `v`.
pub open spec fn tag_version(tag: Seq<char>) -> Seq<char> {
    if tag.len() > 0 && tag[0] == 'v' {
        tag.skip(1)
    } else {
        tag
    }
}

/// The version that a release tag names.
pub fn version_from_tag(tag: &str) -> (r: &str)
    ensures
        r@ == tag_version(tag@),
{
    let n = tag.unicode_len();
    if n > 0 && tag.get_char(0) == 'v' {
        tag.substring_char(1, n)
    } else {
        tag
    }
}

/// Tagging version `v` as `v` + version and reading the tag back gives `v`.
pub proof fn lemma_version_tag_roundtrip(version: Seq<char>)
    ensures
        tag_version(seq!['v'] + version) == version,
        version.len() == 0 || version[0] != 'v' ==> tag_version(version) == version,
{
    assert((seq!['v'] + version).skip(1) =~= version);
}

/// The release target for an operating system and architecture.
pub open spec fn target_for(os: Seq<char>, arch: Seq<char>) -> Option<Seq<char>> {
    if os == "macos"@ && arch == "aarch64"@ {
        Some("aarch64-apple-darwin"@)
    } else if os == "macos"@ && arch == "x86_64"@ {
        Some("x86_64-apple-darwin"@)
    } else if os == "linux"@ && arch == "x86_64"@ {
        Some("x86_64-unknown-linux-musl"@)
    } else {
        None
    }
}

/// The release target for this platform, given `std::env::consts::OS` and
/// `std::env::consts::ARCH`.
pub fn get_target(os: &str, arch: &str) -> (r: Result<&'static str, UpdateError>)
    ensures
        match target_for(os@, arch@) {
            Some(t) => r matches Ok(s) && s@ == t,
            None => r matches Err(UpdateError::UnsupportedPlatform { os: o, arch: a }) && o@ == os@
                && a@ == arch@,
        },
{
    if str_equal(os, "macos") && str_equal(arch, "aarch64") {
        Ok("aarch64-apple-darwin")
    } else if str_equal(os, "macos") && str_equal(arch, "x86_64") {
        Ok("x86_64-apple-darwin")
    } else if str_equal(os, "linux") && str_equal(arch, "x86_64") {
        Ok("x86_64-unknown-linux-musl")
    } else {
        Err(UpdateError::UnsupportedPlatform { os: String::from_str(os), arch: String::from_str(arch) })
    }
}

/// Where the release archive for `tag` and `target` is downloaded from.
pub fn download_url(tag: &str, target: &str) -> (r: String)
    ensures
        r@ == "https://github.com/"@ + REPO@ + "/releases/download/"@ + tag@ + "/vault-sync-"@
            + target@ + ".tar.gz"@,
{
    let mut r = String::from_str("https://github.com/");
    r.append(REPO);
    r.append("/releases/download/");
    r.append(tag);
    r.append("/vault-sync-");
    r.append(target);
    r.append(".tar.gz");
    r
}

/// The view of an archive member.
pub struct TarEntryView {
    pub file_name: Option<Seq<char>>,
    pub data: Option<Seq<u8>>,
}

/// A member of a release archive: the last component of its path, when the
/// path can be read and is text, and its content, when it can be read.
pub struct TarEntry {
    pub file_name: Option<String>,
    pub data: Option<Vec<u8>>,
}

impl View for TarEntry {
    type V = TarEntryView;

    open spec fn view(&self) -> TarEntryView {
        TarEntryView {
            file_name: match self.file_name {
                Some(n) => Some(n@),
                None => None,
            },
            data: match self.data {
                Some(d) => Some(d@),
                None => None,
            },
        }
    }
}

/// The items that listing the gzip-compressed tar archive `archive` yields,
/// in order, each by its file name and content (an item that fails to read
/// has neither); `None` when the archive cannot be listed.
pub uninterp spec fn tar_gz_members(archive: Seq<u8>) -> Option<Seq<TarEntryView>>;

/// `tar::Archive::entries` over a `flate2::read::GzDecoder` of `archive`:
/// one item for every item that the listing yields, with `Path::file_name` of
/// its path and what `read_to_end` reads of it, or neither for a failed item. What it lists is named by
/// `tar_gz_members` of the archive.
#[verifier::external_body]
fn tar_gz_entries(archive: &[u8]) -> (r: Result<Vec<TarEntry>, std::io::Error>)
    ensures
        r is Ok <==> tar_gz_members(archive@) is Some,
        r matches Ok(v) ==> tar_gz_members(archive@) == Some(v@.map_values(|e: TarEntry| e@)),
{
    let mut tar = tar::Archive::new(flate2::read::GzDecoder::new(archive));
    let mut out = Vec::new();
    for entry in tar.entries()? {
        out.push(match entry {
            Ok(mut entry) => {
                let file_name = entry.path().ok().and_then(|p| p.file_name()?.to_str().map(String::from));
                let mut buf = Vec::new();
                let data = std::io::Read::read_to_end(&mut entry, &mut buf).ok().map(|_| buf);
                TarEntry { file_name, data }
            },
            Err(_) => TarEntry { file_name: None, data: None },
        });
    }
    Ok(out)
}

/// The name of the binary inside a release archive.
pub open spec fn binary_name() -> Seq<char> {
    "vault-sync"@
}

/// The content of the first member named `vault-sync` whose content could be
/// read.
pub open spec fn first_binary(es: Seq<TarEntryView>) -> Option<Seq<u8>>
    decreases es.len(),
{
    if es.len() == 0 {
        None
    } else if es[0].file_name == Some(binary_name()) && es[0].data is Some {
        es[0].data
    } else {
        first_binary(es.drop_first())
    }
}

/// The `vault-sync` binary out of a downloaded release archive.
pub fn binary_from_archive(archive: &[u8]) -> (r: Result<Vec<u8>, UpdateError>)
    ensures
        match tar_gz_members(archive@) {
            None => r matches Err(UpdateError::ArchiveUnreadable { .. }),
            Some(es) => match first_binary(es) {
                Some(b) => r matches Ok(v) && v@ == b,
                None => r matches Err(UpdateError::BinaryNotFound),
            },
        },
{
    let entries = match tar_gz_entries(archive) {
        Ok(v) => v,
        Err(e) => {
            return Err(UpdateError::ArchiveUnreadable { source: e });
        },
    };
    match first_binary_entry(&entries) {
        Some(b) => Ok(b),
        None => Err(UpdateError::BinaryNotFound),
    }
}

/// The view of optional bytes.
pub open spec fn opt_bytes_view(o: Option<Vec<u8>>) -> Option<Seq<u8>> {
    match o {
        Some(v) => Some(v@),
        None => None,
    }
}

/// The content of the first listed member named `vault-sync` whose content
/// could be read.
pub fn first_binary_entry(entries: &Vec<TarEntry>) -> (r: Option<Vec<u8>>)
    ensures
        opt_bytes_view(r) == first_binary(entries@.map_values(|e: TarEntry| e@)),
{
    let ghost es = entries@.map_values(|e: TarEntry| e@);
    let mut i: usize = 0;
    assert(es.skip(0) =~= es);
    while i < entries.len()
        invariant
            es == entries@.map_values(|e: TarEntry| e@),
            i <= entries@.len(),
            first_binary(es) == first_binary(es.skip(i as int)),
        decreases entries@.len() - i,
    {
        let entry = &entries[i];
        assert(es.skip(i as int)[0] == entry@);
        let named = match &entry.file_name {
            Some(n) => str_equal(n.as_str(), "vault-sync"),
            None => false,
        };
        if named {
            match &entry.data {
                Some(d) => {
                    let copy = d.clone();
                    assert(copy@ =~= d@);
                    assert(entry@.data == Some(d@));
                    assert(entry@.file_name == Some(binary_name()));
                    return Some(copy);
                },
                None => {},
            }
        }
        assert(es.skip(i as int).drop_first() =~= es.skip(i + 1));
        i = i + 1;
    }
    None
}

} // verus!
