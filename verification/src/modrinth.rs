//! The shapes in which an artifact registry answers queries: a resolved
//! version carries a list of downloadable files, each with a name, URL, byte
//! length and integrity digests. Only that role is consumed by the compiler;
//! the network query itself is made by the surrounding program.

use vstd::prelude::*;

verus! {

#[derive(Debug, Clone, PartialEq, Eq)]
pub enum SideSupport {
    Required,
    Optional,
    Unsupported,
}

#[derive(Debug, Clone, PartialEq, Eq)]
pub enum ApprovalStatus {
    Approved,
    Archived,
    Rejected,
    Draft,
    Unlisted,
    Processing,
    Withheld,
    Scheduled,
    Private,
    Unknown,
}

#[derive(Debug, Clone, PartialEq, Eq)]
pub struct DonationUrl {
    pub id: String,
    pub platform: String,
    pub url: String,
}

#[derive(Debug, Clone, PartialEq, Eq)]
pub enum ProjectType {
    Mod,
    ModPack,
    ResourcePack,
    Shader,
}

#[derive(Debug, Clone, PartialEq, Eq)]
pub enum MonetizationStatus {
    Monetized,
    Demonetized,
    ForceDemonitized,
}

#[derive(Debug, Clone, PartialEq, Eq)]
pub struct ModeratorMessage {
    pub message: String,
    pub body: Option<String>,
}

#[derive(Debug, Clone, PartialEq, Eq)]
pub struct License {
    pub id: String,
    pub name: String,
    pub url: String,
}

#[derive(Debug, Clone, PartialEq, Eq)]
pub struct GalleryEntry {
    pub url: String,
    pub featured: bool,
    pub title: Option<String>,
    pub description: Option<String>,
    pub created: String,
    pub ordering: usize,
}

#[derive(Debug, Clone, PartialEq, Eq)]
pub struct ProjectGetResponse {
    pub slug: String,
    pub title: String,
    pub description: String,
    pub categories: Vec<String>,
    pub client_side: SideSupport,
    pub server_side: SideSupport,
    pub body: String,
    pub status: ApprovalStatus,
    pub requested_status: Option<ApprovalStatus>,
    pub additional_categories: Option<Vec<String>>,
    pub issues_url: Option<String>,
    pub source_url: Option<String>,
    pub wiki_url: Option<String>,
    pub discord_url: Option<String>,
    pub donation_urls: Option<Vec<DonationUrl>>,
    pub project_type: ProjectType,
    pub downloads: isize,
    pub icon_url: Option<String>,
    pub color: Option<i32>,
    pub thread_id: Option<String>,
    pub monetization_status: MonetizationStatus,
    pub id: String,
    pub team: String,
    pub body_url: Option<String>,
    pub moderator_message: Option<ModeratorMessage>,
    pub published: String,
    pub updated: String,
    pub approved: Option<String>,
    pub queued: Option<String>,
    pub followers: usize,
    pub license: Option<License>,
    pub versions: Option<Vec<String>>,
    pub game_versions: Option<Vec<String>>,
    pub loaders: Option<Vec<String>>,
    pub gallery: Option<Vec<GalleryEntry>>,
}

#[derive(Debug, Clone, PartialEq, Eq)]
pub enum DependencyType {
    Required,
    Optional,
    Incompatible,
    Embedded,
}

#[derive(Debug, Clone, PartialEq, Eq)]
pub struct DependencyEntry {
    pub version_id: Option<String>,
    pub project_id: Option<String>,
    pub file_name: Option<String>,
    pub dependency_type: DependencyType,
}

#[derive(Debug, Clone, PartialEq, Eq)]
pub enum VersionType {
    Release,
    Beta,
    Alpha,
}

/// The integrity digests a registry reports for one downloadable file, as
/// lowercase hex strings.
#[derive(Debug, Clone, PartialEq, Eq)]
pub struct VersionFileHashes {
    pub sha512: String,
    pub sha1: String,
}

#[derive(Debug, Clone, Copy, PartialEq, Eq, Structural)]
pub enum VersionFileType {
    RequiredResourcePack,
    OptionalResourcePack,
}

/// One downloadable file of a resolved registry version.
#[derive(Debug, Clone, PartialEq, Eq)]
pub struct VersionFile {
    pub hashes: VersionFileHashes,
    pub url: String,
    pub filename: String,
    pub primary: bool,
    pub size: usize,
    pub file_type: Option<VersionFileType>,
}

#[derive(Debug, Clone, PartialEq, Eq)]
pub enum VersionStatus {
    Listed,
    Archived,
    Draft,
    Unlisted,
    Scheduled,
    Unknown,
}

#[derive(Debug, Clone, PartialEq, Eq)]
pub struct ProjectVersionGetResponse {
    pub name: String,
    pub version_number: String,
    pub changelog: Option<String>,
    pub dependenices: Option<Vec<DependencyEntry>>,
    pub game_versions: Vec<String>,
    pub version_type: VersionType,
    pub loaders: Vec<String>,
    pub featured: bool,
    pub status: Option<VersionStatus>,
    pub requested_status: Option<VersionStatus>,
    pub id: String,
    pub project_id: String,
    pub author_id: String,
    pub date_published: String,
    pub downloads: usize,
    pub changelog_url: Option<String>,
    pub files: Vec<VersionFile>,
}

/// The mathematical value of [`VersionFileHashes`].
pub struct VersionFileHashesV {
    pub sha512: Seq<char>,
    pub sha1: Seq<char>,
}

/// The mathematical value of [`VersionFile`].
pub struct VersionFileV {
    pub hashes: VersionFileHashesV,
    pub url: Seq<char>,
    pub filename: Seq<char>,
    pub primary: bool,
    pub size: nat,
    pub file_type: Option<VersionFileType>,
}

impl View for VersionFileHashes {
    type V = VersionFileHashesV;

    open spec fn view(&self) -> VersionFileHashesV {
        VersionFileHashesV { sha512: self.sha512@, sha1: self.sha1@ }
    }
}

impl View for VersionFile {
    type V = VersionFileV;

    open spec fn view(&self) -> VersionFileV {
        VersionFileV {
            hashes: self.hashes@,
            url: self.url@,
            filename: self.filename@,
            primary: self.primary,
            size: self.size as nat,
            file_type: self.file_type,
        }
    }
}

/// The registry endpoint that resolves one (project, version) reference,
/// which also serves as the cache key for the query's answer.
pub fn project_version_url(project: &str, version: &str) -> (u: String)
    ensures
        u@ == "https://api.modrinth.com/v2/project/"@ + project@ + "/version/"@ + version@,
{
    let mut u = String::new();
    u.append("https://api.modrinth.com/v2/project/");
    u.append(project);
    u.append("/version/");
    u.append(version);
    u
}

} // verus!
