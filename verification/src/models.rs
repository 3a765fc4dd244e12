//! The records of the CurseForge API, as plain values.
use vstd::prelude::*;

verus! {

/// One page of results.
pub struct Paginated<T> {
    pub data: Vec<T>,
    pub pagination: Option<Pagination>,
}

/// Where a page stands in the whole result.
#[derive(Debug, Clone, Copy, PartialEq, Eq, Default)]
pub struct Pagination {
    pub index: u32,
    pub page_size: u32,
    pub total_count: u32,
}

/// The review state of an uploaded file.
#[derive(Debug, Clone, Copy, PartialEq, Eq)]
pub enum FileStatus {
    Processing,
    ChangesRequired,
    UnderReview,
    Approved,
    Rejected,
    MalwareDetected,
    Deleted,
    Archived,
    Testing,
    Released,
    ReadyForReview,
    Deprecated,
    Baking,
    AwaitingPublishing,
    FailedPublishing,
    Unknown,
}

/// The API code of a file status.
pub open spec fn file_status_code(s: FileStatus) -> u8 {
    match s {
        FileStatus::Processing => 1,
        FileStatus::ChangesRequired => 2,
        FileStatus::UnderReview => 3,
        FileStatus::Approved => 4,
        FileStatus::Rejected => 5,
        FileStatus::MalwareDetected => 6,
        FileStatus::Deleted => 7,
        FileStatus::Archived => 8,
        FileStatus::Testing => 9,
        FileStatus::Released => 10,
        FileStatus::ReadyForReview => 11,
        FileStatus::Deprecated => 12,
        FileStatus::Baking => 13,
        FileStatus::AwaitingPublishing => 14,
        FileStatus::FailedPublishing => 15,
        FileStatus::Unknown => 0,
    }
}

impl FileStatus {
    /// The API code of this status.
    pub fn code(self) -> (r: u8)
        ensures
            r == file_status_code(self),
    {
        match self {
            FileStatus::Processing => 1,
            FileStatus::ChangesRequired => 2,
            FileStatus::UnderReview => 3,
            FileStatus::Approved => 4,
            FileStatus::Rejected => 5,
            FileStatus::MalwareDetected => 6,
            FileStatus::Deleted => 7,
            FileStatus::Archived => 8,
            FileStatus::Testing => 9,
            FileStatus::Released => 10,
            FileStatus::ReadyForReview => 11,
            FileStatus::Deprecated => 12,
            FileStatus::Baking => 13,
            FileStatus::AwaitingPublishing => 14,
            FileStatus::FailedPublishing => 15,
            FileStatus::Unknown => 0,
        }
    }
}

/// How stable a release is.
#[derive(Debug, Clone, Copy, PartialEq, Eq)]
pub enum ReleaseType {
    Release,
    Beta,
    Alpha,
}

/// The API code of a release type.
pub open spec fn release_type_code(t: ReleaseType) -> u8 {
    match t {
        ReleaseType::Release => 1,
        ReleaseType::Beta => 2,
        ReleaseType::Alpha => 3,
    }
}

impl ReleaseType {
    /// The API code of this release type.
    pub fn code(self) -> (r: u8)
        ensures
            r == release_type_code(self),
    {
        match self {
            ReleaseType::Release => 1,
            ReleaseType::Beta => 2,
            ReleaseType::Alpha => 3,
        }
    }
}

/// How one project depends on another.
#[derive(Debug, Clone, Copy, PartialEq, Eq)]
pub enum DependencyType {
    EmbeddedLibrary,
    OptionalDependency,
    RequiredDependency,
    Tool,
    Incompatible,
    Include,
}

/// The API code of a dependency type.
pub open spec fn dependency_type_code(t: DependencyType) -> u8 {
    match t {
        DependencyType::EmbeddedLibrary => 1,
        DependencyType::OptionalDependency => 2,
        DependencyType::RequiredDependency => 3,
        DependencyType::Tool => 4,
        DependencyType::Incompatible => 5,
        DependencyType::Include => 6,
    }
}

impl DependencyType {
    /// The API code of this dependency type.
    pub fn code(self) -> (r: u8)
        ensures
            r == dependency_type_code(self),
    {
        match self {
            DependencyType::EmbeddedLibrary => 1,
            DependencyType::OptionalDependency => 2,
            DependencyType::RequiredDependency => 3,
            DependencyType::Tool => 4,
            DependencyType::Incompatible => 5,
            DependencyType::Include => 6,
        }
    }
}

/// An uploaded file of a project; dates are RFC 3339 text.
pub struct ModFile {
    pub id: u64,
    pub date_created: String,
    pub date_modified: Option<String>,
    pub display_name: String,
    pub file_length: u64,
    pub file_name: String,
    pub status: Option<u8>,
    pub project_id: u64,
    pub game_versions: Vec<String>,
    pub release_type: Option<u8>,
    pub total_downloads: Option<u64>,
    pub download_url: Option<String>,
    pub hashes: Vec<FileHash>,
    pub dependencies: Vec<FileDependency>,
}

/// A hash of a file, with the code of its algorithm.
pub struct FileHash {
    pub value: String,
    pub algo: u8,
}

/// A dependency of a file on another project.
#[derive(Debug, Clone, Copy, PartialEq, Eq)]
pub struct FileDependency {
    pub mod_id: u64,
    pub relation_type: u8,
}

/// A project.
pub struct ModInfo {
    pub id: u64,
    pub game_id: u64,
    pub name: String,
    pub slug: String,
    pub summary: Option<String>,
    pub download_count: Option<u64>,
    pub categories: Vec<Category>,
    pub latest_files: Vec<ModFile>,
    pub logo: Option<Asset>,
}

/// A project category.
pub struct Category {
    pub id: u64,
    pub name: String,
    pub slug: Option<String>,
}

/// An image of a project.
pub struct Asset {
    pub id: u64,
    pub url: String,
}

/// A game as the API describes it.
pub struct Game {
    pub id: u64,
    pub name: String,
    pub slug: String,
}

} // verus!
