//! Plain data records exchanged with callers.

use vstd::prelude::*;

verus! {

/// An author or committer identity.
pub struct AuthorInfo {
    pub name: String,
    pub email: String,
}

/// One revision as presented to callers.
pub struct CommitDetail {
    pub oid: String,
    pub message: String,
    pub author: AuthorInfo,
    pub committer: AuthorInfo,
    pub timestamp: i64,
    pub relative_time: String,
    pub parent_count: usize,
    pub parents: Vec<String>,
}

/// One page of a revision listing.
pub struct CommitListResponse {
    pub commits: Vec<CommitDetail>,
    pub total: usize,
    pub filtered_total: usize,
    pub has_more: bool,
    pub contributors: Vec<AuthorInfo>,
}

/// An author with the number of revisions they made.
pub struct ContributorInfo {
    pub name: String,
    pub email: String,
    pub commit_count: usize,
}

/// How often, and how recently, one author touched one file.
pub struct FileAuthorInfo {
    pub email: String,
    pub name: String,
    pub commit_count: usize,
    pub last_commit_timestamp: i64,
}

/// A complete diff between two revisions.
pub struct DiffResponse {
    pub from_commit: Option<String>,
    pub to_commit: String,
    pub path: Option<String>,
    pub files: Vec<FileDiff>,
    pub stats: DiffStats,
    pub contributors: Vec<AuthorInfo>,
    pub total_files: usize,
    pub filtered_files: usize,
}

/// The change to one file.
pub struct FileDiff {
    pub old_path: Option<String>,
    pub new_path: Option<String>,
    pub status: DiffStatus,
    pub hunks: Vec<DiffHunk>,
    pub old_content: Option<String>,
    pub new_content: Option<String>,
    pub is_binary: bool,
    pub authors: Vec<FileAuthorInfo>,
    pub biggest_change_author: Option<String>,
}

#[derive(Clone, Copy, Debug, PartialEq, Eq, Structural)]
pub enum DiffStatus {
    Added,
    Deleted,
    Modified,
    Renamed,
    Copied,
    TypeChanged,
    Unmodified,
}

/// A contiguous block of changed lines with their context.
pub struct DiffHunk {
    pub old_start: u32,
    pub old_lines: u32,
    pub new_start: u32,
    pub new_lines: u32,
    pub header: String,
    pub lines: Vec<DiffLine>,
}

/// One line of a hunk.
pub struct DiffLine {
    pub line_type: LineType,
    pub old_lineno: Option<u32>,
    pub new_lineno: Option<u32>,
    pub content: String,
}

#[derive(Clone, Copy, Debug, PartialEq, Eq, Structural)]
pub enum LineType {
    Context,
    Addition,
    Deletion,
    Header,
}

/// Totals over a whole diff.
pub struct DiffStats {
    pub files_changed: usize,
    pub insertions: usize,
    pub deletions: usize,
}

/// Whether the working copy differs from the head.
pub struct WorkingTreeStatus {
    pub has_changes: bool,
    pub files_changed: usize,
}

/// Per-line attribution of a file at one revision.
pub struct BlameResponse {
    pub path: String,
    pub commit: String,
    pub lines: Vec<BlameLine>,
}

/// The revision and author that last changed one line.
pub struct BlameLine {
    pub line_number: u32,
    pub author_name: String,
    pub author_email: String,
    pub commit_oid: String,
    pub timestamp: i64,
}

/// A directory offered when choosing another repository.
pub struct FilesystemEntry {
    pub name: String,
    pub path: String,
    pub is_directory: bool,
    pub is_git_repo: bool,
}

/// The directories under one directory of the file system.
pub struct DirectoryListing {
    pub current_path: String,
    pub parent_path: Option<String>,
    pub entries: Vec<FilesystemEntry>,
}

/// A request to serve another repository.
pub struct SwitchRepoRequest {
    pub path: String,
}

/// One entry of a directory listing of the head tree.
pub struct TreeEntry {
    pub name: String,
    pub path: String,
    pub entry_type: EntryType,
    pub size: Option<u64>,
    pub file_count: Option<u32>,
    pub directory_count: Option<u32>,
    pub last_commit: Option<CommitInfo>,
}

#[derive(Clone, Copy, Debug, PartialEq, Eq, Structural)]
pub enum EntryType {
    File,
    Directory,
    Symlink,
    Submodule,
}

/// A short description of one revision.
pub struct CommitInfo {
    pub oid: String,
    pub message: String,
    pub author: String,
    pub timestamp: i64,
    pub relative_time: String,
}

/// A node of the whole head tree.
pub struct FullTreeEntry {
    pub name: String,
    pub path: String,
    pub entry_type: EntryType,
    pub children: Option<Vec<FullTreeEntry>>,
}

/// What is shown of a repository as a whole.
pub struct RepositoryInfo {
    pub name: String,
    pub path: String,
    pub head_branch: Option<String>,
    pub head_commit: Option<CommitInfo>,
    pub is_bare: bool,
    pub is_empty: bool,
}

/// Statistics of one directory of the head tree.
pub struct DirectoryInfo {
    pub path: String,
    pub file_count: usize,
    pub directory_count: usize,
    pub total_size: u64,
    pub contributors: Vec<ContributorInfo>,
    pub first_commit: Option<CommitInfo>,
    pub latest_commit: Option<CommitInfo>,
}

/// A branch with its newest revision.
pub struct BranchInfo {
    pub name: String,
    pub is_current: bool,
    pub is_remote: bool,
    pub last_commit: Option<CommitInfo>,
}

} // verus!
