//! Data model of the catalog: repositories, catalog entries, tracked
//! folders, application settings, and the error taxonomy of the store.

use vstd::prelude::*;

verus! {

/// One stored description of a file within a repository.
///
/// `accessible` is false while the backing file is missing or unreadable; the
/// entry is then retained as history rather than deleted. All `Option` fields
/// are optional metadata; how many of them are populated is the entry's
/// completeness score, used to rank duplicates.
#[derive(Debug, Clone, PartialEq, Eq)]
pub struct FileMetadata {
    pub id: String,
    pub name: String,
    pub encoding: String,
    pub path: String,
    pub related_files: Option<String>,
    pub tags: Option<String>,
    pub date_created: String,
    pub date_modified: String,
    pub audio_fingerprint: Option<String>,
    pub accessible: bool,
    pub meta_title: Option<String>,
    pub meta_comment: Option<String>,
    pub meta_album_artist: Option<String>,
    pub meta_album: Option<String>,
    pub meta_track_number: Option<String>,
    pub meta_genre: Option<String>,
    pub meta_bit_rate: Option<String>,
    pub meta_channels: Option<String>,
    pub meta_sample_rate: Option<String>,
    pub meta_size_on_disk: Option<String>,
}

/// A named collection of catalog entries.
#[derive(Debug, Clone, PartialEq, Eq)]
pub struct Repository {
    pub id: String,
    pub name: String,
    pub description: String,
}

/// A filesystem directory under active watch for a repository.
#[derive(Debug, Clone, PartialEq, Eq)]
pub struct TrackedFolder {
    pub id: String,
    pub repo_id: String,
    pub folder_path: String,
}

/// The application-wide settings row.
#[derive(Debug, Clone, PartialEq, Eq)]
pub struct AppSettings {
    pub general_auto_fingerprint: bool,
    pub general_theme: String,
    pub audio_autoplay: bool,
    pub setup_selected_repository: String,
}

/// Errors surfaced by catalog operations.
#[derive(Debug, Clone, PartialEq, Eq)]
pub enum ApiError {
    /// A repository id that the store rejects as a namespace identifier.
    InvalidIdentifier,
    /// A repository with the requested id already exists.
    RepositoryExists,
    /// The requested repository or entry does not exist.
    NotFound,
    /// An entry with the same id already exists in the repository.
    DuplicateEntryId,
}

impl ApiError {
    /// A short human-readable description of the error.
    pub fn message(&self) -> (r: String)
        ensures
            r@.len() > 0,
    {
        let m = match self {
            ApiError::InvalidIdentifier => "invalid repository identifier",
            ApiError::RepositoryExists => "repository already exists",
            ApiError::NotFound => "not found",
            ApiError::DuplicateEntryId => "an entry with this id already exists",
        };
        proof {
            reveal_strlit("invalid repository identifier");
            reveal_strlit("repository already exists");
            reveal_strlit("not found");
            reveal_strlit("an entry with this id already exists");
        }
        String::from_str(m)
    }
}

/// The number of populated optional metadata fields of `f`: the entry's
/// completeness score, the primary key when ranking duplicate entries.
pub open spec fn spec_completeness_score(f: FileMetadata) -> int {
    opt_ind(f.related_files) + opt_ind(f.tags) + opt_ind(f.audio_fingerprint)
        + opt_ind(f.meta_title) + opt_ind(f.meta_comment) + opt_ind(f.meta_album_artist)
        + opt_ind(f.meta_album) + opt_ind(f.meta_track_number) + opt_ind(f.meta_genre)
        + opt_ind(f.meta_bit_rate) + opt_ind(f.meta_channels) + opt_ind(f.meta_sample_rate)
        + opt_ind(f.meta_size_on_disk)
}

/// 1 if the optional field is populated, else 0.
pub open spec fn opt_ind(o: Option<String>) -> int {
    if o is Some {
        1
    } else {
        0
    }
}

/// 1 if the optional field is populated, else 0.
fn opt_flag(o: &Option<String>) -> (r: u32)
    ensures
        r == opt_ind(*o),
{
    if o.is_some() {
        1
    } else {
        0
    }
}

/// Count how many optional metadata fields of `file` are populated.
pub fn completeness_score(file: &FileMetadata) -> (score: u32)
    ensures
        score == spec_completeness_score(*file),
        score <= 13,
{
    let a = opt_flag(&file.related_files) + opt_flag(&file.tags) + opt_flag(
        &file.audio_fingerprint,
    ) + opt_flag(&file.meta_title) + opt_flag(&file.meta_comment) + opt_flag(
        &file.meta_album_artist,
    ) + opt_flag(&file.meta_album);
    let b = opt_flag(&file.meta_track_number) + opt_flag(&file.meta_genre) + opt_flag(
        &file.meta_bit_rate,
    ) + opt_flag(&file.meta_channels) + opt_flag(&file.meta_sample_rate) + opt_flag(
        &file.meta_size_on_disk,
    );
    a + b
}

/// Clone an optional string, field for field.
pub fn clone_opt_string(o: &Option<String>) -> (r: Option<String>)
    ensures
        r == *o,
{
    match o {
        Option::Some(s) => Option::Some(s.clone()),
        Option::None => Option::None,
    }
}

/// Clone a catalog entry, field for field.
pub fn clone_entry(f: &FileMetadata) -> (r: FileMetadata)
    ensures
        r == *f,
{
    FileMetadata {
        id: f.id.clone(),
        name: f.name.clone(),
        encoding: f.encoding.clone(),
        path: f.path.clone(),
        related_files: clone_opt_string(&f.related_files),
        tags: clone_opt_string(&f.tags),
        date_created: f.date_created.clone(),
        date_modified: f.date_modified.clone(),
        audio_fingerprint: clone_opt_string(&f.audio_fingerprint),
        accessible: f.accessible,
        meta_title: clone_opt_string(&f.meta_title),
        meta_comment: clone_opt_string(&f.meta_comment),
        meta_album_artist: clone_opt_string(&f.meta_album_artist),
        meta_album: clone_opt_string(&f.meta_album),
        meta_track_number: clone_opt_string(&f.meta_track_number),
        meta_genre: clone_opt_string(&f.meta_genre),
        meta_bit_rate: clone_opt_string(&f.meta_bit_rate),
        meta_channels: clone_opt_string(&f.meta_channels),
        meta_sample_rate: clone_opt_string(&f.meta_sample_rate),
        meta_size_on_disk: clone_opt_string(&f.meta_size_on_disk),
    }
}

/// Clone a sequence of catalog entries, entry by entry.
pub fn clone_entries(v: &Vec<FileMetadata>) -> (r: Vec<FileMetadata>)
    ensures
        r@ == v@,
{
    let n = v.len();
    let mut out: Vec<FileMetadata> = Vec::new();
    let mut i: usize = 0;
    while i < n
        invariant
            i <= n,
            n == v@.len(),
            out@.len() == i,
            forall|j: int| 0 <= j < i ==> out@[j] == v@[j],
        decreases n - i,
    {
        out.push(clone_entry(&v[i]));
        i = i + 1;
    }
    proof {
        assert(out@ =~= v@);
    }
    out
}

/// Clone a repository row, field for field.
pub fn clone_repository(r: &Repository) -> (c: Repository)
    ensures
        c == *r,
{
    Repository { id: r.id.clone(), name: r.name.clone(), description: r.description.clone() }
}

/// Clone a tracked-folder row, field for field.
pub fn clone_tracked_folder(t: &TrackedFolder) -> (c: TrackedFolder)
    ensures
        c == *t,
{
    TrackedFolder {
        id: t.id.clone(),
        repo_id: t.repo_id.clone(),
        folder_path: t.folder_path.clone(),
    }
}

/// Clone the settings row, field for field.
pub fn clone_settings(s: &AppSettings) -> (c: AppSettings)
    ensures
        c == *s,
{
    AppSettings {
        general_auto_fingerprint: s.general_auto_fingerprint,
        general_theme: s.general_theme.clone(),
        audio_autoplay: s.audio_autoplay,
        setup_selected_repository: s.setup_selected_repository.clone(),
    }
}

/// The degraded description the extractor yields when it can read a file's
/// directory entry but not its tags or codec data: name, encoding, path,
/// timestamps and on-disk size are kept, the entry is marked inaccessible,
/// and every other metadata field is left empty. The id is left empty; the
/// synchronizer assigns one on insertion.
pub fn degraded_entry(
    name: String,
    encoding: String,
    path: String,
    date_created: String,
    date_modified: String,
    size_on_disk: Option<String>,
) -> (r: FileMetadata)
    ensures
        r.id@ == Seq::<char>::empty(),
        r.name == name,
        r.encoding == encoding,
        r.path == path,
        r.date_created == date_created,
        r.date_modified == date_modified,
        r.meta_size_on_disk == size_on_disk,
        !r.accessible,
        r.related_files is None,
        r.tags is None,
        r.audio_fingerprint is None,
        r.meta_title is None,
        r.meta_comment is None,
        r.meta_album_artist is None,
        r.meta_album is None,
        r.meta_track_number is None,
        r.meta_genre is None,
        r.meta_bit_rate is None,
        r.meta_channels is None,
        r.meta_sample_rate is None,
        spec_completeness_score(r) == opt_ind(size_on_disk),
{
    FileMetadata {
        id: String::new(),
        name,
        encoding,
        path,
        related_files: Option::None,
        tags: Option::None,
        date_created,
        date_modified,
        audio_fingerprint: Option::None,
        accessible: false,
        meta_title: Option::None,
        meta_comment: Option::None,
        meta_album_artist: Option::None,
        meta_album: Option::None,
        meta_track_number: Option::None,
        meta_genre: Option::None,
        meta_bit_rate: Option::None,
        meta_channels: Option::None,
        meta_sample_rate: Option::None,
        meta_size_on_disk: size_on_disk,
    }
}

/// The entry `m` with its id replaced by `id`: how a re-extracted description
/// replaces every field of an existing entry while preserving its identity.
pub open spec fn spec_with_id(m: FileMetadata, id: String) -> FileMetadata {
    FileMetadata { id: id, ..m }
}

/// Build the entry `m` with its id replaced by `id`.
pub fn with_id(m: &FileMetadata, id: String) -> (r: FileMetadata)
    ensures
        r == spec_with_id(*m, id),
{
    let mut r = clone_entry(m);
    r.id = id;
    r
}

} // verus!
