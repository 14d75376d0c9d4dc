//! The refresher: reconciling one catalog entry with what the filesystem
//! currently says about its path. The caller stats the file (and, when the
//! stored modification timestamp disagrees with the filesystem, runs the
//! metadata extractor) and reports the outcome as an observation; the
//! functions here decide exactly how the entry changes.

use vstd::prelude::*;
use crate::model::FileMetadata;
use crate::model::clone_entry;
use crate::model::spec_with_id;
use crate::model::with_id;
use crate::paths::str_eq;

verus! {

/// What the filesystem said about one entry's path.
///
/// `Missing`: no file is there any more. `Unchanged`: the file is there and
/// its modification timestamp equals the stored one. `Changed`: the
/// timestamp differs, so the extractor ran; it yielded a fresh description,
/// or nothing when extraction failed.
#[derive(Debug, Clone, PartialEq, Eq)]
pub enum FsObservation {
    Missing,
    Unchanged,
    Changed(Option<FileMetadata>),
}

/// The entry `e` with its accessible flag lowered and everything else kept:
/// the soft delete applied when the backing file is gone.
pub open spec fn spec_mark_inaccessible(e: FileMetadata) -> FileMetadata {
    FileMetadata { accessible: false, ..e }
}

/// How one refresh pass changes the entry `e` under observation `o`.
///
/// A missing file only lowers `accessible`: the entry is retained, not
/// deleted. An unchanged file leaves the entry alone. A changed file
/// replaces every field with the freshly extracted description except the
/// id, which is preserved; when extraction failed, the entry keeps its
/// metadata and only loses its accessible flag.
pub open spec fn spec_refresh_entry(e: FileMetadata, o: FsObservation) -> FileMetadata {
    match o {
        FsObservation::Missing => spec_mark_inaccessible(e),
        FsObservation::Unchanged => e,
        FsObservation::Changed(extraction) => match extraction {
            Option::Some(m) => spec_with_id(m, e.id),
            Option::None => spec_mark_inaccessible(e),
        },
    }
}

/// Whether a file whose current modification timestamp reads
/// `fs_date_modified` is out of date with respect to the stored entry, so
/// that the extractor has to run again.
pub fn is_stale(entry: &FileMetadata, fs_date_modified: &str) -> (r: bool)
    ensures
        r == (fs_date_modified@ != entry.date_modified@),
{
    !str_eq(fs_date_modified, entry.date_modified.as_str())
}

/// Refresh one entry against the reported observation.
pub fn refresh_entry(entry: &FileMetadata, o: &FsObservation) -> (r: FileMetadata)
    ensures
        r == spec_refresh_entry(*entry, *o),
{
    match o {
        FsObservation::Missing => {
            let mut e = clone_entry(entry);
            e.accessible = false;
            e
        },
        FsObservation::Unchanged => clone_entry(entry),
        FsObservation::Changed(extraction) => match extraction {
            Option::Some(m) => with_id(m, entry.id.clone()),
            Option::None => {
                let mut e = clone_entry(entry);
                e.accessible = false;
                e
            },
        },
    }
}

/// A repository's entries refreshed pointwise against one observation
/// each.
pub open spec fn spec_refreshed(t: Seq<FileMetadata>, obs: Seq<FsObservation>) -> Seq<
    FileMetadata,
> {
    Seq::new(t.len(), |j: int| spec_refresh_entry(t[j], obs[j]))
}

/// Refreshing never changes an entry's id.
pub proof fn lemma_refresh_keeps_ids(t: Seq<FileMetadata>, obs: Seq<FsObservation>)
    ensures
        forall|j: int|
            0 <= j < t.len() && j < obs.len() ==> (#[trigger] spec_refreshed(t, obs)[j]).id
                == t[j].id,
{
}

/// Refresh a repository's entries pointwise against one observation each.
pub fn refresh_entries(entries: &Vec<FileMetadata>, obs: &Vec<FsObservation>) -> (r: Vec<
    FileMetadata,
>)
    requires
        entries@.len() == obs@.len(),
    ensures
        r@ == spec_refreshed(entries@, obs@),
        r@.len() == entries@.len(),
        forall|j: int|
            0 <= j < entries@.len() ==> r@[j] == spec_refresh_entry(
                entries@[j],
                #[trigger] obs@[j],
            ),
{
    let n = entries.len();
    let mut out: Vec<FileMetadata> = Vec::new();
    let mut i: usize = 0;
    while i < n
        invariant
            i <= n,
            n == entries@.len(),
            n == obs@.len(),
            out@.len() == i,
            forall|j: int|
                0 <= j < i ==> out@[j] == spec_refresh_entry(entries@[j], #[trigger] obs@[j]),
        decreases n - i,
    {
        out.push(refresh_entry(&entries[i], &obs[i]));
        i = i + 1;
    }
    proof {
        assert(out@ =~= spec_refreshed(entries@, obs@));
    }
    out
}

/// Soft delete on removal: refreshing an entry whose file has vanished
/// keeps its id and path (and all other fields) intact, and only lowers the
/// accessible flag; the entry is not deleted.
pub proof fn lemma_refresh_soft_delete(e: FileMetadata)
    ensures
        spec_refresh_entry(e, FsObservation::Missing).id == e.id,
        spec_refresh_entry(e, FsObservation::Missing).path == e.path,
        !spec_refresh_entry(e, FsObservation::Missing).accessible,
        spec_refresh_entry(e, FsObservation::Missing) == spec_mark_inaccessible(e),
{
}

/// The observations a second refresh pass can report when nothing on disk
/// changed after the first: a missing file stays missing; after a
/// successful re-extraction the stored timestamp now matches the file, so
/// the file reads as unchanged (or the extractor reports the same
/// description again); a failed extraction keeps failing against the same
/// unchanged file.
pub open spec fn spec_stable_followup(o: FsObservation, o2: FsObservation) -> bool {
    match o {
        FsObservation::Missing => o2 == FsObservation::Missing,
        FsObservation::Unchanged => o2 == FsObservation::Unchanged,
        FsObservation::Changed(extraction) => match extraction {
            Option::Some(m) => o2 == FsObservation::Unchanged || o2 == FsObservation::Changed(
                Option::Some(m),
            ),
            Option::None => o2 == FsObservation::Changed(Option::<FileMetadata>::None),
        },
    }
}

/// Refresh idempotence: refreshing twice with no intervening filesystem
/// change mutates nothing on the second pass.
pub proof fn lemma_refresh_idempotent(e: FileMetadata, o: FsObservation, o2: FsObservation)
    requires
        spec_stable_followup(o, o2),
    ensures
        spec_refresh_entry(spec_refresh_entry(e, o), o2) == spec_refresh_entry(e, o),
{
}

} // verus!
