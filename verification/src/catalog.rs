//! The catalog: repositories, their file tables, the tracked folders, and
//! the settings row, with the synchronizer's mutations on them. The store
//! that persists all of this is an external collaborator; this type is the
//! authoritative statement of what each operation does to the data, and the
//! surrounding process mirrors every mutation to its store.

use vstd::prelude::*;
use vstd::pervasive::VecAdditionalExecFns;
use crate::assoc::assoc_map;
use crate::assoc::distinct_keys;
use crate::assoc::lemma_assoc_map_contains;
use crate::assoc::lemma_assoc_map_index;
use crate::assoc::lemma_assoc_map_push;
use crate::assoc::lemma_assoc_map_remove;
use crate::assoc::lemma_assoc_map_update;
use crate::model::ApiError;
use crate::model::AppSettings;
use crate::model::FileMetadata;
use crate::model::Repository;
use crate::model::TrackedFolder;
use crate::model::clone_entry;
use crate::model::clone_repository;
use crate::model::clone_settings;
use crate::model::clone_tracked_folder;
use crate::paths::sanitize_identifier;
use crate::paths::spec_valid_identifier;
use crate::paths::str_eq;
use crate::dedup::dedup_entries;
use crate::dedup::distinct_ids;
use crate::dedup::lemma_filter_preserves_distinct_ids;
use crate::dedup::spec_dedup_kept;
use crate::model::clone_entries;
use crate::model::spec_with_id;
use crate::model::with_id;
use crate::ids::fresh_uuid;
use crate::paths::path_under_folder;
use crate::paths::spec_under_folder;
use crate::refresh::FsObservation;
use crate::refresh::refresh_entries;
use crate::refresh::spec_refreshed;

verus! {

broadcast use vstd::seq_lib::group_filter_ensures;

/// Mapping the values of a map commutes with inserting a key.
pub proof fn lemma_map_values_insert<K, V, W>(m: Map<K, V>, k: K, v: V, f: spec_fn(V) -> W)
    ensures
        m.insert(k, v).map_values(f) =~= m.map_values(f).insert(k, f(v)),
{
}

/// Mapping the values of a map commutes with removing a key.
pub proof fn lemma_map_values_remove<K, V, W>(m: Map<K, V>, k: K, f: spec_fn(V) -> W)
    ensures
        m.remove(k).map_values(f) =~= m.map_values(f).remove(k),
{
}

/// How `update_repository` changes the repository rows: the row carrying
/// `id` keeps its id but takes the new name and description, and every
/// other row stays as it was.
pub open spec fn spec_repos_after_update(
    s0: Seq<Repository>,
    s1: Seq<Repository>,
    id: Seq<char>,
    name: Seq<char>,
    description: Seq<char>,
) -> bool {
    exists|i: int|
        #![auto]
        {
            &&& 0 <= i < s0.len()
            &&& s0[i].id@ == id
            &&& s1.len() == s0.len()
            &&& (forall|j: int| 0 <= j < s0.len() && j != i ==> s1[j] == s0[j])
            &&& s1[i].id == s0[i].id
            &&& s1[i].name@ == name
            &&& s1[i].description@ == description
        }
}

/// Whether some entry of `t` stores exactly this path.
pub open spec fn spec_has_path(t: Seq<FileMetadata>, p: Seq<char>) -> bool {
    exists|j: int| 0 <= j < t.len() && (#[trigger] t[j]).path@ == p
}

/// Whether some entry of `t` carries this entry id.
pub open spec fn spec_has_entry_id(t: Seq<FileMetadata>, k: Seq<char>) -> bool {
    exists|j: int| 0 <= j < t.len() && (#[trigger] t[j]).id@ == k
}

/// The entries a table map holds for `id`, or no entries when the table was
/// never created.
pub open spec fn spec_table_of(m: Map<Seq<char>, Seq<FileMetadata>>, id: Seq<char>) -> Seq<
    FileMetadata,
> {
    if m.contains_key(id) {
        m[id]
    } else {
        Seq::empty()
    }
}

/// Whether a tracked-folder row is not the one naming this repository and
/// folder: the rows that survive `delete_tracked_folder`.
pub open spec fn spec_other_tracked_row(t: TrackedFolder, repo: Seq<char>, folder: Seq<char>) -> bool {
    !(t.repo_id@ == repo && t.folder_path@ == folder)
}

/// What ingesting a newly created file does, given the table map `m0` and
/// table `t0` of the repository before the call, the extracted description
/// `m`, and the fresh id `id` given to the new entry: nothing when the
/// repository id is rejected (an error) or the exact path is already
/// cataloged (a silent no-op); an error when the fresh id collides; else
/// the entry is inserted and the repository deduplicated at once.
pub open spec fn spec_ingest_outcome(
    m0: Map<Seq<char>, Seq<FileMetadata>>,
    rid: Seq<char>,
    m: FileMetadata,
    id: String,
    m1: Map<Seq<char>, Seq<FileMetadata>>,
    r: Result<(), ApiError>,
) -> bool {
    let t0 = spec_table_of(m0, rid);
    if !spec_valid_identifier(rid) {
        r == Result::<(), ApiError>::Err(ApiError::InvalidIdentifier) && m1 == m0
    } else if spec_has_path(t0, m.path@) {
        r is Ok && m1 == m0.insert(rid, t0)
    } else if spec_has_entry_id(t0, id@) {
        r == Result::<(), ApiError>::Err(ApiError::DuplicateEntryId) && m1 == m0.insert(rid, t0)
    } else {
        r is Ok && m1 == m0.insert(rid, spec_dedup_kept(t0.push(spec_with_id(m, id))))
    }
}

/// The table map after refreshing the first `k` repositories of `repos`,
/// each against its own observations, starting from `m0`.
pub open spec fn spec_refresh_rounds(
    m0: Map<Seq<char>, Seq<FileMetadata>>,
    repos: Seq<Repository>,
    obs: Seq<Vec<FsObservation>>,
    k: int,
) -> Map<Seq<char>, Seq<FileMetadata>>
    decreases k,
{
    if k <= 0 {
        m0
    } else {
        spec_refresh_rounds(m0, repos, obs, k - 1).insert(
            repos[k - 1].id@,
            spec_refreshed(spec_table_of(m0, repos[k - 1].id@), obs[k - 1]@),
        )
    }
}

/// Refreshing some repositories leaves every other key of the table map
/// exactly as it was.
pub proof fn lemma_refresh_rounds_untouched(
    m0: Map<Seq<char>, Seq<FileMetadata>>,
    repos: Seq<Repository>,
    obs: Seq<Vec<FsObservation>>,
    k: int,
    key: Seq<char>,
)
    requires
        forall|l: int| 0 <= l < k ==> (#[trigger] repos[l]).id@ != key,
    ensures
        spec_refresh_rounds(m0, repos, obs, k).contains_key(key) == m0.contains_key(key),
        m0.contains_key(key) ==> spec_refresh_rounds(m0, repos, obs, k)[key] == m0[key],
        spec_table_of(spec_refresh_rounds(m0, repos, obs, k), key) == spec_table_of(m0, key),
    decreases k,
{
    if k > 0 {
        lemma_refresh_rounds_untouched(m0, repos, obs, k - 1, key);
    }
}

/// After refreshing the first `k` repositories, each of them holds exactly
/// its refreshed entries, provided the repository ids are distinct.
pub proof fn lemma_refresh_rounds_at(
    m0: Map<Seq<char>, Seq<FileMetadata>>,
    repos: Seq<Repository>,
    obs: Seq<Vec<FsObservation>>,
    k: int,
    l: int,
)
    requires
        0 <= l < k <= repos.len(),
        forall|a: int, b: int|
            0 <= a < b < repos.len() ==> (#[trigger] repos[a]).id@ != (#[trigger] repos[b]).id@,
    ensures
        spec_refresh_rounds(m0, repos, obs, k).contains_key(repos[l].id@),
        spec_refresh_rounds(m0, repos, obs, k)[repos[l].id@] == spec_refreshed(
            spec_table_of(m0, repos[l].id@),
            obs[l]@,
        ),
    decreases k,
{
    if l == k - 1 {
    } else {
        lemma_refresh_rounds_at(m0, repos, obs, k - 1, l);
        assert(repos[k - 1].id@ != repos[l].id@);
    }
}

/// Cascade delete: after the entries under a folder are purged, no
/// remaining entry of the repository lies under that folder, and every
/// entry that did not lie under it is still there.
pub proof fn lemma_purge_folder(t: Seq<FileMetadata>, folder: Seq<char>, purged: Seq<FileMetadata>)
    requires
        purged == t.filter(|e: FileMetadata| !spec_under_folder(e.path@, folder)),
    ensures
        forall|j: int|
            0 <= j < purged.len() ==> !spec_under_folder((#[trigger] purged[j]).path@, folder),
        forall|j: int|
            0 <= j < t.len() && !spec_under_folder((#[trigger] t[j]).path@, folder)
                ==> purged.contains(t[j]),
{
    let pred = |e: FileMetadata| !spec_under_folder(e.path@, folder);
    assert forall|j: int| 0 <= j < purged.len() implies !spec_under_folder(
        (#[trigger] purged[j]).path@,
        folder,
    ) by {
        assert(pred(t.filter(pred)[j]));
    }
    assert forall|j: int|
        0 <= j < t.len() && !spec_under_folder((#[trigger] t[j]).path@, folder) implies purged.contains(
        t[j],
    ) by {
        assert(pred(t[j]));
    }
}

/// Filtering tracked-folder rows keeps their (repository, folder) pairs
/// pairwise distinct.
pub proof fn lemma_filter_preserves_distinct_rows(
    s: Seq<TrackedFolder>,
    pred: spec_fn(TrackedFolder) -> bool,
)
    requires
        forall|i: int, j: int|
            0 <= i < j < s.len() ==> !((#[trigger] s[i]).repo_id@ == (#[trigger] s[j]).repo_id@
                && s[i].folder_path@ == s[j].folder_path@),
    ensures
        forall|i: int, j: int|
            0 <= i < j < s.filter(pred).len() ==> !((#[trigger] s.filter(pred)[i]).repo_id@
                == (#[trigger] s.filter(pred)[j]).repo_id@ && s.filter(pred)[i].folder_path@
                == s.filter(pred)[j].folder_path@),
    decreases s.len(),
{
    reveal(Seq::filter);
    if s.len() > 0 {
        assert(forall|i: int| 0 <= i < s.len() - 1 ==> s.drop_last()[i] == s[i]);
        lemma_filter_preserves_distinct_rows(s.drop_last(), pred);
        let f0 = s.drop_last().filter(pred);
        if pred(s.last()) {
            let f = f0.push(s.last());
            assert forall|a: int, b: int| 0 <= a < b < f.len() implies !((#[trigger] f[a]).repo_id@
                == (#[trigger] f[b]).repo_id@ && f[a].folder_path@ == f[b].folder_path@) by {
                if b < f.len() - 1 {
                    assert(f[a] == f0[a] && f[b] == f0[b]);
                } else {
                    assert(f[a] == f0[a]);
                    crate::dedup::lemma_filter_member_of(s.drop_last(), pred, a);
                    let i = choose|i: int|
                        0 <= i < s.drop_last().len() && s.drop_last()[i] == f0[a];
                    assert(s[i] == f[a]);
                }
            }
        }
    }
}

/// The in-memory catalog state.
pub struct Catalog {
    repositories: Vec<Repository>,
    tables: Vec<(String, Vec<FileMetadata>)>,
    tracked_folders: Vec<TrackedFolder>,
    settings: AppSettings,
}

/// The view function turning the stored file tables into a map from
/// repository id to entry sequence.
pub open spec fn view_of_table(v: Vec<FileMetadata>) -> Seq<FileMetadata> {
    v@
}

impl Catalog {
    /// The repository rows, in creation order.
    pub closed spec fn spec_repositories(&self) -> Seq<Repository> {
        self.repositories@
    }

    /// The file tables: repository id to its entries, in table order.
    pub closed spec fn spec_tables(&self) -> Map<Seq<char>, Seq<FileMetadata>> {
        assoc_map(self.tables@).map_values(|v: Vec<FileMetadata>| view_of_table(v))
    }

    /// The tracked-folder rows.
    pub closed spec fn spec_tracked(&self) -> Seq<TrackedFolder> {
        self.tracked_folders@
    }

    /// The settings row.
    pub closed spec fn spec_settings(&self) -> AppSettings {
        self.settings
    }

    /// Whether a repository row with this id exists.
    pub open spec fn spec_has_repo(&self, id: Seq<char>) -> bool {
        exists|i: int|
            0 <= i < self.spec_repositories().len() && (#[trigger] self.spec_repositories()[i]).id@
                == id
    }

    /// The entries of a repository's table, or no entries when the table
    /// was never created.
    pub open spec fn spec_table_or_empty(&self, id: Seq<char>) -> Seq<FileMetadata> {
        spec_table_of(self.spec_tables(), id)
    }

    /// Whether a tracked-folder row for this repository and folder exists.
    pub open spec fn spec_is_tracked(&self, repo: Seq<char>, folder: Seq<char>) -> bool {
        exists|i: int|
            0 <= i < self.spec_tracked().len() && (#[trigger] self.spec_tracked()[i]).repo_id@
                == repo && self.spec_tracked()[i].folder_path@ == folder
    }

    /// The catalog's invariant: repository ids are distinct and valid
    /// identifiers, each table key is a distinct valid identifier, entry
    /// ids within a table are distinct, and no repository tracks the same
    /// folder twice.
    pub closed spec fn wf(&self) -> bool {
        &&& forall|i: int, j: int|
            0 <= i < j < self.repositories@.len() ==> (#[trigger] self.repositories@[i]).id@
                != (#[trigger] self.repositories@[j]).id@
        &&& forall|i: int|
            0 <= i < self.repositories@.len() ==> spec_valid_identifier(
                (#[trigger] self.repositories@[i]).id@,
            )
        &&& distinct_keys(self.tables@)
        &&& forall|i: int|
            0 <= i < self.tables@.len() ==> spec_valid_identifier(
                (#[trigger] self.tables@[i]).0@,
            )
        &&& forall|i: int|
            0 <= i < self.tables@.len() ==> distinct_ids((#[trigger] self.tables@[i]).1@)
        &&& forall|i: int, j: int|
            0 <= i < j < self.tracked_folders@.len() ==> !((#[trigger] self.tracked_folders@[i]).repo_id@
                == (#[trigger] self.tracked_folders@[j]).repo_id@ && self.tracked_folders@[i].folder_path@
                == self.tracked_folders@[j].folder_path@)
    }

    /// Every table of a well-formed catalog has pairwise distinct entry
    /// ids.
    pub proof fn lemma_wf_table_distinct_ids(&self, id: Seq<char>)
        requires
            self.wf(),
            self.spec_tables().contains_key(id),
        ensures
            distinct_ids(self.spec_tables()[id]),
    {
        lemma_assoc_map_contains(self.tables@, id);
        let i = choose|i: int| 0 <= i < self.tables@.len() && (#[trigger] self.tables@[i]).0@
            == id;
        lemma_assoc_map_index(self.tables@, i);
    }

    /// An empty catalog with the default settings: automatic
    /// fingerprinting off, the light theme, autoplay off, and the default
    /// repository selected.
    pub fn new() -> (r: Catalog)
        ensures
            r.wf(),
            r.spec_repositories() == Seq::<Repository>::empty(),
            r.spec_tables() == Map::<Seq<char>, Seq<FileMetadata>>::empty(),
            r.spec_tracked() == Seq::<TrackedFolder>::empty(),
            !r.spec_settings().general_auto_fingerprint,
            !r.spec_settings().audio_autoplay,
            r.spec_settings().general_theme@ == "theme-light"@,
            r.spec_settings().setup_selected_repository@ == "default"@,
    {
        let c = Catalog {
            repositories: Vec::new(),
            tables: Vec::new(),
            tracked_folders: Vec::new(),
            settings: AppSettings {
                general_auto_fingerprint: false,
                general_theme: String::from_str("theme-light"),
                audio_autoplay: false,
                setup_selected_repository: String::from_str("default"),
            },
        };
        proof {
            assert(c.spec_tables() =~= Map::<Seq<char>, Seq<FileMetadata>>::empty());
        }
        c
    }

    /// Read the settings row.
    pub fn get_app_settings(&self) -> (r: AppSettings)
        ensures
            r == self.spec_settings(),
    {
        clone_settings(&self.settings)
    }

    /// Overwrite the settings row with the given values.
    pub fn update_app_settings(
        &mut self,
        general_auto_fingerprint: bool,
        general_theme: String,
        audio_autoplay: bool,
        setup_selected_repository: String,
    )
        requires
            old(self).wf(),
        ensures
            final(self).wf(),
            final(self).spec_settings() == (AppSettings {
                general_auto_fingerprint,
                general_theme,
                audio_autoplay,
                setup_selected_repository,
            }),
            final(self).spec_repositories() == old(self).spec_repositories(),
            final(self).spec_tables() == old(self).spec_tables(),
            final(self).spec_tracked() == old(self).spec_tracked(),
    {
        self.settings = AppSettings {
            general_auto_fingerprint,
            general_theme,
            audio_autoplay,
            setup_selected_repository,
        };
    }

    /// The index of the repository row with this id, if any.
    fn find_repo_index(&self, id: &str) -> (r: Option<usize>)
        ensures
            match r {
                Option::Some(i) => i < self.repositories@.len()
                    && self.repositories@[i as int].id@ == id@,
                Option::None => !self.spec_has_repo(id@),
            },
    {
        let n = self.repositories.len();
        let mut i: usize = 0;
        while i < n
            invariant
                i <= n,
                n == self.repositories@.len(),
                forall|j: int| 0 <= j < i ==> (#[trigger] self.repositories@[j]).id@ != id@,
            decreases n - i,
        {
            if str_eq(self.repositories[i].id.as_str(), id) {
                return Option::Some(i);
            }
            i = i + 1;
        }
        Option::None
    }

    /// The index of the file table with this repository id, if any.
    fn find_table_index(&self, id: &str) -> (r: Option<usize>)
        ensures
            match r {
                Option::Some(i) => i < self.tables@.len() && self.tables@[i as int].0@ == id@,
                Option::None => forall|i: int|
                    0 <= i < self.tables@.len() ==> (#[trigger] self.tables@[i]).0@ != id@,
            },
    {
        let n = self.tables.len();
        let mut i: usize = 0;
        while i < n
            invariant
                i <= n,
                n == self.tables@.len(),
                forall|j: int| 0 <= j < i ==> (#[trigger] self.tables@[j]).0@ != id@,
            decreases n - i,
        {
            if str_eq(self.tables[i].0.as_str(), id) {
                return Option::Some(i);
            }
            i = i + 1;
        }
        Option::None
    }

    /// Create the file table for `repo_id` if it does not exist yet; the
    /// store rejects ids that are not valid namespace identifiers.
    pub fn ensure_files_table(&mut self, repo_id: &str) -> (r: Result<(), ApiError>)
        requires
            old(self).wf(),
        ensures
            final(self).wf(),
            match r {
                Result::Ok(()) => spec_valid_identifier(repo_id@) && final(self).spec_tables()
                    == old(self).spec_tables().insert(
                    repo_id@,
                    old(self).spec_table_or_empty(repo_id@),
                ),
                Result::Err(e) => !spec_valid_identifier(repo_id@) && e
                    == ApiError::InvalidIdentifier && final(self).spec_tables() == old(
                    self,
                ).spec_tables(),
            },
            final(self).spec_repositories() == old(self).spec_repositories(),
            final(self).spec_tracked() == old(self).spec_tracked(),
            final(self).spec_settings() == old(self).spec_settings(),
    {
        let owned = match sanitize_identifier(repo_id) {
            Result::Ok(s) => s,
            Result::Err(e) => {
                return Result::Err(e);
            },
        };
        proof {
            lemma_assoc_map_contains(self.tables@, repo_id@);
        }
        match self.find_table_index(repo_id) {
            Option::Some(i) => {
                proof {
                    lemma_assoc_map_index(self.tables@, i as int);
                    assert(self.spec_tables().insert(repo_id@, self.spec_table_or_empty(repo_id@))
                        =~= self.spec_tables());
                }
                Result::Ok(())
            },
            Option::None => {
                let empty: Vec<FileMetadata> = Vec::new();
                proof {
                    lemma_assoc_map_push(self.tables@, (owned, empty));
                    lemma_map_values_insert(
                        assoc_map(self.tables@),
                        repo_id@,
                        empty,
                        |v: Vec<FileMetadata>| view_of_table(v),
                    );
                }
                self.tables.push((owned, empty));
                proof {
                    assert(self.spec_tables() =~= old(self).spec_tables().insert(
                        repo_id@,
                        Seq::<FileMetadata>::empty(),
                    ));
                }
                Result::Ok(())
            },
        }
    }

    /// Create a repository row with the given id, name and description, and
    /// its (empty) file table. The store rejects invalid identifiers; a
    /// repository that already exists is an error.
    pub fn create_repository_with_id(&mut self, id: &str, name: &str, description: &str) -> (r:
        Result<(), ApiError>)
        requires
            old(self).wf(),
        ensures
            final(self).wf(),
            match r {
                Result::Ok(()) => {
                    &&& spec_valid_identifier(id@)
                    &&& !old(self).spec_has_repo(id@)
                    &&& final(self).spec_repositories().len() == old(
                        self,
                    ).spec_repositories().len() + 1
                    &&& final(self).spec_repositories().drop_last() == old(
                        self,
                    ).spec_repositories()
                    &&& final(self).spec_repositories().last().id@ == id@
                    &&& final(self).spec_repositories().last().name@ == name@
                    &&& final(self).spec_repositories().last().description@ == description@
                    &&& final(self).spec_tables() == old(self).spec_tables().insert(
                        id@,
                        old(self).spec_table_or_empty(id@),
                    )
                },
                Result::Err(e) => {
                    &&& final(self).spec_repositories() == old(self).spec_repositories()
                    &&& final(self).spec_tables() == old(self).spec_tables()
                    &&& (e == ApiError::InvalidIdentifier && !spec_valid_identifier(id@)) || (e
                        == ApiError::RepositoryExists && spec_valid_identifier(id@) && old(
                        self,
                    ).spec_has_repo(id@))
                },
            },
            final(self).spec_tracked() == old(self).spec_tracked(),
            final(self).spec_settings() == old(self).spec_settings(),
    {
        let owned = match sanitize_identifier(id) {
            Result::Ok(s) => s,
            Result::Err(e) => {
                return Result::Err(e);
            },
        };
        match self.find_repo_index(id) {
            Option::Some(i) => {
                proof {
                    assert(old(self).spec_repositories()[i as int].id@ == id@);
                    assert(old(self).spec_has_repo(id@));
                }
                Result::Err(ApiError::RepositoryExists)
            },
            Option::None => {
                let row = Repository {
                    id: owned,
                    name: name.to_owned(),
                    description: description.to_owned(),
                };
                self.repositories.push(row);
                proof {
                    let s0 = old(self).repositories@;
                    let s = self.repositories@;
                    assert(s.drop_last() =~= s0);
                    assert forall|a: int, b: int| 0 <= a < b < s.len() implies (#[trigger] s[a]).id@
                        != (#[trigger] s[b]).id@ by {
                        assert(s[a] == s0[a]);
                        if b < s.len() - 1 {
                            assert(s[b] == s0[b]);
                        } else {
                            assert(s[b].id@ == id@);
                            if s[a].id@ == id@ {
                                assert(old(self).spec_repositories()[a].id@ == id@);
                                assert(old(self).spec_has_repo(id@));
                            }
                        }
                    }
                    assert forall|a: int| 0 <= a < s.len() implies spec_valid_identifier(
                        (#[trigger] s[a]).id@,
                    ) by {
                        if a < s.len() - 1 {
                            assert(s[a] == s0[a]);
                        }
                    }
                    assert(self.wf());
                }
                let created = self.ensure_files_table(id);
                proof {
                    assert(created is Ok);
                }
                Result::Ok(())
            },
        }
    }

    /// Delete the repository row with this id and drop its file table; a
    /// repository that does not exist is no error, as with the underlying
    /// row deletion. The store rejects invalid identifiers.
    pub fn delete_repository(&mut self, id: &str) -> (r: Result<(), ApiError>)
        requires
            old(self).wf(),
        ensures
            final(self).wf(),
            match r {
                Result::Ok(()) => {
                    &&& spec_valid_identifier(id@)
                    &&& (exists|i: int|
                        #![auto]
                        0 <= i < old(self).spec_repositories().len() && old(
                            self,
                        ).spec_repositories()[i].id@ == id@ && final(self).spec_repositories()
                            == old(self).spec_repositories().remove(i)) || (!old(
                        self,
                    ).spec_has_repo(id@) && final(self).spec_repositories() == old(
                        self,
                    ).spec_repositories())
                    &&& final(self).spec_tables() == old(self).spec_tables().remove(id@)
                },
                Result::Err(e) => {
                    &&& e == ApiError::InvalidIdentifier
                    &&& !spec_valid_identifier(id@)
                    &&& final(self).spec_repositories() == old(self).spec_repositories()
                    &&& final(self).spec_tables() == old(self).spec_tables()
                },
            },
            final(self).spec_tracked() == old(self).spec_tracked(),
            final(self).spec_settings() == old(self).spec_settings(),
    {
        match sanitize_identifier(id) {
            Result::Ok(_) => {},
            Result::Err(e) => {
                return Result::Err(e);
            },
        }
        match self.find_repo_index(id) {
            Option::Some(i) => {
                self.repositories.remove(i);
                proof {
                    let s0 = old(self).repositories@;
                    let s = self.repositories@;
                    assert forall|a: int, b: int| 0 <= a < b < s.len() implies (#[trigger] s[a]).id@
                        != (#[trigger] s[b]).id@ by {
                        let c = if a < i as int {
                            a
                        } else {
                            a + 1
                        };
                        let d = if b < i as int {
                            b
                        } else {
                            b + 1
                        };
                        assert(s[a] == s0[c]);
                        assert(s[b] == s0[d]);
                    }
                    assert forall|a: int| 0 <= a < s.len() implies spec_valid_identifier(
                        (#[trigger] s[a]).id@,
                    ) by {
                        let c = if a < i as int {
                            a
                        } else {
                            a + 1
                        };
                        assert(s[a] == s0[c]);
                    }
                }
            },
            Option::None => {},
        }
        proof {
            lemma_assoc_map_contains(self.tables@, id@);
        }
        match self.find_table_index(id) {
            Option::Some(t) => {
                proof {
                    lemma_assoc_map_remove(self.tables@, t as int);
                    lemma_map_values_remove(
                        assoc_map(self.tables@).remove(id@),
                        id@,
                        |v: Vec<FileMetadata>| view_of_table(v),
                    );
                }
                let ghost before = self.tables@;
                self.tables.remove(t);
                proof {
                    assert(assoc_map(self.tables@) =~= assoc_map(before).remove(id@));
                    assert(self.spec_tables() =~= old(self).spec_tables().remove(id@));
                }
            },
            Option::None => {
                proof {
                    assert(!assoc_map(self.tables@).contains_key(id@));
                    assert(self.spec_tables() =~= old(self).spec_tables().remove(id@));
                }
            },
        }
        Result::Ok(())
    }

    /// List all repository rows.
    pub fn get_repositories(&self) -> (r: Vec<Repository>)
        ensures
            r@ == self.spec_repositories(),
    {
        let n = self.repositories.len();
        let mut out: Vec<Repository> = Vec::new();
        let mut i: usize = 0;
        while i < n
            invariant
                i <= n,
                n == self.repositories@.len(),
                out@.len() == i,
                forall|j: int| 0 <= j < i ==> out@[j] == self.repositories@[j],
            decreases n - i,
        {
            out.push(clone_repository(&self.repositories[i]));
            i = i + 1;
        }
        proof {
            assert(out@ =~= self.spec_repositories());
        }
        out
    }

    /// Read the repository row with this id; a repository that does not
    /// exist is reported as not found.
    pub fn get_repository(&self, id: &str) -> (r: Result<Repository, ApiError>)
        ensures
            match r {
                Result::Ok(rep) => rep.id@ == id@ && exists|i: int|
                    0 <= i < self.spec_repositories().len()
                        && #[trigger] self.spec_repositories()[i] == rep,
                Result::Err(e) => e == ApiError::NotFound && !self.spec_has_repo(id@),
            },
    {
        match self.find_repo_index(id) {
            Option::Some(i) => {
                let rep = clone_repository(&self.repositories[i]);
                proof {
                    assert(self.spec_repositories()[i as int] == rep);
                }
                Result::Ok(rep)
            },
            Option::None => Result::Err(ApiError::NotFound),
        }
    }

    /// Overwrite the name and description of the repository row with this
    /// id; as with the underlying row update, a missing row makes the call
    /// a no-op.
    pub fn update_repository(&mut self, id: &str, name: &str, description: &str)
        requires
            old(self).wf(),
        ensures
            final(self).wf(),
            old(self).spec_has_repo(id@) ==> spec_repos_after_update(
                old(self).spec_repositories(),
                final(self).spec_repositories(),
                id@,
                name@,
                description@,
            ),
            !old(self).spec_has_repo(id@) ==> final(self).spec_repositories() == old(
                self,
            ).spec_repositories(),
            final(self).spec_tables() == old(self).spec_tables(),
            final(self).spec_tracked() == old(self).spec_tracked(),
            final(self).spec_settings() == old(self).spec_settings(),
    {
        match self.find_repo_index(id) {
            Option::Some(i) => {
                let kept_id = self.repositories[i].id.clone();
                let row = Repository {
                    id: kept_id,
                    name: name.to_owned(),
                    description: description.to_owned(),
                };
                self.repositories.set(i, row);
                proof {
                    let s0 = old(self).repositories@;
                    let s = self.repositories@;
                    assert(forall|j: int| 0 <= j < s.len() && j != i as int ==> s[j] == s0[j]);
                    assert(s[i as int].id@ == s0[i as int].id@);
                }
            },
            Option::None => {},
        }
    }

    /// Replace the entries of the table at index `i`, keeping its key.
    fn set_table_files(&mut self, i: usize, files: Vec<FileMetadata>)
        requires
            old(self).wf(),
            i < old(self).tables@.len(),
            distinct_ids(files@),
        ensures
            final(self).wf(),
            final(self).spec_tables() == old(self).spec_tables().insert(
                old(self).tables@[i as int].0@,
                files@,
            ),
            final(self).tables@[i as int].0 == old(self).tables@[i as int].0,
            final(self).tables@.len() == old(self).tables@.len(),
            final(self).spec_repositories() == old(self).spec_repositories(),
            final(self).spec_tracked() == old(self).spec_tracked(),
            final(self).spec_settings() == old(self).spec_settings(),
    {
        let key = self.tables[i].0.clone();
        proof {
            lemma_assoc_map_update(self.tables@, i as int, (key, files));
            lemma_map_values_insert(
                assoc_map(self.tables@),
                key@,
                files,
                |v: Vec<FileMetadata>| view_of_table(v),
            );
        }
        self.tables.set(i, (key, files));
        proof {
            assert(self.spec_tables() =~= old(self).spec_tables().insert(
                old(self).tables@[i as int].0@,
                files@,
            ));
        }
    }

    /// The index of this repository's table, which `ensure_files_table`
    /// just created or found.
    fn table_index_after_ensure(&self, repo_id: &str) -> (r: usize)
        requires
            self.wf(),
            self.spec_tables().contains_key(repo_id@),
        ensures
            r < self.tables@.len(),
            self.tables@[r as int].0@ == repo_id@,
            self.tables@[r as int].1@ == self.spec_tables()[repo_id@],
    {
        proof {
            lemma_assoc_map_contains(self.tables@, repo_id@);
        }
        match self.find_table_index(repo_id) {
            Option::Some(i) => {
                proof {
                    lemma_assoc_map_index(self.tables@, i as int);
                }
                i
            },
            Option::None => {
                proof {
                    assert(false);
                }
                0
            },
        }
    }

    /// List the entries of a repository, creating its (empty) table on
    /// first use. The store rejects invalid identifiers.
    pub fn get_files_in_repository(&mut self, repo_id: &str) -> (r: Result<
        Vec<FileMetadata>,
        ApiError,
    >)
        requires
            old(self).wf(),
        ensures
            final(self).wf(),
            match r {
                Result::Ok(files) => {
                    &&& spec_valid_identifier(repo_id@)
                    &&& files@ == old(self).spec_table_or_empty(repo_id@)
                    &&& final(self).spec_tables() == old(self).spec_tables().insert(
                        repo_id@,
                        old(self).spec_table_or_empty(repo_id@),
                    )
                },
                Result::Err(e) => {
                    &&& e == ApiError::InvalidIdentifier
                    &&& !spec_valid_identifier(repo_id@)
                    &&& final(self).spec_tables() == old(self).spec_tables()
                },
            },
            final(self).spec_repositories() == old(self).spec_repositories(),
            final(self).spec_tracked() == old(self).spec_tracked(),
            final(self).spec_settings() == old(self).spec_settings(),
    {
        match self.ensure_files_table(repo_id) {
            Result::Ok(()) => {},
            Result::Err(e) => {
                return Result::Err(e);
            },
        }
        let i = self.table_index_after_ensure(repo_id);
        Result::Ok(clone_entries(&self.tables[i].1))
    }

    /// Read the entry with this id from a repository, creating the (empty)
    /// table on first use; a missing entry is reported as not found.
    #[verifier::loop_isolation(false)]
    pub fn get_file(&mut self, repo_id: &str, file_id: &str) -> (r: Result<FileMetadata, ApiError>)
        requires
            old(self).wf(),
        ensures
            final(self).wf(),
            match r {
                Result::Ok(f) => {
                    &&& spec_valid_identifier(repo_id@)
                    &&& f.id@ == file_id@
                    &&& old(self).spec_table_or_empty(repo_id@).contains(f)
                },
                Result::Err(e) => (e == ApiError::InvalidIdentifier && !spec_valid_identifier(
                    repo_id@,
                )) || (e == ApiError::NotFound && spec_valid_identifier(repo_id@)
                    && !spec_has_entry_id(old(self).spec_table_or_empty(repo_id@), file_id@)),
            },
            spec_valid_identifier(repo_id@) ==> final(self).spec_tables() == old(
                self,
            ).spec_tables().insert(repo_id@, old(self).spec_table_or_empty(repo_id@)),
            !spec_valid_identifier(repo_id@) ==> final(self).spec_tables() == old(
                self,
            ).spec_tables(),
            final(self).spec_repositories() == old(self).spec_repositories(),
            final(self).spec_tracked() == old(self).spec_tracked(),
            final(self).spec_settings() == old(self).spec_settings(),
    {
        match self.ensure_files_table(repo_id) {
            Result::Ok(()) => {},
            Result::Err(e) => {
                return Result::Err(e);
            },
        }
        let i = self.table_index_after_ensure(repo_id);
        let files = &self.tables[i].1;
        let n = files.len();
        let mut j: usize = 0;
        while j < n
            invariant
                j <= n,
                n == files@.len(),
                forall|k: int| 0 <= k < j ==> (#[trigger] files@[k]).id@ != file_id@,
            decreases n - j,
        {
            if str_eq(files[j].id.as_str(), file_id) {
                let f = clone_entry(&files[j]);
                proof {
                    assert(old(self).spec_table_or_empty(repo_id@)[j as int] == f);
                }
                return Result::Ok(f);
            }
            j = j + 1;
        }
        Result::Err(ApiError::NotFound)
    }

    /// Insert a new entry into a repository, creating the table on first
    /// use. An entry whose exact path is already cataloged makes the call a
    /// no-op; a fresh path with an already-used id is an error; otherwise
    /// the entry is added and duplicates are removed at once, so that each
    /// normalized path keeps exactly one entry.
    #[verifier::loop_isolation(false)]
    pub fn create_file(&mut self, repo_id: &str, file: &FileMetadata) -> (r: Result<(), ApiError>)
        requires
            old(self).wf(),
        ensures
            final(self).wf(),
            match r {
                Result::Ok(()) => {
                    &&& spec_valid_identifier(repo_id@)
                    &&& if spec_has_path(old(self).spec_table_or_empty(repo_id@), file.path@) {
                        final(self).spec_tables() == old(self).spec_tables().insert(
                            repo_id@,
                            old(self).spec_table_or_empty(repo_id@),
                        )
                    } else {
                        !spec_has_entry_id(old(self).spec_table_or_empty(repo_id@), file.id@)
                            && final(self).spec_tables() == old(self).spec_tables().insert(
                            repo_id@,
                            spec_dedup_kept(old(self).spec_table_or_empty(repo_id@).push(*file)),
                        )
                    }
                },
                Result::Err(e) => (e == ApiError::InvalidIdentifier && !spec_valid_identifier(
                    repo_id@,
                ) && final(self).spec_tables() == old(self).spec_tables()) || (e
                    == ApiError::DuplicateEntryId && spec_valid_identifier(repo_id@)
                    && !spec_has_path(old(self).spec_table_or_empty(repo_id@), file.path@)
                    && spec_has_entry_id(old(self).spec_table_or_empty(repo_id@), file.id@)
                    && final(self).spec_tables() == old(self).spec_tables().insert(
                    repo_id@,
                    old(self).spec_table_or_empty(repo_id@),
                )),
            },
            final(self).spec_repositories() == old(self).spec_repositories(),
            final(self).spec_tracked() == old(self).spec_tracked(),
            final(self).spec_settings() == old(self).spec_settings(),
    {
        match self.ensure_files_table(repo_id) {
            Result::Ok(()) => {},
            Result::Err(e) => {
                return Result::Err(e);
            },
        }
        let i = self.table_index_after_ensure(repo_id);
        let ghost t0 = old(self).spec_table_or_empty(repo_id@);
        let n = self.tables[i].1.len();
        let mut j: usize = 0;
        while j < n
            invariant
                j <= n,
                i < self.tables@.len(),
                n == self.tables@[i as int].1@.len(),
                self.tables@[i as int].1@ == t0,
                forall|k: int| 0 <= k < j ==> (#[trigger] t0[k]).path@ != file.path@,
            decreases n - j,
        {
            if str_eq(self.tables[i].1[j].path.as_str(), file.path.as_str()) {
                return Result::Ok(());
            }
            j = j + 1;
        }
        let mut j: usize = 0;
        while j < n
            invariant
                j <= n,
                i < self.tables@.len(),
                n == self.tables@[i as int].1@.len(),
                self.tables@[i as int].1@ == t0,
                forall|k: int| 0 <= k < j ==> (#[trigger] t0[k]).id@ != file.id@,
            decreases n - j,
        {
            if str_eq(self.tables[i].1[j].id.as_str(), file.id.as_str()) {
                return Result::Err(ApiError::DuplicateEntryId);
            }
            j = j + 1;
        }
        let mut grown = clone_entries(&self.tables[i].1);
        grown.push(clone_entry(file));
        proof {
            assert(grown@ =~= t0.push(*file));
            assert(distinct_ids(t0.push(*file))) by {
                let t = t0.push(*file);
                assert(self.wf());
                assert(distinct_ids(self.tables@[i as int].1@));
                assert forall|a: int, b: int| 0 <= a < b < t.len() implies (#[trigger] t[a]).id@
                    != (#[trigger] t[b]).id@ by {
                    assert(t[a] == t0[a]);
                    if b < t.len() - 1 {
                        assert(t[b] == t0[b]);
                    } else {
                        assert(t[b] == *file);
                    }
                }
            }
        }
        let (kept, _removed) = dedup_entries(&grown);
        proof {
            lemma_filter_preserves_distinct_ids(
                grown@,
                |e: FileMetadata| crate::dedup::group_winner(grown@, e),
            );
        }
        self.set_table_files(i, kept);
        Result::Ok(())
    }

    /// Overwrite the entry carrying this entry's id, keeping its position;
    /// as with the underlying row update, a missing entry makes the call a
    /// no-op. The table is created on first use.
    #[verifier::loop_isolation(false)]
    pub fn update_file(&mut self, repo_id: &str, file: &FileMetadata) -> (r: Result<(), ApiError>)
        requires
            old(self).wf(),
        ensures
            final(self).wf(),
            match r {
                Result::Ok(()) => {
                    &&& spec_valid_identifier(repo_id@)
                    &&& if spec_has_entry_id(old(self).spec_table_or_empty(repo_id@), file.id@) {
                        exists|j: int|
                            #![auto]
                            0 <= j < old(self).spec_table_or_empty(repo_id@).len() && old(
                                self,
                            ).spec_table_or_empty(repo_id@)[j].id@ == file.id@ && final(self).spec_tables() == old(self).spec_tables().insert(
                                repo_id@,
                                old(self).spec_table_or_empty(repo_id@).update(j, *file),
                            )
                    } else {
                        final(self).spec_tables() == old(self).spec_tables().insert(
                            repo_id@,
                            old(self).spec_table_or_empty(repo_id@),
                        )
                    }
                },
                Result::Err(e) => {
                    &&& e == ApiError::InvalidIdentifier
                    &&& !spec_valid_identifier(repo_id@)
                    &&& final(self).spec_tables() == old(self).spec_tables()
                },
            },
            final(self).spec_repositories() == old(self).spec_repositories(),
            final(self).spec_tracked() == old(self).spec_tracked(),
            final(self).spec_settings() == old(self).spec_settings(),
    {
        match self.ensure_files_table(repo_id) {
            Result::Ok(()) => {},
            Result::Err(e) => {
                return Result::Err(e);
            },
        }
        let i = self.table_index_after_ensure(repo_id);
        let ghost t0 = old(self).spec_table_or_empty(repo_id@);
        let n = self.tables[i].1.len();
        let mut j: usize = 0;
        while j < n
            invariant
                j <= n,
                i < self.tables@.len(),
                n == self.tables@[i as int].1@.len(),
                self.tables@[i as int].1@ == t0,
                forall|k: int| 0 <= k < j ==> (#[trigger] t0[k]).id@ != file.id@,
                spec_valid_identifier(repo_id@),
                self.wf(),
                self.tables@[i as int].0@ == repo_id@,
                self.spec_tables() == old(self).spec_tables().insert(repo_id@, t0),
                self.spec_repositories() == old(self).spec_repositories(),
                self.spec_tracked() == old(self).spec_tracked(),
                self.spec_settings() == old(self).spec_settings(),
            decreases n - j,
        {
            if str_eq(self.tables[i].1[j].id.as_str(), file.id.as_str()) {
                let mut updated = clone_entries(&self.tables[i].1);
                updated.set(j, clone_entry(file));
                proof {
                    assert(updated@ =~= t0.update(j as int, *file));
                    assert(distinct_ids(t0.update(j as int, *file))) by {
                        let t = t0.update(j as int, *file);
                        assert forall|a: int, b: int|
                            0 <= a < b < t.len() implies (#[trigger] t[a]).id@
                            != (#[trigger] t[b]).id@ by {
                            assert(t[a].id@ == t0[a].id@);
                            assert(t[b].id@ == t0[b].id@);
                        }
                    }
                }
                self.set_table_files(i, updated);
                proof {
                    assert(t0[j as int].id@ == file.id@);
                    assert(self.spec_tables() =~= old(self).spec_tables().insert(
                        repo_id@,
                        t0.update(j as int, *file),
                    ));
                }
                return Result::Ok(());
            }
            j = j + 1;
        }
        Result::Ok(())
    }

    /// Delete the entry with this id from a repository; a missing entry is
    /// no error, as with the underlying row deletion. The table is created
    /// on first use.
    #[verifier::loop_isolation(false)]
    pub fn delete_file(&mut self, repo_id: &str, file_id: &str) -> (r: Result<(), ApiError>)
        requires
            old(self).wf(),
        ensures
            final(self).wf(),
            match r {
                Result::Ok(()) => {
                    &&& spec_valid_identifier(repo_id@)
                    &&& if spec_has_entry_id(old(self).spec_table_or_empty(repo_id@), file_id@) {
                        exists|j: int|
                            #![auto]
                            0 <= j < old(self).spec_table_or_empty(repo_id@).len() && old(
                                self,
                            ).spec_table_or_empty(repo_id@)[j].id@ == file_id@ && final(self).spec_tables() == old(self).spec_tables().insert(
                                repo_id@,
                                old(self).spec_table_or_empty(repo_id@).remove(j),
                            )
                    } else {
                        final(self).spec_tables() == old(self).spec_tables().insert(
                            repo_id@,
                            old(self).spec_table_or_empty(repo_id@),
                        )
                    }
                },
                Result::Err(e) => {
                    &&& e == ApiError::InvalidIdentifier
                    &&& !spec_valid_identifier(repo_id@)
                    &&& final(self).spec_tables() == old(self).spec_tables()
                },
            },
            final(self).spec_repositories() == old(self).spec_repositories(),
            final(self).spec_tracked() == old(self).spec_tracked(),
            final(self).spec_settings() == old(self).spec_settings(),
    {
        match self.ensure_files_table(repo_id) {
            Result::Ok(()) => {},
            Result::Err(e) => {
                return Result::Err(e);
            },
        }
        let i = self.table_index_after_ensure(repo_id);
        let ghost t0 = old(self).spec_table_or_empty(repo_id@);
        let n = self.tables[i].1.len();
        let mut j: usize = 0;
        while j < n
            invariant
                j <= n,
                i < self.tables@.len(),
                n == self.tables@[i as int].1@.len(),
                self.tables@[i as int].1@ == t0,
                forall|k: int| 0 <= k < j ==> (#[trigger] t0[k]).id@ != file_id@,
                spec_valid_identifier(repo_id@),
                self.wf(),
                self.tables@[i as int].0@ == repo_id@,
                self.spec_tables() == old(self).spec_tables().insert(repo_id@, t0),
                self.spec_repositories() == old(self).spec_repositories(),
                self.spec_tracked() == old(self).spec_tracked(),
                self.spec_settings() == old(self).spec_settings(),
            decreases n - j,
        {
            if str_eq(self.tables[i].1[j].id.as_str(), file_id) {
                let mut shrunk = clone_entries(&self.tables[i].1);
                shrunk.remove(j);
                proof {
                    assert(shrunk@ =~= t0.remove(j as int));
                    assert(distinct_ids(t0.remove(j as int))) by {
                        let t = t0.remove(j as int);
                        assert forall|a: int, b: int|
                            0 <= a < b < t.len() implies (#[trigger] t[a]).id@
                            != (#[trigger] t[b]).id@ by {
                            let c = if a < j as int {
                                a
                            } else {
                                a + 1
                            };
                            let d = if b < j as int {
                                b
                            } else {
                                b + 1
                            };
                            assert(t[a] == t0[c]);
                            assert(t[b] == t0[d]);
                        }
                    }
                }
                self.set_table_files(i, shrunk);
                proof {
                    assert(t0[j as int].id@ == file_id@);
                    assert(self.spec_tables() =~= old(self).spec_tables().insert(
                        repo_id@,
                        t0.remove(j as int),
                    ));
                }
                return Result::Ok(());
            }
            j = j + 1;
        }
        Result::Ok(())
    }

    /// Remove duplicate entries from a repository: afterwards every
    /// normalized path cataloged there is carried by exactly one entry, the
    /// preferred member of its group. The table is created on first use.
    pub fn remove_duplicate_files_in_repository(&mut self, repo_id: &str) -> (r: Result<
        (),
        ApiError,
    >)
        requires
            old(self).wf(),
        ensures
            final(self).wf(),
            match r {
                Result::Ok(()) => {
                    &&& spec_valid_identifier(repo_id@)
                    &&& final(self).spec_tables() == old(self).spec_tables().insert(
                        repo_id@,
                        spec_dedup_kept(old(self).spec_table_or_empty(repo_id@)),
                    )
                },
                Result::Err(e) => {
                    &&& e == ApiError::InvalidIdentifier
                    &&& !spec_valid_identifier(repo_id@)
                    &&& final(self).spec_tables() == old(self).spec_tables()
                },
            },
            final(self).spec_repositories() == old(self).spec_repositories(),
            final(self).spec_tracked() == old(self).spec_tracked(),
            final(self).spec_settings() == old(self).spec_settings(),
    {
        match self.ensure_files_table(repo_id) {
            Result::Ok(()) => {},
            Result::Err(e) => {
                return Result::Err(e);
            },
        }
        let i = self.table_index_after_ensure(repo_id);
        let (kept, _removed) = dedup_entries(&self.tables[i].1);
        proof {
            let t0 = self.tables@[i as int].1@;
            lemma_filter_preserves_distinct_ids(
                t0,
                |e: FileMetadata| crate::dedup::group_winner(t0, e),
            );
        }
        self.set_table_files(i, kept);
        Result::Ok(())
    }

    /// Record that `folder_path` is tracked for this repository, under the
    /// given row id; a folder the repository already tracks is recorded
    /// only once, so a second start of the same watch adds no second row.
    #[verifier::loop_isolation(false)]
    pub fn create_tracked_folder_with_id(&mut self, repo_id: &str, folder_path: &str, id: String)
        requires
            old(self).wf(),
        ensures
            final(self).wf(),
            old(self).spec_is_tracked(repo_id@, folder_path@) ==> final(self).spec_tracked()
                == old(self).spec_tracked(),
            !old(self).spec_is_tracked(repo_id@, folder_path@) ==> {
                &&& final(self).spec_tracked().len() == old(self).spec_tracked().len() + 1
                &&& final(self).spec_tracked().drop_last() == old(self).spec_tracked()
                &&& final(self).spec_tracked().last().id == id
                &&& final(self).spec_tracked().last().repo_id@ == repo_id@
                &&& final(self).spec_tracked().last().folder_path@ == folder_path@
            },
            final(self).spec_is_tracked(repo_id@, folder_path@),
            final(self).spec_repositories() == old(self).spec_repositories(),
            final(self).spec_tables() == old(self).spec_tables(),
            final(self).spec_settings() == old(self).spec_settings(),
    {
        let n = self.tracked_folders.len();
        let mut j: usize = 0;
        while j < n
            invariant
                j <= n,
                n == self.tracked_folders@.len(),
                forall|k: int|
                    0 <= k < j ==> !((#[trigger] self.tracked_folders@[k]).repo_id@ == repo_id@
                        && self.tracked_folders@[k].folder_path@ == folder_path@),
            decreases n - j,
        {
            if str_eq(self.tracked_folders[j].repo_id.as_str(), repo_id) && str_eq(
                self.tracked_folders[j].folder_path.as_str(),
                folder_path,
            ) {
                proof {
                    assert(self.spec_tracked()[j as int].repo_id@ == repo_id@);
                }
                return ;
            }
            j = j + 1;
        }
        let row = TrackedFolder {
            id,
            repo_id: repo_id.to_owned(),
            folder_path: folder_path.to_owned(),
        };
        self.tracked_folders.push(row);
        proof {
            let s0 = old(self).tracked_folders@;
            let t = self.tracked_folders@;
            assert(t.drop_last() =~= s0);
            assert(t[t.len() - 1].repo_id@ == repo_id@);
            assert forall|a: int, b: int| 0 <= a < b < t.len() implies !((#[trigger] t[a]).repo_id@
                == (#[trigger] t[b]).repo_id@ && t[a].folder_path@ == t[b].folder_path@) by {
                assert(t[a] == s0[a]);
                if b < t.len() - 1 {
                    assert(t[b] == s0[b]);
                }
            }
        }
    }

    /// Record that `folder_path` is tracked for this repository, drawing a
    /// fresh row id; a folder the repository already tracks is recorded
    /// only once.
    pub fn create_tracked_folder(&mut self, repo_id: &str, folder_path: &str)
        requires
            old(self).wf(),
        ensures
            final(self).wf(),
            old(self).spec_is_tracked(repo_id@, folder_path@) ==> final(self).spec_tracked()
                == old(self).spec_tracked(),
            !old(self).spec_is_tracked(repo_id@, folder_path@) ==> {
                &&& final(self).spec_tracked().len() == old(self).spec_tracked().len() + 1
                &&& final(self).spec_tracked().drop_last() == old(self).spec_tracked()
                &&& final(self).spec_tracked().last().repo_id@ == repo_id@
                &&& final(self).spec_tracked().last().folder_path@ == folder_path@
            },
            final(self).spec_is_tracked(repo_id@, folder_path@),
            final(self).spec_repositories() == old(self).spec_repositories(),
            final(self).spec_tables() == old(self).spec_tables(),
            final(self).spec_settings() == old(self).spec_settings(),
    {
        let id = fresh_uuid();
        self.create_tracked_folder_with_id(repo_id, folder_path, id);
    }

    /// Delete the tracked-folder rows naming this repository and folder; a
    /// row that does not exist is no error, as with the underlying row
    /// deletion.
    pub fn delete_tracked_folder(&mut self, repo_id: &str, folder_path: &str)
        requires
            old(self).wf(),
        ensures
            final(self).wf(),
            final(self).spec_tracked() == old(self).spec_tracked().filter(
                |t: TrackedFolder| spec_other_tracked_row(t, repo_id@, folder_path@),
            ),
            !final(self).spec_is_tracked(repo_id@, folder_path@),
            final(self).spec_repositories() == old(self).spec_repositories(),
            final(self).spec_tables() == old(self).spec_tables(),
            final(self).spec_settings() == old(self).spec_settings(),
    {
        let ghost pred = |t: TrackedFolder| spec_other_tracked_row(t, repo_id@, folder_path@);
        let n = self.tracked_folders.len();
        let mut kept: Vec<TrackedFolder> = Vec::new();
        let mut j: usize = 0;
        while j < n
            invariant
                j <= n,
                n == self.tracked_folders@.len(),
                pred == (|t: TrackedFolder| spec_other_tracked_row(t, repo_id@, folder_path@)),
                kept@ == self.tracked_folders@.take(j as int).filter(pred),
            decreases n - j,
        {
            proof {
                assert(self.tracked_folders@.take(j + 1).drop_last() =~= self.tracked_folders@.take(
                    j as int,
                ));
                assert(self.tracked_folders@.take(j + 1).last() == self.tracked_folders@[j as int]);
                reveal(Seq::filter);
            }
            let row = &self.tracked_folders[j];
            if !(str_eq(row.repo_id.as_str(), repo_id) && str_eq(
                row.folder_path.as_str(),
                folder_path,
            )) {
                kept.push(clone_tracked_folder(row));
            }
            j = j + 1;
        }
        proof {
            assert(self.tracked_folders@.take(n as int) =~= self.tracked_folders@);
            lemma_filter_preserves_distinct_rows(self.tracked_folders@, pred);
        }
        self.tracked_folders = kept;
        proof {
            let t = self.spec_tracked();
            assert forall|k: int|
                !(0 <= k < t.len() && (#[trigger] t[k]).repo_id@ == repo_id@
                    && t[k].folder_path@ == folder_path@) by {
                if 0 <= k < t.len() {
                    assert(pred(t[k]));
                }
            }
        }
    }

    /// List all tracked-folder rows.
    pub fn get_tracked_folders(&self) -> (r: Vec<TrackedFolder>)
        ensures
            r@ == self.spec_tracked(),
    {
        let n = self.tracked_folders.len();
        let mut out: Vec<TrackedFolder> = Vec::new();
        let mut j: usize = 0;
        while j < n
            invariant
                j <= n,
                n == self.tracked_folders@.len(),
                out@.len() == j,
                forall|k: int| 0 <= k < j ==> out@[k] == self.tracked_folders@[k],
            decreases n - j,
        {
            out.push(clone_tracked_folder(&self.tracked_folders[j]));
            j = j + 1;
        }
        proof {
            assert(out@ =~= self.spec_tracked());
        }
        out
    }

    /// List the folder rows tracked for one repository.
    pub fn get_tracked_folders_for_repo(&self, repo_id: &str) -> (r: Vec<TrackedFolder>)
        ensures
            r@ == self.spec_tracked().filter(
                |t: TrackedFolder| t.repo_id@ == repo_id@,
            ),
    {
        let ghost pred = |t: TrackedFolder| t.repo_id@ == repo_id@;
        let n = self.tracked_folders.len();
        let mut out: Vec<TrackedFolder> = Vec::new();
        let mut j: usize = 0;
        while j < n
            invariant
                j <= n,
                n == self.tracked_folders@.len(),
                pred == (|t: TrackedFolder| t.repo_id@ == repo_id@),
                out@ == self.tracked_folders@.take(j as int).filter(pred),
            decreases n - j,
        {
            proof {
                assert(self.tracked_folders@.take(j + 1).drop_last() =~= self.tracked_folders@.take(
                    j as int,
                ));
                assert(self.tracked_folders@.take(j + 1).last() == self.tracked_folders@[j as int]);
                reveal(Seq::filter);
            }
            if str_eq(self.tracked_folders[j].repo_id.as_str(), repo_id) {
                out.push(clone_tracked_folder(&self.tracked_folders[j]));
            }
            j = j + 1;
        }
        proof {
            assert(self.tracked_folders@.take(n as int) =~= self.tracked_folders@);
        }
        out
    }

    /// Delete every entry of the repository whose normalized path lies
    /// under the normalized folder path, and no other; the table is created
    /// on first use. The store rejects invalid identifiers.
    #[verifier::loop_isolation(false)]
    pub fn delete_files_under_folder(&mut self, repo_id: &str, folder_path: &str) -> (r: Result<
        (),
        ApiError,
    >)
        requires
            old(self).wf(),
        ensures
            final(self).wf(),
            match r {
                Result::Ok(()) => {
                    &&& spec_valid_identifier(repo_id@)
                    &&& final(self).spec_tables() == old(self).spec_tables().insert(
                        repo_id@,
                        old(self).spec_table_or_empty(repo_id@).filter(
                            |e: FileMetadata| !spec_under_folder(e.path@, folder_path@),
                        ),
                    )
                },
                Result::Err(e) => {
                    &&& e == ApiError::InvalidIdentifier
                    &&& !spec_valid_identifier(repo_id@)
                    &&& final(self).spec_tables() == old(self).spec_tables()
                },
            },
            final(self).spec_repositories() == old(self).spec_repositories(),
            final(self).spec_tracked() == old(self).spec_tracked(),
            final(self).spec_settings() == old(self).spec_settings(),
    {
        match self.ensure_files_table(repo_id) {
            Result::Ok(()) => {},
            Result::Err(e) => {
                return Result::Err(e);
            },
        }
        let i = self.table_index_after_ensure(repo_id);
        let ghost t0 = old(self).spec_table_or_empty(repo_id@);
        let ghost pred = |e: FileMetadata| !spec_under_folder(e.path@, folder_path@);
        let files = &self.tables[i].1;
        let n = files.len();
        let mut kept: Vec<FileMetadata> = Vec::new();
        let mut j: usize = 0;
        while j < n
            invariant
                j <= n,
                n == t0.len(),
                files@ == t0,
                pred == (|e: FileMetadata| !spec_under_folder(e.path@, folder_path@)),
                kept@ == t0.take(j as int).filter(pred),
            decreases n - j,
        {
            proof {
                assert(t0.take(j + 1).drop_last() =~= t0.take(j as int));
                assert(t0.take(j + 1).last() == t0[j as int]);
                reveal(Seq::filter);
            }
            if !path_under_folder(files[j].path.as_str(), folder_path) {
                kept.push(clone_entry(&files[j]));
            }
            j = j + 1;
        }
        proof {
            assert(t0.take(n as int) =~= t0);
            self.lemma_wf_table_distinct_ids(repo_id@);
            lemma_filter_preserves_distinct_ids(t0, pred);
        }
        self.set_table_files(i, kept);
        Result::Ok(())
    }

    /// The catalog half of stopping a watch on `folder_path`: purge every
    /// entry under the folder and forget the tracked-folder row. The caller
    /// must first deregister the folder from the watcher registry and tear
    /// the OS watch down, so that no event can re-insert entries while they
    /// are being purged.
    pub fn unwatch_folder_cleanup(&mut self, repo_id: &str, folder_path: &str) -> (r: Result<
        (),
        ApiError,
    >)
        requires
            old(self).wf(),
        ensures
            final(self).wf(),
            match r {
                Result::Ok(()) => {
                    &&& spec_valid_identifier(repo_id@)
                    &&& final(self).spec_tables() == old(self).spec_tables().insert(
                        repo_id@,
                        old(self).spec_table_or_empty(repo_id@).filter(
                            |e: FileMetadata| !spec_under_folder(e.path@, folder_path@),
                        ),
                    )
                    &&& final(self).spec_tracked() == old(self).spec_tracked().filter(
                        |t: TrackedFolder| spec_other_tracked_row(t, repo_id@, folder_path@),
                    )
                    &&& !final(self).spec_is_tracked(repo_id@, folder_path@)
                },
                Result::Err(e) => {
                    &&& e == ApiError::InvalidIdentifier
                    &&& !spec_valid_identifier(repo_id@)
                    &&& final(self).spec_tables() == old(self).spec_tables()
                    &&& final(self).spec_tracked() == old(self).spec_tracked()
                },
            },
            final(self).spec_repositories() == old(self).spec_repositories(),
            final(self).spec_settings() == old(self).spec_settings(),
    {
        match self.delete_files_under_folder(repo_id, folder_path) {
            Result::Ok(()) => {},
            Result::Err(e) => {
                return Result::Err(e);
            },
        }
        self.delete_tracked_folder(repo_id, folder_path);
        Result::Ok(())
    }

    /// Ingest a newly created file: nothing happens when the extractor
    /// failed (the file is skipped, no degraded entry is created for it);
    /// on success the description is given the fresh id and inserted, and
    /// the repository is deduplicated at once.
    pub fn handle_new_file_with_id(
        &mut self,
        repo_id: &str,
        extraction: &Option<FileMetadata>,
        fresh_id: String,
    ) -> (r: Result<(), ApiError>)
        requires
            old(self).wf(),
        ensures
            final(self).wf(),
            match extraction {
                Option::None => r is Ok && final(self).spec_tables() == old(self).spec_tables(),
                Option::Some(m) => spec_ingest_outcome(
                    old(self).spec_tables(),
                    repo_id@,
                    *m,
                    fresh_id,
                    final(self).spec_tables(),
                    r,
                ),
            },
            final(self).spec_repositories() == old(self).spec_repositories(),
            final(self).spec_tracked() == old(self).spec_tracked(),
            final(self).spec_settings() == old(self).spec_settings(),
    {
        match extraction {
            Option::None => Result::Ok(()),
            Option::Some(m) => {
                let entry = with_id(m, fresh_id);
                self.create_file(repo_id, &entry)
            },
        }
    }

    /// Ingest a newly created file, drawing a fresh id for it. The id is
    /// random, so the outcome is stated for whatever id was drawn.
    pub fn handle_new_file(&mut self, repo_id: &str, extraction: &Option<FileMetadata>) -> (r:
        Result<(), ApiError>)
        requires
            old(self).wf(),
        ensures
            final(self).wf(),
            match extraction {
                Option::None => r is Ok && final(self).spec_tables() == old(self).spec_tables(),
                Option::Some(m) => exists|id: String|
                    spec_ingest_outcome(
                        old(self).spec_tables(),
                        repo_id@,
                        *m,
                        id,
                        final(self).spec_tables(),
                        r,
                    ),
            },
            final(self).spec_repositories() == old(self).spec_repositories(),
            final(self).spec_tracked() == old(self).spec_tracked(),
            final(self).spec_settings() == old(self).spec_settings(),
    {
        let id = fresh_uuid();
        let ghost witness = id;
        let r = self.handle_new_file_with_id(repo_id, extraction, id);
        proof {
            if extraction is Some {
                assert(spec_ingest_outcome(
                    old(self).spec_tables(),
                    repo_id@,
                    extraction.unwrap(),
                    witness,
                    self.spec_tables(),
                    r,
                ));
            }
        }
        r
    }

    /// Refresh every entry of a repository against the reported
    /// observations, one per entry in table order. The table is created on
    /// first use; the store rejects invalid identifiers.
    pub fn refresh_files_in_repository(&mut self, repo_id: &str, obs: &Vec<FsObservation>) -> (r:
        Result<(), ApiError>)
        requires
            old(self).wf(),
            obs@.len() == old(self).spec_table_or_empty(repo_id@).len(),
        ensures
            final(self).wf(),
            match r {
                Result::Ok(()) => {
                    &&& spec_valid_identifier(repo_id@)
                    &&& final(self).spec_tables() == old(self).spec_tables().insert(
                        repo_id@,
                        spec_refreshed(old(self).spec_table_or_empty(repo_id@), obs@),
                    )
                },
                Result::Err(e) => {
                    &&& e == ApiError::InvalidIdentifier
                    &&& !spec_valid_identifier(repo_id@)
                    &&& final(self).spec_tables() == old(self).spec_tables()
                },
            },
            final(self).spec_repositories() == old(self).spec_repositories(),
            final(self).spec_tracked() == old(self).spec_tracked(),
            final(self).spec_settings() == old(self).spec_settings(),
    {
        match self.ensure_files_table(repo_id) {
            Result::Ok(()) => {},
            Result::Err(e) => {
                return Result::Err(e);
            },
        }
        let i = self.table_index_after_ensure(repo_id);
        let ghost t0 = old(self).spec_table_or_empty(repo_id@);
        let refreshed = refresh_entries(&self.tables[i].1, obs);
        proof {
            self.lemma_wf_table_distinct_ids(repo_id@);
            assert(distinct_ids(refreshed@)) by {
                assert forall|a: int, b: int|
                    0 <= a < b < refreshed@.len() implies (#[trigger] refreshed@[a]).id@
                    != (#[trigger] refreshed@[b]).id@ by {
                    crate::refresh::lemma_refresh_keeps_ids(t0, obs@);
                    assert(refreshed@[a].id == t0[a].id);
                    assert(refreshed@[b].id == t0[b].id);
                }
            }
        }
        self.set_table_files(i, refreshed);
        Result::Ok(())
    }

    /// Refresh every repository in turn, the k-th against the k-th vector
    /// of observations: the reconciliation pass run at startup. Repository
    /// ids are valid by construction, so no repository is rejected.
    pub fn refresh_files_in_all_repositories(&mut self, observations: &Vec<Vec<FsObservation>>)
        requires
            old(self).wf(),
            observations@.len() == old(self).spec_repositories().len(),
            forall|k: int|
                0 <= k < observations@.len() ==> (#[trigger] observations@[k])@.len() == old(
                    self,
                ).spec_table_or_empty(old(self).spec_repositories()[k].id@).len(),
        ensures
            final(self).wf(),
            final(self).spec_tables() == spec_refresh_rounds(
                old(self).spec_tables(),
                old(self).spec_repositories(),
                observations@,
                old(self).spec_repositories().len() as int,
            ),
            final(self).spec_repositories() == old(self).spec_repositories(),
            final(self).spec_tracked() == old(self).spec_tracked(),
            final(self).spec_settings() == old(self).spec_settings(),
    {
        let ghost m0 = old(self).spec_tables();
        let ghost repos = old(self).spec_repositories();
        let n = self.repositories.len();
        let mut k: usize = 0;
        while k < n
            invariant
                k <= n,
                n == repos.len(),
                observations@.len() == repos.len(),
                forall|l: int|
                    0 <= l < observations@.len() ==> (#[trigger] observations@[l])@.len()
                        == spec_table_of(m0, repos[l].id@).len(),
                self.wf(),
                self.spec_repositories() == repos,
                self.spec_tables() == spec_refresh_rounds(m0, repos, observations@, k as int),
                self.spec_tracked() == old(self).spec_tracked(),
                self.spec_settings() == old(self).spec_settings(),
                m0 == old(self).spec_tables(),
                repos == old(self).spec_repositories(),
            decreases n - k,
        {
            let rid = self.repositories[k].id.clone();
            proof {
                assert(repos[k as int].id@ == rid@);
                assert(forall|l: int| 0 <= l < k ==> (#[trigger] repos[l]).id@ != rid@);
                lemma_refresh_rounds_untouched(m0, repos, observations@, k as int, rid@);
                assert(self.spec_table_or_empty(rid@) == spec_table_of(m0, rid@));
            }
            let r = self.refresh_files_in_repository(rid.as_str(), &observations[k]);
            proof {
                assert(spec_valid_identifier(rid@));
                assert(r is Ok);
                assert(self.spec_tables() =~= spec_refresh_rounds(
                    m0,
                    repos,
                    observations@,
                    k + 1,
                ));
            }
            k = k + 1;
        }
    }
}

} // verus!
