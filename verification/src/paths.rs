//! Path handling: separator normalization, prefix tests against watched
//! folders, file-name and extension splitting, and the rules deciding which
//! newly created files are ingested into the catalog.

use vstd::prelude::*;
use vstd::string::StrSliceExecFns;

verus! {

/// Relies on std's String::push: appends exactly one character to the string.
#[verifier::external_body]
pub(crate) fn push_char(s: &mut String, c: char)
    ensures
        final(s)@ == old(s)@.push(c),
{
    s.push(c)
}

/// The character sequence of `s` with every backslash replaced by a forward
/// slash.
pub open spec fn spec_normalize_path(s: Seq<char>) -> Seq<char> {
    s.map_values(|c: char| if c == '\\' { '/' } else { c })
}

/// Replace every backslash in a path with a forward slash, so that paths
/// written with either separator compare equal.
pub fn normalize_path(path: &str) -> (r: String)
    ensures
        r@ == spec_normalize_path(path@),
{
    let n: usize = path.unicode_len();
    let mut out = String::new();
    let mut i: usize = 0;
    while i < n
        invariant
            i <= n,
            n == path@.len(),
            out@ == spec_normalize_path(path@.take(i as int)),
        decreases n - i,
    {
        let c = path.get_char(i);
        if c == '\\' {
            push_char(&mut out, '/');
        } else {
            push_char(&mut out, c);
        }
        i = i + 1;
        proof {
            assert(path@.take(i as int).drop_last() =~= path@.take(i - 1));
            assert(spec_normalize_path(path@.take(i as int)) =~= spec_normalize_path(
                path@.take(i - 1),
            ).push(if path@[i - 1] == '\\' {
                '/'
            } else {
                path@[i - 1]
            }));
        }
    }
    proof {
        assert(path@.take(n as int) =~= path@);
    }
    out
}

/// Whether `a` and `b` hold the same characters.
pub fn str_eq(a: &str, b: &str) -> (r: bool)
    ensures
        r == (a@ == b@),
{
    let na: usize = a.unicode_len();
    let nb: usize = b.unicode_len();
    if na != nb {
        proof {
            assert(a@ != b@);
        }
        return false;
    }
    let mut i: usize = 0;
    while i < na
        invariant
            i <= na,
            na == a@.len(),
            na == b@.len(),
            forall|j: int| 0 <= j < i ==> a@[j] == b@[j],
        decreases na - i,
    {
        if a.get_char(i) != b.get_char(i) {
            return false;
        }
        i = i + 1;
    }
    proof {
        assert(a@ =~= b@);
    }
    true
}

/// Whether `p` starts with the characters of `prefix`.
pub open spec fn spec_starts_with(p: Seq<char>, prefix: Seq<char>) -> bool {
    prefix.len() <= p.len() && p.take(prefix.len() as int) == prefix
}

/// Whether `s` starts with `prefix`, character for character.
pub fn str_starts_with(s: &str, prefix: &str) -> (r: bool)
    ensures
        r == spec_starts_with(s@, prefix@),
{
    let n: usize = s.unicode_len();
    let np: usize = prefix.unicode_len();
    if np > n {
        proof {
            assert(!spec_starts_with(s@, prefix@));
        }
        return false;
    }
    let mut i: usize = 0;
    while i < np
        invariant
            i <= np,
            np <= n,
            n == s@.len(),
            np == prefix@.len(),
            forall|j: int| 0 <= j < i ==> s@[j] == prefix@[j],
        decreases np - i,
    {
        if s.get_char(i) != prefix.get_char(i) {
            proof {
                assert(s@.take(np as int)[i as int] != prefix@[i as int]);
            }
            return false;
        }
        i = i + 1;
    }
    proof {
        assert(s@.take(np as int) =~= prefix@);
    }
    true
}

/// Whether the normalized form of `p` starts with the normalized form of
/// `folder`: the test deciding which entries belong to a watched folder.
pub open spec fn spec_under_folder(p: Seq<char>, folder: Seq<char>) -> bool {
    spec_starts_with(spec_normalize_path(p), spec_normalize_path(folder))
}

/// Whether the path `p`, once separators are unified, lies under `folder`.
pub fn path_under_folder(p: &str, folder: &str) -> (r: bool)
    ensures
        r == spec_under_folder(p@, folder@),
{
    let np = normalize_path(p);
    let nf = normalize_path(folder);
    str_starts_with(np.as_str(), nf.as_str())
}

/// Whether `c` is a path separator: both forward slashes and backslashes
/// separate, so that paths written on either platform split alike.
pub open spec fn is_sep(c: char) -> bool {
    c == '/' || c == '\\'
}

/// The position right after the last separator of `s`: where the file name
/// starts. 0 when `s` has no separator.
pub open spec fn spec_name_start(s: Seq<char>) -> int
    decreases s.len(),
{
    if s.len() == 0 {
        0
    } else if is_sep(s.last()) {
        s.len() as int
    } else {
        spec_name_start(s.drop_last())
    }
}

/// The file-name part of the path `s`: everything after the last separator.
pub open spec fn spec_file_name(s: Seq<char>) -> Seq<char> {
    s.skip(spec_name_start(s))
}

/// What `spec_name_start` returns: the unique position such that no
/// separator follows it and, unless it is 0, a separator precedes it.
pub proof fn lemma_name_start(s: Seq<char>)
    ensures
        0 <= spec_name_start(s) <= s.len(),
        forall|k: int| spec_name_start(s) <= k < s.len() ==> !is_sep(s[k]),
        spec_name_start(s) > 0 ==> is_sep(s[spec_name_start(s) - 1]),
    decreases s.len(),
{
    if s.len() > 0 && !is_sep(s.last()) {
        lemma_name_start(s.drop_last());
        assert(forall|k: int|
            spec_name_start(s) <= k < s.len() - 1 ==> s[k] == s.drop_last()[k] && !is_sep(s[k]));
    }
}

/// The index of the last dot of a file name, or -1 when it has none.
pub open spec fn spec_last_dot(f: Seq<char>) -> int
    decreases f.len(),
{
    if f.len() == 0 {
        -1
    } else if f.last() == '.' {
        f.len() - 1
    } else {
        spec_last_dot(f.drop_last())
    }
}

/// What `spec_last_dot` returns: the unique dot position with no dot after
/// it, or -1 when the name has no dot at all.
pub proof fn lemma_last_dot(f: Seq<char>)
    ensures
        -1 <= spec_last_dot(f) < f.len(),
        forall|k: int| spec_last_dot(f) < k < f.len() ==> f[k] != '.',
        spec_last_dot(f) >= 0 ==> f[spec_last_dot(f)] == '.',
    decreases f.len(),
{
    if f.len() > 0 && f.last() != '.' {
        lemma_last_dot(f.drop_last());
        assert(forall|k: int|
            spec_last_dot(f) < k < f.len() - 1 ==> f[k] == f.drop_last()[k] && f[k] != '.');
    }
}

/// The stem of a file name: everything before its last dot, except that a
/// name without a dot, or whose only dot leads it, is its own stem.
pub open spec fn spec_stem(f: Seq<char>) -> Seq<char> {
    if spec_last_dot(f) <= 0 {
        f
    } else {
        f.take(spec_last_dot(f))
    }
}

/// The extension of a file name: everything after its last dot, or nothing
/// when the name has no dot or only a leading one.
pub open spec fn spec_extension(f: Seq<char>) -> Option<Seq<char>> {
    if spec_last_dot(f) <= 0 {
        Option::None
    } else {
        Option::Some(f.skip(spec_last_dot(f) + 1))
    }
}

/// Find where the file name starts in `s`.
fn find_name_start(s: &str) -> (r: usize)
    ensures
        r == spec_name_start(s@),
{
    let n: usize = s.unicode_len();
    let mut j: usize = n;
    while j > 0
        invariant
            j <= n,
            n == s@.len(),
            forall|k: int| j <= k < n ==> !is_sep(s@[k]),
        decreases j,
    {
        let c = s.get_char(j - 1);
        if c == '/' || c == '\\' {
            proof {
                lemma_name_start(s@);
            }
            return j;
        }
        j = j - 1;
    }
    proof {
        lemma_name_start(s@);
    }
    0
}

/// Find the last dot of the file name `f`, if any.
fn find_last_dot(f: &str) -> (r: Option<usize>)
    ensures
        match r {
            Option::Some(k) => k == spec_last_dot(f@),
            Option::None => spec_last_dot(f@) == -1,
        },
{
    let n: usize = f.unicode_len();
    let mut j: usize = n;
    while j > 0
        invariant
            j <= n,
            n == f@.len(),
            forall|k: int| j <= k < n ==> f@[k] != '.',
        decreases j,
    {
        if f.get_char(j - 1) == '.' {
            proof {
                lemma_last_dot(f@);
            }
            return Option::Some(j - 1);
        }
        j = j - 1;
    }
    proof {
        lemma_last_dot(f@);
    }
    Option::None
}

/// The character `c` with an ASCII capital letter mapped to its small form.
pub open spec fn spec_lower_char(c: char) -> char {
    if 'A' <= c && c <= 'Z' {
        (((c as u32) + 32) as u8) as char
    } else {
        c
    }
}

/// The sequence `s` lowercased, ASCII letter by ASCII letter.
pub open spec fn spec_ascii_lower(s: Seq<char>) -> Seq<char> {
    s.map_values(|c: char| spec_lower_char(c))
}

/// Lowercase the ASCII capital letters of `s`.
pub fn ascii_lower(s: &str) -> (r: String)
    ensures
        r@ == spec_ascii_lower(s@),
{
    let n: usize = s.unicode_len();
    let mut out = String::new();
    let mut i: usize = 0;
    while i < n
        invariant
            i <= n,
            n == s@.len(),
            out@ == spec_ascii_lower(s@.take(i as int)),
        decreases n - i,
    {
        let c = s.get_char(i);
        if 'A' <= c && c <= 'Z' {
            let l: u8 = ((c as u32) + 32) as u8;
            push_char(&mut out, l as char);
        } else {
            push_char(&mut out, c);
        }
        i = i + 1;
        proof {
            assert(s@.take(i as int).drop_last() =~= s@.take(i - 1));
            assert(spec_ascii_lower(s@.take(i as int)) =~= spec_ascii_lower(
                s@.take(i - 1),
            ).push(spec_lower_char(s@[i - 1])));
        }
    }
    proof {
        assert(s@.take(n as int) =~= s@);
    }
    out
}

/// Whether `e`, compared without regard to ASCII case, is one of the audio
/// file extensions the synchronizer ingests.
pub open spec fn spec_is_audio_extension(e: Seq<char>) -> bool {
    let l = spec_ascii_lower(e);
    l == "mp3"@ || l == "wav"@ || l == "flac"@ || l == "ogg"@ || l == "aac"@
}

/// Whether `e` names one of the ingested audio formats, in any ASCII case.
pub fn is_audio_extension(e: &str) -> (r: bool)
    ensures
        r == spec_is_audio_extension(e@),
{
    let l = ascii_lower(e);
    let ls = l.as_str();
    str_eq(ls, "mp3") || str_eq(ls, "wav") || str_eq(ls, "flac") || str_eq(ls, "ogg") || str_eq(
        ls,
        "aac",
    )
}

/// The reserved stem suffix marking an in-progress format-conversion
/// temporary file; such files are never ingested when they appear.
pub open spec fn spec_conversion_suffix() -> Seq<char> {
    "_converted5334112025"@
}

/// Whether a file that appeared at `path` is taken into the catalog: its
/// stem must not carry the reserved conversion suffix and its extension must
/// be a known audio format.
pub open spec fn spec_should_ingest(path: Seq<char>) -> bool {
    let f = spec_file_name(path);
    &&& !spec_ends_with(spec_stem(f), spec_conversion_suffix())
    &&& match spec_extension(f) {
        Option::Some(e) => spec_is_audio_extension(e),
        Option::None => false,
    }
}

/// Decide whether a newly created file at `path` is ingested into the
/// catalog. Temporary conversion files and non-audio files are ignored.
pub fn should_ingest_new_file(path: &str) -> (r: bool)
    ensures
        r == spec_should_ingest(path@),
{
    let n: usize = path.unicode_len();
    let start = find_name_start(path);
    proof {
        lemma_name_start(path@);
    }
    let f = path.substring_char(start, n);
    proof {
        assert(f@ =~= spec_file_name(path@));
    }
    let fn_len: usize = f.unicode_len();
    let stem: &str;
    let ext: Option<&str>;
    proof {
        lemma_last_dot(f@);
    }
    match find_last_dot(f) {
        Option::Some(k) => {
            if k == 0 {
                stem = f;
                ext = Option::None;
            } else {
                stem = f.substring_char(0, k);
                ext = Option::Some(f.substring_char(k + 1, fn_len));
            }
        },
        Option::None => {
            stem = f;
            ext = Option::None;
        },
    }
    proof {
        assert(stem@ =~= spec_stem(f@));
    }
    if str_ends_with(stem, "_converted5334112025") {
        return false;
    }
    match ext {
        Option::Some(e) => {
            proof {
                assert(e@ =~= spec_extension(f@).unwrap());
            }
            is_audio_extension(e)
        },
        Option::None => false,
    }
}

/// Whether `c` may appear in a repository identifier: ASCII letters, digits,
/// underscore and hyphen.
pub open spec fn is_ident_char(c: char) -> bool {
    ('a' <= c && c <= 'z') || ('A' <= c && c <= 'Z') || ('0' <= c && c <= '9') || c == '_' || c
        == '-'
}

/// Whether `s` is accepted as a storage-namespace identifier: nonempty and
/// made of identifier characters only.
pub open spec fn spec_valid_identifier(s: Seq<char>) -> bool {
    s.len() > 0 && forall|i: int| 0 <= i < s.len() ==> is_ident_char(#[trigger] s[i])
}

/// Check that `identifier` is usable as a storage-namespace identifier, and
/// hand it back unchanged; reject every other string.
pub fn sanitize_identifier(identifier: &str) -> (r: Result<String, crate::model::ApiError>)
    ensures
        match r {
            Result::Ok(s) => spec_valid_identifier(identifier@) && s@ == identifier@,
            Result::Err(e) => !spec_valid_identifier(identifier@) && e
                == crate::model::ApiError::InvalidIdentifier,
        },
{
    let n: usize = identifier.unicode_len();
    if n == 0 {
        return Result::Err(crate::model::ApiError::InvalidIdentifier);
    }
    let mut i: usize = 0;
    while i < n
        invariant
            i <= n,
            n == identifier@.len(),
            forall|j: int| 0 <= j < i ==> is_ident_char(#[trigger] identifier@[j]),
        decreases n - i,
    {
        let c = identifier.get_char(i);
        let ok = ('a' <= c && c <= 'z') || ('A' <= c && c <= 'Z') || ('0' <= c && c <= '9') || c
            == '_' || c == '-';
        if !ok {
            return Result::Err(crate::model::ApiError::InvalidIdentifier);
        }
        i = i + 1;
    }
    Result::Ok(identifier.to_owned())
}

/// Whether `s` ends with the characters of `suffix`.
pub open spec fn spec_ends_with(s: Seq<char>, suffix: Seq<char>) -> bool {
    suffix.len() <= s.len() && s.skip(s.len() - suffix.len()) == suffix
}

/// Whether `s` ends with `suffix`, character for character.
pub fn str_ends_with(s: &str, suffix: &str) -> (r: bool)
    ensures
        r == spec_ends_with(s@, suffix@),
{
    let n: usize = s.unicode_len();
    let ns: usize = suffix.unicode_len();
    if ns > n {
        return false;
    }
    let base: usize = n - ns;
    let mut i: usize = 0;
    while i < ns
        invariant
            i <= ns,
            base == n - ns,
            ns <= n,
            n == s@.len(),
            ns == suffix@.len(),
            forall|j: int| 0 <= j < i ==> s@[base + j] == suffix@[j],
        decreases ns - i,
    {
        if s.get_char(base + i) != suffix.get_char(i) {
            proof {
                assert(s@.skip(base as int)[i as int] != suffix@[i as int]);
            }
            return false;
        }
        i = i + 1;
    }
    proof {
        assert(s@.skip(base as int) =~= suffix@);
    }
    true
}

} // verus!
