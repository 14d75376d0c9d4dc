//! The deduplicator: among entries of one repository that describe the same
//! normalized path, exactly one survives. The winner is picked by a strict
//! total order: the higher completeness score wins; on equal scores the
//! later parsed creation timestamp wins, an unparsable timestamp counting as
//! the earliest instant; and on a full tie the lexicographically smallest id
//! wins, which makes the choice deterministic.

use vstd::prelude::*;
use crate::model::FileMetadata;
use crate::model::clone_entry;
use crate::model::completeness_score;
use crate::model::spec_completeness_score;
use crate::paths::spec_normalize_path;
use crate::paths::str_eq;
use crate::paths::normalize_path;
use crate::timestamps::lemma_ts_lt_strict_total;
use crate::timestamps::parse_rfc3339_millis;
use crate::timestamps::rfc3339_millis;
use crate::timestamps::ts_lt;
use crate::timestamps::ts_lt_exec;

verus! {

broadcast use vstd::seq_lib::group_filter_ensures;

/// Lexicographic order on character sequences, by code point.
pub open spec fn lex_lt(a: Seq<char>, b: Seq<char>) -> bool
    decreases a.len(),
{
    if b.len() == 0 {
        false
    } else if a.len() == 0 {
        true
    } else if a[0] == b[0] {
        lex_lt(a.skip(1), b.skip(1))
    } else {
        a[0] < b[0]
    }
}

/// `lex_lt` is a strict total order: two sequences neither of which comes
/// first are equal, and at most one direction ever holds.
pub proof fn lemma_lex_lt_connex(a: Seq<char>, b: Seq<char>)
    ensures
        !lex_lt(a, b) && !lex_lt(b, a) ==> a == b,
        lex_lt(a, b) ==> !lex_lt(b, a),
    decreases a.len(),
{
    if a.len() == 0 && b.len() == 0 {
        assert(a =~= b);
    }
    if a.len() > 0 && b.len() > 0 && a[0] == b[0] {
        lemma_lex_lt_connex(a.skip(1), b.skip(1));
        if !lex_lt(a, b) && !lex_lt(b, a) {
            assert(a.skip(1) =~= b.skip(1));
            assert forall|k: int| 0 <= k < a.len() implies a[k] == b[k] by {
                if k > 0 {
                    assert(a.skip(1)[k - 1] == b.skip(1)[k - 1]);
                }
            }
            assert(a =~= b);
        }
    }
    if a.len() > 0 && b.len() > 0 && a[0] != b[0] {
        if !lex_lt(a, b) && !lex_lt(b, a) {
            assert(!(a[0] < b[0]) && !(b[0] < a[0]));
            assert(a[0] == b[0]);
            assert(false);
        }
    }
}

/// `lex_lt` is transitive.
pub proof fn lemma_lex_lt_trans(a: Seq<char>, b: Seq<char>, c: Seq<char>)
    requires
        lex_lt(a, b),
        lex_lt(b, c),
    ensures
        lex_lt(a, c),
    decreases a.len(),
{
    if a.len() > 0 && b.len() > 0 && c.len() > 0 {
        if a[0] == b[0] && b[0] == c[0] {
            lemma_lex_lt_trans(a.skip(1), b.skip(1), c.skip(1));
        }
    }
}

/// A common prefix does not affect the order of what follows it.
pub proof fn lemma_lex_lt_skip(a: Seq<char>, b: Seq<char>, i: int)
    requires
        0 <= i <= a.len(),
        i <= b.len(),
        forall|j: int| 0 <= j < i ==> a[j] == b[j],
    ensures
        lex_lt(a, b) == lex_lt(a.skip(i), b.skip(i)),
    decreases i,
{
    if i == 0 {
        assert(a.skip(0) =~= a);
        assert(b.skip(0) =~= b);
    } else {
        assert(a.len() > 0 && b.len() > 0);
        assert(a[0] == b[0]);
        assert(a.skip(1).skip(i - 1) =~= a.skip(i));
        assert(b.skip(1).skip(i - 1) =~= b.skip(i));
        assert forall|j: int| 0 <= j < i - 1 implies a.skip(1)[j] == b.skip(1)[j] by {
            assert(a[j + 1] == b[j + 1]);
        }
        lemma_lex_lt_skip(a.skip(1), b.skip(1), i - 1);
    }
}

/// Compare two strings under `lex_lt`.
pub fn lex_lt_exec(a: &str, b: &str) -> (r: bool)
    ensures
        r == lex_lt(a@, b@),
{
    let na: usize = a.unicode_len();
    let nb: usize = b.unicode_len();
    let min: usize = if na < nb {
        na
    } else {
        nb
    };
    let mut i: usize = 0;
    while i < min
        invariant
            i <= min,
            min <= na,
            min <= nb,
            min == if na < nb {
                na
            } else {
                nb
            },
            na == a@.len(),
            nb == b@.len(),
            forall|j: int| 0 <= j < i ==> a@[j] == b@[j],
        decreases min - i,
    {
        let ca = a.get_char(i);
        let cb = b.get_char(i);
        if ca != cb {
            proof {
                lemma_lex_lt_skip(a@, b@, i as int);
                assert(a@.skip(i as int)[0] == a@[i as int]);
                assert(b@.skip(i as int)[0] == b@[i as int]);
            }
            return ca < cb;
        }
        i = i + 1;
    }
    proof {
        lemma_lex_lt_skip(a@, b@, min as int);
    }
    na < nb
}

/// The instant an entry's creation timestamp denotes, if it parses.
pub open spec fn entry_instant(e: FileMetadata) -> Option<i64> {
    rfc3339_millis(e.date_created@)
}

/// Whether two entries describe the same normalized path, and so are
/// duplicates of one another.
pub open spec fn same_group(a: FileMetadata, b: FileMetadata) -> bool {
    spec_normalize_path(a.path@) == spec_normalize_path(b.path@)
}

/// The strict preference order among duplicate entries: higher completeness
/// score first, then later creation instant, then smaller id.
pub open spec fn spec_wins(a: FileMetadata, b: FileMetadata) -> bool {
    ||| spec_completeness_score(a) > spec_completeness_score(b)
    ||| (spec_completeness_score(a) == spec_completeness_score(b) && ts_lt(
        entry_instant(b),
        entry_instant(a),
    ))
    ||| (spec_completeness_score(a) == spec_completeness_score(b) && entry_instant(a)
        == entry_instant(b) && lex_lt(a.id@, b.id@))
}

/// Between entries with different ids, the preference order always decides,
/// and only one way.
pub proof fn lemma_wins_total(a: FileMetadata, b: FileMetadata)
    requires
        a.id@ != b.id@,
    ensures
        spec_wins(a, b) || spec_wins(b, a),
        !(spec_wins(a, b) && spec_wins(b, a)),
{
    lemma_ts_lt_strict_total(entry_instant(a), entry_instant(b), entry_instant(a));
    lemma_lex_lt_connex(a.id@, b.id@);
}

/// The preference order is transitive.
pub proof fn lemma_wins_trans(a: FileMetadata, b: FileMetadata, c: FileMetadata)
    requires
        spec_wins(a, b),
        spec_wins(b, c),
    ensures
        spec_wins(a, c),
{
    lemma_ts_lt_strict_total(entry_instant(c), entry_instant(b), entry_instant(a));
    lemma_ts_lt_strict_total(entry_instant(a), entry_instant(b), entry_instant(a));
    if spec_completeness_score(a) == spec_completeness_score(c) && entry_instant(a)
        == entry_instant(c) {
        if lex_lt(a.id@, b.id@) && lex_lt(b.id@, c.id@) {
            lemma_lex_lt_trans(a.id@, b.id@, c.id@);
        }
    }
}

/// Decide the preference order between two entries.
pub fn wins(a: &FileMetadata, b: &FileMetadata) -> (r: bool)
    ensures
        r == spec_wins(*a, *b),
{
    let sa = completeness_score(a);
    let sb = completeness_score(b);
    if sa > sb {
        return true;
    }
    if sa < sb {
        return false;
    }
    let ta = parse_rfc3339_millis(a.date_created.as_str());
    let tb = parse_rfc3339_millis(b.date_created.as_str());
    if ts_lt_exec(&tb, &ta) {
        return true;
    }
    if ts_lt_exec(&ta, &tb) {
        return false;
    }
    proof {
        lemma_ts_lt_strict_total(ta, tb, ta);
    }
    lex_lt_exec(a.id.as_str(), b.id.as_str())
}

/// Whether the ids of `s` are pairwise distinct, as a store with a primary
/// key on the id guarantees.
pub open spec fn distinct_ids(s: Seq<FileMetadata>) -> bool {
    forall|i: int, j: int| 0 <= i < j < s.len() ==> (#[trigger] s[i]).id@ != (#[trigger] s[j]).id@
}

/// Whether `e` is the surviving entry of its duplicate group in `s`: it is
/// preferred over every entry of `s` that shares its normalized path and is
/// not `e` itself.
pub open spec fn group_winner(s: Seq<FileMetadata>, e: FileMetadata) -> bool {
    forall|j: int|
        0 <= j < s.len() && same_group(e, #[trigger] s[j]) && s[j].id@ != e.id@ ==> spec_wins(
            e,
            s[j],
        )
}

/// Check whether the entry at `i` survives deduplication of `files`.
fn is_group_winner(files: &Vec<FileMetadata>, i: usize) -> (r: bool)
    requires
        i < files@.len(),
    ensures
        r == group_winner(files@, files@[i as int]),
{
    let e = &files[i];
    let norm_e = normalize_path(e.path.as_str());
    let n = files.len();
    let mut j: usize = 0;
    while j < n
        invariant
            j <= n,
            n == files@.len(),
            i < n,
            e == files@[i as int],
            norm_e@ == spec_normalize_path(e.path@),
            forall|k: int|
                0 <= k < j && same_group(*e, #[trigger] files@[k]) && files@[k].id@ != e.id@
                    ==> spec_wins(*e, files@[k]),
        decreases n - j,
    {
        let f = &files[j];
        if !str_eq(f.id.as_str(), e.id.as_str()) {
            let norm_f = normalize_path(f.path.as_str());
            if str_eq(norm_f.as_str(), norm_e.as_str()) {
                if !wins(e, f) {
                    return false;
                }
            }
        }
        j = j + 1;
    }
    true
}

/// An element of a filtered sequence is an element of the sequence it
/// was filtered from.
pub proof fn lemma_filter_member_of<A>(s: Seq<A>, pred: spec_fn(A) -> bool, k: int)
    requires
        0 <= k < s.filter(pred).len(),
    ensures
        exists|i: int| 0 <= i < s.len() && s[i] == s.filter(pred)[k],
    decreases s.len(),
{
    reveal(Seq::filter);
    if s.len() > 0 {
        if pred(s.last()) && k == s.filter(pred).len() - 1 {
            assert(s[s.len() - 1] == s.filter(pred)[k]);
        } else {
            lemma_filter_member_of(s.drop_last(), pred, k);
            let i = choose|i: int|
                0 <= i < s.drop_last().len() && s.drop_last()[i] == s.drop_last().filter(pred)[k];
            assert(s[i] == s.filter(pred)[k]);
        }
    }
}

/// When no two positions of `s` both satisfy `pred`, at most one element
/// passes the filter.
pub proof fn lemma_filter_at_most_one<A>(s: Seq<A>, pred: spec_fn(A) -> bool)
    requires
        forall|i: int, j: int| 0 <= i < j < s.len() ==> !(pred(#[trigger] s[i]) && pred(
            #[trigger] s[j],
        )),
    ensures
        s.filter(pred).len() <= 1,
    decreases s.len(),
{
    reveal(Seq::filter);
    if s.len() > 0 {
        assert(forall|i: int, j: int|
            0 <= i < j < s.drop_last().len() ==> !(pred(#[trigger] s.drop_last()[i]) && pred(
                #[trigger] s.drop_last()[j],
            )));
        lemma_filter_at_most_one(s.drop_last(), pred);
        if pred(s.last()) {
            if s.drop_last().filter(pred).len() > 0 {
                lemma_filter_member_of(s.drop_last(), pred, 0);
                let i = choose|i: int|
                    0 <= i < s.drop_last().len() && s.drop_last()[i] == s.drop_last().filter(
                        pred,
                    )[0];
                assert(pred(s[i]));
                assert(pred(s[s.len() - 1]));
                assert(false);
            }
        }
    }
}

/// Filtering twice filters by the conjunction.
pub proof fn lemma_filter_filter<A>(s: Seq<A>, p1: spec_fn(A) -> bool, p2: spec_fn(A) -> bool)
    ensures
        s.filter(p1).filter(p2) == s.filter(|e: A| p1(e) && p2(e)),
    decreases s.len(),
{
    reveal(Seq::filter);
    if s.len() == 0 {
        assert(s.filter(p1).filter(p2) =~= s.filter(|e: A| p1(e) && p2(e)));
    } else {
        lemma_filter_filter(s.drop_last(), p1, p2);
        if p1(s.last()) {
            assert(s.filter(p1) == s.drop_last().filter(p1).push(s.last()));
            assert(s.filter(p1).drop_last() =~= s.drop_last().filter(p1));
            assert(s.filter(p1).last() == s.last());
        } else {
            assert(s.filter(p1) == s.drop_last().filter(p1));
        }
        assert(s.filter(p1).filter(p2) =~= s.filter(|e: A| p1(e) && p2(e)));
    }
}

/// Every nonempty duplicate group has a surviving entry: an entry of the
/// group preferred over all its other members.
pub proof fn lemma_group_has_winner(s: Seq<FileMetadata>, p: Seq<char>)
    requires
        distinct_ids(s),
        exists|i: int| 0 <= i < s.len() && spec_normalize_path((#[trigger] s[i]).path@) == p,
    ensures
        exists|i: int|
            0 <= i < s.len() && spec_normalize_path((#[trigger] s[i]).path@) == p && group_winner(
                s,
                s[i],
            ),
    decreases s.len(),
{
    let last = s.last();
    let prefix = s.drop_last();
    assert(forall|i: int| 0 <= i < prefix.len() ==> prefix[i] == s[i]);
    if spec_normalize_path(last.path@) == p {
        if exists|i: int|
            0 <= i < prefix.len() && spec_normalize_path((#[trigger] prefix[i]).path@) == p {
            lemma_group_has_winner(prefix, p);
            let i0 = choose|i: int|
                0 <= i < prefix.len() && spec_normalize_path((#[trigger] prefix[i]).path@) == p
                    && group_winner(prefix, prefix[i]);
            let w0 = prefix[i0];
            assert(w0.id@ != last.id@);
            lemma_wins_total(w0, last);
            if spec_wins(w0, last) {
                assert(group_winner(s, w0)) by {
                    assert(forall|j: int|
                        0 <= j < s.len() && same_group(w0, #[trigger] s[j]) && s[j].id@ != w0.id@
                            ==> spec_wins(w0, s[j])) by {
                        assert(forall|j: int|
                            0 <= j < s.len() - 1 && same_group(w0, #[trigger] s[j]) && s[j].id@
                                != w0.id@ ==> spec_wins(w0, prefix[j]));
                    }
                }
                assert(0 <= i0 < s.len() && spec_normalize_path(s[i0].path@) == p && group_winner(
                    s,
                    s[i0],
                ));
            } else {
                assert(spec_wins(last, w0));
                assert(group_winner(s, last)) by {
                    assert forall|j: int|
                        0 <= j < s.len() && same_group(last, #[trigger] s[j]) && s[j].id@
                            != last.id@ implies spec_wins(last, s[j]) by {
                        assert(j < s.len() - 1);
                        let f = prefix[j];
                        if f.id@ == w0.id@ {
                            assert(j == i0);
                            assert(spec_wins(last, s[j]));
                        } else {
                            assert(same_group(w0, f));
                            assert(spec_wins(w0, f));
                            lemma_wins_trans(last, w0, f);
                        }
                    }
                }
                assert(0 <= s.len() - 1 < s.len() && spec_normalize_path(s[s.len() - 1].path@)
                    == p && group_winner(s, s[s.len() - 1]));
            }
        } else {
            assert(group_winner(s, last)) by {
                assert forall|j: int|
                    0 <= j < s.len() && same_group(last, #[trigger] s[j]) && s[j].id@ != last.id@
                        implies spec_wins(last, s[j]) by {
                    if j < s.len() - 1 {
                        assert(spec_normalize_path((prefix[j]).path@) == p);
                        assert(false);
                    } else {
                        assert(s[j] == last);
                        assert(false);
                    }
                }
            }
            assert(0 <= s.len() - 1 < s.len() && spec_normalize_path(s[s.len() - 1].path@) == p
                && group_winner(s, s[s.len() - 1]));
        }
    } else {
        let iw = choose|i: int|
            0 <= i < s.len() && spec_normalize_path((#[trigger] s[i]).path@) == p;
        assert(iw < s.len() - 1);
        assert(spec_normalize_path((prefix[iw]).path@) == p);
        lemma_group_has_winner(prefix, p);
        let i0 = choose|i: int|
            0 <= i < prefix.len() && spec_normalize_path((#[trigger] prefix[i]).path@) == p
                && group_winner(prefix, prefix[i]);
        let w0 = prefix[i0];
        assert(group_winner(s, w0)) by {
            assert forall|j: int|
                0 <= j < s.len() && same_group(w0, #[trigger] s[j]) && s[j].id@ != w0.id@
                    implies spec_wins(w0, s[j]) by {
                if j < s.len() - 1 {
                    assert(spec_wins(w0, prefix[j]));
                } else {
                    assert(s[j] == last);
                    assert(!same_group(w0, last));
                    assert(false);
                }
            }
        }
        assert(0 <= i0 < s.len() && spec_normalize_path(s[i0].path@) == p && group_winner(
            s,
            s[i0],
        ));
    }
}

/// The survivors of deduplicating `s`: exactly the entries preferred over
/// every other member of their normalized-path group. An entry whose path
/// is unique always survives, unchanged.
pub open spec fn spec_dedup_kept(s: Seq<FileMetadata>) -> Seq<FileMetadata> {
    s.filter(|e: FileMetadata| group_winner(s, e))
}

/// Filtering keeps entry ids pairwise distinct.
pub proof fn lemma_filter_preserves_distinct_ids(
    s: Seq<FileMetadata>,
    pred: spec_fn(FileMetadata) -> bool,
)
    requires
        distinct_ids(s),
    ensures
        distinct_ids(s.filter(pred)),
    decreases s.len(),
{
    reveal(Seq::filter);
    if s.len() > 0 {
        assert(forall|i: int| 0 <= i < s.len() - 1 ==> s.drop_last()[i] == s[i]);
        lemma_filter_preserves_distinct_ids(s.drop_last(), pred);
        let f0 = s.drop_last().filter(pred);
        if pred(s.last()) {
            let f = f0.push(s.last());
            assert forall|a: int, b: int| 0 <= a < b < f.len() implies (#[trigger] f[a]).id@
                != (#[trigger] f[b]).id@ by {
                if b < f.len() - 1 {
                    assert(f[a] == f0[a] && f[b] == f0[b]);
                } else {
                    assert(f[a] == f0[a]);
                    lemma_filter_member_of(s.drop_last(), pred, a);
                    let i = choose|i: int|
                        0 <= i < s.drop_last().len() && s.drop_last()[i] == f0[a];
                    assert(s[i] == f[a]);
                    assert(s[i].id@ != s[s.len() - 1].id@);
                }
            }
        }
    }
}

/// Split the entries of a repository into the survivors of deduplication
/// and the duplicates to delete.
pub fn dedup_entries(files: &Vec<FileMetadata>) -> (r: (Vec<FileMetadata>, Vec<FileMetadata>))
    ensures
        r.0@ == spec_dedup_kept(files@),
        r.1@ == files@.filter(|e: FileMetadata| !group_winner(files@, e)),
{
    let ghost keep_pred = |e: FileMetadata| group_winner(files@, e);
    let ghost drop_pred = |e: FileMetadata| !group_winner(files@, e);
    let mut kept: Vec<FileMetadata> = Vec::new();
    let mut removed: Vec<FileMetadata> = Vec::new();
    let n = files.len();
    let mut i: usize = 0;
    while i < n
        invariant
            i <= n,
            n == files@.len(),
            keep_pred == (|e: FileMetadata| group_winner(files@, e)),
            drop_pred == (|e: FileMetadata| !group_winner(files@, e)),
            kept@ == files@.take(i as int).filter(keep_pred),
            removed@ == files@.take(i as int).filter(drop_pred),
        decreases n - i,
    {
        let e = clone_entry(&files[i]);
        proof {
            assert(files@.take(i + 1).drop_last() =~= files@.take(i as int));
            assert(files@.take(i + 1).last() == files@[i as int]);
            reveal(Seq::filter);
        }
        if is_group_winner(files, i) {
            kept.push(e);
        } else {
            removed.push(e);
        }
        i = i + 1;
    }
    proof {
        assert(files@.take(n as int) =~= files@);
    }
    (kept, removed)
}

/// Dedup convergence: in a repository whose ids are distinct, every
/// normalized path present among the entries is, after deduplication,
/// carried by exactly one surviving entry, and that entry is preferred over
/// every other member of its group.
pub proof fn lemma_dedup_convergence(files: Seq<FileMetadata>, p: Seq<char>)
    requires
        distinct_ids(files),
        exists|i: int| 0 <= i < files.len() && spec_normalize_path((#[trigger] files[i]).path@)
            == p,
    ensures
        spec_dedup_kept(files).filter(|e: FileMetadata| spec_normalize_path(e.path@) == p).len()
            == 1,
{
    let keep_pred = |e: FileMetadata| group_winner(files, e);
    let path_pred = |e: FileMetadata| spec_normalize_path(e.path@) == p;
    let both = |e: FileMetadata| keep_pred(e) && path_pred(e);
    lemma_filter_filter(files, keep_pred, path_pred);
    lemma_group_has_winner(files, p);
    let iw = choose|i: int|
        0 <= i < files.len() && spec_normalize_path((#[trigger] files[i]).path@) == p
            && group_winner(files, files[i]);
    assert(both(files[iw]));
    assert(files.filter(both).contains(files[iw]));
    assert(files.filter(both).len() >= 1);
    assert forall|i: int, j: int| 0 <= i < j < files.len() implies !(both(#[trigger] files[i])
        && both(#[trigger] files[j])) by {
        if both(files[i]) && both(files[j]) {
            assert(files[i].id@ != files[j].id@);
            assert(same_group(files[i], files[j]));
            assert(spec_wins(files[i], files[j]));
            assert(spec_wins(files[j], files[i]));
            lemma_wins_total(files[i], files[j]);
            assert(false);
        }
    }
    lemma_filter_at_most_one(files, both);
}

} // verus!
