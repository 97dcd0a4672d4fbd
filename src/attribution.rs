//! Attribution of changed files to their authors over a range of revisions.
//!
//! The caller walks the revisions reachable from the newer end of the range
//! and not from the older one, and reports for each the author, the time and
//! the files that its diff against its first parent changed. The library
//! counts, per file, each author's revisions and latest time, and ranks the
//! authors: most revisions first, then the most recent.

use vstd::prelude::*;
use crate::error::AppError;
use crate::models::FileAuthorInfo;
use crate::ordering::text_views;
use crate::tally::{add_touch, lemma_tally_bounds, rank_authors, ranked_authors, tally, tally_of, Touch};

verus! {

/// One revision of the walk: its author, its time, and for each changed
/// file its old and new path.
pub struct WalkedRevision {
    pub author_email: String,
    pub author_name: String,
    pub timestamp: i64,
    pub changes: Vec<(Option<String>, Option<String>)>,
}

/// The authors of one file, ranked.
pub struct FileAttribution {
    pub path: String,
    pub authors: Vec<FileAuthorInfo>,
}

/// The path a change is filed under: its new path, else its old one.
pub open spec fn change_key(c: (Option<String>, Option<String>)) -> Option<Seq<char>> {
    match c.1 {
        Some(p) => Some(p@),
        None => match c.0 {
            Some(p) => Some(p@),
            None => None,
        },
    }
}

/// What the changes `cs` of revision `r` record: a path and an author touch
/// for each change that has a path.
pub open spec fn change_touches(r: WalkedRevision, cs: Seq<(Option<String>, Option<String>)>) -> Seq<
    (Seq<char>, Touch),
>
    decreases cs.len(),
{
    if cs.len() == 0 {
        Seq::empty()
    } else {
        let pre = change_touches(r, cs.drop_last());
        match change_key(cs.last()) {
            Some(p) => pre.push((p, (r.author_email@, r.author_name@, r.timestamp as int))),
            None => pre,
        }
    }
}

/// What a whole walk records, in walk order.
pub open spec fn walk_touches(revs: Seq<WalkedRevision>) -> Seq<(Seq<char>, Touch)>
    decreases revs.len(),
{
    if revs.len() == 0 {
        Seq::empty()
    } else {
        walk_touches(revs.drop_last()) + change_touches(revs.last(), revs.last().changes@)
    }
}

/// The paths recorded, each once, in order of first record.
pub open spec fn file_paths(xs: Seq<(Seq<char>, Touch)>) -> Seq<Seq<char>>
    decreases xs.len(),
{
    if xs.len() == 0 {
        Seq::empty()
    } else {
        let pre = file_paths(xs.drop_last());
        if pre.contains(xs.last().0) {
            pre
        } else {
            pre.push(xs.last().0)
        }
    }
}

/// The author touches recorded for `path`, in walk order.
pub open spec fn touches_for(xs: Seq<(Seq<char>, Touch)>, path: Seq<char>) -> Seq<Touch>
    decreases xs.len(),
{
    if xs.len() == 0 {
        Seq::empty()
    } else if xs.last().0 == path {
        touches_for(xs.drop_last(), path).push(xs.last().1)
    } else {
        touches_for(xs.drop_last(), path)
    }
}

/// `out` attributes every file that the walk `revs` changed, in order of
/// first change, to its ranked authors.
pub open spec fn attributes_walk(revs: Seq<WalkedRevision>, out: Seq<FileAttribution>) -> bool {
    let xs = walk_touches(revs);
    &&& out.len() == file_paths(xs).len()
    &&& forall|k: int|
        0 <= k < out.len() ==> (#[trigger] out[k]).path@ == file_paths(xs)[k] && ranked_authors(
            tally(touches_for(xs, file_paths(xs)[k])),
            out[k].authors@,
        )
}

pub proof fn lemma_touches_for_len(xs: Seq<(Seq<char>, Touch)>, path: Seq<char>)
    ensures
        touches_for(xs, path).len() <= xs.len(),
    decreases xs.len(),
{
    if xs.len() > 0 {
        lemma_touches_for_len(xs.drop_last(), path);
    }
}

pub proof fn lemma_change_prefix(r: WalkedRevision, cs: Seq<(Option<String>, Option<String>)>, j: int)
    requires
        0 <= j <= cs.len(),
    ensures
        change_touches(r, cs.subrange(0, j)).len() <= change_touches(r, cs).len(),
    decreases cs.len() - j,
{
    if j < cs.len() {
        lemma_change_prefix(r, cs, j + 1);
        assert(cs.subrange(0, j + 1).drop_last() =~= cs.subrange(0, j));
    } else {
        assert(cs.subrange(0, j) =~= cs);
    }
}

pub proof fn lemma_walk_prefix(revs: Seq<WalkedRevision>, i: int)
    requires
        0 <= i <= revs.len(),
    ensures
        walk_touches(revs.subrange(0, i)).len() <= walk_touches(revs).len(),
    decreases revs.len() - i,
{
    if i < revs.len() {
        lemma_walk_prefix(revs, i + 1);
        assert(revs.subrange(0, i + 1).drop_last() =~= revs.subrange(0, i));
    } else {
        assert(revs.subrange(0, i) =~= revs);
    }
}

fn find_path(paths: &Vec<String>, p: &String) -> (r: usize)
    ensures
        r <= paths.len(),
        r < paths.len() ==> paths[r as int]@ == p@,
        r == paths.len() ==> !text_views(paths@).contains(p@),
{
    let mut j: usize = 0;
    while j < paths.len()
        invariant
            j <= paths.len(),
            forall|k: int| 0 <= k < j ==> paths[k]@ != p@,
        decreases paths.len() - j,
    {
        if paths[j] == *p {
            return j;
        }
        j = j + 1;
    }
    assert(!text_views(paths@).contains(p@)) by {
        if text_views(paths@).contains(p@) {
            let k = choose|k: int| 0 <= k < paths.len() && text_views(paths@)[k] == p@;
        }
    }
    j
}

fn change_path(c: &(Option<String>, Option<String>)) -> (r: Option<&String>)
    ensures
        match r {
            Some(p) => change_key(*c) == Some(p@),
            None => change_key(*c) is None,
        },
{
    match &c.1 {
        Some(p) => Some(p),
        None => match &c.0 {
            Some(p) => Some(p),
            None => None,
        },
    }
}

/// The number of changes reported over the whole walk.
pub open spec fn change_total(revs: Seq<WalkedRevision>) -> nat
    decreases revs.len(),
{
    if revs.len() == 0 {
        0
    } else {
        change_total(revs.drop_last()) + revs.last().changes@.len()
    }
}

pub proof fn lemma_change_touches_len(r: WalkedRevision, cs: Seq<(Option<String>, Option<String>)>)
    ensures
        change_touches(r, cs).len() <= cs.len(),
    decreases cs.len(),
{
    if cs.len() > 0 {
        lemma_change_touches_len(r, cs.drop_last());
    }
}

pub proof fn lemma_walk_touches_len(revs: Seq<WalkedRevision>)
    ensures
        walk_touches(revs).len() <= change_total(revs),
    decreases revs.len(),
{
    if revs.len() > 0 {
        lemma_walk_touches_len(revs.drop_last());
        lemma_change_touches_len(revs.last(), revs.last().changes@);
    }
}

pub proof fn lemma_change_total_prefix(revs: Seq<WalkedRevision>, i: int)
    requires
        0 <= i <= revs.len(),
    ensures
        change_total(revs.subrange(0, i)) <= change_total(revs),
    decreases revs.len() - i,
{
    if i < revs.len() {
        lemma_change_total_prefix(revs, i + 1);
        assert(revs.subrange(0, i + 1).drop_last() =~= revs.subrange(0, i));
    } else {
        assert(revs.subrange(0, i) =~= revs);
    }
}

/// Whether the changes of the walk number fewer than `usize::MAX`.
fn walk_fits(revs: &Vec<WalkedRevision>) -> (r: bool)
    ensures
        r == (change_total(revs@) < usize::MAX),
{
    let mut total: usize = 0;
    let mut i: usize = 0;
    while i < revs.len()
        invariant
            i <= revs.len(),
            total == change_total(revs@.subrange(0, i as int)),
        decreases revs.len() - i,
    {
        proof {
            assert(revs@.subrange(0, i + 1).drop_last() =~= revs@.subrange(0, i as int));
            assert(revs@.subrange(0, i + 1).last() == revs@[i as int]);
            lemma_change_total_prefix(revs@, i + 1);
        }
        match total.checked_add(revs[i].changes.len()) {
            Some(t) => {
                total = t;
            },
            None => {
                return false;
            },
        }
        i = i + 1;
    }
    assert(revs@.subrange(0, revs.len() as int) =~= revs@);
    total < usize::MAX
}

/// Walks the reported revisions and ranks, for every file they changed, the
/// authors who changed it. It fails only where the walk reports too many
/// changes to count.
pub fn attribute_authors(revs: &Vec<WalkedRevision>) -> (res: Result<Vec<FileAttribution>, AppError>)
    ensures
        res is Err <==> change_total(revs@) >= usize::MAX,
        res matches Err(e) ==> e matches AppError::Internal(m) && m@ == "History walk is too large"@,
        res matches Ok(out) ==> attributes_walk(revs@, out@),
{
    if !walk_fits(revs) {
        return Err(AppError::Internal("History walk is too large".to_owned()));
    }
    proof {
        lemma_walk_touches_len(revs@);
    }
    Ok(tally_walk(revs))
}

fn tally_walk(revs: &Vec<WalkedRevision>) -> (out: Vec<FileAttribution>)
    requires
        walk_touches(revs@).len() < usize::MAX,
    ensures
        attributes_walk(revs@, out@),
{
    let mut paths: Vec<String> = Vec::new();
    let mut tallies: Vec<Vec<FileAuthorInfo>> = Vec::new();
    let ghost mut xs: Seq<(Seq<char>, Touch)> = Seq::empty();
    let mut i: usize = 0;
    while i < revs.len()
        invariant
            i <= revs.len(),
            walk_touches(revs@).len() < usize::MAX,
            xs == walk_touches(revs@.subrange(0, i as int)),
            text_views(paths@) == file_paths(xs),
            forall|a: int, b: int| 0 <= a < b < paths.len() ==> paths[a]@ != paths[b]@,
            tallies.len() == paths.len(),
            forall|k: int|
                0 <= k < paths.len() ==> tally_of(#[trigger] tallies[k]@) == tally(
                    touches_for(xs, paths[k]@),
                ),
        decreases revs.len() - i,
    {
        let r = &revs[i];
        let ghost base = xs;
        proof {
            lemma_walk_prefix(revs@, i + 1);
            assert(revs@.subrange(0, i + 1).drop_last() =~= revs@.subrange(0, i as int));
        }
        let mut j: usize = 0;
        while j < r.changes.len()
            invariant
                i < revs.len(),
                *r == revs[i as int],
                j <= r.changes.len(),
                walk_touches(revs@).len() < usize::MAX,
                base == walk_touches(revs@.subrange(0, i as int)),
                base.len() + change_touches(*r, r.changes@).len() <= walk_touches(revs@).len(),
                xs == base + change_touches(*r, r.changes@.subrange(0, j as int)),
                text_views(paths@) == file_paths(xs),
                forall|a: int, b: int| 0 <= a < b < paths.len() ==> paths[a]@ != paths[b]@,
                tallies.len() == paths.len(),
                forall|k: int|
                    0 <= k < paths.len() ==> tally_of(#[trigger] tallies[k]@) == tally(
                        touches_for(xs, paths[k]@),
                    ),
            decreases r.changes.len() - j,
        {
            let ghost cs = r.changes@.subrange(0, j + 1);
            proof {
                assert(cs.drop_last() =~= r.changes@.subrange(0, j as int));
                assert(cs.last() == r.changes@[j as int]);
                lemma_change_prefix(*r, r.changes@, j + 1);
            }
            match change_path(&r.changes[j]) {
                Some(p) => {
                    let ghost x = (p@, (r.author_email@, r.author_name@, r.timestamp as int));
                    let ghost old_paths = paths@;
                    let ghost old_tallies = tallies@;
                    let f = find_path(&paths, p);
                    if f == paths.len() {
                        paths.push(p.clone());
                        tallies.push(Vec::new());
                        proof {
                            assert forall|a: int| 0 <= a < old_paths.len() implies old_paths[a]@ != p@ by {
                                assert(text_views(old_paths)[a] == old_paths[a]@);
                            }
                            assert(touches_for(xs, p@).len() == 0) by {
                                lemma_touches_for_empty(xs, p@);
                            }
                            assert(tally_of(tallies[f as int]@) =~= tally(touches_for(xs, p@)));
                        }
                    }
                    proof {
                        assert forall|k: int| 0 <= k < paths.len() && k != f implies paths[k]@ != p@ by {
                            if f < old_paths.len() {
                                assert(paths[f as int]@ == p@);
                            } else {
                                assert(paths[k] == old_paths[k]);
                            }
                        }
                        lemma_touches_for_len(xs, p@);
                        lemma_tally_bounds(touches_for(xs, p@));
                        assert(paths[f as int]@ == p@);
                        assert forall|k: int| 0 <= k < tallies[f as int].len() implies tallies[f as int][k].commit_count
                            < usize::MAX by {
                            assert(tally_of(tallies[f as int]@)[k].count == tallies[f as int][k].commit_count);
                        }
                    }
                    let ghost mid = tallies@;
                    let mut t = tallies.remove(f);
                    add_touch(&mut t, &r.author_email, &r.author_name, r.timestamp);
                    tallies.insert(f, t);
                    proof {
                        assert(tallies@ =~= mid.update(f as int, t));
                        let nxs = xs.push(x);
                        assert(nxs.drop_last() =~= xs);
                        assert(text_views(paths@) =~= file_paths(nxs)) by {
                            if f < old_paths.len() {
                                assert(text_views(old_paths).contains(p@)) by {
                                    assert(text_views(old_paths)[f as int] == p@);
                                }
                            }
                        }
                        assert forall|k: int| 0 <= k < paths.len() implies tally_of(
                            #[trigger] tallies[k]@,
                        ) == tally(touches_for(nxs, paths[k]@)) by {
                            if k != f {
                                assert(paths[k]@ != p@);
                                assert(tallies[k] == mid[k]);
                            } else {
                                assert(touches_for(nxs, p@).drop_last() =~= touches_for(xs, p@));
                            }
                        }
                        assert(change_touches(*r, cs) == change_touches(*r, r.changes@.subrange(0, j as int)).push(x));
                        assert(base + change_touches(*r, cs) =~= nxs);
                        xs = nxs;
                    }
                },
                None => {
                    proof {
                        assert(change_touches(*r, cs) == change_touches(*r, r.changes@.subrange(0, j as int)));
                    }
                },
            }
            j = j + 1;
        }
        proof {
            assert(r.changes@.subrange(0, r.changes.len() as int) =~= r.changes@);
            assert(revs@.subrange(0, i + 1).last() == revs@[i as int]);
        }
        i = i + 1;
    }
    assert(revs@.subrange(0, revs.len() as int) =~= revs@);
    let mut out: Vec<FileAttribution> = Vec::new();
    let mut k: usize = 0;
    while k < paths.len()
        invariant
            k <= paths.len(),
            tallies.len() == paths.len(),
            xs == walk_touches(revs@),
            text_views(paths@) == file_paths(xs),
            forall|m: int|
                0 <= m < paths.len() ==> tally_of(#[trigger] tallies[m]@) == tally(
                    touches_for(xs, paths[m]@),
                ),
            out.len() == k,
            forall|m: int|
                0 <= m < k ==> (#[trigger] out[m]).path@ == file_paths(xs)[m] && ranked_authors(
                    tally(touches_for(xs, file_paths(xs)[m])),
                    out[m].authors@,
                ),
        decreases paths.len() - k,
    {
        let authors = rank_authors(&tallies[k]);
        assert(text_views(paths@)[k as int] == paths[k as int]@);
        out.push(FileAttribution { path: paths[k].clone(), authors });
        k = k + 1;
    }
    out
}

pub proof fn lemma_touches_for_empty(xs: Seq<(Seq<char>, Touch)>, path: Seq<char>)
    requires
        !file_paths(xs).contains(path),
    ensures
        touches_for(xs, path).len() == 0,
    decreases xs.len(),
{
    if xs.len() > 0 {
        let pre = file_paths(xs.drop_last());
        if pre.contains(path) {
            let k = choose|k: int| 0 <= k < pre.len() && pre[k] == path;
            if pre.contains(xs.last().0) {
                assert(file_paths(xs)[k] == path);
            } else {
                assert(file_paths(xs)[k] == path);
            }
        }
        if !pre.contains(xs.last().0) {
            assert(file_paths(xs).last() == xs.last().0);
        }
        lemma_touches_for_empty(xs.drop_last(), path);
    }
}

} // verus!
