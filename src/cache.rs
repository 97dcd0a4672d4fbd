//! The history snapshot and the per-path indices over it.
//!
//! The snapshot holds every revision reachable from the head, newest first.
//! An index for a path lists the snapshot positions of the revisions that
//! touched it, with the authors of those revisions. The root path `""` is
//! indexed when the snapshot is built; other paths are indexed once, when
//! first asked for, from the caller's account of which revisions touch them.

use vstd::prelude::*;
use crate::models::{AuthorInfo, CommitDetail, CommitListResponse, ContributorInfo, FileAuthorInfo};
use crate::ordering::{descending_order, ranks_desc};
use crate::relative_time::{age_text, format_relative_time};
use crate::repository::{text_or, text_or_else, trim_of, trimmed};
use crate::tally::{add_touch, lemma_tally_bounds, rank_contributors, ranked_contributors, tally, tally_of, Touch};

verus! {

/// One revision's metadata, as captured in the snapshot.
pub struct CachedCommit {
    pub oid: String,
    pub message: String,
    pub author_name: String,
    pub author_email: String,
    pub committer_name: String,
    pub committer_email: String,
    pub timestamp: i64,
    pub parent_count: usize,
    pub parents: Vec<String>,
}

/// `a` holds the same metadata as `b`.
pub open spec fn same_commit(a: CachedCommit, b: CachedCommit) -> bool {
    &&& a.oid == b.oid
    &&& a.message == b.message
    &&& a.author_name == b.author_name
    &&& a.author_email == b.author_email
    &&& a.committer_name == b.committer_name
    &&& a.committer_email == b.committer_email
    &&& a.timestamp == b.timestamp
    &&& a.parent_count == b.parent_count
    &&& a.parents@ == b.parents@
}

/// `d` presents the revision `c`, with its age as seen at `now`.
pub open spec fn detail_of(d: CommitDetail, c: CachedCommit, now: i64) -> bool {
    &&& d.oid@ == c.oid@
    &&& d.message@ == c.message@
    &&& d.author.name@ == c.author_name@
    &&& d.author.email@ == c.author_email@
    &&& d.committer.name@ == c.committer_name@
    &&& d.committer.email@ == c.committer_email@
    &&& d.timestamp == c.timestamp
    &&& d.parent_count == c.parent_count
    &&& d.parents@ == c.parents@
    &&& d.relative_time@ == age_text(c.timestamp, now)
}

fn copy_strings(v: &Vec<String>) -> (r: Vec<String>)
    ensures
        r@ == v@,
{
    let mut r: Vec<String> = Vec::new();
    let mut i: usize = 0;
    while i < v.len()
        invariant
            i <= v.len(),
            r@ == v@.subrange(0, i as int),
        decreases v.len() - i,
    {
        r.push(v[i].clone());
        i = i + 1;
        assert(r@ =~= v@.subrange(0, i as int));
    }
    assert(v@.subrange(0, v.len() as int) =~= v@);
    r
}

impl CachedCommit {
    /// A copy of this revision's metadata.
    pub fn duplicate(&self) -> (r: CachedCommit)
        ensures
            same_commit(r, *self),
    {
        CachedCommit {
            oid: self.oid.clone(),
            message: self.message.clone(),
            author_name: self.author_name.clone(),
            author_email: self.author_email.clone(),
            committer_name: self.committer_name.clone(),
            committer_email: self.committer_email.clone(),
            timestamp: self.timestamp,
            parent_count: self.parent_count,
            parents: copy_strings(&self.parents),
        }
    }

    /// This revision as presented to callers, with its age as of `now`
    /// (seconds since the Unix epoch).
    pub fn to_commit_detail(&self, now: i64) -> (d: CommitDetail)
        ensures
            detail_of(d, *self, now),
    {
        CommitDetail {
            oid: self.oid.clone(),
            message: self.message.clone(),
            author: AuthorInfo { name: self.author_name.clone(), email: self.author_email.clone() },
            committer: AuthorInfo {
                name: self.committer_name.clone(),
                email: self.committer_email.clone(),
            },
            timestamp: self.timestamp,
            relative_time: format_relative_time(self.timestamp, now),
            parent_count: self.parent_count,
            parents: copy_strings(&self.parents),
        }
    }
}

/// The index of one path: snapshot positions of the revisions that touched
/// it, oldest position first, and their authors, most revisions first.
pub struct PathCache {
    pub commit_indices: Vec<usize>,
    pub contributors: Vec<ContributorInfo>,
}

/// Statistics of a cache.
pub struct CacheStats {
    pub total_commits: usize,
    pub cached_paths: usize,
    pub age_secs: u64,
}

/// Newest first: no revision is older than the one after it.
pub open spec fn time_ordered(c: Seq<CachedCommit>) -> bool {
    forall|i: int| 0 <= i < c.len() - 1 ==> #[trigger] c[i].timestamp >= c[i + 1].timestamp
}

pub open spec fn time_keys(c: Seq<CachedCommit>) -> Seq<(usize, i64)> {
    c.map_values(|r: CachedCommit| (0usize, r.timestamp))
}

/// The positions whose flag is set, in increasing order.
pub open spec fn touching(t: Seq<bool>) -> Seq<usize>
    decreases t.len(),
{
    if t.len() == 0 {
        Seq::empty()
    } else if t.last() {
        touching(t.drop_last()).push((t.len() - 1) as usize)
    } else {
        touching(t.drop_last())
    }
}

/// Every position of a snapshot of `n` revisions.
pub open spec fn all_indices(n: nat) -> Seq<usize> {
    Seq::new(n, |i: int| i as usize)
}

/// The author records of the revisions at `idx`.
pub open spec fn touches_of(c: Seq<CachedCommit>, idx: Seq<usize>) -> Seq<Touch> {
    idx.map_values(
        |i: usize| (c[i as int].author_email@, c[i as int].author_name@, c[i as int].timestamp as int),
    )
}

/// `pc` is an index over the snapshot `c`: increasing positions within it,
/// and the authors of exactly those revisions, ranked.
pub open spec fn index_fits(c: Seq<CachedCommit>, pc: PathCache) -> bool {
    &&& forall|k: int| 0 <= k < pc.commit_indices.len() ==> pc.commit_indices[k] < c.len()
    &&& forall|a: int, b: int|
        0 <= a < b < pc.commit_indices.len() ==> pc.commit_indices[a] < pc.commit_indices[b]
    &&& ranked_contributors(tally(touches_of(c, pc.commit_indices@)), pc.contributors@)
}

/// Whether `email` is one of the excluded addresses.
pub open spec fn is_excluded(email: Seq<char>, ex: Seq<String>) -> bool {
    exists|k: int| 0 <= k < ex.len() && ex[k]@ == email
}

/// The positions of `idx` whose revision's author is not excluded.
pub open spec fn kept_indices(c: Seq<CachedCommit>, idx: Seq<usize>, ex: Seq<String>) -> Seq<usize>
    decreases idx.len(),
{
    if idx.len() == 0 {
        Seq::empty()
    } else if is_excluded(c[idx.last() as int].author_email@, ex) {
        kept_indices(c, idx.drop_last(), ex)
    } else {
        kept_indices(c, idx.drop_last(), ex).push(idx.last())
    }
}

/// How many of the revisions at `idx` have an excluded author.
pub open spec fn excluded_count(c: Seq<CachedCommit>, idx: Seq<usize>, ex: Seq<String>) -> nat
    decreases idx.len(),
{
    if idx.len() == 0 {
        0
    } else if is_excluded(c[idx.last() as int].author_email@, ex) {
        excluded_count(c, idx.drop_last(), ex) + 1
    } else {
        excluded_count(c, idx.drop_last(), ex)
    }
}

/// The excluded addresses of an optional list.
pub open spec fn excluded_list(e: Option<&[String]>) -> Seq<String> {
    match e {
        Some(s) => s@,
        None => Seq::empty(),
    }
}

/// How many of `n` items a page that skips `offset` and holds at most
/// `limit` shows.
pub open spec fn page_len(n: int, offset: int, limit: int) -> int {
    if n <= offset {
        0
    } else if n - offset < limit {
        n - offset
    } else {
        limit
    }
}

/// `r` is the page of the index `pc` over the snapshot `c`.
pub open spec fn is_page(
    c: Seq<CachedCommit>,
    pc: PathCache,
    limit: usize,
    offset: usize,
    ex: Seq<String>,
    now: i64,
    r: CommitListResponse,
) -> bool {
    let kept = kept_indices(c, pc.commit_indices@, ex);
    &&& r.total == pc.commit_indices.len()
    &&& r.filtered_total == kept.len()
    &&& r.has_more == (kept.len() > offset + limit)
    &&& r.commits.len() == page_len(kept.len() as int, offset as int, limit as int)
    &&& forall|k: int|
        0 <= k < r.commits.len() ==> detail_of(#[trigger] r.commits[k], c[kept[offset + k] as int], now)
    &&& r.contributors.len() == pc.contributors.len()
    &&& forall|k: int|
        0 <= k < r.contributors.len() ==> (#[trigger] r.contributors[k]).name@
            == pc.contributors[k].name@ && r.contributors[k].email@ == pc.contributors[k].email@
}

/// Whole seconds from `created` to `now`, or zero where `now` is earlier.
pub open spec fn age_at(created: i64, now: i64) -> int {
    if now > created {
        now - created
    } else {
        0
    }
}

/// The cache of one repository: the snapshot, the head it was taken at, and
/// the path indices built so far. The first index is the root's.
pub struct CommitCache {
    pub all_commits: Vec<CachedCommit>,
    pub path_cache: Vec<(String, PathCache)>,
    pub head_oid: String,
    pub created_at: i64,
}

/// Every position that `touching` lists is below the length, in increasing
/// order.
pub proof fn lemma_touching_bounds(t: Seq<bool>)
    requires
        t.len() <= usize::MAX,
    ensures
        forall|k: int| 0 <= k < touching(t).len() ==> touching(t)[k] < t.len(),
        forall|a: int, b: int| 0 <= a < b < touching(t).len() ==> touching(t)[a] < touching(t)[b],
        touching(t).len() <= t.len(),
    decreases t.len(),
{
    if t.len() > 0 {
        let p = touching(t.drop_last());
        lemma_touching_bounds(t.drop_last());
        if t.last() {
            assert(touching(t) == p.push((t.len() - 1) as usize));
            assert forall|a: int, b: int| 0 <= a < b < touching(t).len() implies touching(t)[a]
                < touching(t)[b] by {
                if b == p.len() {
                    assert(p[a] < t.drop_last().len());
                } else {
                    assert(p[a] < p[b]);
                }
            }
        }
    }
}

/// With every flag set, every position is listed.
pub proof fn lemma_touching_all(t: Seq<bool>)
    requires
        forall|k: int| 0 <= k < t.len() ==> t[k],
    ensures
        touching(t) == all_indices(t.len()),
    decreases t.len(),
{
    if t.len() > 0 {
        lemma_touching_all(t.drop_last());
        assert(touching(t) =~= all_indices(t.len()));
    }
}

/// The index of the revisions of `commits` whose flag in `touches` is set.
fn index_touching(commits: &Vec<CachedCommit>, touches: &Vec<bool>) -> (pc: PathCache)
    requires
        touches.len() == commits.len(),
    ensures
        pc.commit_indices@ == touching(touches@),
        index_fits(commits@, pc),
{
    let n = commits.len();
    let mut idx: Vec<usize> = Vec::new();
    let mut authors: Vec<FileAuthorInfo> = Vec::new();
    let mut i: usize = 0;
    while i < n
        invariant
            n == commits.len(),
            n == touches.len(),
            i <= n,
            idx@ == touching(touches@.subrange(0, i as int)),
            idx.len() <= i,
            forall|k: int| 0 <= k < idx.len() ==> idx[k] < i,
            tally_of(authors@) == tally(touches_of(commits@, idx@)),
        decreases n - i,
    {
        let ghost pre = touches@.subrange(0, i as int);
        assert(touches@.subrange(0, i + 1).drop_last() =~= pre);
        if touches[i] {
            let c = &commits[i];
            proof {
                lemma_tally_bounds(touches_of(commits@, idx@));
                assert forall|k: int| 0 <= k < authors.len() implies authors[k].commit_count
                    < usize::MAX by {
                    assert(tally_of(authors@)[k].count == authors[k].commit_count);
                }
            }
            add_touch(&mut authors, &c.author_email, &c.author_name, c.timestamp);
            let ghost before = idx@;
            idx.push(i);
            proof {
                let x = (c.author_email@, c.author_name@, c.timestamp as int);
                assert(touches_of(commits@, idx@) =~= touches_of(commits@, before).push(x));
                assert(touches_of(commits@, idx@).drop_last() =~= touches_of(commits@, before));
            }
        }
        i = i + 1;
    }
    assert(touches@.subrange(0, n as int) =~= touches@);
    proof {
        lemma_touching_bounds(touches@);
    }
    let contributors = rank_contributors(&authors);
    PathCache { commit_indices: idx, contributors }
}

/// The root index: every revision of the snapshot.
pub fn build_root_path_cache(all_commits: &Vec<CachedCommit>) -> (pc: PathCache)
    ensures
        pc.commit_indices@ == all_indices(all_commits.len() as nat),
        index_fits(all_commits@, pc),
{
    let mut touches: Vec<bool> = Vec::new();
    let mut i: usize = 0;
    while i < all_commits.len()
        invariant
            i <= all_commits.len(),
            touches.len() == i,
            forall|k: int| 0 <= k < touches.len() ==> touches[k],
        decreases all_commits.len() - i,
    {
        touches.push(true);
        i = i + 1;
    }
    proof {
        lemma_touching_all(touches@);
    }
    index_touching(all_commits, &touches)
}

/// Whether `email` is in `ex`.
fn author_excluded(email: &String, ex: &[String]) -> (r: bool)
    ensures
        r == is_excluded(email@, ex@),
{
    let mut k: usize = 0;
    while k < ex.len()
        invariant
            k <= ex.len(),
            forall|j: int| 0 <= j < k ==> ex@[j]@ != email@,
        decreases ex.len() - k,
    {
        if ex[k] == *email {
            return true;
        }
        k = k + 1;
    }
    false
}

/// Excluding authors removes from an index exactly the revisions that they
/// authored: what is kept and what is removed add up to the whole.
pub proof fn lemma_filter_accounts(c: Seq<CachedCommit>, idx: Seq<usize>, ex: Seq<String>)
    ensures
        kept_indices(c, idx, ex).len() + excluded_count(c, idx, ex) == idx.len(),
    decreases idx.len(),
{
    if idx.len() > 0 {
        lemma_filter_accounts(c, idx.drop_last(), ex);
    }
}

/// Every position kept by the filter is one of the index's.
pub proof fn lemma_kept_within(c: Seq<CachedCommit>, idx: Seq<usize>, ex: Seq<String>)
    ensures
        forall|k: int|
            0 <= k < kept_indices(c, idx, ex).len() ==> exists|j: int|
                0 <= j < idx.len() && idx[j] == #[trigger] kept_indices(c, idx, ex)[k],
        kept_indices(c, idx, ex).len() <= idx.len(),
    decreases idx.len(),
{
    if idx.len() > 0 {
        let pre = idx.drop_last();
        lemma_kept_within(c, pre, ex);
        assert forall|k: int| 0 <= k < kept_indices(c, idx, ex).len() implies exists|j: int|
            0 <= j < idx.len() && idx[j] == #[trigger] kept_indices(c, idx, ex)[k] by {
            if k < kept_indices(c, pre, ex).len() {
                let j = choose|j: int| 0 <= j < pre.len() && pre[j] == kept_indices(c, pre, ex)[k];
                assert(idx[j] == pre[j]);
            } else {
                assert(idx[idx.len() - 1] == idx.last());
            }
        }
    }
}

/// The first position at or after `from` of the index for `path`, or the
/// number of indices.
pub open spec fn lookup(entries: Seq<(String, PathCache)>, path: Seq<char>, from: int) -> int
    decreases entries.len() - from,
{
    if from < 0 || from >= entries.len() {
        entries.len() as int
    } else if entries[from].0@ == path {
        from
    } else {
        lookup(entries, path, from + 1)
    }
}

pub proof fn lemma_lookup_range(entries: Seq<(String, PathCache)>, path: Seq<char>, from: int)
    requires
        0 <= from,
    ensures
        lookup(entries, path, from) <= entries.len(),
        lookup(entries, path, from) < entries.len() ==> from <= lookup(entries, path, from)
            && entries[lookup(entries, path, from)].0@ == path,
        lookup(entries, path, from) == entries.len() ==> forall|k: int|
            from <= k < entries.len() ==> entries[k].0@ != path,
    decreases entries.len() - from,
{
    if from < entries.len() && entries[from].0@ != path {
        lemma_lookup_range(entries, path, from + 1);
    }
}

impl CommitCache {
    /// The snapshot is newest first, the root index comes first and covers
    /// the whole snapshot, every index fits the snapshot, and no path is
    /// indexed twice.
    pub open spec fn wf(&self) -> bool {
        &&& time_ordered(self.all_commits@)
        &&& self.path_cache.len() >= 1
        &&& self.path_cache[0].0@ == Seq::<char>::empty()
        &&& self.path_cache[0].1.commit_indices@ == all_indices(self.all_commits.len() as nat)
        &&& forall|i: int|
            0 <= i < self.path_cache.len() ==> index_fits(self.all_commits@, #[trigger] self.path_cache[i].1)
        &&& forall|a: int, b: int|
            0 <= a < b < self.path_cache.len() ==> self.path_cache[a].0@ != self.path_cache[b].0@
    }

    /// Whether `path` has an index.
    pub open spec fn indexed(&self, path: Seq<char>) -> bool {
        lookup(self.path_cache@, path, 0) < self.path_cache.len()
    }

    /// The index of `path`, where it has one.
    pub open spec fn index_of(&self, path: Seq<char>) -> PathCache {
        self.path_cache[lookup(self.path_cache@, path, 0)].1
    }

    /// The cache of a freshly walked history taken at `head_oid`. The
    /// revisions are ordered newest first; revisions of equal time keep the
    /// order of the walk, and a walk that is already newest first is kept
    /// as it is. Only the root is indexed.
    pub fn build(commits: Vec<CachedCommit>, head_oid: String, created_at: i64) -> (c: CommitCache)
        ensures
            c.wf(),
            c.head_oid == head_oid,
            c.created_at == created_at,
            c.path_cache.len() == 1,
            c.all_commits.len() == commits.len(),
            exists|perm: Seq<usize>|
                #![trigger ranks_desc(time_keys(commits@), perm)]
                ranks_desc(time_keys(commits@), perm) && forall|k: int|
                    0 <= k < c.all_commits.len() ==> same_commit(
                        #[trigger] c.all_commits[k],
                        commits[perm[k] as int],
                    ),
            time_ordered(commits@) ==> forall|k: int|
                0 <= k < c.all_commits.len() ==> same_commit(#[trigger] c.all_commits[k], commits[k]),
    {
        let mut keys: Vec<(usize, i64)> = Vec::new();
        let mut i: usize = 0;
        while i < commits.len()
            invariant
                i <= commits.len(),
                keys@ == time_keys(commits@.subrange(0, i as int)),
            decreases commits.len() - i,
        {
            keys.push((0, commits[i].timestamp));
            i = i + 1;
            assert(keys@ =~= time_keys(commits@.subrange(0, i as int)));
        }
        assert(commits@.subrange(0, commits.len() as int) =~= commits@);
        proof {
            if time_ordered(commits@) {
                assert forall|i: int| 0 <= i < keys.len() - 1 implies crate::ordering::key_ge(
                    #[trigger] keys@[i],
                    keys@[i + 1],
                ) by {
                    assert(commits@[i].timestamp >= commits@[i + 1].timestamp);
                }
            }
        }
        let perm = descending_order(&keys);
        let mut all_commits: Vec<CachedCommit> = Vec::new();
        let mut k: usize = 0;
        while k < perm.len()
            invariant
                ranks_desc(keys@, perm@),
                keys@ == time_keys(commits@),
                k <= perm.len(),
                all_commits.len() == k,
                forall|m: int|
                    0 <= m < k ==> same_commit(#[trigger] all_commits[m], commits[perm[m] as int]),
            decreases perm.len() - k,
        {
            all_commits.push(commits[perm[k]].duplicate());
            k = k + 1;
        }
        proof {
            assert forall|m: int| 0 <= m < all_commits.len() - 1 implies #[trigger] all_commits[m].timestamp
                >= all_commits[m + 1].timestamp by {
                assert(crate::ordering::key_ge(keys@[perm[m] as int], keys@[perm[m + 1] as int]));
            }
        }
        let root = build_root_path_cache(&all_commits);
        let mut path_cache: Vec<(String, PathCache)> = Vec::new();
        path_cache.push((String::new(), root));
        CommitCache { all_commits, path_cache, head_oid, created_at }
    }

    /// The staleness guard: the snapshot is current exactly when the head
    /// resolves, and to the revision it was taken at.
    pub fn is_valid(&self, head: Option<&String>) -> (r: bool)
        ensures
            r == (head matches Some(h) && h@ == self.head_oid@),
    {
        match head {
            Some(h) => *h == self.head_oid,
            None => false,
        }
    }

    fn path_position(&self, path: &String) -> (p: usize)
        ensures
            p == lookup(self.path_cache@, path@, 0),
    {
        let mut j: usize = 0;
        while j < self.path_cache.len()
            invariant
                j <= self.path_cache.len(),
                lookup(self.path_cache@, path@, 0) == lookup(self.path_cache@, path@, j as int),
            decreases self.path_cache.len() - j,
        {
            if self.path_cache[j].0 == *path {
                return j;
            }
            j = j + 1;
        }
        j
    }

    /// Whether `path` has been indexed.
    pub fn has_path_index(&self, path: &str) -> (r: bool)
        ensures
            r == self.indexed(path@),
    {
        let key = path.to_owned();
        self.path_position(&key) < self.path_cache.len()
    }

    /// Records the index of `path`, given for each revision of the snapshot
    /// whether it touched the path. A path that already has an index keeps
    /// it, and nothing changes.
    pub fn add_path_index(&mut self, path: &str, touches: &Vec<bool>)
        requires
            old(self).wf(),
            touches.len() == old(self).all_commits.len(),
        ensures
            final(self).wf(),
            final(self).indexed(path@),
            old(self).indexed(path@) ==> *final(self) == *old(self),
            !old(self).indexed(path@) ==> {
                &&& final(self).all_commits == old(self).all_commits
                &&& final(self).head_oid == old(self).head_oid
                &&& final(self).created_at == old(self).created_at
                &&& final(self).path_cache@.drop_last() == old(self).path_cache@
                &&& final(self).path_cache@.last().0@ == path@
                &&& final(self).path_cache@.last().1.commit_indices@ == touching(touches@)
                &&& final(self).index_of(path@).commit_indices@ == touching(touches@)
            },
    {
        let key = path.to_owned();
        let p = self.path_position(&key);
        proof {
            lemma_lookup_range(self.path_cache@, path@, 0);
        }
        if p < self.path_cache.len() {
            return;
        }
        let pc = index_touching(&self.all_commits, touches);
        self.path_cache.push((key, pc));
        proof {
            let n = self.path_cache.len() - 1;
            assert(self.path_cache@.drop_last() =~= old(self).path_cache@);
            assert(forall|k: int| 0 <= k < n ==> self.path_cache[k] == old(self).path_cache[k]);
            lemma_lookup_range(self.path_cache@, path@, 0);
            assert(lookup(self.path_cache@, path@, 0) <= n) by {
                if lookup(self.path_cache@, path@, 0) == self.path_cache.len() {
                    assert(self.path_cache[n].0@ == path@);
                }
            }
        }
    }

    /// One page of the revisions that touched `path`, or `None` where the
    /// path has no index yet.
    pub fn get_commits_for_path(
        &self,
        path: &str,
        limit: usize,
        offset: usize,
        exclude_authors: Option<&[String]>,
        now: i64,
    ) -> (r: Option<CommitListResponse>)
        requires
            self.wf(),
        ensures
            r is Some <==> self.indexed(path@),
            r matches Some(page) ==> is_page(
                self.all_commits@,
                self.index_of(path@),
                limit,
                offset,
                excluded_list(exclude_authors),
                now,
                page,
            ),
    {
        let key = path.to_owned();
        let p = self.path_position(&key);
        proof {
            lemma_lookup_range(self.path_cache@, path@, 0);
        }
        if p < self.path_cache.len() {
            assert(index_fits(self.all_commits@, self.path_cache[p as int].1));
            Some(self.query_commits(&self.path_cache[p].1, limit, offset, exclude_authors, now))
        } else {
            None
        }
    }

    /// The query engine: drops the revisions whose author is excluded, then
    /// skips `offset` and keeps at most `limit`. The contributors are those
    /// of the whole index, whatever is excluded.
    pub fn query_commits(
        &self,
        path_cache: &PathCache,
        limit: usize,
        offset: usize,
        exclude_authors: Option<&[String]>,
        now: i64,
    ) -> (r: CommitListResponse)
        requires
            forall|k: int|
                0 <= k < path_cache.commit_indices.len() ==> path_cache.commit_indices[k]
                    < self.all_commits.len(),
        ensures
            is_page(self.all_commits@, *path_cache, limit, offset, excluded_list(exclude_authors), now, r),
    {
        let none: Vec<String> = Vec::new();
        let ex: &[String] = match exclude_authors {
            Some(s) => s,
            None => none.as_slice(),
        };
        assert(ex@ == excluded_list(exclude_authors));
        let idx = &path_cache.commit_indices;
        let total = idx.len();
        let mut kept: Vec<usize> = Vec::new();
        let mut j: usize = 0;
        while j < total
            invariant
                total == idx.len(),
                j <= total,
                kept@ == kept_indices(self.all_commits@, idx@.subrange(0, j as int), ex@),
                forall|k: int| 0 <= k < idx.len() ==> idx[k] < self.all_commits.len(),
            decreases total - j,
        {
            let i = idx[j];
            assert(idx@.subrange(0, j + 1).drop_last() =~= idx@.subrange(0, j as int));
            if !author_excluded(&self.all_commits[i].author_email, ex) {
                kept.push(i);
            }
            j = j + 1;
        }
        assert(idx@.subrange(0, total as int) =~= idx@);
        proof {
            lemma_kept_within(self.all_commits@, idx@, ex@);
        }
        let filtered_total = kept.len();
        let mut commits: Vec<CommitDetail> = Vec::new();
        if offset < filtered_total {
            let end = if filtered_total - offset < limit {
                filtered_total
            } else {
                offset + limit
            };
            let mut k: usize = offset;
            while k < end
                invariant
                    offset <= k <= end <= filtered_total,
                    filtered_total == kept.len(),
                    commits.len() == k - offset,
                    kept@ == kept_indices(self.all_commits@, idx@, ex@),
                    forall|m: int| 0 <= m < kept.len() ==> kept[m] < self.all_commits.len(),
                    forall|m: int|
                        0 <= m < commits.len() ==> detail_of(
                            #[trigger] commits[m],
                            self.all_commits@[kept[offset + m] as int],
                            now,
                        ),
                decreases end - k,
            {
                assert(kept[k as int] < self.all_commits.len()) by {
                    let j = choose|j: int| 0 <= j < idx.len() && idx[j] == kept_indices(self.all_commits@, idx@, ex@)[k as int];
                }
                commits.push(self.all_commits[kept[k]].to_commit_detail(now));
                k = k + 1;
            }
        }
        let mut contributors: Vec<AuthorInfo> = Vec::new();
        let mut c: usize = 0;
        while c < path_cache.contributors.len()
            invariant
                c <= path_cache.contributors.len(),
                contributors.len() == c,
                forall|m: int|
                    0 <= m < c ==> (#[trigger] contributors[m]).name@ == path_cache.contributors[m].name@
                        && contributors[m].email@ == path_cache.contributors[m].email@,
            decreases path_cache.contributors.len() - c,
        {
            let info = &path_cache.contributors[c];
            contributors.push(AuthorInfo { name: info.name.clone(), email: info.email.clone() });
            c = c + 1;
        }
        let has_more = filtered_total > offset && filtered_total - offset > limit;
        CommitListResponse { commits, total, filtered_total, has_more, contributors }
    }

    /// Size of the cache, and its age as of `now`.
    pub fn stats(&self, now: i64) -> (s: CacheStats)
        ensures
            s.total_commits == self.all_commits.len(),
            s.cached_paths == self.path_cache.len(),
            s.age_secs == age_at(self.created_at, now),
    {
        let age: u64 = if now > self.created_at {
            (now as i128 - self.created_at as i128) as u64
        } else {
            0
        };
        assert(age == age_at(self.created_at, now));
        CacheStats {
            total_commits: self.all_commits.len(),
            cached_paths: self.path_cache.len(),
            age_secs: age,
        }
    }
}

/// In a well-formed cache every revision of the snapshot is at least as
/// recent as the next one.
pub proof fn lemma_snapshot_ordered(c: CommitCache, i: int)
    requires
        c.wf(),
        0 <= i < c.all_commits.len() - 1,
    ensures
        c.all_commits[i].timestamp >= c.all_commits[i + 1].timestamp,
{
}

/// The root path is always indexed, and its index holds every revision of
/// the snapshot.
pub proof fn lemma_root_index_size(c: CommitCache)
    requires
        c.wf(),
    ensures
        c.indexed(Seq::empty()),
        c.index_of(Seq::empty()).commit_indices.len() == c.all_commits.len(),
{
    assert(lookup(c.path_cache@, Seq::empty(), 0) == 0);
}

/// Excluding authors: the filtered total is the total less the revisions of
/// the index that the excluded authors made.
pub proof fn lemma_filtered_total(
    c: Seq<CachedCommit>,
    pc: PathCache,
    limit: usize,
    offset: usize,
    ex: Seq<String>,
    now: i64,
    r: CommitListResponse,
)
    requires
        is_page(c, pc, limit, offset, ex, now, r),
    ensures
        r.filtered_total == r.total - excluded_count(c, pc.commit_indices@, ex),
{
    lemma_filter_accounts(c, pc.commit_indices@, ex);
}

/// Pagination: more remains exactly when the filtered total exceeds
/// `offset + limit`; an offset at or past the filtered total gives an empty
/// page with nothing more.
pub proof fn lemma_pagination(
    c: Seq<CachedCommit>,
    pc: PathCache,
    limit: usize,
    offset: usize,
    ex: Seq<String>,
    now: i64,
    r: CommitListResponse,
)
    requires
        is_page(c, pc, limit, offset, ex, now, r),
    ensures
        r.has_more == (r.filtered_total > offset + limit),
        r.has_more == (offset + r.commits.len() < r.filtered_total),
        offset >= r.filtered_total ==> r.commits.len() == 0 && !r.has_more,
{
}

impl CachedCommit {
    /// The metadata of one revision as the store gives it: the message is
    /// trimmed (empty where there is none), a missing name reads "Unknown"
    /// and a missing email is empty.
    pub fn from_revision(
        oid: String,
        message: Option<&str>,
        author_name: Option<&str>,
        author_email: Option<&str>,
        committer_name: Option<&str>,
        committer_email: Option<&str>,
        timestamp: i64,
        parents: Vec<String>,
    ) -> (c: CachedCommit)
        ensures
            c.oid == oid,
            c.message@ == trim_of(text_or(message, ""@)),
            c.author_name@ == text_or(author_name, "Unknown"@),
            c.author_email@ == text_or(author_email, ""@),
            c.committer_name@ == text_or(committer_name, "Unknown"@),
            c.committer_email@ == text_or(committer_email, ""@),
            c.timestamp == timestamp,
            c.parent_count == parents.len(),
            c.parents == parents,
    {
        let text = text_or_else(message, "");
        let parent_count = parents.len();
        CachedCommit {
            oid,
            message: trimmed(text.as_str()),
            author_name: text_or_else(author_name, "Unknown"),
            author_email: text_or_else(author_email, ""),
            committer_name: text_or_else(committer_name, "Unknown"),
            committer_email: text_or_else(committer_email, ""),
            timestamp,
            parent_count,
            parents,
        }
    }
}

} // verus!
