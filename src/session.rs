//! One served repository and its cache, and the decisions of a history
//! request: rebuild the snapshot, index the path, or answer.

use vstd::prelude::*;
use crate::cache::{excluded_list, is_page, touching, CommitCache};
use crate::models::CommitListResponse;

verus! {

/// The repository being served and its cache, if one was built. Switching
/// repositories starts a new session.
pub struct RepoSession {
    pub path: String,
    pub cache: Option<CommitCache>,
}

/// What a history request needs next.
pub enum HistoryStep {
    /// Walk the history from the current head and install a new cache.
    Rebuild,
    /// Report, for each revision of the snapshot, whether it touched the path.
    IndexPath,
    /// The page asked for.
    Answer(CommitListResponse),
}

/// The session's snapshot is current for `head`.
pub open spec fn current(s: RepoSession, head: Option<&String>) -> bool {
    s.cache matches Some(c) && head matches Some(h) && h@ == c.head_oid@
}

impl RepoSession {
    pub open spec fn wf(&self) -> bool {
        self.cache matches Some(c) ==> c.wf()
    }

    /// A session for the repository at `path`, with no cache yet.
    pub fn open(path: String) -> (s: RepoSession)
        ensures
            s.path == path,
            s.cache is None,
            s.wf(),
    {
        RepoSession { path, cache: None }
    }

    /// The staleness guard: a rebuild is needed where there is no cache, the
    /// head does not resolve, or it moved since the snapshot.
    pub fn needs_rebuild(&self, head: Option<&String>) -> (r: bool)
        ensures
            r == !current(*self, head),
    {
        match &self.cache {
            None => true,
            Some(c) => !c.is_valid(head),
        }
    }

    /// Replaces the cache by a new one, discarding every index of the old.
    pub fn install(&mut self, cache: CommitCache)
        requires
            cache.wf(),
        ensures
            final(self).path == old(self).path,
            final(self).cache == Some(cache),
            final(self).wf(),
    {
        self.cache = Some(cache);
    }

    /// Records the index of `path` in the current cache.
    pub fn add_path_index(&mut self, path: &str, touches: &Vec<bool>)
        requires
            old(self).wf(),
            old(self).cache matches Some(c) && touches.len() == c.all_commits.len(),
        ensures
            final(self).wf(),
            final(self).path == old(self).path,
            final(self).cache matches Some(c) && c.indexed(path@),
            old(self).cache->0.indexed(path@) ==> final(self).cache == old(self).cache,
            !old(self).cache->0.indexed(path@) ==> {
                let o = old(self).cache->0;
                let c = final(self).cache->0;
                &&& final(self).cache is Some
                &&& c.all_commits == o.all_commits
                &&& c.head_oid == o.head_oid
                &&& c.created_at == o.created_at
                &&& c.path_cache@.drop_last() == o.path_cache@
                &&& c.path_cache@.last().0@ == path@
                &&& c.path_cache@.last().1.commit_indices@ == touching(touches@)
                &&& c.index_of(path@).commit_indices@ == touching(touches@)
            },
    {
        let mut taken: Option<CommitCache> = None;
        core::mem::swap(&mut taken, &mut self.cache);
        match taken {
            Some(mut c) => {
                c.add_path_index(path, touches);
                self.cache = Some(c);
            },
            None => {},
        }
    }

    /// The next step of a history request for `path` at the current head
    /// `head` (`None` where the head does not resolve): a page is answered
    /// only from a current snapshot that has the path indexed.
    pub fn list_revisions(
        &self,
        head: Option<&String>,
        path: &str,
        limit: usize,
        offset: usize,
        exclude_authors: Option<&[String]>,
        now: i64,
    ) -> (r: HistoryStep)
        requires
            self.wf(),
        ensures
            r is Rebuild <==> !current(*self, head),
            r is IndexPath <==> current(*self, head) && !self.cache->0.indexed(path@),
            r matches HistoryStep::Answer(page) ==> current(*self, head) && self.cache->0.indexed(
                path@,
            ) && is_page(
                self.cache->0.all_commits@,
                self.cache->0.index_of(path@),
                limit,
                offset,
                excluded_list(exclude_authors),
                now,
                page,
            ),
    {
        if self.needs_rebuild(head) {
            return HistoryStep::Rebuild;
        }
        match &self.cache {
            Some(c) => match c.get_commits_for_path(path, limit, offset, exclude_authors, now) {
                Some(page) => HistoryStep::Answer(page),
                None => HistoryStep::IndexPath,
            },
            None => HistoryStep::Rebuild,
        }
    }
}

/// After a switch of repository, whatever the head, the first history
/// request rebuilds: nothing captured from the previous repository is
/// answered.
pub proof fn lemma_switch_rebuilds(path: String, head: Option<&String>)
    ensures
        !current(RepoSession { path, cache: None }, head),
{
}

} // verus!
