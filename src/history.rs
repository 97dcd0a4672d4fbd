//! Which revision last touched each entry of a directory listing.
//!
//! The caller walks the history newest first and reports, revision by
//! revision, the paths that its diff against its first parent changed. Each
//! target is credited to the first reported revision that changed it, the
//! target inside a changed directory, or a changed path inside it.

use vstd::prelude::*;
use crate::models::CommitInfo;
use crate::ordering::text_views;
use crate::repository::copy_info;
use crate::text::joined;

verus! {

pub open spec fn starts_with(s: Seq<char>, p: Seq<char>) -> bool {
    p.len() <= s.len() && s.subrange(0, p.len() as int) == p
}

/// Relies on str::starts_with: whether `p` is a prefix of `s`.
#[verifier::external_body]
fn text_starts_with(s: &str, p: &str) -> (r: bool)
    ensures
        r == starts_with(s@, p@),
{
    s.starts_with(p)
}

/// A change to `changed` touches `target`: the same path, or one of them
/// lies inside the other.
pub open spec fn path_relates(changed: Seq<char>, target: Seq<char>) -> bool {
    changed == target || starts_with(changed, target + "/"@) || starts_with(target, changed + "/"@)
}

pub fn path_touches(changed: &str, target: &str) -> (r: bool)
    ensures
        r == path_relates(changed@, target@),
{
    let c = changed.to_owned();
    let t = target.to_owned();
    if c == t {
        return true;
    }
    let t_dir = joined(target, "/");
    let c_dir = joined(changed, "/");
    text_starts_with(changed, t_dir.as_str()) || text_starts_with(target, c_dir.as_str())
}

/// Whether one of `changed` touches `target`.
pub open spec fn any_relates(changed: Seq<Seq<char>>, target: Seq<char>) -> bool {
    exists|k: int| 0 <= k < changed.len() && path_relates(#[trigger] changed[k], target)
}

/// The first reported revision that touched `target`.
pub open spec fn first_touch(obs: Seq<(Seq<Seq<char>>, CommitInfo)>, target: Seq<char>) -> Option<CommitInfo>
    decreases obs.len(),
{
    if obs.len() == 0 {
        None
    } else {
        let pre = first_touch(obs.drop_last(), target);
        if pre is Some {
            pre
        } else if any_relates(obs.last().0, target) {
            Some(obs.last().1)
        } else {
            None
        }
    }
}

/// The search for the last revision of each target path.
pub struct LastCommitSearch {
    pub targets: Vec<String>,
    pub found: Vec<Option<CommitInfo>>,
    pub seen: Ghost<Seq<(Seq<Seq<char>>, CommitInfo)>>,
}

impl LastCommitSearch {
    pub open spec fn wf(&self) -> bool {
        &&& self.found.len() == self.targets.len()
        &&& forall|t: int|
            0 <= t < self.targets.len() ==> #[trigger] self.found[t] == first_touch(
                self.seen@,
                self.targets[t]@,
            )
    }

    /// A search for `targets` before any revision is reported.
    pub fn new(targets: Vec<String>) -> (s: LastCommitSearch)
        ensures
            s.wf(),
            s.targets == targets,
            s.seen@ == Seq::<(Seq<Seq<char>>, CommitInfo)>::empty(),
    {
        let mut found: Vec<Option<CommitInfo>> = Vec::new();
        let mut i: usize = 0;
        while i < targets.len()
            invariant
                i <= targets.len(),
                found.len() == i,
                forall|k: int| 0 <= k < i ==> found[k] is None,
            decreases targets.len() - i,
        {
            found.push(None);
            i = i + 1;
        }
        LastCommitSearch { targets, found, seen: Ghost(Seq::empty()) }
    }

    /// Whether every target has its revision, so that the walk can stop.
    pub fn is_done(&self) -> (r: bool)
        requires
            self.wf(),
        ensures
            r == forall|t: int| 0 <= t < self.targets.len() ==> self.found[t] is Some,
    {
        let mut i: usize = 0;
        while i < self.found.len()
            invariant
                i <= self.found.len(),
                self.found.len() == self.targets.len(),
                forall|t: int| 0 <= t < i ==> self.found[t] is Some,
            decreases self.found.len() - i,
        {
            if self.found[i].is_none() {
                return false;
            }
            i = i + 1;
        }
        true
    }

    /// Reports the next revision of the walk and the paths it changed.
    pub fn observe(&mut self, changed: &Vec<String>, info: &CommitInfo)
        requires
            old(self).wf(),
        ensures
            final(self).wf(),
            final(self).targets == old(self).targets,
            final(self).seen@ == old(self).seen@.push((text_views(changed@), *info)),
    {
        let ghost obs = self.seen@.push((text_views(changed@), *info));
        let mut t: usize = 0;
        while t < self.targets.len()
            invariant
                self.found.len() == self.targets.len(),
                self.targets == old(self).targets,
                self.seen == old(self).seen,
                obs == old(self).seen@.push((text_views(changed@), *info)),
                t <= self.targets.len(),
                forall|k: int| 0 <= k < t ==> #[trigger] self.found[k] == first_touch(obs, self.targets[k]@),
                forall|k: int|
                    t <= k < self.targets.len() ==> #[trigger] self.found[k] == first_touch(
                        self.seen@,
                        self.targets[k]@,
                    ),
            decreases self.targets.len() - t,
        {
            assert(obs.drop_last() =~= self.seen@);
            if self.found[t].is_none() {
                let mut hit = false;
                let mut c: usize = 0;
                while c < changed.len() && !hit
                    invariant
                        c <= changed.len(),
                        t < self.targets.len(),
                        hit ==> any_relates(text_views(changed@), self.targets[t as int]@),
                        !hit ==> forall|m: int| 0 <= m < c ==> !path_relates(changed[m]@, self.targets[t as int]@),
                    decreases changed.len() - c,
                {
                    if path_touches(changed[c].as_str(), self.targets[t].as_str()) {
                        assert(text_views(changed@)[c as int] == changed[c as int]@);
                        hit = true;
                    }
                    c = c + 1;
                }
                proof {
                    if !hit {
                        assert(!any_relates(text_views(changed@), self.targets[t as int]@)) by {
                            if any_relates(text_views(changed@), self.targets[t as int]@) {
                                let m = choose|m: int| 0 <= m < changed.len() && path_relates(
                                    #[trigger] text_views(changed@)[m],
                                    self.targets[t as int]@,
                                );
                                assert(text_views(changed@)[m] == changed[m]@);
                            }
                        }
                    }
                }
                if hit {
                    self.found.set(t, Some(info.duplicate()));
                }
            }
            t = t + 1;
        }
        self.seen = Ghost(obs);
    }

    /// Each target with its revision, the head's where no reported revision
    /// touched it.
    pub fn finish(&self, head: &CommitInfo) -> (r: Vec<(String, CommitInfo)>)
        requires
            self.wf(),
        ensures
            r.len() == self.targets.len(),
            forall|t: int|
                0 <= t < r.len() ==> (#[trigger] r[t]).0 == self.targets[t] && r[t].1 == match first_touch(
                    self.seen@,
                    self.targets[t]@,
                ) {
                    Some(c) => c,
                    None => *head,
                },
    {
        let mut r: Vec<(String, CommitInfo)> = Vec::new();
        let mut t: usize = 0;
        while t < self.targets.len()
            invariant
                self.wf(),
                t <= self.targets.len(),
                r.len() == t,
                forall|k: int|
                    0 <= k < t ==> (#[trigger] r[k]).0 == self.targets[k] && r[k].1 == match first_touch(
                        self.seen@,
                        self.targets[k]@,
                    ) {
                        Some(c) => c,
                        None => *head,
                    },
            decreases self.targets.len() - t,
        {
            let info = match copy_info(&self.found[t]) {
                Some(c) => c,
                None => head.duplicate(),
            };
            r.push((self.targets[t].clone(), info));
            t = t + 1;
        }
        r
    }
}

} // verus!
