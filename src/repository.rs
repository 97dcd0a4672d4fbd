//! Repository-level rules: short revision descriptions, the order of
//! branches, and when local changes block a checkout.

use vstd::prelude::*;
use crate::error::AppError;
use crate::models::{BranchInfo, CommitInfo, WorkingTreeStatus};
use crate::ordering::{ascending_text_order, flag_first_order, flagged_first, ranks_text_asc, text_views};
use crate::relative_time::{age_text, format_relative_time};
use crate::text::{decimal_text, digits_of, joined};

verus! {

/// A character of Unicode's White_Space property.
pub open spec fn is_white_space(c: char) -> bool {
    let u = c as int;
    (0x9 <= u <= 0xD) || u == 0x20 || u == 0x85 || u == 0xA0 || u == 0x1680 || (0x2000 <= u
        <= 0x200A) || u == 0x2028 || u == 0x2029 || u == 0x202F || u == 0x205F || u == 0x3000
}

/// `s` without its leading white space.
pub open spec fn trim_start_of(s: Seq<char>) -> Seq<char>
    decreases s.len(),
{
    if s.len() > 0 && is_white_space(s[0]) {
        trim_start_of(s.drop_first())
    } else {
        s
    }
}

/// `s` without its trailing white space.
pub open spec fn trim_end_of(s: Seq<char>) -> Seq<char>
    decreases s.len(),
{
    if s.len() > 0 && is_white_space(s.last()) {
        trim_end_of(s.drop_last())
    } else {
        s
    }
}

/// `s` without leading and trailing white space.
pub open spec fn trim_of(s: Seq<char>) -> Seq<char> {
    trim_end_of(trim_start_of(s))
}

/// Relies on str::trim: the text without leading and trailing characters of
/// Unicode's White_Space property.
#[verifier::external_body]
pub(crate) fn trimmed(s: &str) -> (r: String)
    ensures
        r@ == trim_of(s@),
{
    s.trim().to_owned()
}

pub uninterp spec fn lower_text_of(s: Seq<char>) -> Seq<char>;

/// Relies on str::to_lowercase: its result depends on the text alone.
#[verifier::external_body]
pub(crate) fn lowered(s: &str) -> (r: String)
    ensures
        r@ == lower_text_of(s@),
{
    s.to_lowercase()
}

/// A text, or a fallback where there is none.
pub open spec fn text_or(t: Option<&str>, fallback: Seq<char>) -> Seq<char> {
    match t {
        Some(s) => s@,
        None => fallback,
    }
}

pub(crate) fn text_or_else(t: Option<&str>, fallback: &str) -> (r: String)
    ensures
        r@ == text_or(t, fallback@),
{
    match t {
        Some(s) => s.to_owned(),
        None => fallback.to_owned(),
    }
}

/// A short description of a revision: its message trimmed (empty where it
/// has none), its author's name ("Unknown" where it has none), its time and
/// its age as of `now`.
pub fn commit_to_info(oid: String, message: Option<&str>, author: Option<&str>, timestamp: i64, now: i64) -> (c: CommitInfo)
    ensures
        c.oid == oid,
        c.message@ == trim_of(text_or(message, ""@)),
        c.author@ == text_or(author, "Unknown"@),
        c.timestamp == timestamp,
        c.relative_time@ == age_text(timestamp, now),
{
    let text = text_or_else(message, "");
    CommitInfo {
        oid,
        message: trimmed(text.as_str()),
        author: text_or_else(author, "Unknown"),
        timestamp,
        relative_time: format_relative_time(timestamp, now),
    }
}

impl CommitInfo {
    /// A copy of this description.
    pub fn duplicate(&self) -> (r: CommitInfo)
        ensures
            r == *self,
    {
        CommitInfo {
            oid: self.oid.clone(),
            message: self.message.clone(),
            author: self.author.clone(),
            timestamp: self.timestamp,
            relative_time: self.relative_time.clone(),
        }
    }
}

pub(crate) fn copy_info(c: &Option<CommitInfo>) -> (r: Option<CommitInfo>)
    ensures
        r == *c,
{
    match c {
        Some(i) => Some(i.duplicate()),
        None => None,
    }
}

impl BranchInfo {
    /// A copy of this branch record.
    pub fn duplicate(&self) -> (r: BranchInfo)
        ensures
            r == *self,
    {
        BranchInfo {
            name: self.name.clone(),
            is_current: self.is_current,
            is_remote: self.is_remote,
            last_commit: copy_info(&self.last_commit),
        }
    }
}

/// Whether the working copy has changes, from the number of changed files
/// (`None` where there is no working copy or no head).
pub fn working_tree_status(files_changed: Option<usize>) -> (s: WorkingTreeStatus)
    ensures
        s.files_changed == match files_changed {
            Some(n) => n,
            None => 0,
        },
        s.has_changes == (s.files_changed > 0),
{
    let n = match files_changed {
        Some(n) => n,
        None => 0,
    };
    WorkingTreeStatus { has_changes: n > 0, files_changed: n }
}

pub open spec fn branch_keys(v: Seq<BranchInfo>) -> Seq<Seq<char>> {
    v.map_values(|b: BranchInfo| lower_text_of(b.name@))
}

pub open spec fn current_flags(v: Seq<BranchInfo>) -> Seq<bool> {
    v.map_values(|b: BranchInfo| b.is_current)
}

fn name_keys(v: &Vec<BranchInfo>) -> (keys: Vec<String>)
    ensures
        text_views(keys@) == branch_keys(v@),
{
    let mut keys: Vec<String> = Vec::new();
    let mut i: usize = 0;
    while i < v.len()
        invariant
            i <= v.len(),
            keys.len() == i,
            forall|k: int| 0 <= k < i ==> (#[trigger] keys[k])@ == lower_text_of(v[k].name@),
        decreases v.len() - i,
    {
        keys.push(lowered(v[i].name.as_str()));
        i = i + 1;
    }
    assert(text_views(keys@) =~= branch_keys(v@));
    keys
}

fn pick_branches(v: &Vec<BranchInfo>, order: &Vec<usize>, out: &mut Vec<BranchInfo>)
    requires
        forall|k: int| 0 <= k < order.len() ==> order[k] < v.len(),
    ensures
        final(out)@ == old(out)@ + order@.map_values(|i: usize| v@[i as int]),
{
    let ghost start = out@;
    let mut k: usize = 0;
    while k < order.len()
        invariant
            k <= order.len(),
            forall|m: int| 0 <= m < order.len() ==> order[m] < v.len(),
            out@ == start + order@.subrange(0, k as int).map_values(|i: usize| v@[i as int]),
        decreases order.len() - k,
    {
        out.push(v[order[k]].duplicate());
        k = k + 1;
        assert(out@ =~= start + order@.subrange(0, k as int).map_values(|i: usize| v@[i as int]));
    }
    assert(order@.subrange(0, order.len() as int) =~= order@);
}

pub proof fn lemma_filter_within(perm: Seq<usize>, n: nat, pred: spec_fn(usize) -> bool)
    requires
        forall|k: int| 0 <= k < perm.len() ==> perm[k] < n,
    ensures
        forall|k: int| 0 <= k < perm.filter(pred).len() ==> perm.filter(pred)[k] < n,
    decreases perm.len(),
{
    reveal(Seq::filter);
    if perm.len() > 0 {
        lemma_filter_within(perm.drop_last(), n, pred);
        let sub = perm.drop_last().filter(pred);
        assert(perm.last() == perm[perm.len() - 1]);
        if pred(perm.last()) {
            assert(perm.filter(pred) == sub.push(perm.last()));
        } else {
            assert(perm.filter(pred) == sub);
        }
    }
}

/// The branch list: local branches with the current one first, then
/// remote ones, each group by lower-cased name, ties in the given order.
pub fn order_branches(local: &Vec<BranchInfo>, remote: &Vec<BranchInfo>) -> (out: Vec<BranchInfo>)
    ensures
        exists|pl: Seq<usize>, pr: Seq<usize>|
            #![trigger ranks_text_asc(branch_keys(local@), pl), ranks_text_asc(branch_keys(remote@), pr)]
            ranks_text_asc(branch_keys(local@), pl) && ranks_text_asc(branch_keys(remote@), pr) && out@
                == flagged_first(pl, current_flags(local@)).map_values(|i: usize| local@[i as int])
                + pr.map_values(|i: usize| remote@[i as int]),
{
    let lkeys = name_keys(local);
    let lperm = ascending_text_order(&lkeys);
    let mut flags: Vec<bool> = Vec::new();
    let mut i: usize = 0;
    while i < local.len()
        invariant
            i <= local.len(),
            flags@ == current_flags(local@.subrange(0, i as int)),
        decreases local.len() - i,
    {
        flags.push(local[i].is_current);
        i = i + 1;
        assert(flags@ =~= current_flags(local@.subrange(0, i as int)));
    }
    assert(local@.subrange(0, local.len() as int) =~= local@);
    let lorder = flag_first_order(&lperm, &flags);
    proof {
        let f1 = |j: usize| flags@[j as int];
        let f2 = |j: usize| !flags@[j as int];
        lemma_filter_within(lperm@, local.len() as nat, f1);
        lemma_filter_within(lperm@, local.len() as nat, f2);
        assert forall|k: int| 0 <= k < lorder.len() implies lorder[k] < local.len() by {
            let a = lperm@.filter(f1);
            if k >= a.len() {
                assert(lorder[k] == lperm@.filter(f2)[k - a.len()]);
            }
        }
    }
    let rkeys = name_keys(remote);
    let rorder = ascending_text_order(&rkeys);
    let mut out: Vec<BranchInfo> = Vec::new();
    pick_branches(local, &lorder, &mut out);
    pick_branches(remote, &rorder, &mut out);
    assert(out@ =~= flagged_first(lperm@, current_flags(local@)).map_values(|i: usize| local@[i as int])
        + rorder@.map_values(|i: usize| remote@[i as int]));
    out
}

/// The status bits of a change that blocks a checkout: anything staged, and
/// unstaged modifications, deletions, renames and type changes of tracked
/// files. New untracked files and ignored ones do not block.
pub const BLOCKING_STATUS: u32 = 0xF1F;

/// One entry of the working copy's status: its status bits and its path.
pub struct StatusEntry {
    pub bits: u32,
    pub path: Option<String>,
}

/// The paths of the entries whose changes block a checkout.
pub open spec fn blocking_paths(es: Seq<StatusEntry>) -> Seq<Seq<char>>
    decreases es.len(),
{
    if es.len() == 0 {
        Seq::empty()
    } else {
        let pre = blocking_paths(es.drop_last());
        let e = es.last();
        if e.bits & BLOCKING_STATUS != 0 && e.path is Some {
            pre.push(e.path->0@)
        } else {
            pre
        }
    }
}

/// The paths joined with ", ".
pub open spec fn comma_list(ps: Seq<Seq<char>>) -> Seq<char>
    decreases ps.len(),
{
    if ps.len() == 0 {
        Seq::empty()
    } else if ps.len() == 1 {
        ps[0]
    } else {
        comma_list(ps.drop_last()) + ", "@ + ps.last()
    }
}

/// At most the first five of `ps`.
pub open spec fn first_five(ps: Seq<Seq<char>>) -> Seq<Seq<char>> {
    if ps.len() <= 5 {
        ps
    } else {
        ps.subrange(0, 5)
    }
}

/// The message of a blocked checkout: up to five blocking paths, and how
/// many status entries there are beyond five.
pub open spec fn conflict_message(es: Seq<StatusEntry>) -> Seq<char> {
    "Cannot switch branches: you have uncommitted changes in: "@ + comma_list(
        first_five(blocking_paths(es)),
    ) + if es.len() > 5 {
        " and "@ + digits_of((es.len() - 5) as nat) + " more"@
    } else {
        ""@
    }
}

pub proof fn lemma_blocking_prefix(es: Seq<StatusEntry>, i: int)
    requires
        0 <= i <= es.len(),
    ensures
        blocking_paths(es.subrange(0, i)).len() <= blocking_paths(es).len(),
        blocking_paths(es.subrange(0, i)) == blocking_paths(es).subrange(0, blocking_paths(es.subrange(0, i)).len() as int),
    decreases es.len() - i,
{
    if i < es.len() {
        lemma_blocking_prefix(es, i + 1);
        assert(es.subrange(0, i + 1).drop_last() =~= es.subrange(0, i));
        let a = blocking_paths(es.subrange(0, i));
        let b = blocking_paths(es.subrange(0, i + 1));
        assert(a =~= b.subrange(0, a.len() as int));
        assert(a =~= blocking_paths(es).subrange(0, a.len() as int));
    } else {
        assert(es.subrange(0, i) =~= es);
        assert(blocking_paths(es) =~= blocking_paths(es).subrange(0, blocking_paths(es).len() as int));
    }
}

/// Whether local changes block a checkout, and the error that says so.
pub fn checkout_conflict(entries: &Vec<StatusEntry>) -> (r: Option<AppError>)
    ensures
        r is None <==> blocking_paths(entries@).len() == 0,
        r matches Some(e) ==> e matches AppError::CheckoutConflict(m) && m@ == conflict_message(
            entries@,
        ),
{
    let mut found: Vec<String> = Vec::new();
    let mut i: usize = 0;
    while i < entries.len() && found.len() < 5
        invariant
            i <= entries.len(),
            text_views(found@) == blocking_paths(entries@.subrange(0, i as int)),
            found.len() <= 5,
        decreases entries.len() - i,
    {
        let e = &entries[i];
        assert(entries@.subrange(0, i + 1).drop_last() =~= entries@.subrange(0, i as int));
        if e.bits & BLOCKING_STATUS != 0 {
            match &e.path {
                Some(p) => {
                    found.push(p.clone());
                },
                None => {},
            }
        }
        i = i + 1;
        assert(text_views(found@) =~= blocking_paths(entries@.subrange(0, i as int)));
    }
    proof {
        lemma_blocking_prefix(entries@, i as int);
        let all = blocking_paths(entries@);
        if found.len() < 5 {
            assert(entries@.subrange(0, i as int) =~= entries@);
        }
        assert(text_views(found@) == first_five(all));
        if found.len() == 0 && all.len() > 0 {
            assert(i == entries.len());
            assert(entries@.subrange(0, i as int) =~= entries@);
        }
    }
    if found.len() == 0 {
        return None;
    }
    let mut list = found[0].clone();
    let mut k: usize = 1;
    while k < found.len()
        invariant
            1 <= k <= found.len(),
            list@ == comma_list(text_views(found@).subrange(0, k as int)),
        decreases found.len() - k,
    {
        let with_sep = joined(list.as_str(), ", ");
        list = joined(with_sep.as_str(), found[k].as_str());
        proof {
            let s = text_views(found@).subrange(0, k + 1);
            assert(s.drop_last() =~= text_views(found@).subrange(0, k as int));
            reveal_strlit(", ");
        }
        k = k + 1;
    }
    assert(text_views(found@).subrange(0, 1) =~= seq![found[0]@]);
    assert(text_views(found@).subrange(0, found.len() as int) =~= text_views(found@));
    let head = joined("Cannot switch branches: you have uncommitted changes in: ", list.as_str());
    let more = if entries.len() > 5 {
        let count = decimal_text((entries.len() - 5) as u64);
        let part = joined(" and ", count.as_str());
        joined(part.as_str(), " more")
    } else {
        "".to_owned()
    };
    let message = joined(head.as_str(), more.as_str());
    Some(AppError::CheckoutConflict(message))
}

/// The page size of a history request that names none.
pub fn default_limit() -> (r: usize)
    ensures
        r == 50,
{
    50
}

/// Directory listings carry each entry's last revision unless told not to.
pub fn default_true() -> (r: bool)
    ensures
        r,
{
    true
}

} // verus!
