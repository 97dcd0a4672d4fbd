//! Per-author counting: how many records each author has, under the name
//! first seen for them, and the latest time among their records.

use vstd::prelude::*;
use crate::models::{ContributorInfo, FileAuthorInfo};
use crate::ordering::{descending_order, ranks_desc};

verus! {

/// One author's running count.
pub struct Tally {
    pub email: Seq<char>,
    pub name: Seq<char>,
    pub count: nat,
    pub latest: int,
}

/// One record to count: the author's email, their name, and a time.
pub type Touch = (Seq<char>, Seq<char>, int);

/// The first position at or after `from` whose email is `e`, or the length.
pub open spec fn find_email(t: Seq<Tally>, e: Seq<char>, from: int) -> int
    decreases t.len() - from,
{
    if from < 0 || from >= t.len() {
        t.len() as int
    } else if t[from].email == e {
        from
    } else {
        find_email(t, e, from + 1)
    }
}

/// Counting one more record.
pub open spec fn step(t: Seq<Tally>, x: Touch) -> Seq<Tally> {
    let p = find_email(t, x.0, 0);
    if p < t.len() {
        let old = t[p];
        t.update(
            p,
            Tally {
                email: old.email,
                name: old.name,
                count: old.count + 1,
                latest: if x.2 > old.latest { x.2 } else { old.latest },
            },
        )
    } else {
        t.push(Tally { email: x.0, name: x.1, count: 1, latest: x.2 })
    }
}

/// The authors of `xs`, in the order of their first record.
pub open spec fn tally(xs: Seq<Touch>) -> Seq<Tally>
    decreases xs.len(),
{
    if xs.len() == 0 {
        Seq::empty()
    } else {
        step(tally(xs.drop_last()), xs.last())
    }
}

pub open spec fn tally_of(v: Seq<FileAuthorInfo>) -> Seq<Tally> {
    v.map_values(
        |a: FileAuthorInfo|
            Tally {
                email: a.email@,
                name: a.name@,
                count: a.commit_count as nat,
                latest: a.last_commit_timestamp as int,
            },
    )
}

/// Ranking keys: the count, then (where `by_recency`) the latest time.
pub open spec fn tally_keys(t: Seq<Tally>, by_recency: bool) -> Seq<(usize, i64)> {
    t.map_values(|a: Tally| (a.count as usize, if by_recency { a.latest as i64 } else { 0i64 }))
}

/// `out` is `t` ranked by count, most first, ties in order of first record.
pub open spec fn ranked_contributors(t: Seq<Tally>, out: Seq<ContributorInfo>) -> bool {
    exists|perm: Seq<usize>|
        #![trigger ranks_desc(tally_keys(t, false), perm)]
        ranks_desc(tally_keys(t, false), perm) && out.len() == t.len() && forall|k: int|
            0 <= k < out.len() ==> {
                let a = #[trigger] t[perm[k] as int];
                out[k].email@ == a.email && out[k].name@ == a.name && out[k].commit_count
                    == a.count
            }
}

/// `out` is `t` ranked by count, then by latest time, most first.
pub open spec fn ranked_authors(t: Seq<Tally>, out: Seq<FileAuthorInfo>) -> bool {
    exists|perm: Seq<usize>|
        #![trigger ranks_desc(tally_keys(t, true), perm)]
        ranks_desc(tally_keys(t, true), perm) && tally_of(out) == perm.map_values(
            |i: usize| t[i as int],
        )
}

/// Every count is between one and the number of records, and every latest
/// time is the time of one of the records.
pub proof fn lemma_tally_bounds(xs: Seq<Touch>)
    ensures
        forall|k: int|
            0 <= k < tally(xs).len() ==> 1 <= #[trigger] tally(xs)[k].count <= xs.len(),
        forall|k: int|
            0 <= k < tally(xs).len() ==> exists|j: int|
                0 <= j < xs.len() && xs[j].2 == #[trigger] tally(xs)[k].latest,
        tally(xs).len() <= xs.len(),
    decreases xs.len(),
{
    if xs.len() > 0 {
        let pre = xs.drop_last();
        lemma_tally_bounds(pre);
        let t = tally(pre);
        let p = find_email(t, xs.last().0, 0);
        lemma_find_email_range(t, xs.last().0, 0);
        assert forall|k: int| 0 <= k < tally(xs).len() implies exists|j: int|
            0 <= j < xs.len() && xs[j].2 == #[trigger] tally(xs)[k].latest by {
            if k < t.len() && k != p {
                let j = choose|j: int| 0 <= j < pre.len() && pre[j].2 == t[k].latest;
                assert(xs[j] == pre[j]);
            } else if k == p && p < t.len() {
                if xs.last().2 > t[p].latest {
                    assert(xs[xs.len() - 1] == xs.last());
                } else {
                    let j = choose|j: int| 0 <= j < pre.len() && pre[j].2 == t[k].latest;
                    assert(xs[j] == pre[j]);
                }
            } else {
                assert(xs[xs.len() - 1] == xs.last());
            }
        }
    }
}

pub proof fn lemma_find_email_range(t: Seq<Tally>, e: Seq<char>, from: int)
    requires
        0 <= from,
    ensures
        from <= find_email(t, e, from) <= t.len() || find_email(t, e, from) == t.len(),
        find_email(t, e, from) < t.len() ==> t[find_email(t, e, from)].email == e,
        find_email(t, e, from) == t.len() ==> forall|k: int| from <= k < t.len() ==> t[k].email != e,
    decreases t.len() - from,
{
    if from < t.len() && t[from].email != e {
        lemma_find_email_range(t, e, from + 1);
    }
}

/// The position of `email` in `v`, or the length of `v`.
fn find_author(v: &Vec<FileAuthorInfo>, email: &String) -> (p: usize)
    ensures
        p == find_email(tally_of(v@), email@, 0),
{
    let mut j: usize = 0;
    while j < v.len()
        invariant
            j <= v.len(),
            find_email(tally_of(v@), email@, 0) == find_email(tally_of(v@), email@, j as int),
        decreases v.len() - j,
    {
        if v[j].email == *email {
            return j;
        }
        j = j + 1;
    }
    j
}

/// Counts one more record of an author.
pub fn add_touch(v: &mut Vec<FileAuthorInfo>, email: &String, name: &String, time: i64)
    requires
        forall|k: int| 0 <= k < old(v).len() ==> old(v)[k].commit_count < usize::MAX,
    ensures
        tally_of(final(v)@) == step(tally_of(old(v)@), (email@, name@, time as int)),
{
    let p = find_author(v, email);
    proof { lemma_find_email_range(tally_of(v@), email@, 0); }
    if p < v.len() {
        let latest = if time > v[p].last_commit_timestamp {
            time
        } else {
            v[p].last_commit_timestamp
        };
        let updated = FileAuthorInfo {
            email: v[p].email.clone(),
            name: v[p].name.clone(),
            commit_count: v[p].commit_count + 1,
            last_commit_timestamp: latest,
        };
        v.set(p, updated);
        assert(tally_of(v@) =~= step(tally_of(old(v)@), (email@, name@, time as int)));
    } else {
        v.push(
            FileAuthorInfo {
                email: email.clone(),
                name: name.clone(),
                commit_count: 1,
                last_commit_timestamp: time,
            },
        );
        assert(tally_of(v@) =~= step(tally_of(old(v)@), (email@, name@, time as int)));
    }
}

fn ranking_keys(v: &Vec<FileAuthorInfo>, by_recency: bool) -> (keys: Vec<(usize, i64)>)
    ensures
        keys@ == tally_keys(tally_of(v@), by_recency),
{
    let mut keys: Vec<(usize, i64)> = Vec::new();
    let mut i: usize = 0;
    while i < v.len()
        invariant
            i <= v.len(),
            keys@ == tally_keys(tally_of(v@.subrange(0, i as int)), by_recency),
        decreases v.len() - i,
    {
        keys.push((v[i].commit_count, if by_recency { v[i].last_commit_timestamp } else { 0 }));
        i = i + 1;
        assert(v@.subrange(0, i as int).drop_last() =~= v@.subrange(0, i - 1));
        assert(keys@ =~= tally_keys(tally_of(v@.subrange(0, i as int)), by_recency));
    }
    assert(v@.subrange(0, v.len() as int) =~= v@);
    keys
}

/// The counted authors as contributors, most records first.
pub fn rank_contributors(v: &Vec<FileAuthorInfo>) -> (out: Vec<ContributorInfo>)
    ensures
        ranked_contributors(tally_of(v@), out@),
{
    let keys = ranking_keys(v, false);
    let perm = descending_order(&keys);
    let mut out: Vec<ContributorInfo> = Vec::new();
    let mut k: usize = 0;
    while k < perm.len()
        invariant
            ranks_desc(keys@, perm@),
            keys@ == tally_keys(tally_of(v@), false),
            k <= perm.len(),
            out.len() == k,
            forall|m: int|
                0 <= m < k ==> {
                    let a = #[trigger] tally_of(v@)[perm[m] as int];
                    out[m].email@ == a.email && out[m].name@ == a.name && out[m].commit_count
                        == a.count
                },
        decreases perm.len() - k,
    {
        let a = &v[perm[k]];
        out.push(
            ContributorInfo {
                name: a.name.clone(),
                email: a.email.clone(),
                commit_count: a.commit_count,
            },
        );
        k = k + 1;
    }
    out
}

/// The counted authors, most records first, then the most recent first.
pub fn rank_authors(v: &Vec<FileAuthorInfo>) -> (out: Vec<FileAuthorInfo>)
    ensures
        ranked_authors(tally_of(v@), out@),
{
    let keys = ranking_keys(v, true);
    let perm = descending_order(&keys);
    let mut out: Vec<FileAuthorInfo> = Vec::new();
    let mut k: usize = 0;
    while k < perm.len()
        invariant
            ranks_desc(keys@, perm@),
            keys@ == tally_keys(tally_of(v@), true),
            k <= perm.len(),
            out.len() == k,
            tally_of(out@) == perm@.subrange(0, k as int).map_values(|i: usize| tally_of(v@)[i as int]),
        decreases perm.len() - k,
    {
        let a = &v[perm[k]];
        let ghost before = out@;
        out.push(
            FileAuthorInfo {
                email: a.email.clone(),
                name: a.name.clone(),
                commit_count: a.commit_count,
                last_commit_timestamp: a.last_commit_timestamp,
            },
        );
        proof {
            let f = |i: usize| tally_of(v@)[i as int];
            let prev = perm@.subrange(0, k as int).map_values(f);
            let next = perm@.subrange(0, k + 1).map_values(f);
            assert(tally_of(before) == prev);
            assert forall|m: int| 0 <= m < k + 1 implies tally_of(out@)[m] == next[m] by {
                if m < k {
                    assert(out@[m] == before[m]);
                    assert(tally_of(before)[m] == prev[m]);
                }
            }
            assert(tally_of(out@) =~= next);
        }
        k = k + 1;
    }
    assert(perm@.subrange(0, perm.len() as int) =~= perm@);
    out
}

/// An author of one revision.
pub struct AuthorRecord {
    pub email: String,
    pub name: String,
}

pub open spec fn records_touches(v: Seq<AuthorRecord>) -> Seq<Touch> {
    v.map_values(|a: AuthorRecord| (a.email@, a.name@, 0int))
}

/// The contributors of a list of revisions: each author once, under the
/// name of their first revision, most revisions first.
pub fn contributors_of(records: &Vec<AuthorRecord>) -> (out: Vec<ContributorInfo>)
    ensures
        ranked_contributors(tally(records_touches(records@)), out@),
{
    let mut v: Vec<FileAuthorInfo> = Vec::new();
    let mut i: usize = 0;
    while i < records.len()
        invariant
            i <= records.len(),
            tally_of(v@) == tally(records_touches(records@.subrange(0, i as int))),
        decreases records.len() - i,
    {
        let ghost xs = records_touches(records@.subrange(0, i as int));
        proof {
            lemma_tally_bounds(xs);
            assert forall|k: int| 0 <= k < v.len() implies v[k].commit_count < usize::MAX by {
                assert(tally_of(v@)[k].count == v[k].commit_count);
            }
        }
        add_touch(&mut v, &records[i].email, &records[i].name, 0);
        proof {
            let ys = records_touches(records@.subrange(0, i + 1));
            assert(ys.drop_last() =~= xs);
        }
        i = i + 1;
    }
    assert(records@.subrange(0, records.len() as int) =~= records@);
    rank_contributors(&v)
}

} // verus!
