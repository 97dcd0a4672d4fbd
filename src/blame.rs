//! Per-line attribution: expanding the store's blame hunks into lines.

use vstd::prelude::*;
use crate::error::AppError;
use crate::models::{BlameLine, BlameResponse};
use crate::ordering::{apply_order, descending_order, ranks_desc};

verus! {

/// One blame hunk as the store reports it: the revision and author that
/// last changed a run of `line_count` lines starting at `start_line`.
pub struct BlameHunk {
    pub author_name: String,
    pub author_email: String,
    pub commit_oid: String,
    pub timestamp: i64,
    pub start_line: u32,
    pub line_count: u32,
}

/// The number of lines of `hunks`.
pub open spec fn hunk_line_total(hunks: Seq<BlameHunk>) -> nat
    decreases hunks.len(),
{
    if hunks.len() == 0 {
        0
    } else {
        hunk_line_total(hunks.drop_last()) + hunks.last().line_count as nat
    }
}

/// `l` is line `i` of the hunk `h`.
pub open spec fn line_of_hunk(l: BlameLine, h: BlameHunk, i: int) -> bool {
    &&& l.line_number as int == (h.start_line + i) % 0x1_0000_0000
    &&& l.author_name@ == h.author_name@
    &&& l.author_email@ == h.author_email@
    &&& l.commit_oid@ == h.commit_oid@
    &&& l.timestamp == h.timestamp
}

/// `lines` lists the lines of `hunks`, hunk by hunk.
pub open spec fn expands(hunks: Seq<BlameHunk>, lines: Seq<BlameLine>) -> bool
    decreases hunks.len(),
{
    if hunks.len() == 0 {
        lines.len() == 0
    } else {
        let h = hunks.last();
        let n = lines.len() - h.line_count;
        &&& n >= 0
        &&& expands(hunks.drop_last(), lines.subrange(0, n))
        &&& forall|i: int| 0 <= i < h.line_count ==> line_of_hunk(#[trigger] lines[n + i], h, i)
    }
}

pub open spec fn line_keys(lines: Seq<BlameLine>) -> Seq<(usize, i64)> {
    lines.map_values(|l: BlameLine| (0usize, (0 - l.line_number) as i64))
}

fn expand_hunk(h: &BlameHunk, lines: &mut Vec<BlameLine>)
    ensures
        final(lines).len() == old(lines).len() + h.line_count,
        final(lines)@.subrange(0, old(lines).len() as int) == old(lines)@,
        forall|i: int|
            0 <= i < h.line_count ==> line_of_hunk(#[trigger] final(lines)@[old(lines).len() + i], *h, i),
{
    let ghost start = lines@;
    let mut i: u32 = 0;
    while i < h.line_count
        invariant
            i <= h.line_count,
            lines.len() == start.len() + i,
            lines@.subrange(0, start.len() as int) == start,
            forall|k: int| 0 <= k < i ==> line_of_hunk(#[trigger] lines@[start.len() + k], *h, k),
        decreases h.line_count - i,
    {
        let sum: u64 = h.start_line as u64 + i as u64;
        let number: u32 = (sum & 0xFFFF_FFFF) as u32;
        assert(sum & 0xFFFF_FFFF == sum % 0x1_0000_0000) by (bit_vector);
        let ghost before = lines@;
        lines.push(
            BlameLine {
                line_number: number,
                author_name: h.author_name.clone(),
                author_email: h.author_email.clone(),
                commit_oid: h.commit_oid.clone(),
                timestamp: h.timestamp,
            },
        );
        proof {
            assert(lines@.subrange(0, start.len() as int) =~= before.subrange(0, start.len() as int));
            assert forall|k: int| 0 <= k < i + 1 implies line_of_hunk(#[trigger] lines@[start.len() + k], *h, k) by {
                if k < i {
                    assert(lines@[start.len() + k] == before[start.len() + k]);
                }
            }
        }
        i = i + 1;
    }
}

/// Whether the lines of `hunks` can be counted in a `usize`.
fn hunk_lines_fit(hunks: &Vec<BlameHunk>) -> (r: bool)
    ensures
        r == (hunk_line_total(hunks@) <= usize::MAX),
{
    let mut total: usize = 0;
    let mut i: usize = 0;
    while i < hunks.len()
        invariant
            i <= hunks.len(),
            total == hunk_line_total(hunks@.subrange(0, i as int)),
        decreases hunks.len() - i,
    {
        proof {
            assert(hunks@.subrange(0, i + 1).drop_last() =~= hunks@.subrange(0, i as int));
            assert(hunks@.subrange(0, i + 1).last() == hunks@[i as int]);
            lemma_line_total_prefix(hunks@, i + 1);
        }
        match total.checked_add(hunks[i].line_count as usize) {
            Some(t) => {
                total = t;
            },
            None => {
                return false;
            },
        }
        i = i + 1;
    }
    assert(hunks@.subrange(0, hunks.len() as int) =~= hunks@);
    true
}

/// The blame of `path` at revision `commit`: one line per line of every
/// hunk, then ordered by line number, lines of equal number in hunk order.
/// It fails only where the lines are too many to count.
pub fn blame_lines(path: String, commit: String, hunks: &Vec<BlameHunk>) -> (res: Result<BlameResponse, AppError>)
    ensures
        res is Err <==> hunk_line_total(hunks@) > usize::MAX,
        res matches Err(e) ==> e matches AppError::Internal(m) && m@ == "Blame is too large"@,
        res matches Ok(r) ==> blame_of(path, commit, hunks@, r),
{
    if !hunk_lines_fit(hunks) {
        return Err(AppError::Internal("Blame is too large".to_owned()));
    }
    Ok(expand_and_order(path, commit, hunks))
}

/// `r` is the blame of `path` at `commit` made of `hunks`.
pub open spec fn blame_of(path: String, commit: String, hunks: Seq<BlameHunk>, r: BlameResponse) -> bool {
    &&& r.path == path
    &&& r.commit == commit
    &&& exists|lines: Seq<BlameLine>, perm: Seq<usize>|
        #![trigger expands(hunks, lines), ranks_desc(line_keys(lines), perm)]
        expands(hunks, lines) && ranks_desc(line_keys(lines), perm) && r.lines@ == perm.map_values(
            |i: usize| lines[i as int],
        )
}

fn expand_and_order(path: String, commit: String, hunks: &Vec<BlameHunk>) -> (r: BlameResponse)
    requires
        hunk_line_total(hunks@) <= usize::MAX,
    ensures
        r.path == path,
        r.commit == commit,
        exists|lines: Seq<BlameLine>, perm: Seq<usize>|
            #![trigger expands(hunks@, lines), ranks_desc(line_keys(lines), perm)]
            expands(hunks@, lines) && ranks_desc(line_keys(lines), perm) && r.lines@
                == perm.map_values(|i: usize| lines[i as int]),
{
    let mut lines: Vec<BlameLine> = Vec::new();
    let mut k: usize = 0;
    while k < hunks.len()
        invariant
            k <= hunks.len(),
            hunk_line_total(hunks@) <= usize::MAX,
            expands(hunks@.subrange(0, k as int), lines@),
            lines.len() == hunk_line_total(hunks@.subrange(0, k as int)),
        decreases hunks.len() - k,
    {
        proof {
            lemma_line_total_prefix(hunks@, k + 1);
            assert(hunks@.subrange(0, k + 1).drop_last() =~= hunks@.subrange(0, k as int));
        }
        let ghost before = lines@;
        expand_hunk(&hunks[k], &mut lines);
        proof {
            let s = hunks@.subrange(0, k + 1);
            assert(s.last() == hunks@[k as int]);
            assert(lines@.subrange(0, before.len() as int) == before);
        }
        k = k + 1;
    }
    assert(hunks@.subrange(0, hunks.len() as int) =~= hunks@);
    let mut keys: Vec<(usize, i64)> = Vec::new();
    let mut i: usize = 0;
    while i < lines.len()
        invariant
            i <= lines.len(),
            keys@ == line_keys(lines@.subrange(0, i as int)),
        decreases lines.len() - i,
    {
        keys.push((0, -(lines[i].line_number as i64)));
        i = i + 1;
        assert(keys@ =~= line_keys(lines@.subrange(0, i as int)));
    }
    assert(lines@.subrange(0, lines.len() as int) =~= lines@);
    let perm = descending_order(&keys);
    let ordered = apply_order(lines, &perm);
    BlameResponse { path, commit, lines: ordered }
}

pub proof fn lemma_line_total_prefix(hunks: Seq<BlameHunk>, i: int)
    requires
        0 <= i <= hunks.len(),
    ensures
        hunk_line_total(hunks.subrange(0, i)) <= hunk_line_total(hunks),
    decreases hunks.len() - i,
{
    if i < hunks.len() {
        lemma_line_total_prefix(hunks, i + 1);
        assert(hunks.subrange(0, i + 1).drop_last() =~= hunks.subrange(0, i));
    } else {
        assert(hunks.subrange(0, i) =~= hunks);
    }
}

} // verus!
