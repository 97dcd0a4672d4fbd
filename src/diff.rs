//! Diff reconstruction: turning the store's decoded changes into files,
//! hunks and lines, with totals, and enriching each file with its authors.

use vstd::prelude::*;
use crate::attribution::FileAttribution;
use crate::error::AppError;
use crate::models::{AuthorInfo, DiffHunk, DiffLine, DiffResponse, DiffStats, DiffStatus, FileAuthorInfo, FileDiff, LineType};
use crate::ordering::{ascending_text_order, ranks_text_asc, text_views};
use crate::repository::{lower_text_of, lowered};
use crate::tally::tally_of;

verus! {

/// The kind of change that the store reports for one file.
#[derive(Clone, Copy, Debug, PartialEq, Eq, Structural)]
pub enum DeltaKind {
    Unmodified,
    Added,
    Deleted,
    Modified,
    Renamed,
    Copied,
    Ignored,
    Untracked,
    Typechange,
    Unreadable,
    Conflicted,
}

/// One line of a hunk as the store reports it: its origin mark
/// (`+`, `-`, ` ` or another), line numbers and text.
pub struct RawLine {
    pub origin: char,
    pub old_lineno: Option<u32>,
    pub new_lineno: Option<u32>,
    pub content: String,
}

/// One hunk as the store reports it.
pub struct RawHunk {
    pub old_start: u32,
    pub old_lines: u32,
    pub new_start: u32,
    pub new_lines: u32,
    pub header: String,
    pub lines: Vec<RawLine>,
}

/// The full text of one side of a changed file: absent (no such file on
/// that side, or not a file), its UTF-8 text, or content that is not UTF-8.
pub enum FileText {
    Absent,
    Text(String),
    NotUtf8,
}

/// One changed file as the store reports it, with its old and new texts.
pub struct RawDelta {
    pub old_path: Option<String>,
    pub new_path: Option<String>,
    pub kind: DeltaKind,
    pub is_binary: bool,
    pub old_content: FileText,
    pub new_content: FileText,
    pub hunks: Vec<RawHunk>,
}

/// `a` holds the text `t`, and nothing where `t` is no text.
pub open spec fn same_content(a: Option<String>, t: FileText) -> bool {
    match t {
        FileText::Text(s) => a matches Some(x) && x@ == s@,
        _ => a is None,
    }
}

/// A text file of `d` whose content could not be decoded as UTF-8.
pub open spec fn text_fails(d: RawDelta) -> bool {
    !d.is_binary && (d.old_content is NotUtf8 || d.new_content is NotUtf8)
}

pub open spec fn any_text_fails(ds: Seq<RawDelta>) -> bool {
    exists|k: int| 0 <= k < ds.len() && text_fails(#[trigger] ds[k])
}

/// Why a diff could not be built: a text file that is not UTF-8 (reported
/// first), or more hunk lines than memory can count.
pub open spec fn diff_failure(ds: Seq<RawDelta>) -> Seq<char> {
    if any_text_fails(ds) {
        "File is not valid UTF-8"@
    } else {
        "Diff is too large"@
    }
}

pub open spec fn status_of(k: DeltaKind) -> DiffStatus {
    match k {
        DeltaKind::Added => DiffStatus::Added,
        DeltaKind::Deleted => DiffStatus::Deleted,
        DeltaKind::Modified => DiffStatus::Modified,
        DeltaKind::Renamed => DiffStatus::Renamed,
        DeltaKind::Copied => DiffStatus::Copied,
        DeltaKind::Typechange => DiffStatus::TypeChanged,
        _ => DiffStatus::Unmodified,
    }
}

pub open spec fn line_type_of(origin: char) -> LineType {
    if origin == '+' {
        LineType::Addition
    } else if origin == '-' {
        LineType::Deletion
    } else if origin == ' ' {
        LineType::Context
    } else {
        LineType::Header
    }
}

/// The file status for a kind of change.
pub fn classify_status(k: DeltaKind) -> (s: DiffStatus)
    ensures
        s == status_of(k),
{
    match k {
        DeltaKind::Added => DiffStatus::Added,
        DeltaKind::Deleted => DiffStatus::Deleted,
        DeltaKind::Modified => DiffStatus::Modified,
        DeltaKind::Renamed => DiffStatus::Renamed,
        DeltaKind::Copied => DiffStatus::Copied,
        DeltaKind::Typechange => DiffStatus::TypeChanged,
        _ => DiffStatus::Unmodified,
    }
}

/// The line kind for an origin mark.
pub fn classify_line(origin: char) -> (t: LineType)
    ensures
        t == line_type_of(origin),
{
    if origin == '+' {
        LineType::Addition
    } else if origin == '-' {
        LineType::Deletion
    } else if origin == ' ' {
        LineType::Context
    } else {
        LineType::Header
    }
}

/// How many of `lines` are of kind `t`.
pub open spec fn line_kinds(lines: Seq<DiffLine>, t: LineType) -> nat
    decreases lines.len(),
{
    if lines.len() == 0 {
        0
    } else {
        line_kinds(lines.drop_last(), t) + if lines.last().line_type == t {
            1nat
        } else {
            0nat
        }
    }
}

/// How many lines of `hunks` are of kind `t`.
pub open spec fn hunk_kinds(hunks: Seq<DiffHunk>, t: LineType) -> nat
    decreases hunks.len(),
{
    if hunks.len() == 0 {
        0
    } else {
        hunk_kinds(hunks.drop_last(), t) + line_kinds(hunks.last().lines@, t)
    }
}

/// How many lines of all hunks of `files` are of kind `t`.
pub open spec fn file_kinds(files: Seq<FileDiff>, t: LineType) -> nat
    decreases files.len(),
{
    if files.len() == 0 {
        0
    } else {
        file_kinds(files.drop_last(), t) + hunk_kinds(files.last().hunks@, t)
    }
}

/// The number of lines in `hunks`.
pub open spec fn raw_hunk_lines(hunks: Seq<RawHunk>) -> nat
    decreases hunks.len(),
{
    if hunks.len() == 0 {
        0
    } else {
        raw_hunk_lines(hunks.drop_last()) + hunks.last().lines@.len()
    }
}

/// The number of lines in all hunks of `deltas`.
pub open spec fn raw_lines(deltas: Seq<RawDelta>) -> nat
    decreases deltas.len(),
{
    if deltas.len() == 0 {
        0
    } else {
        raw_lines(deltas.drop_last()) + raw_hunk_lines(deltas.last().hunks@)
    }
}

/// `l` is the line `r`, classified by its origin mark.
pub open spec fn line_matches(l: DiffLine, r: RawLine) -> bool {
    &&& l.line_type == line_type_of(r.origin)
    &&& l.old_lineno == r.old_lineno
    &&& l.new_lineno == r.new_lineno
    &&& l.content@ == r.content@
}

/// `h` is the hunk `r`, line for line.
pub open spec fn hunk_matches(h: DiffHunk, r: RawHunk) -> bool {
    &&& h.old_start == r.old_start
    &&& h.old_lines == r.old_lines
    &&& h.new_start == r.new_start
    &&& h.new_lines == r.new_lines
    &&& h.header@ == r.header@
    &&& h.lines.len() == r.lines.len()
    &&& forall|k: int| 0 <= k < h.lines.len() ==> line_matches(#[trigger] h.lines[k], r.lines[k])
}

pub open spec fn same_text(a: Option<String>, b: Option<String>) -> bool {
    match (a, b) {
        (Some(x), Some(y)) => x@ == y@,
        (None, None) => true,
        _ => false,
    }
}

/// `f` is the change `d`, whatever authors are attached: texts are dropped
/// for binary files.
pub open spec fn file_body_matches(f: FileDiff, d: RawDelta) -> bool {
    &&& same_text(f.old_path, d.old_path)
    &&& same_text(f.new_path, d.new_path)
    &&& f.status == status_of(d.kind)
    &&& f.is_binary == d.is_binary
    &&& if d.is_binary {
        f.old_content is None && f.new_content is None
    } else {
        same_content(f.old_content, d.old_content) && same_content(f.new_content, d.new_content)
    }
    &&& f.hunks.len() == d.hunks.len()
    &&& forall|k: int| 0 <= k < f.hunks.len() ==> hunk_matches(#[trigger] f.hunks[k], d.hunks[k])
}

/// `f` is the change `d`, before authors are attached.
pub open spec fn file_matches(f: FileDiff, d: RawDelta) -> bool {
    &&& file_body_matches(f, d)
    &&& f.authors.len() == 0
    &&& f.biggest_change_author is None
}

pub proof fn lemma_line_kinds_bound(lines: Seq<DiffLine>)
    ensures
        line_kinds(lines, LineType::Addition) + line_kinds(lines, LineType::Deletion) <= lines.len(),
    decreases lines.len(),
{
    if lines.len() > 0 {
        lemma_line_kinds_bound(lines.drop_last());
    }
}

pub proof fn lemma_raw_hunk_prefix(s: Seq<RawHunk>, i: int)
    requires
        0 <= i <= s.len(),
    ensures
        raw_hunk_lines(s.subrange(0, i)) <= raw_hunk_lines(s),
    decreases s.len() - i,
{
    if i < s.len() {
        lemma_raw_hunk_prefix(s, i + 1);
        assert(s.subrange(0, i + 1).drop_last() =~= s.subrange(0, i));
    } else {
        assert(s.subrange(0, i) =~= s);
    }
}

pub proof fn lemma_raw_prefix(s: Seq<RawDelta>, i: int)
    requires
        0 <= i <= s.len(),
    ensures
        raw_lines(s.subrange(0, i)) <= raw_lines(s),
    decreases s.len() - i,
{
    if i < s.len() {
        lemma_raw_prefix(s, i + 1);
        assert(s.subrange(0, i + 1).drop_last() =~= s.subrange(0, i));
    } else {
        assert(s.subrange(0, i) =~= s);
    }
}

fn copy_text(t: &Option<String>) -> (r: Option<String>)
    ensures
        same_text(r, *t),
{
    match t {
        Some(s) => Some(s.clone()),
        None => None,
    }
}

/// A hunk of the diff, with how many of its lines are additions and
/// deletions.
pub fn convert_hunk(r: &RawHunk) -> (res: (DiffHunk, usize, usize))
    ensures
        hunk_matches(res.0, *r),
        res.1 == line_kinds(res.0.lines@, LineType::Addition),
        res.2 == line_kinds(res.0.lines@, LineType::Deletion),
{
    let mut lines: Vec<DiffLine> = Vec::new();
    let mut adds: usize = 0;
    let mut dels: usize = 0;
    let mut i: usize = 0;
    while i < r.lines.len()
        invariant
            i <= r.lines.len(),
            lines.len() == i,
            forall|k: int| 0 <= k < i ==> line_matches(#[trigger] lines[k], r.lines[k]),
            adds == line_kinds(lines@, LineType::Addition),
            dels == line_kinds(lines@, LineType::Deletion),
        decreases r.lines.len() - i,
    {
        let raw = &r.lines[i];
        let line_type = classify_line(raw.origin);
        proof {
            lemma_line_kinds_bound(lines@);
        }
        if raw.origin == '+' {
            adds = adds + 1;
        } else if raw.origin == '-' {
            dels = dels + 1;
        }
        let ghost before = lines@;
        lines.push(
            DiffLine {
                line_type,
                old_lineno: raw.old_lineno,
                new_lineno: raw.new_lineno,
                content: raw.content.clone(),
            },
        );
        assert(lines@.drop_last() =~= before);
        i = i + 1;
    }
    let hunk = DiffHunk {
        old_start: r.old_start,
        old_lines: r.old_lines,
        new_start: r.new_start,
        new_lines: r.new_lines,
        header: r.header.clone(),
        lines,
    };
    (hunk, adds, dels)
}

pub proof fn lemma_hunk_kinds_bound(out: Seq<DiffHunk>, raw: Seq<RawHunk>)
    requires
        out.len() == raw.len(),
        forall|k: int| 0 <= k < out.len() ==> hunk_matches(#[trigger] out[k], raw[k]),
    ensures
        hunk_kinds(out, LineType::Addition) + hunk_kinds(out, LineType::Deletion) <= raw_hunk_lines(raw),
    decreases out.len(),
{
    if out.len() > 0 {
        let n = out.len() - 1;
        assert(hunk_matches(out[n], raw[n]));
        lemma_hunk_kinds_bound(out.drop_last(), raw.drop_last());
        lemma_line_kinds_bound(out.last().lines@);
    }
}

pub proof fn lemma_file_kinds_bound(out: Seq<FileDiff>, raw: Seq<RawDelta>)
    requires
        out.len() == raw.len(),
        forall|k: int| 0 <= k < out.len() ==> file_matches(#[trigger] out[k], raw[k]),
    ensures
        file_kinds(out, LineType::Addition) + file_kinds(out, LineType::Deletion) <= raw_lines(raw),
    decreases out.len(),
{
    if out.len() > 0 {
        let n = out.len() - 1;
        assert(file_matches(out[n], raw[n]));
        lemma_file_kinds_bound(out.drop_last(), raw.drop_last());
        lemma_hunk_kinds_bound(out.last().hunks@, raw.last().hunks@);
    }
}

/// One changed file of the diff, with how many of its lines are additions
/// and deletions.
fn convert_delta(d: &RawDelta) -> (res: (FileDiff, usize, usize))
    requires
        raw_hunk_lines(d.hunks@) <= usize::MAX,
    ensures
        file_matches(res.0, *d),
        res.1 == hunk_kinds(res.0.hunks@, LineType::Addition),
        res.2 == hunk_kinds(res.0.hunks@, LineType::Deletion),
{
    let mut hunks: Vec<DiffHunk> = Vec::new();
    let mut adds: usize = 0;
    let mut dels: usize = 0;
    let mut i: usize = 0;
    while i < d.hunks.len()
        invariant
            i <= d.hunks.len(),
            raw_hunk_lines(d.hunks@) <= usize::MAX,
            hunks.len() == i,
            forall|k: int| 0 <= k < i ==> hunk_matches(#[trigger] hunks[k], d.hunks[k]),
            adds == hunk_kinds(hunks@, LineType::Addition),
            dels == hunk_kinds(hunks@, LineType::Deletion),
        decreases d.hunks.len() - i,
    {
        let (h, a, r) = convert_hunk(&d.hunks[i]);
        let ghost before = hunks@;
        hunks.push(h);
        proof {
            assert(hunks@.drop_last() =~= before);
            assert(d.hunks@.subrange(0, i + 1).len() == hunks.len());
            assert forall|k: int| 0 <= k < hunks.len() implies hunk_matches(
                #[trigger] hunks@[k],
                d.hunks@.subrange(0, i + 1)[k],
            ) by {}
            lemma_hunk_kinds_bound(hunks@, d.hunks@.subrange(0, i + 1));
            lemma_raw_hunk_prefix(d.hunks@, i + 1);
        }
        adds = adds + a;
        dels = dels + r;
        i = i + 1;
    }
    let binary = d.is_binary;
    let f = FileDiff {
        old_path: copy_text(&d.old_path),
        new_path: copy_text(&d.new_path),
        status: classify_status(d.kind),
        hunks,
        old_content: if binary { None } else { text_content(&d.old_content) },
        new_content: if binary { None } else { text_content(&d.new_content) },
        is_binary: binary,
        authors: Vec::new(),
        biggest_change_author: None,
    };
    (f, adds, dels)
}

/// Every changed file of a diff, in the store's order, with the totals:
/// one file changed per entry, and the tallies of addition and deletion
/// lines over all hunks.
fn assemble_files(deltas: &Vec<RawDelta>) -> (res: (Vec<FileDiff>, DiffStats))
    requires
        raw_lines(deltas@) <= usize::MAX,
    ensures
        res.0.len() == deltas.len(),
        forall|k: int| 0 <= k < deltas.len() ==> file_matches(#[trigger] res.0[k], deltas[k]),
        res.1.files_changed == deltas.len(),
        res.1.insertions == file_kinds(res.0@, LineType::Addition),
        res.1.deletions == file_kinds(res.0@, LineType::Deletion),
{
    let mut files: Vec<FileDiff> = Vec::new();
    let mut stats = DiffStats { files_changed: 0, insertions: 0, deletions: 0 };
    let mut i: usize = 0;
    while i < deltas.len()
        invariant
            i <= deltas.len(),
            raw_lines(deltas@) <= usize::MAX,
            files.len() == i,
            forall|k: int| 0 <= k < i ==> file_matches(#[trigger] files[k], deltas[k]),
            stats.files_changed == i,
            stats.insertions == file_kinds(files@, LineType::Addition),
            stats.deletions == file_kinds(files@, LineType::Deletion),
        decreases deltas.len() - i,
    {
        proof {
            lemma_raw_prefix(deltas@, i + 1);
            assert(deltas@.subrange(0, i + 1).drop_last() =~= deltas@.subrange(0, i as int));
            assert(deltas@.subrange(0, i + 1).last() == deltas[i as int]);
        }
        let (f, a, r) = convert_delta(&deltas[i]);
        let ghost before = files@;
        files.push(f);
        proof {
            assert(files@.drop_last() =~= before);
            assert forall|k: int| 0 <= k < files.len() implies file_matches(
                #[trigger] files@[k],
                deltas@.subrange(0, i + 1)[k],
            ) by {}
            lemma_file_kinds_bound(files@, deltas@.subrange(0, i + 1));
        }
        stats.insertions = stats.insertions + a;
        stats.deletions = stats.deletions + r;
        stats.files_changed = stats.files_changed + 1;
        i = i + 1;
    }
    (files, stats)
}

/// The path a file is attributed under: its new path, else its old one.
pub open spec fn delta_key(d: RawDelta) -> Option<Seq<char>> {
    match d.new_path {
        Some(p) => Some(p@),
        None => match d.old_path {
            Some(p) => Some(p@),
            None => None,
        },
    }
}

/// The first position at or after `from` attributing `path`, or the length.
pub open spec fn find_attribution(attrs: Seq<FileAttribution>, path: Seq<char>, from: int) -> int
    decreases attrs.len() - from,
{
    if from < 0 || from >= attrs.len() {
        attrs.len() as int
    } else if attrs[from].path@ == path {
        from
    } else {
        find_attribution(attrs, path, from + 1)
    }
}

/// The authors attached to a file: those attributed to its path, with the
/// first of them as the file's top author; none where it has no entry.
pub open spec fn authors_attached(f: FileDiff, d: RawDelta, attrs: Seq<FileAttribution>) -> bool {
    match delta_key(d) {
        Some(p) if find_attribution(attrs, p, 0) < attrs.len() => {
            let a = attrs[find_attribution(attrs, p, 0)].authors@;
            &&& tally_of(f.authors@) == tally_of(a)
            &&& if a.len() > 0 {
                f.biggest_change_author matches Some(e) && e@ == a[0].email@
            } else {
                f.biggest_change_author is None
            }
        },
        _ => f.authors.len() == 0 && f.biggest_change_author is None,
    }
}

fn copy_authors(v: &Vec<FileAuthorInfo>) -> (r: Vec<FileAuthorInfo>)
    ensures
        tally_of(r@) == tally_of(v@),
{
    let mut r: Vec<FileAuthorInfo> = Vec::new();
    let mut i: usize = 0;
    while i < v.len()
        invariant
            i <= v.len(),
            r.len() == i,
            tally_of(r@) == tally_of(v@.subrange(0, i as int)),
        decreases v.len() - i,
    {
        let a = &v[i];
        let ghost before = r@;
        r.push(
            FileAuthorInfo {
                email: a.email.clone(),
                name: a.name.clone(),
                commit_count: a.commit_count,
                last_commit_timestamp: a.last_commit_timestamp,
            },
        );
        proof {
            assert forall|m: int| 0 <= m < i + 1 implies tally_of(r@)[m] == tally_of(v@.subrange(0, i + 1))[m] by {
                if m < i {
                    assert(r@[m] == before[m]);
                    assert(tally_of(before)[m] == tally_of(v@.subrange(0, i as int))[m]);
                }
            }
        }
        i = i + 1;
        assert(tally_of(r@) =~= tally_of(v@.subrange(0, i as int)));
    }
    assert(v@.subrange(0, v.len() as int) =~= v@);
    r
}

fn find_attribution_of(attrs: &Vec<FileAttribution>, path: &String) -> (p: usize)
    ensures
        p == find_attribution(attrs@, path@, 0),
{
    let mut j: usize = 0;
    while j < attrs.len()
        invariant
            j <= attrs.len(),
            find_attribution(attrs@, path@, 0) == find_attribution(attrs@, path@, j as int),
        decreases attrs.len() - j,
    {
        if attrs[j].path == *path {
            return j;
        }
        j = j + 1;
    }
    j
}

/// Attaches to each file the authors attributed to its path.
pub fn attach_authors(files: &mut Vec<FileDiff>, deltas: &Vec<RawDelta>, attrs: &Vec<FileAttribution>)
    requires
        old(files).len() == deltas.len(),
        forall|k: int| 0 <= k < deltas.len() ==> file_matches(#[trigger] old(files)[k], deltas[k]),
    ensures
        final(files).len() == deltas.len(),
        forall|k: int|
            0 <= k < deltas.len() ==> file_body_matches(#[trigger] final(files)[k], deltas[k])
                && authors_attached(final(files)[k], deltas[k], attrs@),
        forall|k: int| 0 <= k < deltas.len() ==> (#[trigger] final(files)[k]).hunks == old(files)[k].hunks,
{
    let mut k: usize = 0;
    while k < files.len()
        invariant
            files.len() == deltas.len(),
            k <= files.len(),
            forall|m: int| 0 <= m < deltas.len() ==> file_body_matches(#[trigger] files[m], deltas[m]),
            forall|m: int| 0 <= m < k ==> authors_attached(#[trigger] files[m], deltas[m], attrs@),
            forall|m: int| k <= m < deltas.len() ==> file_matches(#[trigger] files[m], deltas[m]),
            forall|m: int| 0 <= m < deltas.len() ==> (#[trigger] files[m]).hunks == old(files)[m].hunks,
        decreases files.len() - k,
    {
        let ghost mid = files@;
        assert(file_matches(files[k as int], deltas[k as int]));
        let mut f = files.remove(k);
        let key: Option<&String> = match &f.new_path {
            Some(p) => Some(p),
            None => match &f.old_path {
                Some(p) => Some(p),
                None => None,
            },
        };
        let ghost key_view: Option<Seq<char>> = match key {
            Some(p) => Some(p@),
            None => None,
        };
        assert(key_view == delta_key(deltas[k as int]));
        match key {
            Some(p) => {
                let pos = find_attribution_of(attrs, p);
                if pos < attrs.len() {
                    let a = &attrs[pos].authors;
                    f.authors = copy_authors(a);
                    f.biggest_change_author = if a.len() > 0 {
                        Some(a[0].email.clone())
                    } else {
                        None
                    };
                }
                assert(authors_attached(f, deltas[k as int], attrs@));
            },
            None => {
                assert(authors_attached(f, deltas[k as int], attrs@));
            },
        }
        files.insert(k, f);
        proof {
            assert(files@ =~= mid.update(k as int, f));
            assert forall|m: int| 0 <= m < k + 1 implies authors_attached(#[trigger] files[m], deltas[m], attrs@) by {
                if m < k {
                    assert(files[m] == mid[m]);
                }
            }
            assert forall|m: int| k + 1 <= m < deltas.len() implies file_matches(#[trigger] files[m], deltas[m]) by {
                assert(files[m] == mid[m]);
            }
        }
        k = k + 1;
    }
}

/// The authors of `files`, as (email, name), file by file.
pub open spec fn file_author_pairs(files: Seq<FileDiff>) -> Seq<(Seq<char>, Seq<char>)>
    decreases files.len(),
{
    if files.len() == 0 {
        Seq::empty()
    } else {
        file_author_pairs(files.drop_last()) + files.last().authors@.map_values(
            |a: FileAuthorInfo| (a.email@, a.name@),
        )
    }
}

/// Each email once, with the name it first came with, in order of first
/// appearance.
pub open spec fn first_by_email(xs: Seq<(Seq<char>, Seq<char>)>) -> Seq<(Seq<char>, Seq<char>)>
    decreases xs.len(),
{
    if xs.len() == 0 {
        Seq::empty()
    } else {
        let pre = first_by_email(xs.drop_last());
        if pre.map_values(|p: (Seq<char>, Seq<char>)| p.0).contains(xs.last().0) {
            pre
        } else {
            pre.push(xs.last())
        }
    }
}


/// `out` lists the authors `xs`, ordered by their lower-cased names, ties
/// in order of first appearance.
pub open spec fn name_keys(xs: Seq<(Seq<char>, Seq<char>)>) -> Seq<Seq<char>> {
    xs.map_values(|p: (Seq<char>, Seq<char>)| lower_text_of(p.1))
}

pub open spec fn sorted_by_name(xs: Seq<(Seq<char>, Seq<char>)>, out: Seq<AuthorInfo>) -> bool {
    exists|perm: Seq<usize>|
        #![trigger ranks_text_asc(name_keys(xs), perm)]
        ranks_text_asc(name_keys(xs), perm)
            && out.len() == xs.len() && forall|k: int|
            0 <= k < out.len() ==> (#[trigger] out[k]).email@ == xs[perm[k] as int].0
                && out[k].name@ == xs[perm[k] as int].1
}

pub open spec fn zip_views(a: Seq<String>, b: Seq<String>) -> Seq<(Seq<char>, Seq<char>)> {
    Seq::new(a.len(), |k: int| (a[k]@, b[k]@))
}

pub open spec fn author_pairs(v: Seq<FileAuthorInfo>) -> Seq<(Seq<char>, Seq<char>)> {
    v.map_values(|a: FileAuthorInfo| (a.email@, a.name@))
}

fn contains_text(v: &Vec<String>, s: &String) -> (r: bool)
    ensures
        r == text_views(v@).contains(s@),
{
    let mut j: usize = 0;
    while j < v.len()
        invariant
            j <= v.len(),
            forall|k: int| 0 <= k < j ==> v[k]@ != s@,
        decreases v.len() - j,
    {
        if v[j] == *s {
            assert(text_views(v@)[j as int] == s@);
            return true;
        }
        j = j + 1;
    }
    assert(!text_views(v@).contains(s@)) by {
        if text_views(v@).contains(s@) {
            let k = choose|k: int| 0 <= k < v.len() && text_views(v@)[k] == s@;
        }
    }
    false
}

/// Everyone who authored a change to any of `files`, each once, ordered by
/// lower-cased name.
pub fn diff_contributors(files: &Vec<FileDiff>) -> (out: Vec<AuthorInfo>)
    ensures
        sorted_by_name(first_by_email(file_author_pairs(files@)), out@),
{
    let mut emails: Vec<String> = Vec::new();
    let mut names: Vec<String> = Vec::new();
    let ghost mut xs: Seq<(Seq<char>, Seq<char>)> = Seq::empty();
    let mut i: usize = 0;
    while i < files.len()
        invariant
            i <= files.len(),
            xs == file_author_pairs(files@.subrange(0, i as int)),
            emails.len() == names.len(),
            zip_views(emails@, names@) == first_by_email(xs),
        decreases files.len() - i,
    {
        let authors = &files[i].authors;
        let ghost base = xs;
        let mut j: usize = 0;
        while j < authors.len()
            invariant
                i < files.len(),
                *authors == files[i as int].authors,
                j <= authors.len(),
                xs == base + author_pairs(authors@).subrange(0, j as int),
                emails.len() == names.len(),
                zip_views(emails@, names@) == first_by_email(xs),
            decreases authors.len() - j,
        {
            let a = &authors[j];
            let ghost x = (a.email@, a.name@);
            let ghost pre = first_by_email(xs);
            proof {
                assert(pre.map_values(|p: (Seq<char>, Seq<char>)| p.0) =~= text_views(emails@));
                assert(xs.push(x).drop_last() =~= xs);
            }
            if !contains_text(&emails, &a.email) {
                emails.push(a.email.clone());
                names.push(a.name.clone());
                assert(zip_views(emails@, names@) =~= pre.push(x));
            }
            proof {
                assert(author_pairs(authors@).subrange(0, j + 1) =~= author_pairs(authors@).subrange(0, j as int).push(x));
                assert(base + author_pairs(authors@).subrange(0, j + 1) =~= xs.push(x));
                xs = xs.push(x);
            }
            j = j + 1;
        }
        proof {
            assert(author_pairs(authors@).subrange(0, authors.len() as int) =~= author_pairs(authors@));
            assert(files@.subrange(0, i + 1).drop_last() =~= files@.subrange(0, i as int));
            assert(files@.subrange(0, i + 1).last() == files@[i as int]);
            assert(author_pairs(authors@) =~= files[i as int].authors@.map_values(
                |a: FileAuthorInfo| (a.email@, a.name@),
            ));
        }
        i = i + 1;
    }
    assert(files@.subrange(0, files.len() as int) =~= files@);
    let ghost distinct = first_by_email(xs);
    let mut keys: Vec<String> = Vec::new();
    let mut k: usize = 0;
    while k < names.len()
        invariant
            k <= names.len(),
            emails.len() == names.len(),
            zip_views(emails@, names@) == distinct,
            keys.len() == k,
            forall|m: int| 0 <= m < k ==> (#[trigger] keys[m])@ == lower_text_of(names[m]@),
        decreases names.len() - k,
    {
        keys.push(lowered(names[k].as_str()));
        k = k + 1;
    }
    assert(text_views(keys@) =~= name_keys(distinct));
    let perm = ascending_text_order(&keys);
    let mut out: Vec<AuthorInfo> = Vec::new();
    let mut m: usize = 0;
    while m < perm.len()
        invariant
            ranks_text_asc(name_keys(distinct), perm@),
            emails.len() == names.len(),
            names.len() == distinct.len(),
            zip_views(emails@, names@) == distinct,
            m <= perm.len(),
            out.len() == m,
            forall|q: int|
                0 <= q < m ==> (#[trigger] out[q]).email@ == distinct[perm[q] as int].0
                    && out[q].name@ == distinct[perm[q] as int].1,
        decreases perm.len() - m,
    {
        let p = perm[m];
        out.push(AuthorInfo { name: names[p].clone(), email: emails[p].clone() });
        m = m + 1;
    }
    out
}

/// The identity that a diff against the working copy carries in place of a
/// revision id.
pub const WORKING_TREE: &'static str = "WORKING_TREE";

/// The totals of `r` agree with its lines: insertions and deletions add up
/// to the addition and deletion lines over all hunks of all files.
pub open spec fn stats_consistent(r: DiffResponse) -> bool {
    r.stats.insertions + r.stats.deletions == file_kinds(r.files@, LineType::Addition) + file_kinds(
        r.files@,
        LineType::Deletion,
    )
}

pub proof fn lemma_file_kinds_same_hunks(a: Seq<FileDiff>, b: Seq<FileDiff>, t: LineType)
    requires
        a.len() == b.len(),
        forall|k: int| 0 <= k < a.len() ==> (#[trigger] a[k]).hunks == b[k].hunks,
    ensures
        file_kinds(a, t) == file_kinds(b, t),
    decreases a.len(),
{
    if a.len() > 0 {
        assert(a[a.len() - 1].hunks == b[b.len() - 1].hunks);
        lemma_file_kinds_same_hunks(a.drop_last(), b.drop_last(), t);
    }
}

/// Any diff whose totals are the tallies of its addition and deletion lines
/// has consistent totals.
pub proof fn lemma_diff_stats_consistent(r: DiffResponse)
    requires
        r.stats.insertions == file_kinds(r.files@, LineType::Addition),
        r.stats.deletions == file_kinds(r.files@, LineType::Deletion),
    ensures
        stats_consistent(r),
{
}

fn text_content(t: &FileText) -> (r: Option<String>)
    ensures
        same_content(r, *t),
{
    match t {
        FileText::Text(s) => Some(s.clone()),
        _ => None,
    }
}

/// Whether some text file of `deltas` could not be decoded.
fn undecodable(deltas: &Vec<RawDelta>) -> (r: bool)
    ensures
        r == any_text_fails(deltas@),
{
    let mut i: usize = 0;
    while i < deltas.len()
        invariant
            i <= deltas.len(),
            forall|k: int| 0 <= k < i ==> !text_fails(#[trigger] deltas@[k]),
        decreases deltas.len() - i,
    {
        let d = &deltas[i];
        let old_bad = match &d.old_content {
            FileText::NotUtf8 => true,
            _ => false,
        };
        let new_bad = match &d.new_content {
            FileText::NotUtf8 => true,
            _ => false,
        };
        if !d.is_binary && (old_bad || new_bad) {
            assert(text_fails(deltas@[i as int]));
            return true;
        }
        i = i + 1;
    }
    false
}

/// Whether all hunk lines of `deltas` can be counted in a `usize`.
fn lines_fit(deltas: &Vec<RawDelta>) -> (r: bool)
    ensures
        r == (raw_lines(deltas@) <= usize::MAX),
{
    let mut total: usize = 0;
    let mut i: usize = 0;
    while i < deltas.len()
        invariant
            i <= deltas.len(),
            total == raw_lines(deltas@.subrange(0, i as int)),
        decreases deltas.len() - i,
    {
        let hunks = &deltas[i].hunks;
        let ghost base = total as int;
        proof {
            assert(deltas@.subrange(0, i + 1).drop_last() =~= deltas@.subrange(0, i as int));
            assert(deltas@.subrange(0, i + 1).last() == deltas@[i as int]);
        }
        let mut j: usize = 0;
        while j < hunks.len()
            invariant
                i < deltas.len(),
                *hunks == deltas@[i as int].hunks,
                j <= hunks.len(),
                base == raw_lines(deltas@.subrange(0, i as int)),
                total == base + raw_hunk_lines(hunks@.subrange(0, j as int)),
            decreases hunks.len() - j,
        {
            proof {
                assert(hunks@.subrange(0, j + 1).drop_last() =~= hunks@.subrange(0, j as int));
                assert(hunks@.subrange(0, j + 1).last() == hunks@[j as int]);
            }
            match total.checked_add(hunks[j].lines.len()) {
                Some(t) => {
                    total = t;
                },
                None => {
                    proof {
                        lemma_raw_hunk_prefix(hunks@, j + 1);
                        assert(raw_hunk_lines(hunks@.subrange(0, j + 1)) == raw_hunk_lines(
                            hunks@.subrange(0, j as int),
                        ) + hunks@[j as int].lines@.len());
                        lemma_raw_prefix(deltas@, i + 1);
                        assert(deltas@.subrange(0, i + 1).drop_last() =~= deltas@.subrange(0, i as int));
                        assert(deltas@.subrange(0, i + 1).last() == deltas@[i as int]);
                        assert(raw_lines(deltas@.subrange(0, i + 1)) == base + raw_hunk_lines(
                            deltas@[i as int].hunks@,
                        ));
                    }
                    return false;
                },
            }
            j = j + 1;
        }
        assert(hunks@.subrange(0, hunks.len() as int) =~= hunks@);
        i = i + 1;
    }
    assert(deltas@.subrange(0, deltas.len() as int) =~= deltas@);
    true
}

/// The diff between two revisions: every changed file with its hunks, the
/// totals, each file's ranked authors and top author from `attrs`, and the
/// contributors of all files ordered by lower-cased name. It fails where a
/// text file cannot be decoded, or where the lines are too many to count.
pub fn build_diff_response(
    from_commit: Option<String>,
    to_commit: String,
    path: Option<String>,
    deltas: &Vec<RawDelta>,
    attrs: &Vec<FileAttribution>,
) -> (res: Result<DiffResponse, AppError>)
    ensures
        res is Err <==> any_text_fails(deltas@) || raw_lines(deltas@) > usize::MAX,
        res matches Err(e) ==> e matches AppError::Internal(m) && m@ == diff_failure(deltas@),
        res matches Ok(r) ==> {
            &&& r.from_commit == from_commit
            &&& r.to_commit == to_commit
            &&& r.path == path
            &&& r.files.len() == deltas.len()
            &&& forall|k: int|
                0 <= k < deltas.len() ==> file_body_matches(#[trigger] r.files[k], deltas[k])
                    && authors_attached(r.files[k], deltas[k], attrs@)
            &&& r.stats.files_changed == deltas.len()
            &&& r.stats.insertions == file_kinds(r.files@, LineType::Addition)
            &&& r.stats.deletions == file_kinds(r.files@, LineType::Deletion)
            &&& stats_consistent(r)
            &&& sorted_by_name(first_by_email(file_author_pairs(r.files@)), r.contributors@)
            &&& r.total_files == deltas.len()
            &&& r.filtered_files == deltas.len()
        },
{
    if undecodable(deltas) {
        return Err(AppError::Internal("File is not valid UTF-8".to_owned()));
    }
    if !lines_fit(deltas) {
        return Err(AppError::Internal("Diff is too large".to_owned()));
    }
    let (mut files, stats) = assemble_files(deltas);
    let ghost plain = files@;
    attach_authors(&mut files, deltas, attrs);
    proof {
        lemma_file_kinds_same_hunks(files@, plain, LineType::Addition);
        lemma_file_kinds_same_hunks(files@, plain, LineType::Deletion);
    }
    let contributors = diff_contributors(&files);
    let total_files = files.len();
    Ok(DiffResponse {
        from_commit,
        to_commit,
        path,
        files,
        stats,
        contributors,
        total_files,
        filtered_files: total_files,
    })
}

/// The diff of the working copy against the head revision `head_oid`:
/// every changed file with its hunks and the totals, no authors, and the
/// working-copy identity in place of a revision id. It fails as
/// `build_diff_response` does.
pub fn build_working_tree_diff(head_oid: String, path: Option<String>, deltas: &Vec<RawDelta>) -> (res: Result<DiffResponse, AppError>)
    ensures
        res is Err <==> any_text_fails(deltas@) || raw_lines(deltas@) > usize::MAX,
        res matches Err(e) ==> e matches AppError::Internal(m) && m@ == diff_failure(deltas@),
        res matches Ok(r) ==> {
            &&& r.from_commit == Some(head_oid)
            &&& r.to_commit@ == WORKING_TREE@
            &&& r.path == path
            &&& r.files.len() == deltas.len()
            &&& forall|k: int| 0 <= k < deltas.len() ==> file_matches(#[trigger] r.files[k], deltas[k])
            &&& r.stats.files_changed == deltas.len()
            &&& r.stats.insertions == file_kinds(r.files@, LineType::Addition)
            &&& r.stats.deletions == file_kinds(r.files@, LineType::Deletion)
            &&& stats_consistent(r)
            &&& r.contributors.len() == 0
            &&& r.total_files == deltas.len()
            &&& r.filtered_files == deltas.len()
        },
{
    if undecodable(deltas) {
        return Err(AppError::Internal("File is not valid UTF-8".to_owned()));
    }
    if !lines_fit(deltas) {
        return Err(AppError::Internal("Diff is too large".to_owned()));
    }
    let (files, stats) = assemble_files(deltas);
    let total_files = files.len();
    Ok(DiffResponse {
        from_commit: Some(head_oid),
        to_commit: WORKING_TREE.to_owned(),
        path,
        files,
        stats,
        contributors: Vec::new(),
        total_files,
        filtered_files: total_files,
    })
}

/// A file stays in a filtered diff when it has no authors or one author
/// that is not excluded.
pub open spec fn keeps_file(f: FileDiff, excluded: Seq<String>) -> bool {
    f.authors.len() == 0 || exists|k: int|
        0 <= k < f.authors.len() && !text_views(excluded).contains(#[trigger] f.authors[k].email@)
}

/// Drops from `r` the files whose authors are all excluded, and counts
/// what is left; with no excluded address nothing changes.
pub fn exclude_file_authors(r: &mut DiffResponse, excluded: &Vec<String>)
    ensures
        excluded.len() == 0 ==> *final(r) == *old(r),
        excluded.len() > 0 ==> {
            &&& final(r).filtered_files == final(r).files.len()
            &&& final(r).files@ == old(r).files@.filter(|f: FileDiff| keeps_file(f, excluded@))
            &&& final(r).from_commit == old(r).from_commit
            &&& final(r).to_commit == old(r).to_commit
            &&& final(r).path == old(r).path
            &&& final(r).stats == old(r).stats
            &&& final(r).contributors == old(r).contributors
            &&& final(r).total_files == old(r).total_files
        },
{
    if excluded.len() == 0 {
        return;
    }
    let mut files: Vec<FileDiff> = Vec::new();
    core::mem::swap(&mut files, &mut r.files);
    let ghost all = files@;
    assert(all.len() <= usize::MAX) by {
        assert(files.len() <= usize::MAX);
    }
    let mut kept: Vec<FileDiff> = Vec::new();
    let mut i: usize = 0;
    while files.len() > 0
        invariant
            i + files.len() == all.len(),
            all.len() <= usize::MAX,
            files@ == all.subrange(i as int, all.len() as int),
            kept@ == all.subrange(0, i as int).filter(|f: FileDiff| keeps_file(f, excluded@)),
        decreases files.len(),
    {
        let f = files.remove(0);
        let mut keep = f.authors.len() == 0;
        let mut k: usize = 0;
        while !keep && k < f.authors.len()
            invariant
                k <= f.authors.len(),
                keep ==> keeps_file(f, excluded@),
                !keep ==> f.authors.len() > 0 && forall|m: int|
                    0 <= m < k ==> text_views(excluded@).contains(#[trigger] f.authors[m].email@),
            decreases f.authors.len() - k,
        {
            if !contains_text(excluded, &f.authors[k].email) {
                keep = true;
            }
            k = k + 1;
        }
        proof {
            assert(f == all[i as int]);
            assert(all.subrange(0, i + 1).drop_last() =~= all.subrange(0, i as int));
            assert(keep == keeps_file(f, excluded@));
            reveal(Seq::filter);
            assert(all.subrange(0, i + 1).last() == f);
        }
        if keep {
            kept.push(f);
        }
        i = i + 1;
        proof {
            assert(files@ =~= all.subrange(i as int, all.len() as int));
        }
    }
    assert(all.subrange(0, all.len() as int) =~= all);
    r.filtered_files = kept.len();
    r.files = kept;
}

} // verus!
