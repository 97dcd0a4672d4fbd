//! Rules of directory listings of the head tree.

use vstd::prelude::*;
use crate::models::{EntryType, FullTreeEntry, TreeEntry};
use crate::ordering::{apply_order, ascending_text_order, flag_first_order, flagged_first, is_permutation, ranks_text_asc, text_views};
use crate::repository::{lemma_filter_within, lower_text_of, lowered};
use crate::text::joined;

verus! {

/// The kind of object that a tree entry names.
#[derive(Clone, Copy, Debug, PartialEq, Eq, Structural)]
pub enum ObjectKind {
    Blob,
    Tree,
    Commit,
    Tag,
    Unknown,
}

pub open spec fn entry_type_of(k: ObjectKind) -> Option<EntryType> {
    match k {
        ObjectKind::Blob => Some(EntryType::File),
        ObjectKind::Tree => Some(EntryType::Directory),
        ObjectKind::Commit => Some(EntryType::Submodule),
        _ => None,
    }
}

/// The listing kind of a tree entry: files, directories and submodules are
/// listed; other entries are left out.
pub fn classify_entry(k: ObjectKind) -> (r: Option<EntryType>)
    ensures
        r == entry_type_of(k),
{
    match k {
        ObjectKind::Blob => Some(EntryType::File),
        ObjectKind::Tree => Some(EntryType::Directory),
        ObjectKind::Commit => Some(EntryType::Submodule),
        _ => None,
    }
}

/// The path of the entry `name` in the directory `base`; the root is `""`.
pub open spec fn child_path_of(base: Seq<char>, name: Seq<char>) -> Seq<char> {
    if base.len() == 0 {
        name
    } else {
        base + "/"@ + name
    }
}

pub fn child_path(base: &str, name: &str) -> (r: String)
    ensures
        r@ == child_path_of(base@, name@),
{
    if base.is_empty() {
        name.to_owned()
    } else {
        let with_sep = joined(base, "/");
        joined(with_sep.as_str(), name)
    }
}

/// Whether a listed path names the root of the tree.
pub fn is_root_path(path: Option<&str>) -> (r: bool)
    ensures
        r == match path {
            None => true,
            Some(p) => p@.len() == 0 || p@ == "/"@,
        },
{
    match path {
        None => true,
        Some(p) => {
            let s = p.to_owned();
            let slash = "/".to_owned();
            p.is_empty() || s == slash
        },
    }
}

pub open spec fn lowered_keys(v: Seq<String>) -> Seq<Seq<char>> {
    v.map_values(|s: String| lower_text_of(s@))
}

/// The order of a listing of `names` whose directories are flagged by
/// `is_dir`: directories first, each group by lower-cased name, ties in the
/// given order.
pub fn listing_order(names: &Vec<String>, is_dir: &Vec<bool>) -> (order: Vec<usize>)
    requires
        names.len() == is_dir.len(),
    ensures
        is_permutation(order@, names.len() as nat),
        exists|perm: Seq<usize>|
            #![trigger ranks_text_asc(lowered_keys(names@), perm)]
            ranks_text_asc(lowered_keys(names@), perm)
                && order@ == flagged_first(perm, is_dir@),
{
    let mut keys: Vec<String> = Vec::new();
    let mut i: usize = 0;
    while i < names.len()
        invariant
            i <= names.len(),
            keys.len() == i,
            forall|k: int| 0 <= k < i ==> (#[trigger] keys[k])@ == lower_text_of(names[k]@),
        decreases names.len() - i,
    {
        keys.push(lowered(names[i].as_str()));
        i = i + 1;
    }
    assert(text_views(keys@) =~= lowered_keys(names@));
    let perm = ascending_text_order(&keys);
    let order = flag_first_order(&perm, is_dir);
    proof {
        lemma_flagged_first_permutation(perm@, is_dir@);
    }
    order
}

/// Putting the flagged positions first keeps a permutation a permutation.
pub proof fn lemma_flagged_first_permutation(perm: Seq<usize>, flags: Seq<bool>)
    requires
        is_permutation(perm, flags.len()),
    ensures
        is_permutation(flagged_first(perm, flags), flags.len()),
{
    let f1 = |j: usize| flags[j as int];
    let f2 = |j: usize| !flags[j as int];
    let a = perm.filter(f1);
    let b = perm.filter(f2);
    let r = a + b;
    lemma_filter_within(perm, flags.len(), f1);
    lemma_filter_within(perm, flags.len(), f2);
    lemma_split_filter(perm, flags);
    assert(r.len() == perm.len());
    assert forall|x: int, y: int| 0 <= x < y < r.len() implies r[x] != r[y] by {
        lemma_filter_distinct(perm, f1);
        lemma_filter_distinct(perm, f2);
        if x < a.len() && y >= a.len() {
            perm.lemma_filter_pred(f1, x);
            perm.lemma_filter_pred(f2, y - a.len());
            assert(f1(a[x]));
            assert(f2(b[y - a.len()]));
        }
    }
}

pub proof fn lemma_split_filter(perm: Seq<usize>, flags: Seq<bool>)
    ensures
        perm.filter(|j: usize| flags[j as int]).len() + perm.filter(|j: usize| !flags[j as int]).len()
            == perm.len(),
    decreases perm.len(),
{
    reveal(Seq::filter);
    if perm.len() > 0 {
        lemma_split_filter(perm.drop_last(), flags);
    }
}

pub proof fn lemma_filter_distinct(perm: Seq<usize>, pred: spec_fn(usize) -> bool)
    requires
        forall|a: int, b: int| 0 <= a < b < perm.len() ==> perm[a] != perm[b],
    ensures
        forall|a: int, b: int|
            0 <= a < b < perm.filter(pred).len() ==> perm.filter(pred)[a] != perm.filter(pred)[b],
        forall|a: int|
            0 <= a < perm.filter(pred).len() ==> perm.contains(#[trigger] perm.filter(pred)[a]),
    decreases perm.len(),
{
    reveal(Seq::filter);
    if perm.len() > 0 {
        let pre = perm.drop_last();
        lemma_filter_distinct(pre, pred);
        let sub = pre.filter(pred);
        assert forall|a: int| 0 <= a < sub.len() implies perm.contains(#[trigger] sub[a]) by {
            let k = choose|k: int| 0 <= k < pre.len() && pre[k] == sub[a];
            assert(perm[k] == pre[k]);
        }
        if pred(perm.last()) {
            assert(perm.filter(pred) == sub.push(perm.last()));
            assert forall|a: int| 0 <= a < sub.len() implies sub[a] != perm.last() by {
                let k = choose|k: int| 0 <= k < pre.len() && pre[k] == sub[a];
                assert(perm[k] == pre[k]);
                assert(perm[perm.len() - 1] == perm.last());
            }
            assert(perm.contains(perm.last())) by {
                assert(perm[perm.len() - 1] == perm.last());
            }
        } else {
            assert(perm.filter(pred) == sub);
        }
    }
}

/// A directory listing in display order: directories first, then the
/// rest, each by lower-cased name.
pub fn order_tree_entries(entries: Vec<TreeEntry>) -> (out: Vec<TreeEntry>)
    ensures
        exists|perm: Seq<usize>|
            #![trigger ranks_text_asc(entry_keys(entries@), perm)]
            ranks_text_asc(entry_keys(entries@), perm) && out@ == flagged_first(
                perm,
                entry_dirs(entries@),
            ).map_values(|i: usize| entries@[i as int]),
{
    let mut names: Vec<String> = Vec::new();
    let mut dirs: Vec<bool> = Vec::new();
    let mut i: usize = 0;
    while i < entries.len()
        invariant
            i <= entries.len(),
            names.len() == i,
            dirs.len() == i,
            forall|k: int| 0 <= k < i ==> (#[trigger] names[k])@ == entries[k].name@,
            forall|k: int| 0 <= k < i ==> (#[trigger] dirs[k]) == (entries[k].entry_type == EntryType::Directory),
        decreases entries.len() - i,
    {
        names.push(entries[i].name.clone());
        dirs.push(entries[i].entry_type == EntryType::Directory);
        i = i + 1;
    }
    assert(lowered_keys(names@) =~= entry_keys(entries@));
    assert(dirs@ =~= entry_dirs(entries@));
    let order = listing_order(&names, &dirs);
    apply_order(entries, &order)
}

pub open spec fn entry_keys(v: Seq<TreeEntry>) -> Seq<Seq<char>> {
    v.map_values(|e: TreeEntry| lower_text_of(e.name@))
}

pub open spec fn entry_dirs(v: Seq<TreeEntry>) -> Seq<bool> {
    v.map_values(|e: TreeEntry| e.entry_type == EntryType::Directory)
}

pub open spec fn node_keys(v: Seq<FullTreeEntry>) -> Seq<Seq<char>> {
    v.map_values(|e: FullTreeEntry| lower_text_of(e.name@))
}

pub open spec fn node_dirs(v: Seq<FullTreeEntry>) -> Seq<bool> {
    v.map_values(|e: FullTreeEntry| e.entry_type == EntryType::Directory)
}

/// One level of the whole tree in display order: directories first, then
/// the rest, each by lower-cased name.
pub fn order_tree_nodes(entries: Vec<FullTreeEntry>) -> (out: Vec<FullTreeEntry>)
    ensures
        exists|perm: Seq<usize>|
            #![trigger ranks_text_asc(node_keys(entries@), perm)]
            ranks_text_asc(node_keys(entries@), perm) && out@ == flagged_first(
                perm,
                node_dirs(entries@),
            ).map_values(|i: usize| entries@[i as int]),
{
    let mut names: Vec<String> = Vec::new();
    let mut dirs: Vec<bool> = Vec::new();
    let mut i: usize = 0;
    while i < entries.len()
        invariant
            i <= entries.len(),
            names.len() == i,
            dirs.len() == i,
            forall|k: int| 0 <= k < i ==> (#[trigger] names[k])@ == entries[k].name@,
            forall|k: int| 0 <= k < i ==> (#[trigger] dirs[k]) == (entries[k].entry_type == EntryType::Directory),
        decreases entries.len() - i,
    {
        names.push(entries[i].name.clone());
        dirs.push(entries[i].entry_type == EntryType::Directory);
        i = i + 1;
    }
    assert(lowered_keys(names@) =~= node_keys(entries@));
    assert(dirs@ =~= node_dirs(entries@));
    let order = listing_order(&names, &dirs);
    apply_order(entries, &order)
}

} // verus!
