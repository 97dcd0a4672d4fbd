//! Stable ordering of records by a two-part integer key, largest first.

use vstd::prelude::*;

verus! {

/// `a` ranks at or above `b`: a larger first part, or an equal first part
/// and a second part at least as large.
pub open spec fn key_ge(a: (usize, i64), b: (usize, i64)) -> bool {
    a.0 > b.0 || (a.0 == b.0 && a.1 >= b.1)
}

/// `perm` lists every position of `keys` exactly once.
pub open spec fn is_permutation(perm: Seq<usize>, n: nat) -> bool {
    &&& perm.len() == n
    &&& forall|k: int| 0 <= k < perm.len() ==> perm[k] < n
    &&& forall|a: int, b: int| 0 <= a < b < perm.len() ==> perm[a] != perm[b]
}

/// `perm` visits the positions of `keys` from the largest key down, and
/// keeps positions with equal keys in their original order.
pub open spec fn ranks_desc(keys: Seq<(usize, i64)>, perm: Seq<usize>) -> bool {
    &&& is_permutation(perm, keys.len())
    &&& forall|a: int, b: int|
        0 <= a < b < perm.len() ==> key_ge(#[trigger] keys[perm[a] as int], #[trigger] keys[perm[b] as int])
    &&& forall|a: int, b: int|
        0 <= a < b < perm.len() && keys[perm[a] as int] == keys[perm[b] as int] ==> perm[a] < perm[b]
}

/// Every key ranks at or above the next one.
pub open spec fn already_desc(keys: Seq<(usize, i64)>) -> bool {
    forall|i: int| 0 <= i < keys.len() - 1 ==> key_ge(#[trigger] keys[i], keys[i + 1])
}

fn key_lt(a: (usize, i64), b: (usize, i64)) -> (r: bool)
    ensures
        r == !key_ge(a, b),
{
    a.0 < b.0 || (a.0 == b.0 && a.1 < b.1)
}

/// The positions of `keys`, largest key first, ties in their original order.
pub fn descending_order(keys: &Vec<(usize, i64)>) -> (perm: Vec<usize>)
    ensures
        ranks_desc(keys@, perm@),
        already_desc(keys@) ==> perm@ == Seq::new(keys.len() as nat, |i: int| i as usize),
{
    let n = keys.len();
    let mut perm: Vec<usize> = Vec::new();
    let mut i: usize = 0;
    while i < n
        invariant
            n == keys.len(),
            i <= n,
            perm.len() == i,
            forall|k: int| 0 <= k < perm.len() ==> perm[k] < i,
            forall|a: int, b: int| 0 <= a < b < perm.len() ==> perm[a] != perm[b],
            forall|a: int, b: int|
                0 <= a < b < perm.len() ==> key_ge(#[trigger] keys@[perm[a] as int], #[trigger] keys@[perm[b] as int]),
            forall|a: int, b: int|
                0 <= a < b < perm.len() && keys@[perm[a] as int] == keys@[perm[b] as int] ==> perm[a] < perm[b],
            already_desc(keys@) ==> perm@ == Seq::new(i as nat, |k: int| k as usize),
        decreases n - i,
    {
        let ki = keys[i];
        let mut j: usize = perm.len();
        while j > 0 && key_lt(keys[perm[j - 1]], ki)
            invariant
                n == keys.len(),
                i < n,
                ki == keys@[i as int],
                j <= perm.len(),
                perm.len() == i,
                forall|k: int| 0 <= k < perm.len() ==> perm[k] < i,
                forall|k: int| j <= k < perm.len() ==> !key_ge(#[trigger] keys@[perm[k] as int], ki),
            decreases j,
        {
            j = j - 1;
        }
        proof {
            assert forall|k: int| 0 <= k < j implies key_ge(#[trigger] keys@[perm[k] as int], ki) by {
                if k < j - 1 {
                    assert(key_ge(keys@[perm[k] as int], keys@[perm[j - 1] as int]));
                }
            }
        }
        let ghost old_perm = perm@;
        proof {
            if already_desc(keys@) && j < i {
                assert(perm[j as int] == j);
                assert(key_ge(keys@[(i - 1) as int], keys@[i as int]));
                assert(perm[i - 1] == i - 1);
            }
        }
        perm.insert(j, i);
        proof {
            if already_desc(keys@) {
                assert(perm@ =~= Seq::new((i + 1) as nat, |k: int| k as usize));
            }
            assert forall|k: int| 0 <= k < perm.len() implies perm[k] < i + 1 by {
                if k < j { assert(perm[k] == old_perm[k]); } else if k > j { assert(perm[k] == old_perm[k - 1]); }
            }
            assert forall|a: int, b: int| 0 <= a < b < perm.len() implies perm[a] != perm[b] by {
                if b < j {
                } else if a > j {
                    assert(perm[a] == old_perm[a - 1]);
                    assert(perm[b] == old_perm[b - 1]);
                } else if a == j {
                    assert(perm[b] == old_perm[b - 1]);
                } else if b == j {
                } else {
                    assert(perm[b] == old_perm[b - 1]);
                }
            }
            assert forall|a: int, b: int| 0 <= a < b < perm.len() implies key_ge(
                #[trigger] keys@[perm[a] as int],
                #[trigger] keys@[perm[b] as int],
            ) by {
                if b < j {
                    assert(key_ge(keys@[old_perm[a] as int], keys@[old_perm[b] as int]));
                } else if a > j {
                    assert(key_ge(keys@[old_perm[a - 1] as int], keys@[old_perm[b - 1] as int]));
                } else if a == j {
                    assert(!key_ge(keys@[old_perm[b - 1] as int], ki));
                } else if b == j {
                    assert(key_ge(keys@[old_perm[a] as int], ki));
                } else {
                    assert(key_ge(keys@[old_perm[a] as int], keys@[old_perm[b - 1] as int]));
                }
            }
            assert forall|a: int, b: int|
                0 <= a < b < perm.len() && keys@[perm[a] as int] == keys@[perm[b] as int] implies perm[a] < perm[b] by {
                if b < j {
                } else if a > j {
                    assert(perm[a] == old_perm[a - 1]);
                    assert(perm[b] == old_perm[b - 1]);
                } else if a == j {
                    assert(!key_ge(keys@[old_perm[b - 1] as int], ki));
                } else if b == j {
                    assert(perm[a] == old_perm[a]);
                } else {
                    assert(perm[b] == old_perm[b - 1]);
                }
            }
        }
        i = i + 1;
    }
    perm
}

/// `a` comes before `b` in dictionary order of code points; a proper
/// prefix comes first.
pub open spec fn text_lt(a: Seq<char>, b: Seq<char>) -> bool
    decreases a.len(),
{
    if b.len() == 0 {
        false
    } else if a.len() == 0 {
        true
    } else if a[0] != b[0] {
        (a[0] as int) < (b[0] as int)
    } else {
        text_lt(a.drop_first(), b.drop_first())
    }
}

pub proof fn lemma_text_lt_irreflexive(a: Seq<char>)
    ensures
        !text_lt(a, a),
    decreases a.len(),
{
    if a.len() > 0 {
        lemma_text_lt_irreflexive(a.drop_first());
    }
}

pub proof fn lemma_text_lt_transitive(a: Seq<char>, b: Seq<char>, c: Seq<char>)
    requires
        text_lt(a, b),
        text_lt(b, c),
    ensures
        text_lt(a, c),
    decreases a.len(),
{
    if a.len() > 0 && b.len() > 0 && c.len() > 0 {
        if a[0] == b[0] && b[0] == c[0] {
            lemma_text_lt_transitive(a.drop_first(), b.drop_first(), c.drop_first());
        }
    }
}

pub proof fn lemma_text_lt_total(a: Seq<char>, b: Seq<char>)
    requires
        a != b,
    ensures
        text_lt(a, b) || text_lt(b, a),
    decreases a.len(),
{
    if a.len() == 0 || b.len() == 0 {
        if a.len() == 0 && b.len() == 0 {
            assert(a =~= b);
        }
    } else if a[0] == b[0] {
        if a.drop_first() == b.drop_first() {
            assert(a.len() == b.len()) by {
                assert(a.drop_first().len() == b.drop_first().len());
            }
            assert(a =~= b) by {
                assert forall|k: int| 0 <= k < a.len() implies a[k] == b[k] by {
                    if k > 0 {
                        assert(a[k] == a.drop_first()[k - 1]);
                        assert(b[k] == b.drop_first()[k - 1]);
                    }
                }
            }
        } else {
            lemma_text_lt_total(a.drop_first(), b.drop_first());
        }
    } else {
        assert((a[0] as int) != (b[0] as int));
    }
}

/// Not after: `x` then `y` then `z` in order implies `x` then `z`.
pub proof fn lemma_text_le_transitive(x: Seq<char>, y: Seq<char>, z: Seq<char>)
    requires
        !text_lt(y, x),
        !text_lt(z, y),
    ensures
        !text_lt(z, x),
{
    if text_lt(z, x) {
        if x == y {
        } else if y == z {
        } else {
            lemma_text_lt_total(x, y);
            lemma_text_lt_transitive(z, x, y);
        }
    }
}

/// `perm` visits the positions of `keys` in dictionary order, keeping
/// positions with equal keys in their original order.
pub open spec fn ranks_text_asc(keys: Seq<Seq<char>>, perm: Seq<usize>) -> bool {
    &&& is_permutation(perm, keys.len())
    &&& forall|a: int, b: int|
        0 <= a < b < perm.len() ==> !text_lt(#[trigger] keys[perm[b] as int], #[trigger] keys[perm[a] as int])
    &&& forall|a: int, b: int|
        0 <= a < b < perm.len() && keys[perm[a] as int] == keys[perm[b] as int] ==> perm[a] < perm[b]
}

/// Relies on str's `<`: dictionary order of the bytes, which for UTF-8 text
/// is dictionary order of the code points.
#[verifier::external_body]
fn text_less(a: &str, b: &str) -> (r: bool)
    ensures
        r == text_lt(a@, b@),
{
    a < b
}

pub open spec fn text_views(v: Seq<String>) -> Seq<Seq<char>> {
    v.map_values(|s: String| s@)
}

/// The positions of `keys` in dictionary order, ties in their original
/// order.
pub fn ascending_text_order(keys: &Vec<String>) -> (perm: Vec<usize>)
    ensures
        ranks_text_asc(text_views(keys@), perm@),
{
    let ghost kv = text_views(keys@);
    let n = keys.len();
    let mut perm: Vec<usize> = Vec::new();
    let mut i: usize = 0;
    while i < n
        invariant
            n == keys.len(),
            kv == text_views(keys@),
            i <= n,
            perm.len() == i,
            forall|k: int| 0 <= k < perm.len() ==> perm[k] < i,
            forall|a: int, b: int| 0 <= a < b < perm.len() ==> perm[a] != perm[b],
            forall|a: int, b: int|
                0 <= a < b < perm.len() ==> !text_lt(#[trigger] kv[perm[b] as int], #[trigger] kv[perm[a] as int]),
            forall|a: int, b: int|
                0 <= a < b < perm.len() && kv[perm[a] as int] == kv[perm[b] as int] ==> perm[a] < perm[b],
        decreases n - i,
    {
        let ghost ki = kv[i as int];
        let mut j: usize = perm.len();
        while j > 0 && text_less(keys[i].as_str(), keys[perm[j - 1]].as_str())
            invariant
                n == keys.len(),
                kv == text_views(keys@),
                i < n,
                ki == kv[i as int],
                j <= perm.len(),
                perm.len() == i,
                forall|k: int| 0 <= k < perm.len() ==> perm[k] < i,
                forall|k: int| j <= k < perm.len() ==> text_lt(ki, #[trigger] kv[perm[k] as int]),
            decreases j,
        {
            j = j - 1;
        }
        proof {
            assert forall|k: int| 0 <= k < j implies !text_lt(ki, #[trigger] kv[perm[k] as int]) by {
                if k < j - 1 {
                    lemma_text_le_transitive(kv[perm[k] as int], kv[perm[j - 1] as int], ki);
                }
            }
        }
        let ghost old_perm = perm@;
        perm.insert(j, i);
        proof {
            assert forall|k: int| 0 <= k < perm.len() implies perm[k] < i + 1 by {
                if k < j { assert(perm[k] == old_perm[k]); } else if k > j { assert(perm[k] == old_perm[k - 1]); }
            }
            assert forall|a: int, b: int| 0 <= a < b < perm.len() implies perm[a] != perm[b] by {
                if b < j {
                } else if a > j {
                    assert(perm[a] == old_perm[a - 1]);
                    assert(perm[b] == old_perm[b - 1]);
                } else if a == j {
                    assert(perm[b] == old_perm[b - 1]);
                } else if b == j {
                } else {
                    assert(perm[b] == old_perm[b - 1]);
                }
            }
            assert forall|a: int, b: int| 0 <= a < b < perm.len() implies !text_lt(
                #[trigger] kv[perm[b] as int],
                #[trigger] kv[perm[a] as int],
            ) by {
                if b < j {
                    assert(!text_lt(kv[old_perm[b] as int], kv[old_perm[a] as int]));
                } else if a > j {
                    assert(!text_lt(kv[old_perm[b - 1] as int], kv[old_perm[a - 1] as int]));
                } else if a == j {
                    assert(text_lt(ki, kv[old_perm[b - 1] as int]));
                    if text_lt(kv[old_perm[b - 1] as int], ki) {
                        lemma_text_lt_transitive(ki, kv[old_perm[b - 1] as int], ki);
                        lemma_text_lt_irreflexive(ki);
                    }
                } else if b == j {
                    assert(!text_lt(ki, kv[old_perm[a] as int]));
                } else {
                    assert(!text_lt(kv[old_perm[b - 1] as int], kv[old_perm[a] as int]));
                }
            }
            assert forall|a: int, b: int|
                0 <= a < b < perm.len() && kv[perm[a] as int] == kv[perm[b] as int] implies perm[a] < perm[b] by {
                if b < j {
                } else if a > j {
                    assert(perm[a] == old_perm[a - 1]);
                    assert(perm[b] == old_perm[b - 1]);
                } else if a == j {
                    assert(text_lt(ki, kv[old_perm[b - 1] as int]));
                    lemma_text_lt_irreflexive(ki);
                } else if b == j {
                    assert(perm[a] == old_perm[a]);
                } else {
                    assert(perm[b] == old_perm[b - 1]);
                }
            }
        }
        i = i + 1;
    }
    perm
}

/// The positions of `perm` whose flag is set, then the others, each group
/// in the order of `perm`.
pub open spec fn flagged_first(perm: Seq<usize>, flags: Seq<bool>) -> Seq<usize> {
    perm.filter(|i: usize| flags[i as int]) + perm.filter(|i: usize| !flags[i as int])
}

fn flag_group(perm: &Vec<usize>, flags: &Vec<bool>, want: bool) -> (r: Vec<usize>)
    requires
        forall|k: int| 0 <= k < perm.len() ==> perm[k] < flags.len(),
    ensures
        r@ == perm@.filter(|i: usize| flags@[i as int] == want),
{
    let mut r: Vec<usize> = Vec::new();
    let mut k: usize = 0;
    while k < perm.len()
        invariant
            k <= perm.len(),
            forall|m: int| 0 <= m < perm.len() ==> perm[m] < flags.len(),
            r@ == perm@.subrange(0, k as int).filter(|i: usize| flags@[i as int] == want),
        decreases perm.len() - k,
    {
        let i = perm[k];
        if flags[i] == want {
            r.push(i);
        }
        proof {
            reveal(Seq::filter);
            assert(perm@.subrange(0, k + 1).drop_last() =~= perm@.subrange(0, k as int));
            assert(perm@.subrange(0, k + 1).last() == i);
        }
        k = k + 1;
    }
    assert(perm@.subrange(0, perm.len() as int) =~= perm@);
    r
}

/// Reorders `perm` so that positions whose flag is set come first.
pub fn flag_first_order(perm: &Vec<usize>, flags: &Vec<bool>) -> (r: Vec<usize>)
    requires
        forall|k: int| 0 <= k < perm.len() ==> perm[k] < flags.len(),
    ensures
        r@ == flagged_first(perm@, flags@),
{
    let mut first = flag_group(perm, flags, true);
    let mut rest = flag_group(perm, flags, false);
    let ghost f1 = |i: usize| flags@[i as int] == true;
    let ghost g1 = |i: usize| flags@[i as int];
    let ghost f2 = |i: usize| flags@[i as int] == false;
    let ghost g2 = |i: usize| !flags@[i as int];
    assert(f1 =~= g1);
    assert(f2 =~= g2);
    first.append(&mut rest);
    first
}

/// Moves the items of `items` into the order `order`, which lists each
/// position once.
pub fn apply_order<T>(items: Vec<T>, order: &Vec<usize>) -> (out: Vec<T>)
    requires
        is_permutation(order@, items.len() as nat),
    ensures
        out@ == order@.map_values(|i: usize| items@[i as int]),
{
    let ghost orig = items@;
    let n = items.len();
    let mut items = items;
    let mut rev: Vec<Option<T>> = Vec::new();
    while items.len() > 0
        invariant
            items@ == orig.subrange(0, items.len() as int),
            rev.len() + items.len() == n,
            n == orig.len(),
            forall|k: int| 0 <= k < rev.len() ==> rev[k] == Some(orig[n - 1 - k]),
        decreases items.len(),
    {
        let x = items.pop();
        match x {
            Some(v) => rev.push(Some(v)),
            None => {},
        }
    }
    let mut slots: Vec<Option<T>> = Vec::new();
    while rev.len() > 0
        invariant
            slots.len() + rev.len() == n,
            n == orig.len(),
            forall|k: int| 0 <= k < rev.len() ==> rev[k] == Some(orig[n - 1 - k]),
            forall|k: int| 0 <= k < slots.len() ==> slots[k] == Some(orig[k]),
        decreases rev.len(),
    {
        let x = rev.pop();
        match x {
            Some(v) => slots.push(v),
            None => {},
        }
    }
    let mut out: Vec<T> = Vec::new();
    let mut k: usize = 0;
    while k < order.len()
        invariant
            is_permutation(order@, n as nat),
            n == orig.len(),
            slots.len() == n,
            k <= order.len(),
            out@ == order@.subrange(0, k as int).map_values(|i: usize| orig[i as int]),
            forall|m: int| k <= m < order.len() ==> slots[order[m] as int] == Some(orig[order[m] as int]),
        decreases order.len() - k,
    {
        let j = order[k];
        let x = slots.remove(j);
        slots.insert(j, None);
        proof {
            assert forall|m: int| k + 1 <= m < order.len() implies slots[order[m] as int] == Some(
                orig[order[m] as int],
            ) by {
                assert(order[m] != order[k as int]);
            }
        }
        match x {
            Some(v) => out.push(v),
            None => {},
        }
        k = k + 1;
        assert(out@ =~= order@.subrange(0, k as int).map_values(|i: usize| orig[i as int]));
    }
    assert(order@.subrange(0, order.len() as int) =~= order@);
    out
}

} // verus!
