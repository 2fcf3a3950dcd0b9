//! Saved-SQL folders: which folders go when a folder is deleted, and in
//! which order.

use vstd::prelude::*;
use crate::text::{string_views, strings_contain};

verus! {

/// A folder row's parent is the folder `p`.
pub open spec fn parent_is(parent: Option<String>, p: Seq<char>) -> bool {
    parent matches Some(q) && q@ == p
}

/// Folder `x` is listed as a child of folder `p`.
pub open spec fn is_child_of(folders: Seq<(String, Option<String>)>, x: Seq<char>, p: Seq<char>) -> bool {
    exists|j: int|
        #![trigger folders[j]]
        0 <= j < folders.len() && folders[j].0@ == x && parent_is(folders[j].1, p)
}

/// `chain` leads down the folder tree: each folder after the first is a
/// child of the one before it.
pub open spec fn is_descent(folders: Seq<(String, Option<String>)>, chain: Seq<Seq<char>>) -> bool {
    &&& chain.len() > 0
    &&& forall|i: int| 0 < i < chain.len() ==> is_child_of(folders, #[trigger] chain[i], chain[i - 1])
}

/// Folder `x` is `root` or lies somewhere below it.
pub open spec fn in_subtree(folders: Seq<(String, Option<String>)>, root: Seq<char>, x: Seq<char>) -> bool {
    exists|chain: Seq<Seq<char>>| #[trigger] is_descent(folders, chain) && chain[0] == root && chain.last() == x
}

/// The folder `root` and every folder below it.
pub open spec fn subtree(folders: Seq<(String, Option<String>)>, root: Seq<char>) -> Set<Seq<char>> {
    Set::new(|x: Seq<char>| in_subtree(folders, root, x))
}

/// The number of `false` entries.
pub open spec fn unused_count(s: Seq<bool>) -> nat
    decreases s.len(),
{
    if s.len() == 0 {
        0
    } else {
        unused_count(s.drop_last()) + if s.last() {
            0nat
        } else {
            1nat
        }
    }
}

proof fn lemma_unused_mark(s: Seq<bool>, j: int)
    requires
        0 <= j < s.len(),
        !s[j],
    ensures
        unused_count(s) >= 1,
        unused_count(s.update(j, true)) == unused_count(s) - 1,
    decreases s.len(),
{
    let t = s.update(j, true);
    if j == s.len() - 1 {
        assert(t.drop_last() =~= s.drop_last());
    } else {
        assert(t.drop_last() =~= s.drop_last().update(j, true));
        lemma_unused_mark(s.drop_last(), j);
    }
}

/// Every folder of a descent from a listed folder is listed, where the
/// list holds every child of every listed folder.
proof fn lemma_closed_list_holds_descent(
    folders: Seq<(String, Option<String>)>,
    listed: Seq<Seq<char>>,
    chain: Seq<Seq<char>>,
    n: int,
)
    requires
        is_descent(folders, chain),
        listed.contains(chain[0]),
        forall|q: int, j: int|
            #![trigger listed[q], folders[j]]
            0 <= q < listed.len() && 0 <= j < folders.len() && parent_is(folders[j].1, listed[q])
                ==> listed.contains(folders[j].0@),
        0 <= n < chain.len(),
    ensures
        listed.contains(chain[n]),
    decreases n,
{
    if n > 0 {
        lemma_closed_list_holds_descent(folders, listed, chain, n - 1);
        let q = choose|q: int| 0 <= q < listed.len() && listed[q] == chain[n - 1];
        assert(is_child_of(folders, chain[n], chain[n - 1]));
        let j = choose|j: int|
            #![trigger folders[j]]
            0 <= j < folders.len() && folders[j].0@ == chain[n] && parent_is(folders[j].1, chain[n - 1]);
        assert(listed[q] == chain[n - 1]);
        assert(listed.contains(folders[j].0@));
    }
}

/// A descent to `p` followed by a child of `p` is a descent.
proof fn lemma_descent_extends(
    folders: Seq<(String, Option<String>)>,
    root: Seq<char>,
    p: Seq<char>,
    x: Seq<char>,
)
    requires
        in_subtree(folders, root, p),
        is_child_of(folders, x, p),
    ensures
        in_subtree(folders, root, x),
{
    let c = choose|c: Seq<Seq<char>>| #[trigger] is_descent(folders, c) && c[0] == root && c.last() == p;
    let d = c.push(x);
    assert forall|i: int| 0 < i < d.len() implies is_child_of(folders, #[trigger] d[i], d[i - 1]) by {
        if i < c.len() {
            assert(d[i] == c[i] && d[i - 1] == c[i - 1]);
        }
    }
    assert(is_descent(folders, d) && d[0] == root && d.last() == x);
}

/// The breadth-first list `ov` from `root`: starts at `root`, holds each
/// folder once, only folders below `root`, and each folder after one it is a
/// child of.
#[verifier::opaque]
spec fn search_list(fs: Seq<(String, Option<String>)>, root: Seq<char>, ov: Seq<Seq<char>>) -> bool {
    &&& ov.len() > 0
    &&& ov[0] == root
    &&& ov.no_duplicates()
    &&& forall|k: int| 0 <= k < ov.len() ==> in_subtree(fs, root, #[trigger] ov[k])
    &&& forall|k: int| 0 < k < ov.len() ==> exists|q: int| 0 <= q < k && is_child_of(fs, #[trigger] ov[k], ov[q])
}

/// Every child of the first `idx` folders of `ov` is in `ov`.
#[verifier::opaque]
spec fn children_listed(fs: Seq<(String, Option<String>)>, ov: Seq<Seq<char>>, idx: int) -> bool {
    forall|q: int, j: int|
        #![trigger ov[q], fs[j]]
        0 <= q < idx && 0 <= j < fs.len() && parent_is(fs[j].1, ov[q]) ==> ov.contains(fs[j].0@)
}

/// Every folder row marked as used is in `ov`.
#[verifier::opaque]
spec fn used_listed(fs: Seq<(String, Option<String>)>, used: Seq<bool>, ov: Seq<Seq<char>>) -> bool {
    forall|j: int| 0 <= j < used.len() && used[j] ==> ov.contains(#[trigger] fs[j].0@)
}

/// Adding a new child of a listed folder keeps the search list.
proof fn lemma_search_list_push(
    fs: Seq<(String, Option<String>)>,
    root: Seq<char>,
    ov: Seq<Seq<char>>,
    idx: int,
    x: Seq<char>,
)
    requires
        search_list(fs, root, ov),
        0 <= idx < ov.len(),
        is_child_of(fs, x, ov[idx]),
        !ov.contains(x),
    ensures
        search_list(fs, root, ov.push(x)),
{
    reveal(search_list);
    let nv = ov.push(x);
    lemma_descent_extends(fs, root, ov[idx], x);
    assert(nv[ov.len() as int] == x);
    assert(nv[0] == root);
    assert forall|a: int, b: int| 0 <= a < nv.len() && 0 <= b < nv.len() && a != b implies nv[a] != nv[b] by {
        if b == ov.len() {
            assert(nv[a] == ov[a]);
        } else if a == ov.len() {
            assert(nv[b] == ov[b]);
        } else {
            assert(nv[a] == ov[a] && nv[b] == ov[b]);
        }
    }
    assert(nv.no_duplicates());
    assert forall|k: int| 0 <= k < nv.len() implies in_subtree(fs, root, #[trigger] nv[k]) by {
        if k < ov.len() {
            assert(nv[k] == ov[k]);
        }
    }
    assert forall|k: int| 0 < k < nv.len() implies exists|q: int| 0 <= q < k && is_child_of(fs, #[trigger] nv[k], nv[q]) by {
        if k < ov.len() {
            assert(nv[k] == ov[k]);
            let q = choose|q: int| 0 <= q < k && is_child_of(fs, #[trigger] ov[k], ov[q]);
            assert(nv[q] == ov[q]);
        } else {
            assert(nv[idx] == ov[idx]);
        }
    }
}

/// Growing the list keeps what it listed.
proof fn lemma_listed_grows(
    fs: Seq<(String, Option<String>)>,
    used: Seq<bool>,
    ov: Seq<Seq<char>>,
    x: Seq<char>,
    idx: int,
)
    requires
        children_listed(fs, ov, idx),
        used_listed(fs, used, ov),
        0 <= idx <= ov.len(),
    ensures
        children_listed(fs, ov.push(x), idx),
        used_listed(fs, used, ov.push(x)),
        forall|y: Seq<char>| ov.contains(y) ==> #[trigger] ov.push(x).contains(y),
{
    reveal(children_listed);
    reveal(used_listed);
    let nv = ov.push(x);
    assert forall|y: Seq<char>| ov.contains(y) implies #[trigger] nv.contains(y) by {
        let w = choose|w: int| 0 <= w < ov.len() && ov[w] == y;
        assert(nv[w] == y);
    }
    assert forall|q: int, j: int|
        #![trigger nv[q], fs[j]]
        0 <= q < idx && 0 <= j < fs.len() && parent_is(fs[j].1, nv[q]) implies nv.contains(fs[j].0@) by {
        assert(nv[q] == ov[q]);
        assert(ov.contains(fs[j].0@));
    }
}

/// Lists the children of the folder at `idx` that are not listed yet, and
/// marks the rows it looked at.
fn list_children(
    folders: &[(String, Option<String>)],
    idx: usize,
    order: &mut Vec<String>,
    used: &mut Vec<bool>,
    remaining: &mut usize,
    Ghost(root): Ghost<Seq<char>>,
)
    requires
        old(used)@.len() == folders.len(),
        *old(remaining) == unused_count(old(used)@),
        idx < old(order)@.len(),
        search_list(folders@, root, string_views(old(order)@)),
        children_listed(folders@, string_views(old(order)@), idx as int),
        used_listed(folders@, old(used)@, string_views(old(order)@)),
    ensures
        final(used)@.len() == folders.len(),
        *final(remaining) == unused_count(final(used)@),
        search_list(folders@, root, string_views(final(order)@)),
        children_listed(folders@, string_views(final(order)@), idx + 1),
        used_listed(folders@, final(used)@, string_views(final(order)@)),
        final(order)@.len() >= old(order)@.len(),
        final(order)@.len() - old(order)@.len() <= *old(remaining) - *final(remaining),
{
    let ghost fs = folders@;
    let ghost len0 = order@.len();
    let ghost rem0 = *remaining;
    let mut j: usize = 0;
    while j < folders.len()
        invariant
            fs == folders@,
            used@.len() == fs.len(),
            *remaining == unused_count(used@),
            len0 <= order@.len(),
            idx < len0,
            order@.len() - len0 <= rem0 - *remaining,
            *remaining <= rem0,
            search_list(fs, root, string_views(order@)),
            children_listed(fs, string_views(order@), idx as int),
            used_listed(fs, used@, string_views(order@)),
            forall|jj: int|
                0 <= jj < j && parent_is(fs[jj].1, string_views(order@)[idx as int]) ==> string_views(
                    order@,
                ).contains(#[trigger] fs[jj].0@),
        decreases folders.len() - j,
    {
        let ghost ov = string_views(order@);
        assert(ov[idx as int] == order@[idx as int]@);
        let hit = match &folders[j].1 {
            Some(p) => crate::text::str_eq(p.as_str(), order[idx].as_str()),
            None => false,
        };
        if hit {
            if used[j] {
                proof {
                    reveal(used_listed);
                }
            } else {
                proof {
                    lemma_unused_mark(used@, j as int);
                }
                let ghost u0 = used@;
                used.set(j, true);
                *remaining = *remaining - 1;
                if strings_contain(order.as_slice(), &folders[j].0) {
                    proof {
                        reveal(used_listed);
                        assert forall|jj: int| 0 <= jj < used@.len() && used@[jj] implies ov.contains(
                            #[trigger] fs[jj].0@,
                        ) by {
                            if jj != j {
                                assert(u0[jj]);
                            }
                        }
                    }
                } else {
                    let child = folders[j].0.clone();
                    proof {
                        assert(is_child_of(fs, fs[j as int].0@, ov[idx as int]));
                        lemma_search_list_push(fs, root, ov, idx as int, fs[j as int].0@);
                        lemma_listed_grows(fs, u0, ov, fs[j as int].0@, idx as int);
                    }
                    order.push(child);
                    proof {
                        let nv = ov.push(fs[j as int].0@);
                        assert(string_views(order@) =~= nv);
                        assert(nv[ov.len() as int] == fs[j as int].0@);
                        reveal(used_listed);
                        assert forall|jj: int| 0 <= jj < used@.len() && used@[jj] implies nv.contains(
                            #[trigger] fs[jj].0@,
                        ) by {
                            if jj != j {
                                assert(u0[jj]);
                                assert(ov.contains(fs[jj].0@));
                            }
                        }
                        assert(nv[idx as int] == ov[idx as int]);
                    }
                }
            }
        }
        j = j + 1;
    }
    proof {
        let ov = string_views(order@);
        reveal(children_listed);
        assert forall|q: int, jj: int|
            #![trigger ov[q], fs[jj]]
            0 <= q < idx + 1 && 0 <= jj < fs.len() && parent_is(fs[jj].1, ov[q]) implies ov.contains(fs[jj].0@) by {
        }
    }
}

/// The folders that deleting folder `root` removes, in the order they go:
/// `root` and every folder below it, each once, every folder before the
/// folder it was found under, `root` last.
pub fn saved_sql_folder_deletion_order(root: &str, folders: &[(String, Option<String>)]) -> (r: Vec<String>)
    ensures
        string_views(r@).no_duplicates(),
        string_views(r@).to_set() == subtree(folders@, root@),
        r@.len() > 0,
        r@.last()@ == root@,
        forall|i: int|
            0 <= i < r@.len() - 1 ==> exists|j: int|
                i < j < r@.len() && is_child_of(folders@, #[trigger] r@[i]@, r@[j]@),
{
    let ghost fs = folders@;
    let n = folders.len();
    let mut used: Vec<bool> = Vec::new();
    let mut remaining: usize = 0;
    while used.len() < n
        invariant
            used@.len() <= n,
            n == folders.len(),
            remaining == unused_count(used@),
            remaining == used@.len(),
            forall|j: int| 0 <= j < used@.len() ==> !used@[j],
        decreases n - used.len(),
    {
        let ghost u0 = used@;
        used.push(false);
        assert(used@.drop_last() =~= u0);
        remaining = remaining + 1;
    }
    let mut order: Vec<String> = Vec::new();
    order.push(String::from_str(root));
    proof {
        let ov = string_views(order@);
        assert(ov =~= seq![root@]);
        let c = seq![root@];
        assert(is_descent(fs, c) && c[0] == root@ && c.last() == root@);
        assert(in_subtree(fs, root@, ov[0]));
        reveal(search_list);
        reveal(children_listed);
        reveal(used_listed);
    }
    let mut idx: usize = 0;
    while idx < order.len()
        invariant
            fs == folders@,
            used@.len() == fs.len(),
            remaining == unused_count(used@),
            idx <= order@.len(),
            search_list(fs, root@, string_views(order@)),
            children_listed(fs, string_views(order@), idx as int),
            used_listed(fs, used@, string_views(order@)),
        decreases remaining, order@.len() - idx,
    {
        list_children(folders, idx, &mut order, &mut used, &mut remaining, Ghost(root@));
        idx = idx + 1;
    }
    let ghost ov = string_views(order@);
    let mut r: Vec<String> = Vec::new();
    let mut t: usize = order.len();
    while t > 0
        invariant
            t <= order@.len(),
            ov == string_views(order@),
            string_views(r@) == ov.subrange(t as int, ov.len() as int).reverse(),
        decreases t,
    {
        let ghost prev = string_views(r@);
        let c = order[t - 1].clone();
        assert(c@ == ov[t - 1]);
        r.push(c);
        assert(string_views(r@) =~= prev.push(ov[t - 1]));
        t = t - 1;
        assert(ov.subrange(t as int, ov.len() as int).reverse() =~= ov.subrange(t + 1, ov.len() as int).reverse().push(
            ov[t as int],
        ));
    }
    proof {
        reveal(search_list);
        reveal(children_listed);
        assert forall|x: Seq<char>| subtree(fs, root@).contains(x) implies ov.contains(x) by {
            let c = choose|c: Seq<Seq<char>>| #[trigger] is_descent(fs, c) && c[0] == root@ && c.last() == x;
            assert(ov[0] == root@);
            lemma_closed_list_holds_descent(fs, ov, c, c.len() - 1);
        }
        let rv = string_views(r@);
        assert(ov.subrange(0, ov.len() as int) =~= ov);
        assert(rv =~= ov.reverse());
        assert(rv.len() == ov.len());
        assert forall|a: int, b: int| 0 <= a < b < rv.len() implies rv[a] != rv[b] by {
            assert(rv[a] == ov[ov.len() - 1 - a] && rv[b] == ov[ov.len() - 1 - b]);
        }
        assert(rv.to_set() =~= subtree(fs, root@)) by {
            assert forall|x: Seq<char>| rv.to_set().contains(x) implies subtree(fs, root@).contains(x) by {
                let w = choose|w: int| 0 <= w < rv.len() && rv[w] == x;
                assert(ov[ov.len() - 1 - w] == x);
            }
            assert forall|x: Seq<char>| subtree(fs, root@).contains(x) implies rv.to_set().contains(x) by {
                let w = choose|w: int| 0 <= w < ov.len() && ov[w] == x;
                assert(rv[ov.len() - 1 - w] == x);
            }
        }
        assert(r@.last()@ == rv[rv.len() - 1]);
        assert forall|i: int| 0 <= i < r@.len() - 1 implies exists|j: int|
            i < j < r@.len() && is_child_of(fs, #[trigger] r@[i]@, r@[j]@) by {
            let k = ov.len() - 1 - i;
            assert(rv[i] == ov[k]);
            let q = choose|q: int| 0 <= q < k && is_child_of(fs, #[trigger] ov[k], ov[q]);
            let j = ov.len() - 1 - q;
            assert(rv[j] == ov[q]);
            assert(r@[i]@ == rv[i] && r@[j]@ == rv[j]);
        }
    }
    r
}

} // verus!
