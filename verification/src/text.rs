//! Character-sequence utilities: Unicode whitespace, trimming, ordering and
//! canonical (sorted, duplicate-free) string lists.

use vstd::prelude::*;

verus! {

/// The Unicode `White_Space` property (PropList.txt), which is what
/// `char::is_whitespace` and `str::trim` use.
pub open spec fn is_white_space(c: char) -> bool {
    let u = c as u32;
    ||| (0x9 <= u && u <= 0xD)
    ||| u == 0x20
    ||| u == 0x85
    ||| u == 0xA0
    ||| u == 0x1680
    ||| (0x2000 <= u && u <= 0x200A)
    ||| u == 0x2028
    ||| u == 0x2029
    ||| u == 0x202F
    ||| u == 0x205F
    ||| u == 0x3000
}

/// Executable form of [`is_white_space`].
pub fn char_is_white_space(c: char) -> (r: bool)
    ensures
        r == is_white_space(c),
{
    let u = c as u32;
    (0x9 <= u && u <= 0xD) || u == 0x20 || u == 0x85 || u == 0xA0 || u == 0x1680 || (0x2000 <= u
        && u <= 0x200A) || u == 0x2028 || u == 0x2029 || u == 0x202F || u == 0x205F || u == 0x3000
}

/// Leading whitespace removed.
pub open spec fn trim_start(s: Seq<char>) -> Seq<char>
    decreases s.len(),
{
    if s.len() > 0 && is_white_space(s[0]) {
        trim_start(s.drop_first())
    } else {
        s
    }
}

/// Trailing whitespace removed.
pub open spec fn trim_end(s: Seq<char>) -> Seq<char>
    decreases s.len(),
{
    if s.len() > 0 && is_white_space(s.last()) {
        trim_end(s.drop_last())
    } else {
        s
    }
}

/// Leading and trailing whitespace removed, as `str::trim` does.
pub open spec fn trim(s: Seq<char>) -> Seq<char> {
    trim_end(trim_start(s))
}

/// Neither starts nor ends with whitespace.
pub open spec fn is_trimmed(s: Seq<char>) -> bool {
    s.len() > 0 ==> !is_white_space(s[0]) && !is_white_space(s.last())
}

proof fn lemma_trim_end_keeps_start(s: Seq<char>)
    requires
        s.len() > 0 ==> !is_white_space(s[0]),
    ensures
        is_trimmed(trim_end(s)),
        trim_end(s).len() > 0 ==> trim_end(s)[0] == s[0],
    decreases s.len(),
{
    if s.len() > 0 && is_white_space(s.last()) {
        lemma_trim_end_keeps_start(s.drop_last());
    }
}

proof fn lemma_trim_start_result(s: Seq<char>)
    ensures
        trim_start(s).len() > 0 ==> !is_white_space(trim_start(s)[0]),
    decreases s.len(),
{
    if s.len() > 0 && is_white_space(s[0]) {
        lemma_trim_start_result(s.drop_first());
    }
}

/// `trim` leaves no whitespace at either end, so trimming again changes
/// nothing.
pub proof fn lemma_trim_is_trimmed(s: Seq<char>)
    ensures
        is_trimmed(trim(s)),
        trim(trim(s)) == trim(s),
{
    lemma_trim_start_result(s);
    lemma_trim_end_keeps_start(trim_start(s));
    lemma_trimmed_fixed(trim(s));
}

/// A trimmed sequence is its own trim.
pub proof fn lemma_trimmed_fixed(s: Seq<char>)
    requires
        is_trimmed(s),
    ensures
        trim(s) == s,
{
    assert(trim_start(s) == s);
    assert(trim_end(s) == s);
}

proof fn lemma_trim_start_skip(s: Seq<char>, i: int)
    requires
        0 <= i <= s.len(),
        forall|j: int| 0 <= j < i ==> is_white_space(#[trigger] s[j]),
    ensures
        trim_start(s) == trim_start(s.subrange(i, s.len() as int)),
    decreases i,
{
    if i > 0 {
        assert(s.drop_first() =~= s.subrange(1, s.len() as int));
        lemma_trim_start_skip(s.drop_first(), i - 1);
        assert(s.drop_first().subrange(i - 1, s.drop_first().len() as int) =~= s.subrange(
            i,
            s.len() as int,
        ));
    } else {
        assert(s.subrange(0, s.len() as int) =~= s);
    }
}

proof fn lemma_trim_end_cut(s: Seq<char>, j: int)
    requires
        0 <= j <= s.len(),
        forall|k: int| j <= k < s.len() ==> is_white_space(#[trigger] s[k]),
    ensures
        trim_end(s) == trim_end(s.subrange(0, j)),
    decreases s.len() - j,
{
    if j < s.len() {
        assert(s.drop_last() =~= s.subrange(0, s.len() - 1));
        lemma_trim_end_cut(s.drop_last(), j);
        assert(s.drop_last().subrange(0, j) =~= s.subrange(0, j));
    } else {
        assert(s.subrange(0, j) =~= s);
    }
}

/// The characters of a string slice, in order.
pub fn chars_of(s: &str) -> (r: Vec<char>)
    ensures
        r@ == s@,
{
    let n = s.unicode_len();
    let mut r: Vec<char> = Vec::new();
    let mut i: usize = 0;
    while i < n
        invariant
            n == s@.len(),
            i <= n,
            r@ == s@.subrange(0, i as int),
        decreases n - i,
    {
        let c = s.get_char(i);
        r.push(c);
        i = i + 1;
        assert(r@ =~= s@.subrange(0, i as int));
    }
    assert(r@ =~= s@);
    r
}

/// A string holding exactly the given characters: `Iterator::collect` of
/// the characters into a `String`, which appends each in order.
#[verifier::external_body]
pub(crate) fn string_of(v: &[char]) -> (s: String)
    ensures
        s@ == v@,
{
    v.iter().collect()
}

/// The characters of `s` from index `n` on.
pub fn chars_after(s: &[char], n: usize) -> (r: Vec<char>)
    requires
        n <= s.len(),
    ensures
        r@ == s@.skip(n as int),
{
    let mut r: Vec<char> = Vec::new();
    let mut i: usize = n;
    while i < s.len()
        invariant
            n <= i <= s.len(),
            r@ == s@.subrange(n as int, i as int),
        decreases s.len() - i,
    {
        r.push(s[i]);
        i = i + 1;
        assert(r@ =~= s@.subrange(n as int, i as int));
    }
    assert(r@ =~= s@.skip(n as int));
    r
}

/// A copy of a list of strings.
pub fn copy_strings(v: &[String]) -> (r: Vec<String>)
    ensures
        r@ == v@,
{
    let mut r: Vec<String> = Vec::new();
    let mut k: usize = 0;
    while k < v.len()
        invariant
            k <= v.len(),
            r@ == v@.subrange(0, k as int),
        decreases v.len() - k,
    {
        r.push(v[k].clone());
        k = k + 1;
        assert(r@ =~= v@.subrange(0, k as int));
    }
    assert(r@ =~= v@);
    r
}

/// Whether `v` holds a string equal to `x`.
pub fn strings_contain(v: &[String], x: &String) -> (b: bool)
    ensures
        b == string_views(v@).contains(x@),
{
    let mut k: usize = 0;
    while k < v.len()
        invariant
            k <= v.len(),
            forall|j: int| 0 <= j < k ==> v@[j]@ != x@,
        decreases v.len() - k,
    {
        if v[k] == *x {
            assert(string_views(v@)[k as int] == x@);
            return true;
        }
        k = k + 1;
    }
    proof {
        if string_views(v@).contains(x@) {
            let j = choose|j: int| 0 <= j < string_views(v@).len() && string_views(v@)[j] == x@;
            assert(v@[j]@ == x@);
        }
    }
    false
}

/// The entries of `left` that also occur in `right`, in `left`'s order.
pub fn retain_members(left: &[String], right: &[String]) -> (r: Vec<String>)
    ensures
        string_views(r@) == string_views(left@).filter(|d: Seq<char>| string_views(right@).contains(d)),
{
    let ghost lv = string_views(left@);
    let ghost pred = |d: Seq<char>| string_views(right@).contains(d);
    let mut r: Vec<String> = Vec::new();
    let mut k: usize = 0;
    assert(lv.take(0).filter(pred) =~= Seq::<Seq<char>>::empty());
    while k < left.len()
        invariant
            k <= left.len(),
            lv == string_views(left@),
            pred == (|d: Seq<char>| string_views(right@).contains(d)),
            string_views(r@) == lv.take(k as int).filter(pred),
        decreases left.len() - k,
    {
        assert(lv.take(k + 1) =~= lv.take(k as int).push(lv[k as int]));
        proof {
            lv.take(k as int).lemma_filter_push(lv[k as int], pred);
        }
        let ghost prev = string_views(r@);
        if strings_contain(right, &left[k]) {
            r.push(left[k].clone());
            assert(string_views(r@) =~= prev.push(lv[k as int]));
        } else {
            assert(string_views(r@) =~= prev);
        }
        k = k + 1;
    }
    assert(lv.take(left.len() as int) =~= lv);
    r
}

/// A copy of the characters.
pub fn copy_chars(s: &[char]) -> (r: Vec<char>)
    ensures
        r@ == s@,
{
    let mut r: Vec<char> = Vec::new();
    let mut k: usize = 0;
    while k < s.len()
        invariant
            k <= s.len(),
            r@ == s@.subrange(0, k as int),
        decreases s.len() - k,
    {
        r.push(s[k]);
        k = k + 1;
        assert(r@ =~= s@.subrange(0, k as int));
    }
    assert(r@ =~= s@);
    r
}

/// Trim whitespace from both ends.
pub fn trim_chars(s: &[char]) -> (r: Vec<char>)
    ensures
        r@ == trim(s@),
{
    let n = s.len();
    let mut i: usize = 0;
    while i < n && char_is_white_space(s[i])
        invariant
            n == s@.len(),
            i <= n,
            forall|j: int| 0 <= j < i ==> is_white_space(#[trigger] s@[j]),
        decreases n - i,
    {
        i = i + 1;
    }
    proof {
        lemma_trim_start_skip(s@, i as int);
    }
    let mut j: usize = n;
    while j > i && char_is_white_space(s[j - 1])
        invariant
            n == s@.len(),
            i <= j <= n,
            forall|k: int| j <= k < n ==> is_white_space(#[trigger] s@[k]),
        decreases j,
    {
        j = j - 1;
    }
    let ghost rest = s@.subrange(i as int, n as int);
    proof {
        if i < n {
            assert(!is_white_space(s@[i as int]));
            assert(trim_start(rest) == rest);
        } else {
            assert(rest.len() == 0);
        }
        assert forall|k: int| (j - i) <= k < rest.len() implies is_white_space(#[trigger] rest[k]) by {
            assert(rest[k] == s@[k + i]);
        }
        lemma_trim_end_cut(rest, j - i);
        let cut = rest.subrange(0, (j - i) as int);
        if j > i {
            assert(cut.last() == s@[j - 1]);
            assert(trim_end(cut) == cut);
        } else {
            assert(cut.len() == 0);
        }
    }
    let mut r: Vec<char> = Vec::new();
    let mut k: usize = i;
    while k < j
        invariant
            n == s@.len(),
            i <= k <= j <= n,
            r@ == s@.subrange(i as int, k as int),
        decreases j - k,
    {
        r.push(s[k]);
        k = k + 1;
        assert(r@ =~= s@.subrange(i as int, k as int));
    }
    assert(r@ =~= s@.subrange(i as int, n as int).subrange(0, (j - i) as int));
    r
}


/// Lexicographic order on character sequences by code point. For UTF-8
/// strings this is the order of `String`'s `Ord`.
pub open spec fn seq_lt(a: Seq<char>, b: Seq<char>) -> bool
    decreases a.len(),
{
    if a.len() == 0 {
        b.len() > 0
    } else if b.len() == 0 {
        false
    } else if a[0] < b[0] {
        true
    } else if a[0] == b[0] {
        seq_lt(a.drop_first(), b.drop_first())
    } else {
        false
    }
}

pub proof fn lemma_seq_lt_irreflexive(a: Seq<char>)
    ensures
        !seq_lt(a, a),
    decreases a.len(),
{
    if a.len() > 0 {
        lemma_seq_lt_irreflexive(a.drop_first());
    }
}

pub proof fn lemma_seq_lt_transitive(a: Seq<char>, b: Seq<char>, c: Seq<char>)
    requires
        seq_lt(a, b),
        seq_lt(b, c),
    ensures
        seq_lt(a, c),
    decreases a.len(),
{
    if a.len() > 0 && b.len() > 0 && c.len() > 0 {
        if a[0] == b[0] && b[0] == c[0] {
            lemma_seq_lt_transitive(a.drop_first(), b.drop_first(), c.drop_first());
        }
    }
}

pub proof fn lemma_seq_lt_total(a: Seq<char>, b: Seq<char>)
    ensures
        a == b || seq_lt(a, b) || seq_lt(b, a),
    decreases a.len(),
{
    if a.len() > 0 && b.len() > 0 {
        if a[0] == b[0] {
            lemma_seq_lt_total(a.drop_first(), b.drop_first());
            if a.drop_first() == b.drop_first() {
                assert(a =~= seq![a[0]] + a.drop_first());
                assert(b =~= seq![b[0]] + b.drop_first());
            }
        }
    } else if a.len() == 0 && b.len() == 0 {
        assert(a =~= b);
    }
}

/// Strictly increasing under [`seq_lt`] of the key of each element.
pub open spec fn sorted_by_key<T>(s: Seq<T>, key: spec_fn(T) -> Seq<char>) -> bool {
    forall|i: int, j: int| 0 <= i < j < s.len() ==> seq_lt(key(s[i]), key(s[j]))
}

/// Strictly increasing: sorted and free of duplicates.
pub open spec fn strictly_sorted(s: Seq<Seq<char>>) -> bool {
    forall|i: int, j: int| 0 <= i < j < s.len() ==> seq_lt(s[i], s[j])
}

/// Two sequences sorted strictly by the same key that hold the same elements
/// are equal.
pub proof fn lemma_sorted_by_key_unique<T>(a: Seq<T>, b: Seq<T>, key: spec_fn(T) -> Seq<char>)
    requires
        sorted_by_key(a, key),
        sorted_by_key(b, key),
        a.to_set() == b.to_set(),
    ensures
        a == b,
    decreases a.len(),
{
    if a.len() == 0 {
        if b.len() > 0 {
            assert(b.to_set().contains(b[0]));
        }
        assert(a =~= b);
    } else {
        assert(a.to_set().contains(a[0]));
        if b.len() == 0 {
            assert(false);
        }
        assert(b.to_set().contains(b[0]));
        let j = choose|j: int| 0 <= j < b.len() && b[j] == a[0];
        let i = choose|i: int| 0 <= i < a.len() && a[i] == b[0];
        if j > 0 {
            assert(seq_lt(key(b[0]), key(b[j])));
            if i > 0 {
                assert(seq_lt(key(a[0]), key(a[i])));
                lemma_seq_lt_transitive(key(a[0]), key(a[i]), key(a[0]));
                lemma_seq_lt_irreflexive(key(a[0]));
            } else {
                lemma_seq_lt_irreflexive(key(a[0]));
            }
        }
        assert(b[0] == a[0]);
        let x = a[0];
        let a1 = a.drop_first();
        let b1 = b.drop_first();
        assert forall|y: T| a1.to_set().contains(y) implies b1.to_set().contains(y) by {
            let k = choose|k: int| 0 <= k < a1.len() && a1[k] == y;
            assert(a.to_set().contains(y));
            let m = choose|m: int| 0 <= m < b.len() && b[m] == y;
            if m == 0 {
                assert(seq_lt(key(a[0]), key(a[k + 1])));
                lemma_seq_lt_irreflexive(key(a[0]));
            }
            assert(b1[m - 1] == y);
        }
        assert forall|y: T| b1.to_set().contains(y) implies a1.to_set().contains(y) by {
            let k = choose|k: int| 0 <= k < b1.len() && b1[k] == y;
            assert(b.to_set().contains(y));
            let m = choose|m: int| 0 <= m < a.len() && a[m] == y;
            if m == 0 {
                assert(seq_lt(key(b[0]), key(b[k + 1])));
                lemma_seq_lt_irreflexive(key(b[0]));
            }
            assert(a1[m - 1] == y);
        }
        assert(a1.to_set() =~= b1.to_set());
        lemma_sorted_by_key_unique(a1, b1, key);
        assert(a =~= seq![x] + a1);
        assert(b =~= seq![x] + b1);
    }
}

/// Filtering keeps order: a sorted sequence stays sorted, and every kept
/// element comes from the original and satisfies the predicate.
pub proof fn lemma_filter_sorted<T>(s: Seq<T>, pred: spec_fn(T) -> bool, key: spec_fn(T) -> Seq<char>)
    requires
        sorted_by_key(s, key),
    ensures
        sorted_by_key(s.filter(pred), key),
        forall|i: int|
            0 <= i < s.filter(pred).len() ==> s.contains(#[trigger] s.filter(pred)[i]) && pred(
                s.filter(pred)[i],
            ),
    decreases s.len(),
{
    reveal(Seq::filter);
    if s.len() > 0 {
        let d = s.drop_last();
        assert(sorted_by_key(d, key));
        lemma_filter_sorted(d, pred, key);
        let f = d.filter(pred);
        assert forall|i: int| 0 <= i < f.len() implies s.contains(#[trigger] f[i]) && pred(f[i]) by {
            let m = choose|m: int| 0 <= m < d.len() && d[m] == f[i];
            assert(s[m] == f[i]);
        }
        if pred(s.last()) {
            let g = f.push(s.last());
            assert forall|a: int, b: int| 0 <= a < b < g.len() implies seq_lt(key(g[a]), key(g[b])) by {
                if b == f.len() {
                    let m = choose|m: int| 0 <= m < d.len() && d[m] == f[a];
                    assert(s[m] == f[a]);
                    assert(seq_lt(key(s[m]), key(s[s.len() - 1])));
                }
            }
            assert forall|i: int| 0 <= i < g.len() implies s.contains(#[trigger] g[i]) && pred(g[i]) by {
                if i == f.len() {
                    assert(s[s.len() - 1] == g[i]);
                } else {
                    assert(g[i] == f[i]);
                }
            }
        }
    }
}

/// Non-empty, trimmed entries in strictly increasing order.
pub open spec fn is_clean_list(l: Seq<Seq<char>>) -> bool {
    &&& strictly_sorted(l)
    &&& forall|i: int| 0 <= i < l.len() ==> (#[trigger] l[i]).len() > 0 && is_trimmed(l[i])
}

/// The canonical list of a trimmed set is clean.
pub proof fn lemma_canonical_trimmed_clean(r: Seq<Seq<char>>, ids: Seq<Seq<char>>)
    requires
        is_canonical_list(r, trimmed_set(ids)),
    ensures
        is_clean_list(r),
{
    assert forall|i: int| 0 <= i < r.len() implies (#[trigger] r[i]).len() > 0 && is_trimmed(r[i]) by {
        assert(r.to_set().contains(r[i]));
        let j = choose|j: int| 0 <= j < ids.len() && trim(ids[j]) == r[i];
        lemma_trim_is_trimmed(ids[j]);
    }
}

pub open spec fn id_key(s: Seq<char>) -> Seq<char> {
    s
}

/// Sorted strictly and holding exactly the elements of `set`.
pub open spec fn is_canonical_list(r: Seq<Seq<char>>, set: Set<Seq<char>>) -> bool {
    strictly_sorted(r) && r.to_set() == set
}

/// The one strictly sorted sequence with the elements of `set`.
pub open spec fn canonical_list(set: Set<Seq<char>>) -> Seq<Seq<char>> {
    choose|r: Seq<Seq<char>>| is_canonical_list(r, set)
}

/// Every finite set of texts has its canonical list.
pub proof fn lemma_canonical_list_exists(set: Set<Seq<char>>)
    requires
        set.finite(),
    ensures
        is_canonical_list(canonical_list(set), set),
    decreases set.len(),
{
    if set.len() == 0 {
        let e = Seq::<Seq<char>>::empty();
        assert(set =~= Set::empty()) by {
            if exists|y: Seq<char>| set.contains(y) {
                let y = choose|y: Seq<char>| set.contains(y);
                vstd::set_lib::lemma_set_empty_equivalency_len(set);
            }
        }
        assert(e.to_set() =~= set);
        assert(is_canonical_list(e, set));
    } else {
        let x = set.choose();
        let rest = set.remove(x);
        lemma_canonical_list_exists(rest);
        let c = canonical_list(rest);
        let below = |y: Seq<char>| seq_lt(y, x);
        let above = |y: Seq<char>| seq_lt(x, y);
        assert(sorted_by_key(c, |y: Seq<char>| id_key(y))) by {
            assert forall|i: int, j: int| 0 <= i < j < c.len() implies seq_lt(id_key(c[i]), id_key(c[j])) by {}
        }
        lemma_filter_sorted(c, below, |y: Seq<char>| id_key(y));
        lemma_filter_sorted(c, above, |y: Seq<char>| id_key(y));
        let lt = c.filter(below);
        let gt = c.filter(above);
        let r = lt + seq![x] + gt;
        assert forall|i: int, j: int| 0 <= i < j < r.len() implies seq_lt(r[i], r[j]) by {
            if j < lt.len() {
                assert(seq_lt(id_key(lt[i]), id_key(lt[j])));
            } else if i > lt.len() {
                assert(r[i] == gt[i - lt.len() - 1]);
                assert(r[j] == gt[j - lt.len() - 1]);
                assert(seq_lt(id_key(gt[i - lt.len() - 1]), id_key(gt[j - lt.len() - 1])));
            } else if i == lt.len() {
                assert(r[j] == gt[j - lt.len() - 1]);
                assert(above(gt[j - lt.len() - 1]));
            } else if j == lt.len() {
                assert(below(lt[i]));
            } else {
                assert(below(lt[i]));
                assert(r[j] == gt[j - lt.len() - 1]);
                assert(above(gt[j - lt.len() - 1]));
                lemma_seq_lt_transitive(r[i], x, r[j]);
            }
        }
        assert forall|y: Seq<char>| r.to_set().contains(y) <==> set.contains(y) by {
            if set.contains(y) {
                if y == x {
                    assert(r[lt.len() as int] == x);
                } else {
                    assert(rest.contains(y));
                    assert(c.to_set().contains(y));
                    let i = choose|i: int| 0 <= i < c.len() && c[i] == y;
                    lemma_seq_lt_total(y, x);
                    if seq_lt(y, x) {
                        c.lemma_filter_contains(below, i);
                        let k = choose|k: int| 0 <= k < lt.len() && lt[k] == y;
                        assert(r[k] == y);
                    } else {
                        c.lemma_filter_contains(above, i);
                        let k = choose|k: int| 0 <= k < gt.len() && gt[k] == y;
                        assert(r[lt.len() + 1 + k] == y);
                    }
                }
            }
            if r.to_set().contains(y) {
                let i = choose|i: int| 0 <= i < r.len() && r[i] == y;
                if i < lt.len() {
                    assert(lt.contains(y));
                    c.lemma_filter_contains_rev(below, y);
                    assert(c.to_set().contains(y));
                } else if i > lt.len() {
                    assert(gt[i - lt.len() - 1] == y);
                    assert(gt.contains(y));
                    c.lemma_filter_contains_rev(above, y);
                    assert(c.to_set().contains(y));
                }
            }
        }
        assert(r.to_set() =~= set);
        assert(is_canonical_list(r, set));
    }
}

pub proof fn lemma_canonical_list_unique(r: Seq<Seq<char>>, set: Set<Seq<char>>)
    requires
        is_canonical_list(r, set),
    ensures
        canonical_list(set) == r,
{
    let c = canonical_list(set);
    assert(is_canonical_list(c, set));
    let key = |s: Seq<char>| id_key(s);
    assert(sorted_by_key(r, key));
    assert(sorted_by_key(c, key));
    lemma_sorted_by_key_unique(r, c, key);
}

/// Views of a sequence of character vectors.
pub open spec fn char_views(v: Seq<Vec<char>>) -> Seq<Seq<char>> {
    v.map_values(|x: Vec<char>| x@)
}

/// Views of a sequence of strings.
pub open spec fn string_views(v: Seq<String>) -> Seq<Seq<char>> {
    v.map_values(|x: String| x@)
}

/// The trimmed, non-empty entries of `ids`.
pub open spec fn trimmed_set(ids: Seq<Seq<char>>) -> Set<Seq<char>> {
    Set::new(|t: Seq<char>| t.len() > 0 && exists|i: int| 0 <= i < ids.len() && trim(ids[i]) == t)
}

/// Whether `a` comes before `b`.
pub fn chars_lt(a: &[char], b: &[char]) -> (r: bool)
    ensures
        r == seq_lt(a@, b@),
{
    let mut i: usize = 0;
    assert(a@.subrange(0, a.len() as int) =~= a@);
    assert(b@.subrange(0, b.len() as int) =~= b@);
    while i < a.len() && i < b.len() && a[i] == b[i]
        invariant
            i <= a.len(),
            i <= b.len(),
            a@.subrange(0, i as int) == b@.subrange(0, i as int),
            seq_lt(a@, b@) == seq_lt(a@.subrange(i as int, a.len() as int), b@.subrange(i as int, b.len() as int)),
        decreases a.len() - i,
    {
        let ghost a1 = a@.subrange(i as int, a.len() as int);
        let ghost b1 = b@.subrange(i as int, b.len() as int);
        assert(a1.drop_first() =~= a@.subrange(i + 1, a.len() as int));
        assert(b1.drop_first() =~= b@.subrange(i + 1, b.len() as int));
        i = i + 1;
        assert(a@.subrange(0, i as int) =~= a@.subrange(0, i - 1) + seq![a@[i - 1]]);
        assert(b@.subrange(0, i as int) =~= b@.subrange(0, i - 1) + seq![b@[i - 1]]);
    }
    let ghost a1 = a@.subrange(i as int, a.len() as int);
    let ghost b1 = b@.subrange(i as int, b.len() as int);
    if i == a.len() {
        i < b.len()
    } else if i == b.len() {
        false
    } else {
        assert(a1[0] == a@[i as int] && b1[0] == b@[i as int]);
        a[i] < b[i]
    }
}

/// Whether `a` and `b` hold the same characters.
pub fn chars_eq(a: &[char], b: &[char]) -> (r: bool)
    ensures
        r == (a@ == b@),
{
    if a.len() != b.len() {
        return false;
    }
    let mut i: usize = 0;
    while i < a.len()
        invariant
            a.len() == b.len(),
            i <= a.len(),
            forall|k: int| 0 <= k < i ==> a@[k] == b@[k],
        decreases a.len() - i,
    {
        if a[i] != b[i] {
            return false;
        }
        i = i + 1;
    }
    assert(a@ =~= b@);
    true
}

/// Adds `x` to a strictly sorted list unless it is already there.
pub fn insert_sorted(r: &mut Vec<Vec<char>>, x: Vec<char>)
    requires
        strictly_sorted(char_views(old(r)@)),
    ensures
        strictly_sorted(char_views(final(r)@)),
        char_views(final(r)@).to_set() == char_views(old(r)@).to_set().insert(x@),
{
    let ghost old_views = char_views(r@);
    let mut p: usize = 0;
    while p < r.len() && chars_lt(r[p].as_slice(), x.as_slice())
        invariant
            p <= r.len(),
            r@ == old(r)@,
            old_views == char_views(r@),
            forall|k: int| 0 <= k < p ==> seq_lt(#[trigger] old_views[k], x@),
        decreases r.len() - p,
    {
        p = p + 1;
    }
    if p < r.len() && chars_eq(r[p].as_slice(), x.as_slice()) {
        assert(old_views[p as int] == x@);
        assert(old_views.to_set().contains(x@));
        assert(old_views.to_set().insert(x@) =~= old_views.to_set());
        return;
    }
    proof {
        if p < old_views.len() {
            lemma_seq_lt_total(old_views[p as int], x@);
        }
    }
    let ghost xv = x@;
    r.insert(p, x);
    let ghost nv = char_views(r@);
    assert(nv =~= old_views.insert(p as int, xv));
    assert forall|i: int, j: int| 0 <= i < j < nv.len() implies seq_lt(nv[i], nv[j]) by {
        if j < p {
        } else if j == p {
        } else if i == p {
            assert(nv[j] == old_views[j - 1]);
            if j - 1 > p {
                lemma_seq_lt_transitive(xv, old_views[p as int], old_views[j - 1]);
            }
        } else if i < p {
            assert(nv[j] == old_views[j - 1]);
            lemma_seq_lt_transitive(old_views[i], xv, old_views[p as int]);
            if j - 1 > p {
                lemma_seq_lt_transitive(old_views[i], old_views[p as int], old_views[j - 1]);
            }
        } else {
            assert(nv[i] == old_views[i - 1]);
            assert(nv[j] == old_views[j - 1]);
        }
    }
    assert(nv.to_set() =~= old_views.to_set().insert(xv)) by {
        assert forall|y: Seq<char>| nv.to_set().contains(y) implies old_views.to_set().insert(xv).contains(y) by {
            let k = choose|k: int| 0 <= k < nv.len() && nv[k] == y;
            if k < p {
                assert(old_views[k] == y);
            } else if k > p {
                assert(old_views[k - 1] == y);
            }
        }
        assert forall|y: Seq<char>| old_views.to_set().insert(xv).contains(y) implies nv.to_set().contains(y) by {
            if y == xv {
                assert(nv[p as int] == y);
            } else {
                let k = choose|k: int| 0 <= k < old_views.len() && old_views[k] == y;
                if k < p {
                    assert(nv[k] == y);
                } else {
                    assert(nv[k + 1] == y);
                }
            }
        }
    }
}

/// `ids` trimmed, with blanks dropped, sorted and deduplicated.
pub fn canonical_ids(ids: &[String]) -> (r: Vec<String>)
    ensures
        is_canonical_list(string_views(r@), trimmed_set(string_views(ids@))),
        is_clean_list(string_views(r@)),
{
    let ghost views = string_views(ids@);
    let mut acc: Vec<Vec<char>> = Vec::new();
    let mut i: usize = 0;
    assert(char_views(acc@).to_set() =~= trimmed_set(views.take(0)));
    while i < ids.len()
        invariant
            i <= ids.len(),
            views == string_views(ids@),
            strictly_sorted(char_views(acc@)),
            char_views(acc@).to_set() == trimmed_set(views.take(i as int)),
        decreases ids.len() - i,
    {
        let t = trim_chars(chars_of(ids[i].as_str()).as_slice());
        let ghost before = char_views(acc@).to_set();
        if t.len() > 0 {
            insert_sorted(&mut acc, t);
        }
        i = i + 1;
        assert(char_views(acc@).to_set() =~= trimmed_set(views.take(i as int))) by {
            assert(views.take(i as int)[i - 1] == views[i - 1]);
            assert forall|s: Seq<char>| trimmed_set(views.take(i as int)).contains(s)
                implies char_views(acc@).to_set().contains(s) by {
                let k = choose|k: int| 0 <= k < i && trim(#[trigger] views.take(i as int)[k]) == s;
                if k < i - 1 {
                    assert(views.take(i - 1)[k] == views.take(i as int)[k]);
                    assert(trimmed_set(views.take(i - 1)).contains(s));
                }
            }
            assert forall|s: Seq<char>| char_views(acc@).to_set().contains(s)
                implies trimmed_set(views.take(i as int)).contains(s) by {
                if before.contains(s) {
                    let k = choose|k: int| 0 <= k < i - 1 && trim(#[trigger] views.take(i - 1)[k]) == s;
                    assert(views.take(i - 1)[k] == views.take(i as int)[k]);
                }
            }
        }
    }
    assert(views.take(ids.len() as int) =~= views);
    let mut r: Vec<String> = Vec::new();
    let mut k: usize = 0;
    while k < acc.len()
        invariant
            k <= acc.len(),
            string_views(r@) == char_views(acc@).take(k as int),
        decreases acc.len() - k,
    {
        let ghost prev = string_views(r@);
        let s = string_of(acc[k].as_slice());
        r.push(s);
        k = k + 1;
        assert(string_views(r@) =~= prev.push(char_views(acc@)[k - 1]));
        assert(string_views(r@) =~= char_views(acc@).take(k as int));
    }
    assert(char_views(acc@).take(acc.len() as int) =~= char_views(acc@));
    proof {
        lemma_canonical_trimmed_clean(string_views(r@), views);
    }
    r
}

/// Whether `pat` occurs in `s` starting at index `i`.
pub open spec fn occurs_at(s: Seq<char>, pat: Seq<char>, i: int) -> bool {
    0 <= i && i + pat.len() <= s.len() && s.subrange(i, i + pat.len()) == pat
}

/// Whether `pat` occurs somewhere in `s`, as `str::contains` decides.
pub open spec fn has_substring(s: Seq<char>, pat: Seq<char>) -> bool {
    exists|i: int| occurs_at(s, pat, i)
}

/// Whether `s` begins with `pat`.
pub open spec fn has_prefix(s: Seq<char>, pat: Seq<char>) -> bool {
    occurs_at(s, pat, 0)
}

/// Whether `pat` occurs in `s` at index `i`.
pub fn chars_occur_at(s: &[char], pat: &[char], i: usize) -> (r: bool)
    ensures
        r == occurs_at(s@, pat@, i as int),
{
    if i > s.len() || pat.len() > s.len() - i {
        return false;
    }
    let mut k: usize = 0;
    while k < pat.len()
        invariant
            i + pat.len() <= s.len(),
            k <= pat.len(),
            forall|j: int| 0 <= j < k ==> s@[i + j] == pat@[j],
        decreases pat.len() - k,
    {
        if s[i + k] != pat[k] {
            assert(s@.subrange(i as int, i + pat.len())[k as int] != pat@[k as int]);
            return false;
        }
        k = k + 1;
    }
    assert(s@.subrange(i as int, i + pat.len()) =~= pat@);
    true
}

/// Whether `pat` occurs in `s`.
pub fn str_contains(s: &str, pat: &str) -> (r: bool)
    ensures
        r == has_substring(s@, pat@),
{
    let sc = chars_of(s);
    let pc = chars_of(pat);
    let mut i: usize = 0;
    while i < sc.len()
        invariant
            i <= sc.len(),
            sc@ == s@,
            pc@ == pat@,
            forall|j: int| 0 <= j < i ==> !occurs_at(s@, pat@, j),
        decreases sc.len() - i,
    {
        if chars_occur_at(sc.as_slice(), pc.as_slice(), i) {
            return true;
        }
        i = i + 1;
    }
    if chars_occur_at(sc.as_slice(), pc.as_slice(), i) {
        return true;
    }
    proof {
        if has_substring(s@, pat@) {
            let j = choose|j: int| occurs_at(s@, pat@, j);
            assert(!occurs_at(s@, pat@, j));
        }
    }
    false
}

/// Whether `s` begins with `pat`.
pub fn str_starts_with(s: &str, pat: &str) -> (r: bool)
    ensures
        r == has_prefix(s@, pat@),
{
    let sc = chars_of(s);
    let pc = chars_of(pat);
    chars_occur_at(sc.as_slice(), pc.as_slice(), 0)
}

/// Whether two string slices hold the same characters.
pub fn str_eq(a: &str, b: &str) -> (r: bool)
    ensures
        r == (a@ == b@),
{
    a.to_owned() == b.to_owned()
}

/// A strictly sorted sequence holds no element twice.
pub proof fn lemma_strictly_sorted_no_duplicates(l: Seq<Seq<char>>)
    requires
        strictly_sorted(l),
    ensures
        l.no_duplicates(),
{
    assert forall|i: int, j: int| 0 <= i < l.len() && 0 <= j < l.len() && i != j implies l[i] != l[j] by {
        lemma_seq_lt_irreflexive(l[i]);
        if i < j {
            assert(seq_lt(l[i], l[j]));
        } else {
            assert(seq_lt(l[j], l[i]));
        }
    }
}

/// The trimmed set of a list whose entries are already trimmed and
/// non-empty is the set of its entries.
pub proof fn lemma_trimmed_set_of_clean(l: Seq<Seq<char>>)
    requires
        forall|i: int| 0 <= i < l.len() ==> (#[trigger] l[i]).len() > 0 && is_trimmed(l[i]),
    ensures
        trimmed_set(l) == l.to_set(),
{
    assert forall|t: Seq<char>| trimmed_set(l).contains(t) <==> l.to_set().contains(t) by {
        if l.to_set().contains(t) {
            let i = choose|i: int| 0 <= i < l.len() && l[i] == t;
            lemma_trimmed_fixed(l[i]);
        }
        if trimmed_set(l).contains(t) {
            let i = choose|i: int| 0 <= i < l.len() && trim(l[i]) == t;
            lemma_trimmed_fixed(l[i]);
            assert(l[i] == t);
        }
    }
    assert(trimmed_set(l) =~= l.to_set());
}

/// A clean list is its own canonical form.
pub proof fn lemma_canonical_of_clean(l: Seq<Seq<char>>)
    requires
        is_clean_list(l),
    ensures
        canonical_list(trimmed_set(l)) == l,
{
    lemma_trimmed_set_of_clean(l);
    lemma_canonical_list_unique(l, l.to_set());
}

} // verus!
