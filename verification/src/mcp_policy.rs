//! MCP access policy: the types persisted under `mcp_global_policy` and the
//! normalization that turns any stored or submitted policy into its single
//! fail-closed representation.

use vstd::prelude::*;
use crate::text::{
    is_clean_list, is_trimmed, lemma_filter_sorted, lemma_trim_is_trimmed, id_key,
    canonical_ids, canonical_list, chars_of, copy_strings,
    lemma_canonical_list_unique, retain_members, string_of, string_views, trimmed_set,
    chars_eq, chars_lt, copy_chars, lemma_seq_lt_irreflexive, lemma_seq_lt_total,
    lemma_seq_lt_transitive, lemma_sorted_by_key_unique, seq_lt, sorted_by_key, trim, trim_chars,
    lemma_canonical_of_clean, lemma_trimmed_fixed, lemma_canonical_list_exists, is_canonical_list,
};

verus! {

/// Which databases below a connection MCP may reach.
#[derive(Debug, Clone, Copy, PartialEq, Eq, Structural)]
pub enum McpDatabaseScope {
    All,
    Selected,
    /// No database is reachable (serialized as `none`).
    NoDatabases,
}

impl Default for McpDatabaseScope {
    fn default() -> (r: Self)
        ensures
            r == McpDatabaseScope::All,
    {
        McpDatabaseScope::All
    }
}

/// Execution settings for one database of a connection.
#[derive(Debug, Clone, PartialEq, Eq)]
pub struct McpDatabasePolicy {
    pub database_name: String,
    pub read_only: bool,
    pub allow_dangerous_sql: bool,
}

/// Execution defaults inherited by the connections of a sidebar group.
#[derive(Debug, Clone, PartialEq, Eq)]
pub struct McpGroupPolicy {
    pub group_id: String,
    pub read_only: bool,
    pub allow_dangerous_sql: bool,
}

/// A keyed pair of execution flags: the common shape of database and group
/// rules.
pub struct PolicyFlagsView {
    pub key: Seq<char>,
    pub read_only: bool,
    pub allow_dangerous_sql: bool,
}

impl View for McpDatabasePolicy {
    type V = PolicyFlagsView;

    open spec fn view(&self) -> PolicyFlagsView {
        PolicyFlagsView {
            key: self.database_name@,
            read_only: self.read_only,
            allow_dangerous_sql: self.allow_dangerous_sql,
        }
    }
}

impl View for McpGroupPolicy {
    type V = PolicyFlagsView;

    open spec fn view(&self) -> PolicyFlagsView {
        PolicyFlagsView {
            key: self.group_id@,
            read_only: self.read_only,
            allow_dangerous_sql: self.allow_dangerous_sql,
        }
    }
}

pub open spec fn flags_key(f: PolicyFlagsView) -> Seq<char> {
    f.key
}

pub open spec fn flag_keys(r: Seq<PolicyFlagsView>) -> Seq<Seq<char>> {
    r.map_values(|f: PolicyFlagsView| f.key)
}

pub open spec fn db_policy_views(v: Seq<McpDatabasePolicy>) -> Seq<PolicyFlagsView> {
    v.map_values(|p: McpDatabasePolicy| p@)
}

pub open spec fn group_policy_views(v: Seq<McpGroupPolicy>) -> Seq<PolicyFlagsView> {
    v.map_values(|p: McpGroupPolicy| p@)
}

/// Trimmed, non-empty keys of the first `n` rules.
pub open spec fn flag_keys_upto(rules: Seq<PolicyFlagsView>, n: int) -> Set<Seq<char>> {
    Set::new(
        |k: Seq<char>|
            k.len() > 0 && exists|i: int| 0 <= i < n && trim(#[trigger] rules[i].key) == k,
    )
}

/// Some rule among the first `n` for key `k` is read-only.
pub open spec fn flag_read_only_upto(rules: Seq<PolicyFlagsView>, n: int, k: Seq<char>) -> bool {
    exists|i: int| 0 <= i < n && trim(#[trigger] rules[i].key) == k && rules[i].read_only
}

/// Every rule among the first `n` for key `k` allows high-risk SQL.
pub open spec fn flag_all_dangerous_upto(rules: Seq<PolicyFlagsView>, n: int, k: Seq<char>) -> bool {
    forall|i: int| 0 <= i < n && trim(#[trigger] rules[i].key) == k ==> rules[i].allow_dangerous_sql
}

/// The combined rule for key `k`: duplicates are a conjunction, so any
/// read-only rule wins and high-risk SQL needs every rule to allow it.
pub open spec fn combined_flags(rules: Seq<PolicyFlagsView>, k: Seq<char>) -> PolicyFlagsView {
    let ro = flag_read_only_upto(rules, rules.len() as int, k);
    PolicyFlagsView {
        key: k,
        read_only: ro,
        allow_dangerous_sql: !ro && flag_all_dangerous_upto(rules, rules.len() as int, k),
    }
}

/// `r` is the normalized form of `rules`: one entry per trimmed non-empty
/// key, sorted by key, each the combination of all rules for that key.
pub open spec fn is_normalized_flags(r: Seq<PolicyFlagsView>, rules: Seq<PolicyFlagsView>) -> bool {
    &&& sorted_by_key(r, |f: PolicyFlagsView| flags_key(f))
    &&& flag_keys(r).to_set() == flag_keys_upto(rules, rules.len() as int)
    &&& forall|j: int| 0 <= j < r.len() ==> #[trigger] r[j] == combined_flags(rules, r[j].key)
}

pub open spec fn normalized_flags(rules: Seq<PolicyFlagsView>) -> Seq<PolicyFlagsView> {
    choose|r: Seq<PolicyFlagsView>| is_normalized_flags(r, rules)
}

pub proof fn lemma_normalized_flags_unique(r: Seq<PolicyFlagsView>, rules: Seq<PolicyFlagsView>)
    requires
        is_normalized_flags(r, rules),
    ensures
        normalized_flags(rules) == r,
{
    let c = normalized_flags(rules);
    assert(is_normalized_flags(c, rules));
    assert forall|x: PolicyFlagsView| r.to_set().contains(x) implies c.to_set().contains(x) by {
        let j = choose|j: int| 0 <= j < r.len() && r[j] == x;
        assert(flag_keys(r)[j] == x.key);
        assert(flag_keys(c).to_set().contains(x.key));
        let m = choose|m: int|
            0 <= m < c.len() && #[trigger] flag_keys(c)[m] == x.key;
        assert(c[m] == combined_flags(rules, c[m].key));
    }
    assert forall|x: PolicyFlagsView| c.to_set().contains(x) implies r.to_set().contains(x) by {
        let j = choose|j: int| 0 <= j < c.len() && c[j] == x;
        assert(flag_keys(c)[j] == x.key);
        assert(flag_keys(r).to_set().contains(x.key));
        let m = choose|m: int|
            0 <= m < r.len() && #[trigger] flag_keys(r)[m] == x.key;
        assert(r[m] == combined_flags(rules, r[m].key));
    }
    assert(r.to_set() =~= c.to_set());
    lemma_sorted_by_key_unique(r, c, |f: PolicyFlagsView| flags_key(f));
}

/// Every rule list has its normalized form.
pub proof fn lemma_normalized_flags_exist(rules: Seq<PolicyFlagsView>)
    ensures
        is_normalized_flags(normalized_flags(rules), rules),
{
    let n = rules.len() as int;
    let keys = flag_keys_upto(rules, n);
    let all = rules.map_values(|f: PolicyFlagsView| trim(f.key));
    vstd::seq_lib::seq_to_set_is_finite(all);
    assert(keys.subset_of(all.to_set())) by {
        assert forall|k: Seq<char>| keys.contains(k) implies all.to_set().contains(k) by {
            let i = choose|i: int| 0 <= i < n && trim(#[trigger] rules[i].key) == k;
            assert(all[i] == k);
        }
    }
    vstd::set_lib::lemma_set_subset_finite(all.to_set(), keys);
    lemma_canonical_list_exists(keys);
    let kc = canonical_list(keys);
    let r = kc.map_values(|k: Seq<char>| combined_flags(rules, k));
    assert(flag_keys(r) =~= kc);
    assert(is_normalized_flags(r, rules));
}

/// Sorted by key, keys non-empty and trimmed, and no read-only rule allows
/// high-risk SQL.
pub open spec fn flags_fail_closed(f: Seq<PolicyFlagsView>) -> bool {
    &&& sorted_by_key(f, |x: PolicyFlagsView| flags_key(x))
    &&& forall|i: int|
        0 <= i < f.len() ==> ((#[trigger] f[i]).read_only ==> !f[i].allow_dangerous_sql) && f[i].key.len() > 0
            && is_trimmed(f[i].key)
}

pub proof fn lemma_normalized_flags_fail_closed(r: Seq<PolicyFlagsView>, rules: Seq<PolicyFlagsView>)
    requires
        is_normalized_flags(r, rules),
    ensures
        flags_fail_closed(r),
{
    assert forall|i: int| 0 <= i < r.len() implies ((#[trigger] r[i]).read_only ==> !r[i].allow_dangerous_sql)
        && r[i].key.len() > 0 && is_trimmed(r[i].key) by {
        assert(flag_keys(r)[i] == r[i].key);
        assert(flag_keys(r).to_set().contains(r[i].key));
        let m = choose|m: int| 0 <= m < rules.len() && trim(#[trigger] rules[m].key) == r[i].key;
        lemma_trim_is_trimmed(rules[m].key);
    }
}

/// Executable flag rule: key characters and the two flags.
pub struct FlagRule {
    pub key: Vec<char>,
    pub read_only: bool,
    pub allow_dangerous_sql: bool,
}

impl View for FlagRule {
    type V = PolicyFlagsView;

    open spec fn view(&self) -> PolicyFlagsView {
        PolicyFlagsView { key: self.key@, read_only: self.read_only, allow_dangerous_sql: self.allow_dangerous_sql }
    }
}

pub open spec fn flag_rule_views(v: Seq<FlagRule>) -> Seq<PolicyFlagsView> {
    v.map_values(|p: FlagRule| p@)
}

/// Adding the rule at index `i` to the first `i` rules.
proof fn lemma_flags_step(rv: Seq<PolicyFlagsView>, i: int, k: Seq<char>)
    requires
        0 <= i < rv.len(),
    ensures
        flag_read_only_upto(rv, i + 1, k) == (flag_read_only_upto(rv, i, k) || (trim(rv[i].key) == k
            && rv[i].read_only)),
        flag_all_dangerous_upto(rv, i + 1, k) == (flag_all_dangerous_upto(rv, i, k) && (trim(rv[i].key)
            == k ==> rv[i].allow_dangerous_sql)),
        flag_keys_upto(rv, i + 1).contains(k) == (flag_keys_upto(rv, i).contains(k) || (k.len() > 0
            && trim(rv[i].key) == k)),
{
    if flag_read_only_upto(rv, i + 1, k) {
        let m = choose|m: int| 0 <= m < i + 1 && trim(#[trigger] rv[m].key) == k && rv[m].read_only;
        if m < i {
            assert(flag_read_only_upto(rv, i, k));
        }
    }
    if flag_read_only_upto(rv, i, k) {
        let m = choose|m: int| 0 <= m < i && trim(#[trigger] rv[m].key) == k && rv[m].read_only;
        assert(flag_read_only_upto(rv, i + 1, k));
    }
    if trim(rv[i].key) == k && rv[i].read_only {
        assert(flag_read_only_upto(rv, i + 1, k));
    }
    if !flag_all_dangerous_upto(rv, i + 1, k) {
        let m = choose|m: int|
            !(0 <= m < i + 1 && trim(#[trigger] rv[m].key) == k ==> rv[m].allow_dangerous_sql);
        if m < i {
            assert(!flag_all_dangerous_upto(rv, i, k));
        }
    }
    if !flag_all_dangerous_upto(rv, i, k) {
        let m = choose|m: int| !(0 <= m < i && trim(#[trigger] rv[m].key) == k ==> rv[m].allow_dangerous_sql);
        assert(!flag_all_dangerous_upto(rv, i + 1, k));
    }
    if flag_keys_upto(rv, i + 1).contains(k) {
        let m = choose|m: int| 0 <= m < i + 1 && trim(#[trigger] rv[m].key) == k;
        if m < i {
            assert(flag_keys_upto(rv, i).contains(k));
        }
    }
    if flag_keys_upto(rv, i).contains(k) {
        let m = choose|m: int| 0 <= m < i && trim(#[trigger] rv[m].key) == k;
        assert(flag_keys_upto(rv, i + 1).contains(k));
    }
    if k.len() > 0 && trim(rv[i].key) == k {
        assert(flag_keys_upto(rv, i + 1).contains(k));
    }
}

/// Accumulated state while merging rules: entries sorted by key, each
/// holding the disjunction of read-only and the conjunction of high-risk
/// permission over the rules seen so far.
spec fn flag_acc_inv(acc: Seq<PolicyFlagsView>, rules: Seq<PolicyFlagsView>, n: int) -> bool {
    &&& sorted_by_key(acc, |f: PolicyFlagsView| flags_key(f))
    &&& flag_keys(acc).to_set() == flag_keys_upto(rules, n)
    &&& forall|j: int|
        0 <= j < acc.len() ==> (#[trigger] acc[j]).read_only == flag_read_only_upto(rules, n, acc[j].key)
            && acc[j].allow_dangerous_sql == flag_all_dangerous_upto(rules, n, acc[j].key)
}

/// Combines duplicate keyed rules and sorts the result by key.
pub fn normalize_flag_rules(rules: &[FlagRule]) -> (r: Vec<FlagRule>)
    ensures
        is_normalized_flags(flag_rule_views(r@), flag_rule_views(rules@)),
{
    let ghost rv = flag_rule_views(rules@);
    let mut acc: Vec<FlagRule> = Vec::new();
    let mut i: usize = 0;
    assert(flag_keys(flag_rule_views(acc@)).to_set() =~= flag_keys_upto(rv, 0));
    while i < rules.len()
        invariant
            i <= rules.len(),
            rv == flag_rule_views(rules@),
            flag_acc_inv(flag_rule_views(acc@), rv, i as int),
        decreases rules.len() - i,
    {
        let key = trim_chars(rules[i].key.as_slice());
        let ro = rules[i].read_only;
        let danger = rules[i].allow_dangerous_sql;
        let ghost old_acc = flag_rule_views(acc@);
        assert(rv[i as int].key == rules@[i as int].key@);
        if key.len() > 0 {
            let mut p: usize = 0;
            while p < acc.len() && chars_lt(acc[p].key.as_slice(), key.as_slice())
                invariant
                    p <= acc.len(),
                    old_acc == flag_rule_views(acc@),
                    forall|k: int| 0 <= k < p ==> seq_lt(#[trigger] old_acc[k].key, key@),
                decreases acc.len() - p,
            {
                p = p + 1;
            }
            if p < acc.len() && chars_eq(acc[p].key.as_slice(), key.as_slice()) {
                let cur_ro = acc[p].read_only;
                let cur_danger = acc[p].allow_dangerous_sql;
                acc.set(p, FlagRule { key: key, read_only: cur_ro || ro, allow_dangerous_sql: cur_danger && danger });
                proof {
                    let nacc = flag_rule_views(acc@);
                    assert(nacc =~= old_acc.update(p as int, PolicyFlagsView { key: key@, read_only: cur_ro || ro, allow_dangerous_sql: cur_danger && danger }));
                    assert(flag_keys(nacc) =~= flag_keys(old_acc));
                    assert(flag_keys(old_acc)[p as int] == key@);
                    assert forall|k: Seq<char>| flag_keys_upto(rv, i + 1).contains(k) == flag_keys_upto(rv, i as int).contains(k) by {
                        lemma_flags_step(rv, i as int, k);
                    }
                    assert(flag_keys_upto(rv, i + 1) =~= flag_keys_upto(rv, i as int));
                    assert forall|j: int| 0 <= j < nacc.len() implies (#[trigger] nacc[j]).read_only == flag_read_only_upto(rv, i + 1, nacc[j].key)
                        && nacc[j].allow_dangerous_sql == flag_all_dangerous_upto(rv, i + 1, nacc[j].key) by {
                        lemma_flags_step(rv, i as int, nacc[j].key);
                        if j != p {
                            assert(nacc[j].key != key@) by {
                                if j < p {
                                    lemma_seq_lt_irreflexive(key@);
                                } else {
                                    assert(seq_lt(flags_key(old_acc[p as int]), flags_key(old_acc[j])));
                                    lemma_seq_lt_irreflexive(key@);
                                }
                            }
                        }
                    }
                }
            } else {
                proof {
                    if p < old_acc.len() {
                        lemma_seq_lt_total(old_acc[p as int].key, key@);
                    }
                }
                let ghost kv = key@;
                acc.insert(p, FlagRule { key: key, read_only: ro, allow_dangerous_sql: danger });
                proof {
                    let nacc = flag_rule_views(acc@);
                    let newv = PolicyFlagsView { key: kv, read_only: ro, allow_dangerous_sql: danger };
                    assert(nacc =~= old_acc.insert(p as int, newv));
                    assert(!flag_keys_upto(rv, i as int).contains(kv)) by {
                        if flag_keys_upto(rv, i as int).contains(kv) {
                            assert(flag_keys(old_acc).to_set().contains(kv));
                            let m = choose|m: int| 0 <= m < old_acc.len() && #[trigger] flag_keys(old_acc)[m] == kv;
                            if m < p {
                                lemma_seq_lt_irreflexive(kv);
                            } else if m > p {
                                assert(seq_lt(flags_key(old_acc[p as int]), flags_key(old_acc[m])));
                                lemma_seq_lt_transitive(kv, old_acc[p as int].key, old_acc[m].key);
                                lemma_seq_lt_irreflexive(kv);
                            }
                        }
                    }
                    assert forall|a: int, b: int| 0 <= a < b < nacc.len() implies seq_lt(flags_key(nacc[a]), flags_key(nacc[b])) by {
                        if b < p {
                            assert(seq_lt(flags_key(old_acc[a]), flags_key(old_acc[b])));
                        } else if b == p {
                        } else if a == p {
                            if b - 1 > p {
                                assert(seq_lt(flags_key(old_acc[p as int]), flags_key(old_acc[b - 1])));
                                lemma_seq_lt_transitive(kv, old_acc[p as int].key, old_acc[b - 1].key);
                            }
                        } else if a < p {
                            lemma_seq_lt_transitive(old_acc[a].key, kv, old_acc[p as int].key);
                            if b - 1 > p {
                                assert(seq_lt(flags_key(old_acc[p as int]), flags_key(old_acc[b - 1])));
                                lemma_seq_lt_transitive(old_acc[a].key, old_acc[p as int].key, old_acc[b - 1].key);
                            }
                        } else {
                            assert(seq_lt(flags_key(old_acc[a - 1]), flags_key(old_acc[b - 1])));
                        }
                    }
                    assert forall|k: Seq<char>| #[trigger] flag_keys(nacc).to_set().contains(k) == flag_keys_upto(rv, i + 1).contains(k) by {
                        lemma_flags_step(rv, i as int, k);
                        if flag_keys(nacc).to_set().contains(k) {
                            let m = choose|m: int| 0 <= m < nacc.len() && #[trigger] flag_keys(nacc)[m] == k;
                            if m < p {
                                assert(flag_keys(old_acc)[m] == k);
                            } else if m > p {
                                assert(flag_keys(old_acc)[m - 1] == k);
                            }
                        }
                        if flag_keys_upto(rv, i + 1).contains(k) {
                            if k == kv {
                                assert(flag_keys(nacc)[p as int] == k);
                            } else {
                                assert(flag_keys(old_acc).to_set().contains(k));
                                let m = choose|m: int| 0 <= m < old_acc.len() && #[trigger] flag_keys(old_acc)[m] == k;
                                if m < p {
                                    assert(flag_keys(nacc)[m] == k);
                                } else {
                                    assert(flag_keys(nacc)[m + 1] == k);
                                }
                            }
                        }
                    }
                    assert(flag_keys(nacc).to_set() =~= flag_keys_upto(rv, i + 1));
                    assert forall|j: int| 0 <= j < nacc.len() implies (#[trigger] nacc[j]).read_only == flag_read_only_upto(rv, i + 1, nacc[j].key)
                        && nacc[j].allow_dangerous_sql == flag_all_dangerous_upto(rv, i + 1, nacc[j].key) by {
                        let kj = nacc[j].key;
                        lemma_flags_step(rv, i as int, kj);
                        if j == p {
                            if flag_read_only_upto(rv, i as int, kv) {
                                let m = choose|m: int| 0 <= m < i && trim(#[trigger] rv[m].key) == kv && rv[m].read_only;
                                assert(flag_keys_upto(rv, i as int).contains(kv));
                            }
                            if !flag_all_dangerous_upto(rv, i as int, kv) {
                                let m = choose|m: int| !(0 <= m < i && trim(#[trigger] rv[m].key) == kv ==> rv[m].allow_dangerous_sql);
                                assert(flag_keys_upto(rv, i as int).contains(kv));
                            }
                        } else {
                            let oj = if j < p { j } else { j - 1 };
                            assert(nacc[j] == old_acc[oj]);
                            assert(flag_keys(old_acc)[oj] == kj);
                            assert(flag_keys(old_acc).to_set().contains(kj));
                        }
                    }
                }
            }
        } else {
            proof {
                let nacc = flag_rule_views(acc@);
                assert forall|k: Seq<char>| flag_keys_upto(rv, i + 1).contains(k) == flag_keys_upto(rv, i as int).contains(k) by {
                    lemma_flags_step(rv, i as int, k);
                }
                assert(flag_keys_upto(rv, i + 1) =~= flag_keys_upto(rv, i as int));
                assert forall|j: int| 0 <= j < nacc.len() implies (#[trigger] nacc[j]).read_only == flag_read_only_upto(rv, i + 1, nacc[j].key)
                    && nacc[j].allow_dangerous_sql == flag_all_dangerous_upto(rv, i + 1, nacc[j].key) by {
                    let kj = nacc[j].key;
                    lemma_flags_step(rv, i as int, kj);
                    assert(flag_keys(nacc)[j] == kj);
                    assert(flag_keys(nacc).to_set().contains(kj));
                }
            }
        }
        i = i + 1;
    }
    let ghost acc_v = flag_rule_views(acc@);
    let mut q: usize = 0;
    while q < acc.len()
        invariant
            q <= acc.len(),
            acc@.len() == acc_v.len(),
            rv.len() == rules.len(),
            flag_acc_inv(acc_v, rv, rules.len() as int),
            forall|j: int| q <= j < acc@.len() ==> (#[trigger] acc@[j])@ == acc_v[j],
            forall|j: int| 0 <= j < q ==> (#[trigger] acc@[j])@ == combined_flags(rv, acc_v[j].key),
        decreases acc.len() - q,
    {
        let ro = acc[q].read_only;
        let danger = acc[q].allow_dangerous_sql;
        assert(acc_v[q as int] == acc@[q as int]@);
        if ro && danger {
            let key = copy_chars(acc[q].key.as_slice());
            acc.set(q, FlagRule { key, read_only: ro, allow_dangerous_sql: false });
        }
        assert(acc@[q as int]@ == combined_flags(rv, acc_v[q as int].key));
        q = q + 1;
    }
    proof {
        let fin = flag_rule_views(acc@);
        assert forall|j: int| 0 <= j < fin.len() implies #[trigger] fin[j] == combined_flags(rv, fin[j].key) by {
            assert(fin[j] == acc@[j]@);
        }
        assert(flag_keys(fin) =~= flag_keys(acc_v)) by {
            assert forall|j: int| 0 <= j < fin.len() implies fin[j].key == acc_v[j].key by {
                assert(fin[j] == acc@[j]@);
            }
        }
        assert forall|a: int, b: int| 0 <= a < b < fin.len() implies seq_lt(flags_key(fin[a]), flags_key(fin[b])) by {
            assert(fin[a] == acc@[a]@);
            assert(fin[b] == acc@[b]@);
            assert(seq_lt(flags_key(acc_v[a]), flags_key(acc_v[b])));
        }
    }
    acc
}


fn db_policies_to_flags(ps: &[McpDatabasePolicy]) -> (r: Vec<FlagRule>)
    ensures
        flag_rule_views(r@) == db_policy_views(ps@),
{
    let mut r: Vec<FlagRule> = Vec::new();
    let mut k: usize = 0;
    while k < ps.len()
        invariant
            k <= ps.len(),
            flag_rule_views(r@) == db_policy_views(ps@).take(k as int),
        decreases ps.len() - k,
    {
        r.push(FlagRule {
            key: chars_of(ps[k].database_name.as_str()),
            read_only: ps[k].read_only,
            allow_dangerous_sql: ps[k].allow_dangerous_sql,
        });
        k = k + 1;
        assert(flag_rule_views(r@) =~= db_policy_views(ps@).take(k - 1).push(db_policy_views(ps@)[k - 1]));
        assert(db_policy_views(ps@).take(k as int) =~= db_policy_views(ps@).take(k - 1).push(db_policy_views(ps@)[k - 1]));
    }
    assert(db_policy_views(ps@).take(ps.len() as int) =~= db_policy_views(ps@));
    r
}

fn flags_to_db_policies(rs: &[FlagRule]) -> (r: Vec<McpDatabasePolicy>)
    ensures
        db_policy_views(r@) == flag_rule_views(rs@),
{
    let mut r: Vec<McpDatabasePolicy> = Vec::new();
    let mut k: usize = 0;
    while k < rs.len()
        invariant
            k <= rs.len(),
            db_policy_views(r@) == flag_rule_views(rs@).take(k as int),
        decreases rs.len() - k,
    {
        r.push(McpDatabasePolicy {
            database_name: string_of(rs[k].key.as_slice()),
            read_only: rs[k].read_only,
            allow_dangerous_sql: rs[k].allow_dangerous_sql,
        });
        k = k + 1;
        assert(db_policy_views(r@) =~= flag_rule_views(rs@).take(k - 1).push(flag_rule_views(rs@)[k - 1]));
        assert(flag_rule_views(rs@).take(k as int) =~= flag_rule_views(rs@).take(k - 1).push(flag_rule_views(rs@)[k - 1]));
    }
    assert(flag_rule_views(rs@).take(rs.len() as int) =~= flag_rule_views(rs@));
    r
}

fn group_policies_to_flags(ps: &[McpGroupPolicy]) -> (r: Vec<FlagRule>)
    ensures
        flag_rule_views(r@) == group_policy_views(ps@),
{
    let mut r: Vec<FlagRule> = Vec::new();
    let mut k: usize = 0;
    while k < ps.len()
        invariant
            k <= ps.len(),
            flag_rule_views(r@) == group_policy_views(ps@).take(k as int),
        decreases ps.len() - k,
    {
        r.push(FlagRule {
            key: chars_of(ps[k].group_id.as_str()),
            read_only: ps[k].read_only,
            allow_dangerous_sql: ps[k].allow_dangerous_sql,
        });
        k = k + 1;
        assert(flag_rule_views(r@) =~= group_policy_views(ps@).take(k - 1).push(group_policy_views(ps@)[k - 1]));
        assert(group_policy_views(ps@).take(k as int) =~= group_policy_views(ps@).take(k - 1).push(group_policy_views(ps@)[k - 1]));
    }
    assert(group_policy_views(ps@).take(ps.len() as int) =~= group_policy_views(ps@));
    r
}

fn flags_to_group_policies(rs: &[FlagRule]) -> (r: Vec<McpGroupPolicy>)
    ensures
        group_policy_views(r@) == flag_rule_views(rs@),
{
    let mut r: Vec<McpGroupPolicy> = Vec::new();
    let mut k: usize = 0;
    while k < rs.len()
        invariant
            k <= rs.len(),
            group_policy_views(r@) == flag_rule_views(rs@).take(k as int),
        decreases rs.len() - k,
    {
        r.push(McpGroupPolicy {
            group_id: string_of(rs[k].key.as_slice()),
            read_only: rs[k].read_only,
            allow_dangerous_sql: rs[k].allow_dangerous_sql,
        });
        k = k + 1;
        assert(group_policy_views(r@) =~= flag_rule_views(rs@).take(k - 1).push(flag_rule_views(rs@)[k - 1]));
        assert(flag_rule_views(rs@).take(k as int) =~= flag_rule_views(rs@).take(k - 1).push(flag_rule_views(rs@)[k - 1]));
    }
    assert(flag_rule_views(rs@).take(rs.len() as int) =~= flag_rule_views(rs@));
    r
}

/// Database rules with duplicates combined as the strictest policy, sorted by
/// database name.
pub fn normalize_mcp_database_policies(policies: &[McpDatabasePolicy]) -> (r: Vec<McpDatabasePolicy>)
    ensures
        db_policy_views(r@) == normalized_flags(db_policy_views(policies@)),
        flags_fail_closed(db_policy_views(r@)),
{
    let flags = db_policies_to_flags(policies);
    let normalized = normalize_flag_rules(flags.as_slice());
    proof {
        lemma_normalized_flags_unique(flag_rule_views(normalized@), db_policy_views(policies@));
        lemma_normalized_flags_fail_closed(flag_rule_views(normalized@), db_policy_views(policies@));
    }
    flags_to_db_policies(normalized.as_slice())
}

/// Both rule lists combined into one normalized list.
pub fn merge_mcp_database_policies(left: &[McpDatabasePolicy], right: &[McpDatabasePolicy]) -> (r: Vec<
    McpDatabasePolicy,
>)
    ensures
        db_policy_views(r@) == normalized_flags(db_policy_views(left@) + db_policy_views(right@)),
        flags_fail_closed(db_policy_views(r@)),
{
    let mut flags = db_policies_to_flags(left);
    let mut more = db_policies_to_flags(right);
    let ghost lv = flag_rule_views(flags@);
    let ghost rv = flag_rule_views(more@);
    flags.append(&mut more);
    assert(flag_rule_views(flags@) =~= lv + rv);
    let normalized = normalize_flag_rules(flags.as_slice());
    proof {
        lemma_normalized_flags_unique(flag_rule_views(normalized@), lv + rv);
        lemma_normalized_flags_fail_closed(flag_rule_views(normalized@), lv + rv);
    }
    flags_to_db_policies(normalized.as_slice())
}

/// Group rules with duplicates combined as the strictest policy, sorted by
/// group id.
pub fn normalize_mcp_group_policies(policies: &[McpGroupPolicy]) -> (r: Vec<McpGroupPolicy>)
    ensures
        group_policy_views(r@) == normalized_flags(group_policy_views(policies@)),
        is_normalized_flags(group_policy_views(r@), group_policy_views(policies@)),
        flags_fail_closed(group_policy_views(r@)),
{
    let flags = group_policies_to_flags(policies);
    let normalized = normalize_flag_rules(flags.as_slice());
    proof {
        lemma_normalized_flags_unique(flag_rule_views(normalized@), group_policy_views(policies@));
        lemma_normalized_flags_fail_closed(flag_rule_views(normalized@), group_policy_views(policies@));
    }
    flags_to_group_policies(normalized.as_slice())
}

/// The canonical form of a name list: trimmed, blanks dropped, sorted and
/// deduplicated.
pub open spec fn canonical_names(names: Seq<Seq<char>>) -> Seq<Seq<char>> {
    canonical_list(trimmed_set(names))
}

/// Identifiers trimmed, with blanks dropped, sorted and deduplicated.
pub fn normalize_mcp_ids(ids: &[String]) -> (r: Vec<String>)
    ensures
        string_views(r@) == canonical_names(string_views(ids@)),
        is_clean_list(string_views(r@)),
{
    let r = canonical_ids(ids);
    proof {
        lemma_canonical_list_unique(string_views(r@), trimmed_set(string_views(ids@)));
    }
    r
}

/// Database names trimmed, with blanks dropped, sorted and deduplicated.
pub fn normalize_mcp_database_names(databases: &[String]) -> (r: Vec<String>)
    ensures
        string_views(r@) == canonical_names(string_views(databases@)),
        is_clean_list(string_views(r@)),
{
    normalize_mcp_ids(databases)
}

/// The scope two rules for one connection allow together: `none` wins, and
/// two selections allow only the databases both name.
pub open spec fn intersect_scopes(
    left_scope: McpDatabaseScope,
    left_databases: Seq<Seq<char>>,
    right_scope: McpDatabaseScope,
    right_databases: Seq<Seq<char>>,
) -> (McpDatabaseScope, Seq<Seq<char>>) {
    match (left_scope, right_scope) {
        (McpDatabaseScope::NoDatabases, _) => (McpDatabaseScope::NoDatabases, Seq::empty()),
        (_, McpDatabaseScope::NoDatabases) => (McpDatabaseScope::NoDatabases, Seq::empty()),
        (McpDatabaseScope::All, McpDatabaseScope::All) => (McpDatabaseScope::All, Seq::empty()),
        (McpDatabaseScope::All, McpDatabaseScope::Selected) => (
            McpDatabaseScope::Selected,
            canonical_names(right_databases),
        ),
        (McpDatabaseScope::Selected, McpDatabaseScope::All) => (
            McpDatabaseScope::Selected,
            canonical_names(left_databases),
        ),
        (McpDatabaseScope::Selected, McpDatabaseScope::Selected) => (
            McpDatabaseScope::Selected,
            canonical_names(left_databases).filter(
                |d: Seq<char>| canonical_names(right_databases).contains(d),
            ),
        ),
    }
}

/// Intersection of two database scopes.
pub fn intersect_mcp_database_scopes(
    left_scope: McpDatabaseScope,
    left_databases: &[String],
    right_scope: McpDatabaseScope,
    right_databases: &[String],
) -> (r: (McpDatabaseScope, Vec<String>))
    ensures
        (r.0, string_views(r.1@)) == intersect_scopes(
            left_scope,
            string_views(left_databases@),
            right_scope,
            string_views(right_databases@),
        ),
        is_clean_list(string_views(r.1@)),
{
    match (left_scope, right_scope) {
        (McpDatabaseScope::NoDatabases, _) => {
            let v: Vec<String> = Vec::new();
            assert(string_views(v@) =~= Seq::<Seq<char>>::empty());
            (McpDatabaseScope::NoDatabases, v)
        },
        (_, McpDatabaseScope::NoDatabases) => {
            let v: Vec<String> = Vec::new();
            assert(string_views(v@) =~= Seq::<Seq<char>>::empty());
            (McpDatabaseScope::NoDatabases, v)
        },
        (McpDatabaseScope::All, McpDatabaseScope::All) => {
            let v: Vec<String> = Vec::new();
            assert(string_views(v@) =~= Seq::<Seq<char>>::empty());
            (McpDatabaseScope::All, v)
        },
        (McpDatabaseScope::All, McpDatabaseScope::Selected) => {
            (McpDatabaseScope::Selected, normalize_mcp_database_names(right_databases))
        },
        (McpDatabaseScope::Selected, McpDatabaseScope::All) => {
            (McpDatabaseScope::Selected, normalize_mcp_database_names(left_databases))
        },
        (McpDatabaseScope::Selected, McpDatabaseScope::Selected) => {
            let right = normalize_mcp_database_names(right_databases);
            let left = normalize_mcp_database_names(left_databases);
            let both = retain_members(left.as_slice(), right.as_slice());
            proof {
                let lv = string_views(left@);
                let pred = |d: Seq<char>| string_views(right@).contains(d);
                lemma_filter_sorted(lv, pred, |x: Seq<char>| id_key(x));
                let f = lv.filter(pred);
                assert forall|i: int, j: int| 0 <= i < j < f.len() implies crate::text::seq_lt(f[i], f[j]) by {
                    assert(crate::text::seq_lt(id_key(f[i]), id_key(f[j])));
                }
                assert forall|i: int| 0 <= i < f.len() implies (#[trigger] f[i]).len() > 0 && is_trimmed(f[i]) by {
                    assert(lv.contains(f[i]));
                }
            }
            (McpDatabaseScope::Selected, both)
        },
    }
}


/// The execution-policy version written by current clients; rules with any
/// other marker keep the legacy ceiling semantics.
pub const MCP_EXECUTION_POLICY_VERSION: u8 = 1;

/// Per-connection execution defaults, database scope and overrides.
#[derive(Debug, Clone, PartialEq, Eq)]
pub struct McpConnectionPolicy {
    pub connection_id: String,
    pub read_only: bool,
    pub allow_dangerous_sql: bool,
    pub execution_mode_configured: bool,
    pub execution_mode_policy_version: Option<u8>,
    pub database_scope: McpDatabaseScope,
    pub allowed_databases: Vec<String>,
    pub database_policies: Vec<McpDatabasePolicy>,
    pub allow_salesforce_dml: bool,
}

pub struct ConnectionPolicyView {
    pub connection_id: Seq<char>,
    pub read_only: bool,
    pub allow_dangerous_sql: bool,
    pub execution_mode_configured: bool,
    pub execution_mode_policy_version: Option<u8>,
    pub database_scope: McpDatabaseScope,
    pub allowed_databases: Seq<Seq<char>>,
    pub database_policies: Seq<PolicyFlagsView>,
    pub allow_salesforce_dml: bool,
}

impl View for McpConnectionPolicy {
    type V = ConnectionPolicyView;

    open spec fn view(&self) -> ConnectionPolicyView {
        ConnectionPolicyView {
            connection_id: self.connection_id@,
            read_only: self.read_only,
            allow_dangerous_sql: self.allow_dangerous_sql,
            execution_mode_configured: self.execution_mode_configured,
            execution_mode_policy_version: self.execution_mode_policy_version,
            database_scope: self.database_scope,
            allowed_databases: string_views(self.allowed_databases@),
            database_policies: db_policy_views(self.database_policies@),
            allow_salesforce_dml: self.allow_salesforce_dml,
        }
    }
}

pub open spec fn connection_policy_views(v: Seq<McpConnectionPolicy>) -> Seq<ConnectionPolicyView> {
    v.map_values(|p: McpConnectionPolicy| p@)
}

pub open spec fn connection_key(c: ConnectionPolicyView) -> Seq<char> {
    c.connection_id
}

pub open spec fn connection_ids(r: Seq<ConnectionPolicyView>) -> Seq<Seq<char>> {
    r.map_values(|c: ConnectionPolicyView| c.connection_id)
}

/// The first rule seen for a connection, with its lists normalized.
pub open spec fn first_connection_rule(r: ConnectionPolicyView, k: Seq<char>) -> ConnectionPolicyView {
    ConnectionPolicyView {
        connection_id: k,
        allowed_databases: canonical_names(r.allowed_databases),
        database_policies: normalized_flags(r.database_policies),
        ..r
    }
}

/// A further rule for the same connection combined into the current one.
/// Configured execution modes are a conjunction (any read-only wins,
/// high-risk SQL needs every rule); the version marker survives only when
/// both carry the current one; scopes intersect; Salesforce writes need
/// every rule to opt in.
pub open spec fn merge_connection_rule(cur: ConnectionPolicyView, r: ConnectionPolicyView) -> ConnectionPolicyView {
    let ro = if r.execution_mode_configured {
        if cur.execution_mode_configured {
            cur.read_only || r.read_only
        } else {
            r.read_only
        }
    } else {
        cur.read_only
    };
    let danger = if r.execution_mode_configured {
        if cur.execution_mode_configured {
            cur.allow_dangerous_sql && r.allow_dangerous_sql
        } else {
            r.allow_dangerous_sql
        }
    } else {
        cur.allow_dangerous_sql
    };
    let version = match (cur.execution_mode_policy_version, r.execution_mode_policy_version) {
        (Some(left), Some(right)) => if left == MCP_EXECUTION_POLICY_VERSION && right == left {
            Some(left)
        } else {
            None
        },
        _ => None,
    };
    let scope = intersect_scopes(cur.database_scope, cur.allowed_databases, r.database_scope, r.allowed_databases);
    ConnectionPolicyView {
        connection_id: cur.connection_id,
        read_only: ro,
        allow_dangerous_sql: danger,
        execution_mode_configured: cur.execution_mode_configured || r.execution_mode_configured,
        execution_mode_policy_version: version,
        database_scope: scope.0,
        allowed_databases: scope.1,
        database_policies: normalized_flags(cur.database_policies + r.database_policies),
        allow_salesforce_dml: cur.allow_salesforce_dml && r.allow_salesforce_dml,
    }
}

/// All of the first `n` rules whose trimmed id is `k`, combined left to
/// right; `None` when there is none (or `k` is blank).
pub open spec fn merged_connection_rule(rules: Seq<ConnectionPolicyView>, n: int, k: Seq<char>) -> Option<
    ConnectionPolicyView,
>
    decreases n,
{
    if n <= 0 {
        None
    } else {
        let prev = merged_connection_rule(rules, n - 1, k);
        let r = rules[n - 1];
        if k.len() > 0 && trim(r.connection_id) == k {
            match prev {
                None => Some(first_connection_rule(r, k)),
                Some(cur) => Some(merge_connection_rule(cur, r)),
            }
        } else {
            prev
        }
    }
}

/// Final fail-closed clean-up of a combined rule: read-only removes
/// high-risk SQL and Salesforce writes; outside a selected scope no database
/// list or override is kept; overrides survive only for allowed databases.
pub open spec fn finalize_connection_rule(c: ConnectionPolicyView) -> ConnectionPolicyView {
    let dbs = canonical_names(c.allowed_databases);
    let selected = c.database_scope == McpDatabaseScope::Selected;
    ConnectionPolicyView {
        allow_dangerous_sql: !c.read_only && c.allow_dangerous_sql,
        allow_salesforce_dml: !c.read_only && c.allow_salesforce_dml,
        allowed_databases: if selected {
            dbs
        } else {
            Seq::empty()
        },
        database_policies: if selected {
            c.database_policies.filter(|p: PolicyFlagsView| dbs.contains(p.key))
        } else {
            Seq::empty()
        },
        ..c
    }
}

/// A connection rule in its fail-closed form.
pub open spec fn connection_rule_fail_closed(c: ConnectionPolicyView) -> bool {
    &&& c.read_only ==> !c.allow_dangerous_sql && !c.allow_salesforce_dml
    &&& c.database_scope != McpDatabaseScope::Selected ==> c.allowed_databases.len() == 0
        && c.database_policies.len() == 0
    &&& is_clean_list(c.allowed_databases)
    &&& flags_fail_closed(c.database_policies)
    &&& forall|j: int| 0 <= j < c.database_policies.len() ==> c.allowed_databases.contains(
        (#[trigger] c.database_policies[j]).key,
    )
}

/// Trimmed, non-empty connection ids among the first `n` rules.
pub open spec fn connection_keys_upto(rules: Seq<ConnectionPolicyView>, n: int) -> Set<Seq<char>> {
    Set::new(
        |k: Seq<char>|
            k.len() > 0 && exists|i: int| 0 <= i < n && trim(#[trigger] rules[i].connection_id) == k,
    )
}

pub open spec fn normalized_connection_entry(rules: Seq<ConnectionPolicyView>, k: Seq<char>) -> ConnectionPolicyView {
    finalize_connection_rule(merged_connection_rule(rules, rules.len() as int, k)->Some_0)
}

/// `r` is the normalized rule list: one finalized combined rule per
/// connection id, sorted by id.
pub open spec fn is_normalized_connections(r: Seq<ConnectionPolicyView>, rules: Seq<ConnectionPolicyView>) -> bool {
    &&& sorted_by_key(r, |c: ConnectionPolicyView| connection_key(c))
    &&& connection_ids(r).to_set() == connection_keys_upto(rules, rules.len() as int)
    &&& forall|j: int| 0 <= j < r.len() ==> #[trigger] r[j] == normalized_connection_entry(rules, r[j].connection_id)
}

pub open spec fn normalized_connections(rules: Seq<ConnectionPolicyView>) -> Seq<ConnectionPolicyView> {
    choose|r: Seq<ConnectionPolicyView>| is_normalized_connections(r, rules)
}

pub proof fn lemma_normalized_connections_unique(r: Seq<ConnectionPolicyView>, rules: Seq<ConnectionPolicyView>)
    requires
        is_normalized_connections(r, rules),
    ensures
        normalized_connections(rules) == r,
{
    let c = normalized_connections(rules);
    assert(is_normalized_connections(c, rules));
    assert forall|x: ConnectionPolicyView| r.to_set().contains(x) implies c.to_set().contains(x) by {
        let j = choose|j: int| 0 <= j < r.len() && r[j] == x;
        assert(connection_ids(r)[j] == x.connection_id);
        assert(connection_ids(c).to_set().contains(x.connection_id));
        let m = choose|m: int| 0 <= m < c.len() && #[trigger] connection_ids(c)[m] == x.connection_id;
        assert(c[m] == normalized_connection_entry(rules, c[m].connection_id));
    }
    assert forall|x: ConnectionPolicyView| c.to_set().contains(x) implies r.to_set().contains(x) by {
        let j = choose|j: int| 0 <= j < c.len() && c[j] == x;
        assert(connection_ids(c)[j] == x.connection_id);
        assert(connection_ids(r).to_set().contains(x.connection_id));
        let m = choose|m: int| 0 <= m < r.len() && #[trigger] connection_ids(r)[m] == x.connection_id;
        assert(r[m] == normalized_connection_entry(rules, r[m].connection_id));
    }
    assert(r.to_set() =~= c.to_set());
    lemma_sorted_by_key_unique(r, c, |c: ConnectionPolicyView| connection_key(c));
}

/// A combined rule exists exactly for the keys seen, and carries its key.
pub proof fn lemma_merged_connection_rule(rules: Seq<ConnectionPolicyView>, n: int, k: Seq<char>)
    requires
        0 <= n <= rules.len(),
    ensures
        merged_connection_rule(rules, n, k) is Some <==> connection_keys_upto(rules, n).contains(k),
        merged_connection_rule(rules, n, k) is Some ==> merged_connection_rule(rules, n, k)->Some_0.connection_id == k,
    decreases n,
{
    if n > 0 {
        lemma_merged_connection_rule(rules, n - 1, k);
        if connection_keys_upto(rules, n).contains(k) {
            let m = choose|m: int| 0 <= m < n && trim(#[trigger] rules[m].connection_id) == k;
            if m < n - 1 {
                assert(connection_keys_upto(rules, n - 1).contains(k));
            }
        }
        if connection_keys_upto(rules, n - 1).contains(k) {
            let m = choose|m: int| 0 <= m < n - 1 && trim(#[trigger] rules[m].connection_id) == k;
            assert(connection_keys_upto(rules, n).contains(k));
        }
        if k.len() > 0 && trim(rules[n - 1].connection_id) == k {
            assert(connection_keys_upto(rules, n).contains(k));
        }
    } else {
        assert(!connection_keys_upto(rules, n).contains(k));
    }
}

fn first_connection_rule_exec(r: &McpConnectionPolicy, key: &[char]) -> (n: McpConnectionPolicy)
    ensures
        n@ == first_connection_rule(r@, key@),
        flags_fail_closed(n@.database_policies),
{
    McpConnectionPolicy {
        connection_id: string_of(key),
        read_only: r.read_only,
        allow_dangerous_sql: r.allow_dangerous_sql,
        execution_mode_configured: r.execution_mode_configured,
        execution_mode_policy_version: r.execution_mode_policy_version,
        database_scope: r.database_scope,
        allowed_databases: normalize_mcp_database_names(r.allowed_databases.as_slice()),
        database_policies: normalize_mcp_database_policies(r.database_policies.as_slice()),
        allow_salesforce_dml: r.allow_salesforce_dml,
    }
}

fn merge_connection_rule_exec(cur: &McpConnectionPolicy, r: &McpConnectionPolicy) -> (n: McpConnectionPolicy)
    ensures
        n@ == merge_connection_rule(cur@, r@),
        flags_fail_closed(n@.database_policies),
{
    let (ro, danger) = if r.execution_mode_configured {
        if cur.execution_mode_configured {
            (cur.read_only || r.read_only, cur.allow_dangerous_sql && r.allow_dangerous_sql)
        } else {
            (r.read_only, r.allow_dangerous_sql)
        }
    } else {
        (cur.read_only, cur.allow_dangerous_sql)
    };
    let version = match (cur.execution_mode_policy_version, r.execution_mode_policy_version) {
        (Some(left), Some(right)) => if left == MCP_EXECUTION_POLICY_VERSION && right == left {
            Some(left)
        } else {
            None
        },
        _ => None,
    };
    let (scope, databases) = intersect_mcp_database_scopes(
        cur.database_scope,
        cur.allowed_databases.as_slice(),
        r.database_scope,
        r.allowed_databases.as_slice(),
    );
    McpConnectionPolicy {
        connection_id: cur.connection_id.clone(),
        read_only: ro,
        allow_dangerous_sql: danger,
        execution_mode_configured: cur.execution_mode_configured || r.execution_mode_configured,
        execution_mode_policy_version: version,
        database_scope: scope,
        allowed_databases: databases,
        database_policies: merge_mcp_database_policies(
            cur.database_policies.as_slice(),
            r.database_policies.as_slice(),
        ),
        allow_salesforce_dml: cur.allow_salesforce_dml && r.allow_salesforce_dml,
    }
}

/// The database overrides whose name is in `names`, in order.
fn retain_db_policies(ps: &[McpDatabasePolicy], names: &[String]) -> (r: Vec<McpDatabasePolicy>)
    ensures
        db_policy_views(r@) == db_policy_views(ps@).filter(
            |p: PolicyFlagsView| string_views(names@).contains(p.key),
        ),
{
    let ghost pv = db_policy_views(ps@);
    let ghost pred = |p: PolicyFlagsView| string_views(names@).contains(p.key);
    let mut r: Vec<McpDatabasePolicy> = Vec::new();
    let mut k: usize = 0;
    assert(pv.take(0).filter(pred) =~= Seq::<PolicyFlagsView>::empty());
    while k < ps.len()
        invariant
            k <= ps.len(),
            pv == db_policy_views(ps@),
            pred == (|p: PolicyFlagsView| string_views(names@).contains(p.key)),
            db_policy_views(r@) == pv.take(k as int).filter(pred),
        decreases ps.len() - k,
    {
        assert(pv.take(k + 1) =~= pv.take(k as int).push(pv[k as int]));
        proof {
            pv.take(k as int).lemma_filter_push(pv[k as int], pred);
        }
        let ghost prev = db_policy_views(r@);
        if crate::text::strings_contain(names, &ps[k].database_name) {
            r.push(McpDatabasePolicy {
                database_name: ps[k].database_name.clone(),
                read_only: ps[k].read_only,
                allow_dangerous_sql: ps[k].allow_dangerous_sql,
            });
            assert(db_policy_views(r@) =~= prev.push(pv[k as int]));
        } else {
            assert(db_policy_views(r@) =~= prev);
        }
        k = k + 1;
    }
    assert(pv.take(ps.len() as int) =~= pv);
    r
}

fn finalize_connection_rule_exec(c: &McpConnectionPolicy) -> (n: McpConnectionPolicy)
    requires
        flags_fail_closed(c@.database_policies),
    ensures
        n@ == finalize_connection_rule(c@),
        connection_rule_fail_closed(n@),
{
    let dbs = normalize_mcp_database_names(c.allowed_databases.as_slice());
    let selected = c.database_scope == McpDatabaseScope::Selected;
    let (allowed, overrides) = if selected {
        let kept = retain_db_policies(c.database_policies.as_slice(), dbs.as_slice());
        proof {
            let pv = db_policy_views(c.database_policies@);
            let pred = |p: PolicyFlagsView| string_views(dbs@).contains(p.key);
            lemma_filter_sorted(pv, pred, |x: PolicyFlagsView| flags_key(x));
            let f = pv.filter(pred);
            assert forall|i: int| 0 <= i < f.len() implies ((#[trigger] f[i]).read_only ==> !f[i].allow_dangerous_sql)
                && f[i].key.len() > 0 && is_trimmed(f[i].key) && string_views(dbs@).contains(f[i].key) by {
                assert(pv.contains(f[i]));
            }
        }
        (dbs, kept)
    } else {
        let a: Vec<String> = Vec::new();
        let o: Vec<McpDatabasePolicy> = Vec::new();
        assert(string_views(a@) =~= Seq::<Seq<char>>::empty());
        assert(db_policy_views(o@) =~= Seq::<PolicyFlagsView>::empty());
        (a, o)
    };
    McpConnectionPolicy {
        connection_id: c.connection_id.clone(),
        read_only: c.read_only,
        allow_dangerous_sql: !c.read_only && c.allow_dangerous_sql,
        execution_mode_configured: c.execution_mode_configured,
        execution_mode_policy_version: c.execution_mode_policy_version,
        database_scope: c.database_scope,
        allowed_databases: allowed,
        database_policies: overrides,
        allow_salesforce_dml: !c.read_only && c.allow_salesforce_dml,
    }
}


/// A combined connection rule together with the characters of its key.
struct ConnAcc {
    key: Vec<char>,
    policy: McpConnectionPolicy,
}

spec fn conn_acc_keys(acc: Seq<ConnAcc>) -> Seq<Seq<char>> {
    acc.map_values(|a: ConnAcc| a.key@)
}

spec fn conn_acc_inv(acc: Seq<ConnAcc>, rv: Seq<ConnectionPolicyView>, n: int) -> bool {
    &&& forall|a: int, b: int| 0 <= a < b < acc.len() ==> seq_lt(#[trigger] acc[a].key@, #[trigger] acc[b].key@)
    &&& forall|j: int| 0 <= j < acc.len() ==> (#[trigger] acc[j]).policy.connection_id@ == acc[j].key@
    &&& forall|j: int| 0 <= j < acc.len() ==> merged_connection_rule(rv, n, (#[trigger] acc[j]).key@) == Some(acc[j].policy@)
    &&& forall|k: Seq<char>| #[trigger] conn_acc_keys(acc).contains(k) <==> merged_connection_rule(rv, n, k) is Some
    &&& forall|j: int| 0 <= j < acc.len() ==> flags_fail_closed((#[trigger] acc[j]).policy@.database_policies)
}

/// Combines the rules of each connection (conjunction of configured modes,
/// intersected scopes, merged overrides), then applies the fail-closed
/// clean-up, sorted by connection id.
#[verifier::rlimit(60)]
pub fn normalize_mcp_connection_policies(rules: &[McpConnectionPolicy]) -> (r: Vec<McpConnectionPolicy>)
    ensures
        connection_policy_views(r@) == normalized_connections(connection_policy_views(rules@)),
        is_normalized_connections(connection_policy_views(r@), connection_policy_views(rules@)),
        forall|j: int| 0 <= j < r@.len() ==> connection_rule_fail_closed(#[trigger] connection_policy_views(r@)[j]),
        sorted_by_key(connection_policy_views(r@), |c: ConnectionPolicyView| connection_key(c)),
        connection_ids_clean(connection_policy_views(r@)),
{
    let ghost rv = connection_policy_views(rules@);
    let mut acc: Vec<ConnAcc> = Vec::new();
    let mut i: usize = 0;
    while i < rules.len()
        invariant
            i <= rules.len(),
            rv == connection_policy_views(rules@),
            rv.len() == rules.len(),
            conn_acc_inv(acc@, rv, i as int),
        decreases rules.len() - i,
    {
        let key = trim_chars(chars_of(rules[i].connection_id.as_str()).as_slice());
        let ghost old_acc = acc@;
        assert(rv[i as int] == rules@[i as int]@);
        if key.len() > 0 {
            let mut p: usize = 0;
            while p < acc.len() && chars_lt(acc[p].key.as_slice(), key.as_slice())
                invariant
                    p <= acc.len(),
                    old_acc == acc@,
                    forall|k: int| 0 <= k < p ==> seq_lt(#[trigger] old_acc[k].key@, key@),
                decreases acc.len() - p,
            {
                p = p + 1;
            }
            if p < acc.len() && chars_eq(acc[p].key.as_slice(), key.as_slice()) {
                let merged = merge_connection_rule_exec(&acc[p].policy, &rules[i]);
                acc.set(p, ConnAcc { key, policy: merged });
                proof {
                    assert(conn_acc_keys(acc@) =~= conn_acc_keys(old_acc));
                    assert forall|j: int| 0 <= j < acc@.len() implies merged_connection_rule(rv, i + 1, (#[trigger] acc@[j]).key@) == Some(acc@[j].policy@) by {
                        if j != p {
                            assert(acc@[j].key@ != key@) by {
                                if j < p {
                                    lemma_seq_lt_irreflexive(key@);
                                } else {
                                    assert(seq_lt(old_acc[p as int].key@, old_acc[j].key@));
                                    lemma_seq_lt_irreflexive(key@);
                                }
                            }
                        }
                    }
                    assert forall|k: Seq<char>| #[trigger] conn_acc_keys(acc@).contains(k) <==> merged_connection_rule(rv, i + 1, k) is Some by {
                        if k == key@ {
                            assert(conn_acc_keys(old_acc)[p as int] == k);
                        }
                    }
                    assert forall|a: int, b: int| 0 <= a < b < acc@.len() implies seq_lt(#[trigger] acc@[a].key@, #[trigger] acc@[b].key@) by {
                        assert(seq_lt(old_acc[a].key@, old_acc[b].key@));
                    }
                }
            } else {
                proof {
                    if p < old_acc.len() {
                        lemma_seq_lt_total(old_acc[p as int].key@, key@);
                    }
                    if merged_connection_rule(rv, i as int, key@) is Some {
                        assert(conn_acc_keys(old_acc).contains(key@));
                        let m = choose|m: int| 0 <= m < old_acc.len() && #[trigger] conn_acc_keys(old_acc)[m] == key@;
                        if m < p {
                            lemma_seq_lt_irreflexive(key@);
                        } else if m > p {
                            lemma_seq_lt_transitive(key@, old_acc[p as int].key@, old_acc[m].key@);
                            lemma_seq_lt_irreflexive(key@);
                        }
                    }
                }
                let first = first_connection_rule_exec(&rules[i], key.as_slice());
                let ghost kv = key@;
                acc.insert(p, ConnAcc { key, policy: first });
                proof {
                    assert(acc@ =~= old_acc.insert(p as int, acc@[p as int]));
                    assert forall|a: int, b: int| 0 <= a < b < acc@.len() implies seq_lt(#[trigger] acc@[a].key@, #[trigger] acc@[b].key@) by {
                        if b < p {
                            assert(seq_lt(old_acc[a].key@, old_acc[b].key@));
                        } else if b == p {
                        } else if a == p {
                            if b - 1 > p {
                                assert(seq_lt(old_acc[p as int].key@, old_acc[b - 1].key@));
                                lemma_seq_lt_transitive(kv, old_acc[p as int].key@, old_acc[b - 1].key@);
                            }
                        } else if a < p {
                            lemma_seq_lt_transitive(old_acc[a].key@, kv, old_acc[p as int].key@);
                            if b - 1 > p {
                                assert(seq_lt(old_acc[p as int].key@, old_acc[b - 1].key@));
                                lemma_seq_lt_transitive(old_acc[a].key@, old_acc[p as int].key@, old_acc[b - 1].key@);
                            }
                        } else {
                            assert(seq_lt(old_acc[a - 1].key@, old_acc[b - 1].key@));
                        }
                    }
                    assert forall|j: int| 0 <= j < acc@.len() implies merged_connection_rule(rv, i + 1, (#[trigger] acc@[j]).key@) == Some(acc@[j].policy@) by {
                        if j != p {
                            let oj = if j < p { j } else { j - 1 };
                            assert(acc@[j] == old_acc[oj]);
                            assert(conn_acc_keys(old_acc)[oj] == old_acc[oj].key@);
                        }
                    }
                    assert forall|k: Seq<char>| #[trigger] conn_acc_keys(acc@).contains(k) <==> merged_connection_rule(rv, i + 1, k) is Some by {
                        if conn_acc_keys(acc@).contains(k) {
                            let m = choose|m: int| 0 <= m < acc@.len() && #[trigger] conn_acc_keys(acc@)[m] == k;
                            if m < p {
                                assert(conn_acc_keys(old_acc)[m] == k);
                            } else if m > p {
                                assert(conn_acc_keys(old_acc)[m - 1] == k);
                            }
                        }
                        if merged_connection_rule(rv, i + 1, k) is Some {
                            if k == kv {
                                assert(conn_acc_keys(acc@)[p as int] == k);
                            } else {
                                assert(conn_acc_keys(old_acc).contains(k));
                                let m = choose|m: int| 0 <= m < old_acc.len() && #[trigger] conn_acc_keys(old_acc)[m] == k;
                                if m < p {
                                    assert(conn_acc_keys(acc@)[m] == k);
                                } else {
                                    assert(conn_acc_keys(acc@)[m + 1] == k);
                                }
                            }
                        }
                    }
                }
            }
        } else {
            proof {
                assert forall|k: Seq<char>| merged_connection_rule(rv, i + 1, k) == merged_connection_rule(rv, i as int, k) by {}
            }
        }
        i = i + 1;
    }
    let mut r: Vec<McpConnectionPolicy> = Vec::new();
    let mut q: usize = 0;
    while q < acc.len()
        invariant
            q <= acc.len(),
            rv == connection_policy_views(rules@),
            rv.len() == rules.len(),
            conn_acc_inv(acc@, rv, rules.len() as int),
            r@.len() == q,
            forall|j: int| 0 <= j < q ==> (#[trigger] r@[j])@ == finalize_connection_rule(acc@[j].policy@),
            forall|j: int| 0 <= j < q ==> connection_rule_fail_closed((#[trigger] r@[j])@),
        decreases acc.len() - q,
    {
        let f = finalize_connection_rule_exec(&acc[q].policy);
        r.push(f);
        q = q + 1;
    }
    proof {
        let n = rules.len() as int;
        let out = connection_policy_views(r@);
        assert forall|j: int| 0 <= j < out.len() implies #[trigger] out[j] == normalized_connection_entry(rv, out[j].connection_id) by {
            assert(out[j] == r@[j]@);
            assert(acc@[j].policy.connection_id@ == acc@[j].key@);
        }
        assert forall|a: int, b: int| 0 <= a < b < out.len() implies seq_lt(connection_key(out[a]), connection_key(out[b])) by {
            assert(out[a] == r@[a]@);
            assert(out[b] == r@[b]@);
            assert(acc@[a].policy.connection_id@ == acc@[a].key@);
            assert(acc@[b].policy.connection_id@ == acc@[b].key@);
            assert(seq_lt(acc@[a].key@, acc@[b].key@));
        }
        assert forall|k: Seq<char>| #[trigger] connection_ids(out).to_set().contains(k) <==> connection_keys_upto(rv, n).contains(k) by {
            lemma_merged_connection_rule(rv, n, k);
            if connection_ids(out).to_set().contains(k) {
                let m = choose|m: int| 0 <= m < out.len() && #[trigger] connection_ids(out)[m] == k;
                assert(out[m] == r@[m]@);
                assert(acc@[m].policy.connection_id@ == acc@[m].key@);
                assert(conn_acc_keys(acc@)[m] == k);
            }
            if connection_keys_upto(rv, n).contains(k) {
                assert(conn_acc_keys(acc@).contains(k));
                let m = choose|m: int| 0 <= m < acc@.len() && #[trigger] conn_acc_keys(acc@)[m] == k;
                assert(out[m] == r@[m]@);
                assert(acc@[m].policy.connection_id@ == acc@[m].key@);
                assert(connection_ids(out)[m] == k);
            }
        }
        assert(connection_ids(out).to_set() =~= connection_keys_upto(rv, n));
        lemma_normalized_connections_unique(out, rv);
        assert forall|j: int| 0 <= j < out.len() implies (#[trigger] out[j]).connection_id.len() > 0 && is_trimmed(
            out[j].connection_id,
        ) by {
            assert(connection_ids(out)[j] == out[j].connection_id);
            assert(connection_keys_upto(rv, n).contains(out[j].connection_id));
            let m = choose|m: int| 0 <= m < n && trim(#[trigger] rv[m].connection_id) == out[j].connection_id;
            lemma_trim_is_trimmed(rv[m].connection_id);
        }
        assert forall|j: int| 0 <= j < r@.len() implies connection_rule_fail_closed(#[trigger] connection_policy_views(r@)[j]) by {
            assert(connection_policy_views(r@)[j] == r@[j]@);
        }
    }
    r
}


/// The MCP-wide policy persisted in the application settings.
#[derive(Debug, Clone, PartialEq, Eq)]
pub struct McpGlobalPolicy {
    pub read_only: bool,
    pub allow_dangerous_sql: bool,
    pub allowed_connection_ids: Option<Vec<String>>,
    pub allowed_group_ids: Vec<String>,
    pub allowed_tool_names: Option<Vec<String>>,
    pub connection_policies: Vec<McpConnectionPolicy>,
    pub group_policies: Vec<McpGroupPolicy>,
    pub query_timeout_secs: Option<u64>,
}

pub struct GlobalPolicyView {
    pub read_only: bool,
    pub allow_dangerous_sql: bool,
    pub allowed_connection_ids: Option<Seq<Seq<char>>>,
    pub allowed_group_ids: Seq<Seq<char>>,
    pub allowed_tool_names: Option<Seq<Seq<char>>>,
    pub connection_policies: Seq<ConnectionPolicyView>,
    pub group_policies: Seq<PolicyFlagsView>,
    pub query_timeout_secs: Option<u64>,
}

pub open spec fn optional_string_views(v: Option<Vec<String>>) -> Option<Seq<Seq<char>>> {
    match v {
        Some(list) => Some(string_views(list@)),
        None => None,
    }
}

impl View for McpGlobalPolicy {
    type V = GlobalPolicyView;

    open spec fn view(&self) -> GlobalPolicyView {
        GlobalPolicyView {
            read_only: self.read_only,
            allow_dangerous_sql: self.allow_dangerous_sql,
            allowed_connection_ids: optional_string_views(self.allowed_connection_ids),
            allowed_group_ids: string_views(self.allowed_group_ids@),
            allowed_tool_names: optional_string_views(self.allowed_tool_names),
            connection_policies: connection_policy_views(self.connection_policies@),
            group_policies: group_policy_views(self.group_policies@),
            query_timeout_secs: self.query_timeout_secs,
        }
    }
}

pub open spec fn optional_canonical_names(v: Option<Seq<Seq<char>>>) -> Option<Seq<Seq<char>>> {
    match v {
        Some(list) => Some(canonical_names(list)),
        None => None,
    }
}

/// What every normalized policy satisfies: no read-only policy allows
/// high-risk SQL, identifier lists are clean, group ids only accompany an
/// explicit connection scope, and every rule list is sorted and fail-closed.
pub open spec fn policy_fail_closed(p: GlobalPolicyView) -> bool {
    &&& !(p.read_only && p.allow_dangerous_sql)
    &&& (p.allowed_connection_ids matches Some(ids) ==> is_clean_list(ids))
    &&& (p.allowed_connection_ids is None ==> p.allowed_group_ids.len() == 0)
    &&& is_clean_list(p.allowed_group_ids)
    &&& (p.allowed_tool_names matches Some(tools) ==> is_clean_list(tools))
    &&& sorted_by_key(p.connection_policies, |c: ConnectionPolicyView| connection_key(c))
    &&& forall|j: int| 0 <= j < p.connection_policies.len() ==> connection_rule_fail_closed(
        #[trigger] p.connection_policies[j],
    )
    &&& flags_fail_closed(p.group_policies)
}

/// The single fail-closed representation of a policy.
pub open spec fn normalized_policy(p: GlobalPolicyView) -> GlobalPolicyView {
    GlobalPolicyView {
        read_only: p.read_only,
        allow_dangerous_sql: !p.read_only && p.allow_dangerous_sql,
        allowed_connection_ids: optional_canonical_names(p.allowed_connection_ids),
        allowed_group_ids: if p.allowed_connection_ids is Some {
            canonical_names(p.allowed_group_ids)
        } else {
            Seq::empty()
        },
        allowed_tool_names: optional_canonical_names(p.allowed_tool_names),
        connection_policies: normalized_connections(p.connection_policies),
        group_policies: normalized_flags(p.group_policies),
        query_timeout_secs: p.query_timeout_secs,
    }
}

impl Default for McpGlobalPolicy {
    fn default() -> (r: Self)
        ensures
            !r.read_only,
            !r.allow_dangerous_sql,
            r.allowed_connection_ids is None,
            r.allowed_group_ids@.len() == 0,
            r.allowed_tool_names is None,
            r.connection_policies@.len() == 0,
            r.group_policies@.len() == 0,
            r.query_timeout_secs is None,
    {
        McpGlobalPolicy {
            read_only: false,
            allow_dangerous_sql: false,
            allowed_connection_ids: None,
            allowed_group_ids: Vec::new(),
            allowed_tool_names: None,
            connection_policies: Vec::new(),
            group_policies: Vec::new(),
            query_timeout_secs: None,
        }
    }
}

fn normalize_optional_ids(ids: &Option<Vec<String>>) -> (r: Option<Vec<String>>)
    ensures
        optional_string_views(r) == optional_canonical_names(optional_string_views(*ids)),
        r matches Some(list) ==> is_clean_list(string_views(list@)),
        r is Some <==> ids is Some,
{
    match ids {
        Some(list) => Some(normalize_mcp_ids(list.as_slice())),
        None => None,
    }
}

impl McpGlobalPolicy {
    /// Produces the single fail-closed representation persisted by the MCP
    /// policy API.
    pub fn normalized(&self) -> (r: Self)
        ensures
            r@ == normalized_policy(self@),
            is_normalized_connections(r@.connection_policies, self@.connection_policies),
            is_normalized_flags(r@.group_policies, self@.group_policies),
            policy_fail_closed(r@),
            policy_normal_form(r@),
    {
        let allowed_connection_ids = normalize_optional_ids(&self.allowed_connection_ids);
        let allowed_group_ids = if allowed_connection_ids.is_some() {
            normalize_mcp_ids(self.allowed_group_ids.as_slice())
        } else {
            let v: Vec<String> = Vec::new();
            assert(string_views(v@) =~= Seq::<Seq<char>>::empty());
            v
        };
        let allowed_tool_names = normalize_optional_ids(&self.allowed_tool_names);
        let connection_policies = normalize_mcp_connection_policies(self.connection_policies.as_slice());
        let group_policies = normalize_mcp_group_policies(self.group_policies.as_slice());
        let r = McpGlobalPolicy {
            read_only: self.read_only,
            allow_dangerous_sql: !self.read_only && self.allow_dangerous_sql,
            allowed_connection_ids,
            allowed_group_ids,
            allowed_tool_names,
            connection_policies,
            group_policies,
            query_timeout_secs: self.query_timeout_secs,
        };
        assert(r@ == normalized_policy(self@));
        proof {
            let cp = connection_policy_views(r.connection_policies@);
            assert forall|j: int| 0 <= j < cp.len() implies connection_rule_fail_closed(#[trigger] cp[j]) by {}
        }
        r
    }
}

/// The stored policy together with whether one was configured at all.
#[derive(Debug, Clone, PartialEq, Eq)]
pub struct McpGlobalPolicyState {
    pub configured: bool,
    pub read_only: bool,
    pub allow_dangerous_sql: bool,
    pub allowed_connection_ids: Option<Vec<String>>,
    pub allowed_group_ids: Vec<String>,
    pub allowed_tool_names: Option<Vec<String>>,
    pub connection_policies: Vec<McpConnectionPolicy>,
    pub group_policies: Vec<McpGroupPolicy>,
    pub query_timeout_secs: Option<u64>,
}

fn copy_optional_strings(v: &Option<Vec<String>>) -> (r: Option<Vec<String>>)
    ensures
        optional_string_views(r) == optional_string_views(*v),
{
    match v {
        Some(list) => {
            let c = copy_strings(list.as_slice());
            assert(c@ =~= list@);
            Some(c)
        },
        None => None,
    }
}

fn copy_connection_policy(c: &McpConnectionPolicy) -> (r: McpConnectionPolicy)
    ensures
        r@ == c@,
{
    let databases = copy_strings(c.allowed_databases.as_slice());
    let overrides = flags_to_db_policies(db_policies_to_flags(c.database_policies.as_slice()).as_slice());
    McpConnectionPolicy {
        connection_id: c.connection_id.clone(),
        read_only: c.read_only,
        allow_dangerous_sql: c.allow_dangerous_sql,
        execution_mode_configured: c.execution_mode_configured,
        execution_mode_policy_version: c.execution_mode_policy_version,
        database_scope: c.database_scope,
        allowed_databases: databases,
        database_policies: overrides,
        allow_salesforce_dml: c.allow_salesforce_dml,
    }
}

fn copy_connection_policies(v: &[McpConnectionPolicy]) -> (r: Vec<McpConnectionPolicy>)
    ensures
        connection_policy_views(r@) == connection_policy_views(v@),
{
    let mut r: Vec<McpConnectionPolicy> = Vec::new();
    let mut k: usize = 0;
    while k < v.len()
        invariant
            k <= v.len(),
            connection_policy_views(r@) == connection_policy_views(v@).take(k as int),
        decreases v.len() - k,
    {
        r.push(copy_connection_policy(&v[k]));
        k = k + 1;
        assert(connection_policy_views(r@) =~= connection_policy_views(v@).take(k - 1).push(connection_policy_views(v@)[k - 1]));
        assert(connection_policy_views(v@).take(k as int) =~= connection_policy_views(v@).take(k - 1).push(connection_policy_views(v@)[k - 1]));
    }
    assert(connection_policy_views(v@).take(v.len() as int) =~= connection_policy_views(v@));
    r
}

impl McpGlobalPolicyState {
    /// The policy part of the state, without the `configured` marker.
    pub fn policy(&self) -> (r: McpGlobalPolicy)
        ensures
            r.read_only == self.read_only,
            r.allow_dangerous_sql == self.allow_dangerous_sql,
            optional_string_views(r.allowed_connection_ids) == optional_string_views(self.allowed_connection_ids),
            r.allowed_group_ids@ == self.allowed_group_ids@,
            optional_string_views(r.allowed_tool_names) == optional_string_views(self.allowed_tool_names),
            connection_policy_views(r.connection_policies@) == connection_policy_views(self.connection_policies@),
            group_policy_views(r.group_policies@) == group_policy_views(self.group_policies@),
            r.query_timeout_secs == self.query_timeout_secs,
    {
        McpGlobalPolicy {
            read_only: self.read_only,
            allow_dangerous_sql: self.allow_dangerous_sql,
            allowed_connection_ids: copy_optional_strings(&self.allowed_connection_ids),
            allowed_group_ids: copy_strings(self.allowed_group_ids.as_slice()),
            allowed_tool_names: copy_optional_strings(&self.allowed_tool_names),
            connection_policies: copy_connection_policies(self.connection_policies.as_slice()),
            group_policies: flags_to_group_policies(group_policies_to_flags(self.group_policies.as_slice()).as_slice()),
            query_timeout_secs: self.query_timeout_secs,
        }
    }
}

/// The view of a state's policy part.
pub open spec fn state_policy_view(st: McpGlobalPolicyState) -> GlobalPolicyView {
    GlobalPolicyView {
        read_only: st.read_only,
        allow_dangerous_sql: st.allow_dangerous_sql,
        allowed_connection_ids: optional_string_views(st.allowed_connection_ids),
        allowed_group_ids: string_views(st.allowed_group_ids@),
        allowed_tool_names: optional_string_views(st.allowed_tool_names),
        connection_policies: connection_policy_views(st.connection_policies@),
        group_policies: group_policy_views(st.group_policies@),
        query_timeout_secs: st.query_timeout_secs,
    }
}

impl McpGlobalPolicyState {
    /// The state shown for what the settings store: a stored policy,
    /// normalized, marks the state configured; without one the defaults
    /// apply and the state is unconfigured.
    pub fn from_stored(stored: Option<McpGlobalPolicy>) -> (r: Self)
        ensures
            r.configured == stored is Some,
            match stored {
                Some(p) => state_policy_view(r) == normalized_policy(p@),
                None => {
                    &&& !r.read_only && !r.allow_dangerous_sql
                    &&& r.allowed_connection_ids is None && r.allowed_tool_names is None
                    &&& r.allowed_group_ids@.len() == 0 && r.connection_policies@.len() == 0
                    &&& r.group_policies@.len() == 0 && r.query_timeout_secs is None
                },
            },
            policy_fail_closed(state_policy_view(r)) || stored is None,
    {
        let configured = stored.is_some();
        let policy = match stored {
            Some(p) => p.normalized(),
            None => McpGlobalPolicy::default(),
        };
        McpGlobalPolicyState {
            configured,
            read_only: policy.read_only,
            allow_dangerous_sql: policy.allow_dangerous_sql,
            allowed_connection_ids: policy.allowed_connection_ids,
            allowed_group_ids: policy.allowed_group_ids,
            allowed_tool_names: policy.allowed_tool_names,
            connection_policies: policy.connection_policies,
            group_policies: policy.group_policies,
            query_timeout_secs: policy.query_timeout_secs,
        }
    }
}

/// The error of a policy that could not be read or written.
pub open spec fn policy_unavailable(reason: Seq<char>) -> Seq<char> {
    "MCP_POLICY_UNAVAILABLE: "@ + reason
}

/// The policy state from what reading the settings gave: the stored policy,
/// if any, or the reason it could not be read. Loading fails closed: an
/// unreadable policy is an error, never the defaults.
pub fn policy_state_from_load(loaded: Result<Option<McpGlobalPolicy>, String>) -> (r: Result<
    McpGlobalPolicyState,
    String,
>)
    ensures
        match loaded {
            Err(reason) => r matches Err(e) && e@ == policy_unavailable(reason@),
            Ok(stored) => r matches Ok(st) && st.configured == stored is Some && match stored {
                Some(p) => state_policy_view(st) == normalized_policy(p@),
                None => {
                    &&& !st.read_only && !st.allow_dangerous_sql
                    &&& st.allowed_connection_ids is None && st.allowed_tool_names is None
                    &&& st.allowed_group_ids@.len() == 0 && st.connection_policies@.len() == 0
                    &&& st.group_policies@.len() == 0 && st.query_timeout_secs is None
                },
            },
        },
{
    match loaded {
        Err(reason) => Err(String::from_str("MCP_POLICY_UNAVAILABLE: ").concat(reason.as_str())),
        Ok(stored) => Ok(McpGlobalPolicyState::from_stored(stored)),
    }
}

/// Every connection id is trimmed and non-empty.
pub open spec fn connection_ids_clean(c: Seq<ConnectionPolicyView>) -> bool {
    forall|j: int| 0 <= j < c.len() ==> (#[trigger] c[j]).connection_id.len() > 0 && is_trimmed(c[j].connection_id)
}

/// The form every normalized policy has: fail-closed, with clean connection
/// ids.
pub open spec fn policy_normal_form(p: GlobalPolicyView) -> bool {
    policy_fail_closed(p) && connection_ids_clean(p.connection_policies)
}

/// A fail-closed flag list is its own normalization.
pub proof fn lemma_normalized_flags_fixed(f: Seq<PolicyFlagsView>)
    requires
        flags_fail_closed(f),
    ensures
        normalized_flags(f) == f,
{
    let key = |x: PolicyFlagsView| flags_key(x);
    assert forall|a: int, b: int| 0 <= a < f.len() && 0 <= b < f.len() && a != b implies f[a].key != f[b].key by {
        lemma_seq_lt_irreflexive(f[a].key);
        if a < b {
            assert(seq_lt(key(f[a]), key(f[b])));
        } else {
            assert(seq_lt(key(f[b]), key(f[a])));
        }
    }
    assert forall|k: Seq<char>| flag_keys(f).to_set().contains(k) <==> flag_keys_upto(f, f.len() as int).contains(k) by {
        if flag_keys(f).to_set().contains(k) {
            let j = choose|j: int| 0 <= j < flag_keys(f).len() && flag_keys(f)[j] == k;
            assert(f[j].key == k);
            lemma_trimmed_fixed(f[j].key);
            assert(trim(f[j].key) == k);
        }
        if flag_keys_upto(f, f.len() as int).contains(k) {
            let j = choose|j: int| 0 <= j < f.len() && trim(#[trigger] f[j].key) == k;
            lemma_trimmed_fixed(f[j].key);
            assert(flag_keys(f)[j] == k);
        }
    }
    assert(flag_keys(f).to_set() =~= flag_keys_upto(f, f.len() as int));
    assert forall|j: int| 0 <= j < f.len() implies #[trigger] f[j] == combined_flags(f, f[j].key) by {
        let k = f[j].key;
        assert forall|i: int| 0 <= i < f.len() && trim(#[trigger] f[i].key) == k implies i == j by {
            lemma_trimmed_fixed(f[i].key);
        }
        lemma_trimmed_fixed(f[j].key);
        assert(flag_read_only_upto(f, f.len() as int, k) == f[j].read_only);
        assert(flag_all_dangerous_upto(f, f.len() as int, k) == f[j].allow_dangerous_sql);
    }
    lemma_normalized_flags_unique(f, f);
}

/// Only rule `j` among the first `n` has trimmed id `k`.
proof fn lemma_merged_single(rules: Seq<ConnectionPolicyView>, n: int, k: Seq<char>, j: int)
    requires
        0 <= n <= rules.len(),
        0 <= j < rules.len(),
        k.len() > 0,
        trim(rules[j].connection_id) == k,
        forall|i: int| 0 <= i < rules.len() && i != j ==> trim(#[trigger] rules[i].connection_id) != k,
    ensures
        merged_connection_rule(rules, n, k) == if n <= j {
            None::<ConnectionPolicyView>
        } else {
            Some(first_connection_rule(rules[j], k))
        },
    decreases n,
{
    if n > 0 {
        lemma_merged_single(rules, n - 1, k, j);
    }
}

/// A connection rule in fail-closed form, with a clean id, is its own
/// finalized first rule.
proof fn lemma_connection_rule_fixed(c: ConnectionPolicyView)
    requires
        connection_rule_fail_closed(c),
        c.connection_id.len() > 0,
        is_trimmed(c.connection_id),
    ensures
        finalize_connection_rule(first_connection_rule(c, c.connection_id)) == c,
{
    lemma_canonical_of_clean(c.allowed_databases);
    lemma_normalized_flags_fixed(c.database_policies);
    let f = first_connection_rule(c, c.connection_id);
    assert(f.allowed_databases == c.allowed_databases);
    assert(f.database_policies == c.database_policies);
    lemma_canonical_of_clean(f.allowed_databases);
    let dbs = canonical_names(f.allowed_databases);
    assert(dbs == c.allowed_databases);
    let pred = |p: PolicyFlagsView| dbs.contains(p.key);
    if c.database_scope == McpDatabaseScope::Selected {
        lemma_filter_all(c.database_policies, pred);
    } else {
        assert(c.allowed_databases =~= Seq::<Seq<char>>::empty());
        assert(c.database_policies =~= Seq::<PolicyFlagsView>::empty());
    }
}

/// Filtering by a predicate that every element meets changes nothing.
proof fn lemma_filter_all<T>(s: Seq<T>, pred: spec_fn(T) -> bool)
    requires
        forall|i: int| 0 <= i < s.len() ==> pred(#[trigger] s[i]),
    ensures
        s.filter(pred) == s,
    decreases s.len(),
{
    reveal(Seq::filter);
    if s.len() > 0 {
        lemma_filter_all(s.drop_last(), pred);
        assert(s.drop_last().push(s.last()) =~= s);
    } else {
        assert(s.filter(pred) =~= s);
    }
}

/// A normalized connection list is its own normalization.
pub proof fn lemma_normalized_connections_fixed(cs: Seq<ConnectionPolicyView>)
    requires
        sorted_by_key(cs, |c: ConnectionPolicyView| connection_key(c)),
        connection_ids_clean(cs),
        forall|j: int| 0 <= j < cs.len() ==> connection_rule_fail_closed(#[trigger] cs[j]),
    ensures
        normalized_connections(cs) == cs,
{
    let key = |c: ConnectionPolicyView| connection_key(c);
    assert forall|a: int, b: int| 0 <= a < cs.len() && 0 <= b < cs.len() && a != b implies cs[a].connection_id
        != cs[b].connection_id by {
        lemma_seq_lt_irreflexive(cs[a].connection_id);
        if a < b {
            assert(seq_lt(key(cs[a]), key(cs[b])));
        } else {
            assert(seq_lt(key(cs[b]), key(cs[a])));
        }
    }
    assert forall|k: Seq<char>| connection_ids(cs).to_set().contains(k) <==> connection_keys_upto(cs, cs.len() as int).contains(k) by {
        if connection_ids(cs).to_set().contains(k) {
            let j = choose|j: int| 0 <= j < connection_ids(cs).len() && connection_ids(cs)[j] == k;
            assert(cs[j].connection_id == k);
            lemma_trimmed_fixed(cs[j].connection_id);
            assert(trim(cs[j].connection_id) == k);
        }
        if connection_keys_upto(cs, cs.len() as int).contains(k) {
            let j = choose|j: int| 0 <= j < cs.len() && trim(#[trigger] cs[j].connection_id) == k;
            lemma_trimmed_fixed(cs[j].connection_id);
            assert(connection_ids(cs)[j] == k);
        }
    }
    assert(connection_ids(cs).to_set() =~= connection_keys_upto(cs, cs.len() as int));
    assert forall|j: int| 0 <= j < cs.len() implies #[trigger] cs[j] == normalized_connection_entry(cs, cs[j].connection_id) by {
        let k = cs[j].connection_id;
        assert forall|i: int| 0 <= i < cs.len() && i != j implies trim(#[trigger] cs[i].connection_id) != k by {
            lemma_trimmed_fixed(cs[i].connection_id);
        }
        lemma_trimmed_fixed(k);
        lemma_merged_single(cs, cs.len() as int, k, j);
        lemma_connection_rule_fixed(cs[j]);
    }
    lemma_normalized_connections_unique(cs, cs);
}

/// A policy in normal form is its own normalization: normalizing a
/// normalized policy again changes nothing.
pub proof fn lemma_normalized_policy_fixed(p: GlobalPolicyView)
    requires
        policy_normal_form(p),
    ensures
        normalized_policy(p) == p,
{
    if let Some(ids) = p.allowed_connection_ids {
        lemma_canonical_of_clean(ids);
        lemma_canonical_of_clean(p.allowed_group_ids);
    } else {
        assert(p.allowed_group_ids =~= Seq::<Seq<char>>::empty());
    }
    if let Some(tools) = p.allowed_tool_names {
        lemma_canonical_of_clean(tools);
    }
    lemma_normalized_connections_fixed(p.connection_policies);
    lemma_normalized_flags_fixed(p.group_policies);
}

/// Loading a saved policy gives the saved policy normalized: a save stores
/// `normalized()` of the policy, which is in normal form, and the load's
/// normalization leaves a policy in normal form unchanged.
pub proof fn lemma_mcp_policy_save_then_load(p: GlobalPolicyView, stored: GlobalPolicyView)
    requires
        stored == normalized_policy(p),
        policy_normal_form(stored),
    ensures
        normalized_policy(stored) == normalized_policy(p),
{
    lemma_normalized_policy_fixed(stored);
}

/// Two lists hold the same elements.
pub open spec fn same_elements<T>(a: Seq<T>, b: Seq<T>) -> bool {
    a.to_set() == b.to_set()
}

proof fn lemma_same_elements_contains<T>(a: Seq<T>, b: Seq<T>, i: int)
    requires
        same_elements(a, b),
        0 <= i < a.len(),
    ensures
        exists|j: int| 0 <= j < b.len() && b[j] == a[i],
{
    assert(a.to_set().contains(a[i]));
    assert(b.to_set().contains(a[i]));
}

/// Name lists with the same elements have the same canonical form.
pub proof fn lemma_canonical_names_same_elements(a: Seq<Seq<char>>, b: Seq<Seq<char>>)
    requires
        same_elements(a, b),
    ensures
        canonical_names(a) == canonical_names(b),
{
    assert forall|t: Seq<char>| trimmed_set(a).contains(t) implies trimmed_set(b).contains(t) by {
        let i = choose|i: int| 0 <= i < a.len() && trim(a[i]) == t;
        lemma_same_elements_contains(a, b, i);
    }
    assert forall|t: Seq<char>| trimmed_set(b).contains(t) implies trimmed_set(a).contains(t) by {
        let i = choose|i: int| 0 <= i < b.len() && trim(b[i]) == t;
        assert(b.to_set().contains(b[i]));
        lemma_same_elements_contains(b, a, i);
    }
    assert(trimmed_set(a) =~= trimmed_set(b));
}

/// Flag rule lists with the same elements normalize alike: their order and
/// repeats do not matter.
pub proof fn lemma_normalized_flags_same_elements(a: Seq<PolicyFlagsView>, b: Seq<PolicyFlagsView>)
    requires
        same_elements(a, b),
    ensures
        normalized_flags(a) == normalized_flags(b),
{
    assert forall|k: Seq<char>| #[trigger] combined_flags(a, k) == combined_flags(b, k) by {
        if flag_read_only_upto(a, a.len() as int, k) {
            let i = choose|i: int| 0 <= i < a.len() && trim(#[trigger] a[i].key) == k && a[i].read_only;
            lemma_same_elements_contains(a, b, i);
            let j = choose|j: int| 0 <= j < b.len() && b[j] == a[i];
            assert(trim(b[j].key) == k);
        }
        if flag_read_only_upto(b, b.len() as int, k) {
            let i = choose|i: int| 0 <= i < b.len() && trim(#[trigger] b[i].key) == k && b[i].read_only;
            lemma_same_elements_contains(b, a, i);
            let j = choose|j: int| 0 <= j < a.len() && a[j] == b[i];
            assert(trim(a[j].key) == k);
        }
        if !flag_all_dangerous_upto(a, a.len() as int, k) {
            let i = choose|i: int| !(0 <= i < a.len() && trim(#[trigger] a[i].key) == k ==> a[i].allow_dangerous_sql);
            lemma_same_elements_contains(a, b, i);
            let j = choose|j: int| 0 <= j < b.len() && b[j] == a[i];
            assert(trim(b[j].key) == k);
        }
        if !flag_all_dangerous_upto(b, b.len() as int, k) {
            let i = choose|i: int| !(0 <= i < b.len() && trim(#[trigger] b[i].key) == k ==> b[i].allow_dangerous_sql);
            lemma_same_elements_contains(b, a, i);
            let j = choose|j: int| 0 <= j < a.len() && a[j] == b[i];
            assert(trim(a[j].key) == k);
        }
    }
    assert forall|k: Seq<char>| flag_keys_upto(a, a.len() as int).contains(k) implies flag_keys_upto(
        b,
        b.len() as int,
    ).contains(k) by {
        let i = choose|i: int| 0 <= i < a.len() && trim(#[trigger] a[i].key) == k;
        lemma_same_elements_contains(a, b, i);
        let j = choose|j: int| 0 <= j < b.len() && b[j] == a[i];
        assert(trim(b[j].key) == k);
    }
    assert forall|k: Seq<char>| flag_keys_upto(b, b.len() as int).contains(k) implies flag_keys_upto(
        a,
        a.len() as int,
    ).contains(k) by {
        let i = choose|i: int| 0 <= i < b.len() && trim(#[trigger] b[i].key) == k;
        lemma_same_elements_contains(b, a, i);
        let j = choose|j: int| 0 <= j < a.len() && a[j] == b[i];
        assert(trim(a[j].key) == k);
    }
    assert(flag_keys_upto(a, a.len() as int) =~= flag_keys_upto(b, b.len() as int));
    lemma_normalized_flags_exist(a);
    let c = normalized_flags(a);
    assert(is_normalized_flags(c, b));
    lemma_normalized_flags_unique(c, b);
}

/// Every connection rule list has its normalized form.
pub proof fn lemma_normalized_connections_exist(rules: Seq<ConnectionPolicyView>)
    ensures
        is_normalized_connections(normalized_connections(rules), rules),
{
    let n = rules.len() as int;
    let keys = connection_keys_upto(rules, n);
    let all = rules.map_values(|c: ConnectionPolicyView| trim(c.connection_id));
    vstd::seq_lib::seq_to_set_is_finite(all);
    assert(keys.subset_of(all.to_set())) by {
        assert forall|k: Seq<char>| keys.contains(k) implies all.to_set().contains(k) by {
            let i = choose|i: int| 0 <= i < n && trim(#[trigger] rules[i].connection_id) == k;
            assert(all[i] == k);
        }
    }
    vstd::set_lib::lemma_set_subset_finite(all.to_set(), keys);
    lemma_canonical_list_exists(keys);
    let kc = canonical_list(keys);
    let r = kc.map_values(|k: Seq<char>| normalized_connection_entry(rules, k));
    assert forall|i: int| 0 <= i < r.len() implies (#[trigger] r[i]).connection_id == kc[i] by {
        assert(kc.to_set().contains(kc[i]));
        lemma_merged_connection_rule(rules, n, kc[i]);
    }
    assert(connection_ids(r) =~= kc);
    assert forall|i: int, j: int| 0 <= i < j < r.len() implies seq_lt(
        connection_key(r[i]),
        connection_key(r[j]),
    ) by {}
    assert(is_normalized_connections(r, rules));
}

/// Two connection rules alike: the same in everything but the order and
/// repeats of their database lists and per-database rules.
pub open spec fn rules_alike(a: ConnectionPolicyView, b: ConnectionPolicyView) -> bool {
    &&& a.connection_id == b.connection_id
    &&& a.read_only == b.read_only
    &&& a.allow_dangerous_sql == b.allow_dangerous_sql
    &&& a.execution_mode_configured == b.execution_mode_configured
    &&& a.execution_mode_policy_version == b.execution_mode_policy_version
    &&& a.database_scope == b.database_scope
    &&& same_elements(a.allowed_databases, b.allowed_databases)
    &&& same_elements(a.database_policies, b.database_policies)
    &&& a.allow_salesforce_dml == b.allow_salesforce_dml
}

proof fn lemma_concat_same_elements<T>(c: Seq<T>, a: Seq<T>, b: Seq<T>)
    requires
        same_elements(a, b),
    ensures
        same_elements(c + a, c + b),
{
    assert forall|x: T| (c + a).to_set().contains(x) implies (c + b).to_set().contains(x) by {
        let i = choose|i: int| 0 <= i < (c + a).len() && (c + a)[i] == x;
        if i < c.len() {
            assert((c + b)[i] == x);
        } else {
            lemma_same_elements_contains(a, b, i - c.len());
            let j = choose|j: int| 0 <= j < b.len() && b[j] == a[i - c.len()];
            assert((c + b)[c.len() + j] == x);
        }
    }
    assert forall|x: T| (c + b).to_set().contains(x) implies (c + a).to_set().contains(x) by {
        let i = choose|i: int| 0 <= i < (c + b).len() && (c + b)[i] == x;
        if i < c.len() {
            assert((c + a)[i] == x);
        } else {
            assert(b.to_set().contains(b[i - c.len()]));
            lemma_same_elements_contains(b, a, i - c.len());
            let j = choose|j: int| 0 <= j < a.len() && a[j] == b[i - c.len()];
            assert((c + a)[c.len() + j] == x);
        }
    }
    assert((c + a).to_set() =~= (c + b).to_set());
}

proof fn lemma_merged_alike(a: Seq<ConnectionPolicyView>, b: Seq<ConnectionPolicyView>, n: int, k: Seq<char>)
    requires
        0 <= n <= a.len(),
        a.len() == b.len(),
        forall|i: int| 0 <= i < a.len() ==> rules_alike(#[trigger] a[i], b[i]),
    ensures
        merged_connection_rule(a, n, k) == merged_connection_rule(b, n, k),
    decreases n,
{
    if n > 0 {
        lemma_merged_alike(a, b, n - 1, k);
        let ra = a[n - 1];
        let rb = b[n - 1];
        assert(rules_alike(ra, rb));
        lemma_canonical_names_same_elements(ra.allowed_databases, rb.allowed_databases);
        lemma_normalized_flags_same_elements(ra.database_policies, rb.database_policies);
        match merged_connection_rule(a, n - 1, k) {
            Some(cur) => {
                lemma_concat_same_elements(cur.database_policies, ra.database_policies, rb.database_policies);
                lemma_normalized_flags_same_elements(
                    cur.database_policies + ra.database_policies,
                    cur.database_policies + rb.database_policies,
                );
                assert(intersect_scopes(cur.database_scope, cur.allowed_databases, ra.database_scope, ra.allowed_databases)
                    == intersect_scopes(cur.database_scope, cur.allowed_databases, rb.database_scope, rb.allowed_databases));
            },
            None => {},
        }
    }
}

/// Connection rule lists whose rules are alike, one for one, normalize
/// alike.
pub proof fn lemma_normalized_connections_alike(a: Seq<ConnectionPolicyView>, b: Seq<ConnectionPolicyView>)
    requires
        a.len() == b.len(),
        forall|i: int| 0 <= i < a.len() ==> rules_alike(#[trigger] a[i], b[i]),
    ensures
        normalized_connections(a) == normalized_connections(b),
{
    let n = a.len() as int;
    assert forall|k: Seq<char>| #[trigger] normalized_connection_entry(a, k) == normalized_connection_entry(b, k) by {
        lemma_merged_alike(a, b, n, k);
    }
    assert forall|k: Seq<char>| connection_keys_upto(a, n).contains(k) == connection_keys_upto(b, n).contains(k) by {
        if connection_keys_upto(a, n).contains(k) {
            let i = choose|i: int| 0 <= i < n && trim(#[trigger] a[i].connection_id) == k;
            assert(rules_alike(a[i], b[i]));
        }
        if connection_keys_upto(b, n).contains(k) {
            let i = choose|i: int| 0 <= i < n && trim(#[trigger] b[i].connection_id) == k;
            assert(rules_alike(a[i], b[i]));
        }
    }
    assert(connection_keys_upto(a, n) =~= connection_keys_upto(b, n));
    lemma_normalized_connections_exist(a);
    let c = normalized_connections(a);
    assert(is_normalized_connections(c, b));
    lemma_normalized_connections_unique(c, b);
}

/// Two optional lists both absent, or both present with the same elements.
pub open spec fn same_optional_elements(a: Option<Seq<Seq<char>>>, b: Option<Seq<Seq<char>>>) -> bool {
    match (a, b) {
        (Some(x), Some(y)) => same_elements(x, y),
        (None, None) => true,
        _ => false,
    }
}

/// Normalizing the MCP policy does not depend on the order of its id lists,
/// of its group rules, or of each connection rule's database list and
/// per-database rules, nor on repeated entries in them: two policies that
/// differ only so normalize to the same policy.
pub proof fn lemma_normalized_policy_ignores_list_order(p: GlobalPolicyView, q: GlobalPolicyView)
    requires
        p.read_only == q.read_only,
        p.allow_dangerous_sql == q.allow_dangerous_sql,
        p.query_timeout_secs == q.query_timeout_secs,
        same_optional_elements(p.allowed_connection_ids, q.allowed_connection_ids),
        same_optional_elements(p.allowed_tool_names, q.allowed_tool_names),
        same_elements(p.allowed_group_ids, q.allowed_group_ids),
        same_elements(p.group_policies, q.group_policies),
        p.connection_policies.len() == q.connection_policies.len(),
        forall|i: int|
            0 <= i < p.connection_policies.len() ==> rules_alike(
                #[trigger] p.connection_policies[i],
                q.connection_policies[i],
            ),
    ensures
        normalized_policy(p) == normalized_policy(q),
{
    if let (Some(a), Some(b)) = (p.allowed_connection_ids, q.allowed_connection_ids) {
        lemma_canonical_names_same_elements(a, b);
    }
    if let (Some(a), Some(b)) = (p.allowed_tool_names, q.allowed_tool_names) {
        lemma_canonical_names_same_elements(a, b);
    }
    lemma_canonical_names_same_elements(p.allowed_group_ids, q.allowed_group_ids);
    lemma_normalized_flags_same_elements(p.group_policies, q.group_policies);
    lemma_normalized_connections_alike(p.connection_policies, q.connection_policies);
}

/// A canonical name list is clean and holds the trimmed names.
proof fn lemma_canonical_names_clean(a: Seq<Seq<char>>)
    ensures
        is_clean_list(canonical_names(a)),
        canonical_names(a).to_set() == trimmed_set(a),
        canonical_names(canonical_names(a)) == canonical_names(a),
{
    let all = a.map_values(|x: Seq<char>| trim(x));
    vstd::seq_lib::seq_to_set_is_finite(all);
    assert(trimmed_set(a).subset_of(all.to_set())) by {
        assert forall|t: Seq<char>| trimmed_set(a).contains(t) implies all.to_set().contains(t) by {
            let i = choose|i: int| 0 <= i < a.len() && trim(a[i]) == t;
            assert(all[i] == t);
        }
    }
    vstd::set_lib::lemma_set_subset_finite(all.to_set(), trimmed_set(a));
    lemma_canonical_list_exists(trimmed_set(a));
    crate::text::lemma_canonical_trimmed_clean(canonical_names(a), a);
    lemma_canonical_of_clean(canonical_names(a));
}

/// The members of clean list `a` that are in `b`: a clean list.
proof fn lemma_filter_clean(a: Seq<Seq<char>>, b: Seq<Seq<char>>)
    requires
        is_clean_list(a),
    ensures
        is_clean_list(a.filter(|d: Seq<char>| b.contains(d))),
        forall|x: Seq<char>| a.filter(|d: Seq<char>| b.contains(d)).contains(x) <==> a.contains(x) && b.contains(x),
        canonical_names(a.filter(|d: Seq<char>| b.contains(d))) == a.filter(|d: Seq<char>| b.contains(d)),
{
    let pred = |d: Seq<char>| b.contains(d);
    assert(sorted_by_key(a, |y: Seq<char>| id_key(y))) by {
        assert forall|i: int, j: int| 0 <= i < j < a.len() implies seq_lt(id_key(a[i]), id_key(a[j])) by {}
    }
    lemma_filter_sorted(a, pred, |y: Seq<char>| id_key(y));
    let f = a.filter(pred);
    assert forall|i: int, j: int| 0 <= i < j < f.len() implies seq_lt(f[i], f[j]) by {
        assert(seq_lt(id_key(f[i]), id_key(f[j])));
    }
    assert forall|i: int| 0 <= i < f.len() implies (#[trigger] f[i]).len() > 0 && is_trimmed(f[i]) by {
        assert(a.contains(f[i]));
    }
    assert forall|x: Seq<char>| f.contains(x) <==> a.contains(x) && b.contains(x) by {
        if f.contains(x) {
            a.lemma_filter_contains_rev(pred, x);
            let i = choose|i: int| 0 <= i < f.len() && f[i] == x;
            assert(pred(f[i]));
        }
        if a.contains(x) && b.contains(x) {
            let i = choose|i: int| 0 <= i < a.len() && a[i] == x;
            a.lemma_filter_contains(pred, i);
        }
    }
    lemma_canonical_of_clean(f);
}

/// Two clean lists with the same members are equal.
proof fn lemma_clean_lists_equal(a: Seq<Seq<char>>, b: Seq<Seq<char>>)
    requires
        is_clean_list(a),
        is_clean_list(b),
        forall|x: Seq<char>| a.contains(x) <==> b.contains(x),
    ensures
        a == b,
{
    assert(sorted_by_key(a, |y: Seq<char>| id_key(y))) by {
        assert forall|i: int, j: int| 0 <= i < j < a.len() implies seq_lt(id_key(a[i]), id_key(a[j])) by {}
    }
    assert(sorted_by_key(b, |y: Seq<char>| id_key(y))) by {
        assert forall|i: int, j: int| 0 <= i < j < b.len() implies seq_lt(id_key(b[i]), id_key(b[j])) by {}
    }
    assert forall|x: Seq<char>| a.to_set().contains(x) <==> b.to_set().contains(x) by {
        assert(a.to_set().contains(x) == a.contains(x));
        assert(b.to_set().contains(x) == b.contains(x));
    }
    assert(a.to_set() =~= b.to_set());
    lemma_sorted_by_key_unique(a, b, |y: Seq<char>| id_key(y));
}

proof fn lemma_intersect_facts(cd: Seq<Seq<char>>, ad: Seq<Seq<char>>, bd: Seq<Seq<char>>)
    ensures
        canonical_names(canonical_names(cd)) == canonical_names(cd),
        canonical_names(canonical_names(ad)) == canonical_names(ad),
        canonical_names(canonical_names(bd)) == canonical_names(bd),
        ({
            let x = canonical_names(cd);
            let a = canonical_names(ad);
            let b = canonical_names(bd);
            let xa = x.filter(|d: Seq<char>| a.contains(d));
            let xb = x.filter(|d: Seq<char>| b.contains(d));
            let ab = a.filter(|d: Seq<char>| b.contains(d));
            let ba = b.filter(|d: Seq<char>| a.contains(d));
            &&& canonical_names(xa) == xa
            &&& canonical_names(xb) == xb
            &&& canonical_names(ab) == ab
            &&& canonical_names(ba) == ba
            &&& ab == ba
            &&& canonical_names(xa).filter(|d: Seq<char>| b.contains(d)) == canonical_names(xb).filter(
                |d: Seq<char>| a.contains(d),
            )
            &&& canonical_names(ab).filter(|d: Seq<char>| x.contains(d)) == xa.filter(|d: Seq<char>| b.contains(d))
        }),
{
    lemma_canonical_names_clean(cd);
    lemma_canonical_names_clean(ad);
    lemma_canonical_names_clean(bd);
    let x = canonical_names(cd);
    let a = canonical_names(ad);
    let b = canonical_names(bd);
    lemma_filter_clean(x, a);
    lemma_filter_clean(x, b);
    lemma_filter_clean(a, b);
    lemma_filter_clean(b, a);
    let xa = x.filter(|d: Seq<char>| a.contains(d));
    let xb = x.filter(|d: Seq<char>| b.contains(d));
    let ab = a.filter(|d: Seq<char>| b.contains(d));
    let ba = b.filter(|d: Seq<char>| a.contains(d));
    lemma_clean_lists_equal(ab, ba);
    lemma_filter_clean(xa, b);
    lemma_filter_clean(xb, a);
    lemma_filter_clean(ab, x);
    lemma_clean_lists_equal(xa.filter(|d: Seq<char>| b.contains(d)), xb.filter(|d: Seq<char>| a.contains(d)));
    lemma_clean_lists_equal(ab.filter(|d: Seq<char>| x.contains(d)), xa.filter(|d: Seq<char>| b.contains(d)));
}

/// Intersecting a current scope with two further scopes gives the same in
/// either order.
proof fn lemma_intersect_swap(
    cs: McpDatabaseScope,
    cd: Seq<Seq<char>>,
    as_: McpDatabaseScope,
    ad: Seq<Seq<char>>,
    bs: McpDatabaseScope,
    bd: Seq<Seq<char>>,
)
    ensures
        ({
            let i1 = intersect_scopes(cs, cd, as_, ad);
            let i2 = intersect_scopes(cs, cd, bs, bd);
            intersect_scopes(i1.0, i1.1, bs, bd) == intersect_scopes(i2.0, i2.1, as_, ad)
        }),
{
    lemma_intersect_facts(cd, ad, bd);
}

proof fn lemma_intersect_first_swap(as_: McpDatabaseScope, ad: Seq<Seq<char>>, bs: McpDatabaseScope, bd: Seq<Seq<char>>)
    ensures
        intersect_scopes(as_, canonical_names(ad), bs, bd) == intersect_scopes(bs, canonical_names(bd), as_, ad),
{
    lemma_intersect_facts(ad, ad, bd);
}

/// Normalizing flag rules after adding rules to an already normalized list
/// is normalizing all of them at once.
proof fn lemma_normalized_flags_absorb(x: Seq<PolicyFlagsView>, y: Seq<PolicyFlagsView>)
    ensures
        normalized_flags(normalized_flags(x) + y) == normalized_flags(x + y),
{
    lemma_normalized_flags_exist(x);
    let n = normalized_flags(x);
    let ny = n + y;
    let xy = x + y;
    let kx = flag_keys_upto(x, x.len() as int);
    // Every entry of the normalized list is keyed by a trimmed key of x.
    assert forall|j: int| 0 <= j < n.len() implies kx.contains(#[trigger] n[j].key) && trim(n[j].key) == n[j].key
        && n[j] == combined_flags(x, n[j].key) by {
        assert(flag_keys(n)[j] == n[j].key);
        assert(flag_keys(n).to_set().contains(n[j].key));
        let i = choose|i: int| 0 <= i < x.len() && trim(#[trigger] x[i].key) == n[j].key;
        lemma_trim_is_trimmed(x[i].key);
        lemma_trimmed_fixed(n[j].key);
    }
    assert forall|k: Seq<char>| k.len() > 0 implies #[trigger] combined_flags(ny, k) == combined_flags(xy, k) by {
        let ro_x = flag_read_only_upto(x, x.len() as int, k);
        let ro_y = flag_read_only_upto(y, y.len() as int, k);
        let all_x = flag_all_dangerous_upto(x, x.len() as int, k);
        let all_y = flag_all_dangerous_upto(y, y.len() as int, k);
        // read-only
        if flag_read_only_upto(ny, ny.len() as int, k) {
            let i = choose|i: int| 0 <= i < ny.len() && trim(#[trigger] ny[i].key) == k && ny[i].read_only;
            if i < n.len() {
                assert(ny[i] == n[i]);
                assert(ro_x);
                let m = choose|m: int| 0 <= m < x.len() && trim(#[trigger] x[m].key) == k && x[m].read_only;
                assert(xy[m] == x[m]);
            } else {
                assert(ny[i] == y[i - n.len()]);
                assert(xy[x.len() + i - n.len()] == y[i - n.len()]);
            }
        }
        if flag_read_only_upto(xy, xy.len() as int, k) {
            let i = choose|i: int| 0 <= i < xy.len() && trim(#[trigger] xy[i].key) == k && xy[i].read_only;
            if i < x.len() {
                assert(xy[i] == x[i]);
                assert(kx.contains(k));
                assert(flag_keys(n).to_set().contains(k));
                let j = choose|j: int| 0 <= j < n.len() && flag_keys(n)[j] == k;
                assert(n[j].key == k);
                assert(ny[j] == n[j]);
            } else {
                assert(xy[i] == y[i - x.len()]);
                assert(ny[n.len() + i - x.len()] == y[i - x.len()]);
            }
        }
        // high-risk SQL
        if !flag_all_dangerous_upto(ny, ny.len() as int, k) {
            let i = choose|i: int| !(0 <= i < ny.len() && trim(#[trigger] ny[i].key) == k ==> ny[i].allow_dangerous_sql);
            if i < n.len() {
                assert(ny[i] == n[i]);
                assert(n[i] == combined_flags(x, k));
                // the entry forbids high-risk SQL: some x rule is read-only or forbids it
                if !ro_x {
                    assert(!all_x);
                    let m = choose|m: int| !(0 <= m < x.len() && trim(#[trigger] x[m].key) == k ==> x[m].allow_dangerous_sql);
                    assert(xy[m] == x[m]);
                } else {
                    let m = choose|m: int| 0 <= m < x.len() && trim(#[trigger] x[m].key) == k && x[m].read_only;
                    assert(xy[m] == x[m]);
                }
            } else {
                assert(ny[i] == y[i - n.len()]);
                assert(xy[x.len() + i - n.len()] == y[i - n.len()]);
            }
        }
        if !flag_all_dangerous_upto(xy, xy.len() as int, k) && !flag_read_only_upto(xy, xy.len() as int, k) {
            let i = choose|i: int| !(0 <= i < xy.len() && trim(#[trigger] xy[i].key) == k ==> xy[i].allow_dangerous_sql);
            if i < x.len() {
                assert(xy[i] == x[i]);
                assert(kx.contains(k));
                assert(flag_keys(n).to_set().contains(k));
                let j = choose|j: int| 0 <= j < n.len() && flag_keys(n)[j] == k;
                assert(n[j].key == k);
                assert(ny[j] == n[j]);
                assert(!all_x);
            } else {
                assert(xy[i] == y[i - x.len()]);
                assert(ny[n.len() + i - x.len()] == y[i - x.len()]);
            }
        }
    }
    assert forall|k: Seq<char>| flag_keys_upto(ny, ny.len() as int).contains(k) <==> flag_keys_upto(
        xy,
        xy.len() as int,
    ).contains(k) by {
        if flag_keys_upto(ny, ny.len() as int).contains(k) {
            let i = choose|i: int| 0 <= i < ny.len() && trim(#[trigger] ny[i].key) == k;
            if i < n.len() {
                assert(ny[i] == n[i]);
                let m = choose|m: int| 0 <= m < x.len() && trim(#[trigger] x[m].key) == n[i].key;
                assert(xy[m] == x[m]);
            } else {
                assert(ny[i] == y[i - n.len()]);
                assert(xy[x.len() + i - n.len()] == y[i - n.len()]);
            }
        }
        if flag_keys_upto(xy, xy.len() as int).contains(k) {
            let i = choose|i: int| 0 <= i < xy.len() && trim(#[trigger] xy[i].key) == k;
            if i < x.len() {
                assert(xy[i] == x[i]);
                assert(kx.contains(k));
                assert(flag_keys(n).to_set().contains(k));
                let j = choose|j: int| 0 <= j < n.len() && flag_keys(n)[j] == k;
                assert(ny[j] == n[j]);
            } else {
                assert(xy[i] == y[i - x.len()]);
                assert(ny[n.len() + i - x.len()] == y[i - x.len()]);
            }
        }
    }
    assert(flag_keys_upto(ny, ny.len() as int) =~= flag_keys_upto(xy, xy.len() as int));
    lemma_normalized_flags_exist(xy);
    let c = normalized_flags(xy);
    assert forall|j: int| 0 <= j < c.len() implies #[trigger] c[j] == combined_flags(ny, c[j].key) by {
        assert(flag_keys(c)[j] == c[j].key);
        assert(flag_keys(c).to_set().contains(c[j].key));
    }
    assert(is_normalized_flags(c, ny));
    lemma_normalized_flags_unique(c, ny);
}

proof fn lemma_swapped_concat_same_elements<T>(c: Seq<T>, a: Seq<T>, b: Seq<T>)
    ensures
        same_elements(c + a + b, c + b + a),
{
    assert forall|x: T| (c + a + b).to_set().contains(x) <==> (c + b + a).to_set().contains(x) by {
        if (c + a + b).to_set().contains(x) {
            let i = choose|i: int| 0 <= i < (c + a + b).len() && (c + a + b)[i] == x;
            if i < c.len() {
                assert((c + b + a)[i] == x);
            } else if i < c.len() + a.len() {
                assert((c + b + a)[i + b.len()] == x);
            } else {
                assert((c + b + a)[i - a.len()] == x);
            }
        }
        if (c + b + a).to_set().contains(x) {
            let i = choose|i: int| 0 <= i < (c + b + a).len() && (c + b + a)[i] == x;
            if i < c.len() {
                assert((c + a + b)[i] == x);
            } else if i < c.len() + b.len() {
                assert((c + a + b)[i + a.len()] == x);
            } else {
                assert((c + a + b)[i - b.len()] == x);
            }
        }
    }
    assert((c + a + b).to_set() =~= (c + b + a).to_set());
}

/// With configured execution modes, merging two further rules into a
/// combined rule gives the same in either order.
proof fn lemma_merge_swap(cur: ConnectionPolicyView, a: ConnectionPolicyView, b: ConnectionPolicyView)
    requires
        cur.execution_mode_configured,
        a.execution_mode_configured,
        b.execution_mode_configured,
    ensures
        merge_connection_rule(merge_connection_rule(cur, a), b) == merge_connection_rule(
            merge_connection_rule(cur, b),
            a,
        ),
{
    lemma_intersect_swap(
        cur.database_scope,
        cur.allowed_databases,
        a.database_scope,
        a.allowed_databases,
        b.database_scope,
        b.allowed_databases,
    );
    lemma_normalized_flags_absorb(cur.database_policies + a.database_policies, b.database_policies);
    lemma_normalized_flags_absorb(cur.database_policies + b.database_policies, a.database_policies);
    lemma_swapped_concat_same_elements(cur.database_policies, a.database_policies, b.database_policies);
    lemma_normalized_flags_same_elements(
        cur.database_policies + a.database_policies + b.database_policies,
        cur.database_policies + b.database_policies + a.database_policies,
    );
}

/// With configured execution modes, the first two rules of a connection
/// combine the same in either order.
proof fn lemma_first_merge_swap(a: ConnectionPolicyView, b: ConnectionPolicyView, k: Seq<char>)
    requires
        a.execution_mode_configured,
        b.execution_mode_configured,
    ensures
        merge_connection_rule(first_connection_rule(a, k), b) == merge_connection_rule(first_connection_rule(b, k), a),
{
    lemma_intersect_first_swap(a.database_scope, a.allowed_databases, b.database_scope, b.allowed_databases);
    lemma_normalized_flags_absorb(a.database_policies, b.database_policies);
    lemma_normalized_flags_absorb(b.database_policies, a.database_policies);
    lemma_swapped_concat_same_elements(Seq::<PolicyFlagsView>::empty(), a.database_policies, b.database_policies);
    assert(Seq::<PolicyFlagsView>::empty() + a.database_policies + b.database_policies =~= a.database_policies
        + b.database_policies);
    assert(Seq::<PolicyFlagsView>::empty() + b.database_policies + a.database_policies =~= b.database_policies
        + a.database_policies);
    lemma_normalized_flags_same_elements(
        a.database_policies + b.database_policies,
        b.database_policies + a.database_policies,
    );
}

/// Every rule's execution mode is configured.
pub open spec fn all_configured(rules: Seq<ConnectionPolicyView>) -> bool {
    forall|i: int| 0 <= i < rules.len() ==> (#[trigger] rules[i]).execution_mode_configured
}

proof fn lemma_merged_configured(rules: Seq<ConnectionPolicyView>, n: int, k: Seq<char>)
    requires
        0 <= n <= rules.len(),
        all_configured(rules),
    ensures
        merged_connection_rule(rules, n, k) matches Some(c) ==> c.execution_mode_configured,
    decreases n,
{
    if n > 0 {
        lemma_merged_configured(rules, n - 1, k);
        assert(rules[n - 1].execution_mode_configured);
    }
}

proof fn lemma_merged_same_from(s: Seq<ConnectionPolicyView>, t: Seq<ConnectionPolicyView>, m: int, n: int, k: Seq<char>)
    requires
        0 <= m <= n <= s.len(),
        n <= t.len(),
        merged_connection_rule(s, m, k) == merged_connection_rule(t, m, k),
        forall|i: int| m <= i < n ==> s[i] == t[i],
    ensures
        merged_connection_rule(s, n, k) == merged_connection_rule(t, n, k),
    decreases n,
{
    if n > m {
        lemma_merged_same_from(s, t, m, n - 1, k);
    }
}

proof fn lemma_merged_same_prefix(s: Seq<ConnectionPolicyView>, t: Seq<ConnectionPolicyView>, n: int, k: Seq<char>)
    requires
        0 <= n <= s.len(),
        n <= t.len(),
        forall|i: int| 0 <= i < n ==> s[i] == t[i],
    ensures
        merged_connection_rule(s, n, k) == merged_connection_rule(t, n, k),
{
    lemma_merged_same_from(s, t, 0, n, k);
}

proof fn lemma_merged_adjacent_swap(s: Seq<ConnectionPolicyView>, j: int, k: Seq<char>)
    requires
        0 <= j,
        j + 1 < s.len(),
        all_configured(s),
    ensures
        merged_connection_rule(s, s.len() as int, k) == merged_connection_rule(
            s.update(j, s[j + 1]).update(j + 1, s[j]),
            s.len() as int,
            k,
        ),
{
    let t = s.update(j, s[j + 1]).update(j + 1, s[j]);
    lemma_merged_same_prefix(s, t, j, k);
    lemma_merged_configured(s, j, k);
    let a = s[j];
    let b = s[j + 1];
    assert(t[j] == b && t[j + 1] == a);
    reveal_with_fuel(merged_connection_rule, 3);
    assert(a.execution_mode_configured && b.execution_mode_configured);
    match merged_connection_rule(s, j, k) {
        Some(cur) => {
            lemma_merge_swap(cur, a, b);
        },
        None => {
            lemma_first_merge_swap(a, b, k);
        },
    }
    assert(merged_connection_rule(s, j + 2, k) == merged_connection_rule(t, j + 2, k));
    lemma_merged_same_from(s, t, j + 2, s.len() as int, k);
}

proof fn lemma_merged_move_to_end(s: Seq<ConnectionPolicyView>, j: int, k: Seq<char>)
    requires
        0 <= j < s.len(),
        all_configured(s),
    ensures
        merged_connection_rule(s, s.len() as int, k) == merged_connection_rule(
            s.remove(j).push(s[j]),
            s.len() as int,
            k,
        ),
    decreases s.len() - j,
{
    if j == s.len() - 1 {
        assert(s.remove(j).push(s[j]) =~= s);
    } else {
        let t = s.update(j, s[j + 1]).update(j + 1, s[j]);
        lemma_merged_adjacent_swap(s, j, k);
        assert(all_configured(t)) by {
            assert forall|i: int| 0 <= i < t.len() implies (#[trigger] t[i]).execution_mode_configured by {
                if i == j {
                    assert(t[i] == s[j + 1]);
                } else if i == j + 1 {
                    assert(t[i] == s[j]);
                } else {
                    assert(t[i] == s[i]);
                }
            }
        }
        lemma_merged_move_to_end(t, j + 1, k);
        assert(t.remove(j + 1).push(t[j + 1]) =~= s.remove(j).push(s[j]));
    }
}

/// With configured execution modes, the combined rule of a connection does
/// not depend on the order of the rules.
proof fn lemma_merged_permutation(p: Seq<ConnectionPolicyView>, q: Seq<ConnectionPolicyView>, k: Seq<char>)
    requires
        p.to_multiset() == q.to_multiset(),
        all_configured(p),
    ensures
        all_configured(q),
        merged_connection_rule(p, p.len() as int, k) == merged_connection_rule(q, q.len() as int, k),
    decreases p.len(),
{
    broadcast use vstd::seq_lib::to_multiset_len, vstd::seq_lib::to_multiset_contains;
    assert(all_configured(q)) by {
        assert forall|i: int| 0 <= i < q.len() implies (#[trigger] q[i]).execution_mode_configured by {
            assert(q.contains(q[i]));
            assert(q.to_multiset().count(q[i]) > 0);
            assert(p.to_multiset().count(q[i]) > 0);
            assert(p.contains(q[i]));
        }
    }
    if p.len() == 0 {
        assert(q.to_multiset().len() == 0);
    } else {
        let x = p.last();
        let init = p.drop_last();
        assert(p.contains(x)) by {
            assert(p[p.len() - 1] == x);
        }
        assert(q.to_multiset().count(x) > 0);
        assert(q.contains(x));
        let j = choose|j: int| 0 <= j < q.len() && q[j] == x;
        let qr = q.remove(j);
        vstd::seq_lib::to_multiset_remove(q, j);
        assert(init.push(x) =~= p);
        vstd::seq_lib::to_multiset_build(init, x);
        assert(init.to_multiset() =~= p.to_multiset().remove(x)) by {
            broadcast use vstd::multiset::group_multiset_axioms;
        }
        assert(all_configured(init)) by {
            assert forall|i: int| 0 <= i < init.len() implies (#[trigger] init[i]).execution_mode_configured by {
                assert(init[i] == p[i]);
            }
        }
        lemma_merged_permutation(init, qr, k);
        lemma_merged_move_to_end(q, j, k);
        lemma_merged_same_prefix(p, init, init.len() as int, k);
        lemma_merged_same_prefix(qr.push(x), qr, qr.len() as int, k);
        assert(q.remove(j).push(q[j]) == qr.push(x));
    }
}

/// With configured execution modes, normalizing connection rules does not
/// depend on their order.
pub proof fn lemma_normalized_connections_permutation(p: Seq<ConnectionPolicyView>, q: Seq<ConnectionPolicyView>)
    requires
        p.to_multiset() == q.to_multiset(),
        all_configured(p),
    ensures
        normalized_connections(p) == normalized_connections(q),
{
    broadcast use vstd::seq_lib::to_multiset_len;
    assert(p.len() == q.len()) by {
        assert(p.len() == p.to_multiset().len());
        assert(q.len() == q.to_multiset().len());
    }
    let n = p.len() as int;
    assert forall|k: Seq<char>| #[trigger] normalized_connection_entry(p, k) == normalized_connection_entry(q, k) by {
        lemma_merged_permutation(p, q, k);
    }
    assert forall|k: Seq<char>| connection_keys_upto(p, n).contains(k) == connection_keys_upto(q, n).contains(k) by {
        lemma_merged_permutation(p, q, k);
        lemma_merged_connection_rule(p, n, k);
        lemma_merged_connection_rule(q, n, k);
    }
    assert(connection_keys_upto(p, n) =~= connection_keys_upto(q, n));
    lemma_normalized_connections_exist(p);
    let c = normalized_connections(p);
    assert(is_normalized_connections(c, q));
    lemma_normalized_connections_unique(c, q);
}

/// Normalizing the MCP policy ignores every reordering of its lists, and
/// repeated entries in the id lists, the group rules and each connection
/// rule's database lists, provided every connection rule's execution mode
/// is configured: `rules` is `p`'s connection rules with their own lists
/// reordered, and `q`'s connection rules are those in some order.
pub proof fn lemma_normalized_policy_reordered(p: GlobalPolicyView, q: GlobalPolicyView, rules: Seq<ConnectionPolicyView>)
    requires
        p.read_only == q.read_only,
        p.allow_dangerous_sql == q.allow_dangerous_sql,
        p.query_timeout_secs == q.query_timeout_secs,
        same_optional_elements(p.allowed_connection_ids, q.allowed_connection_ids),
        same_optional_elements(p.allowed_tool_names, q.allowed_tool_names),
        same_elements(p.allowed_group_ids, q.allowed_group_ids),
        same_elements(p.group_policies, q.group_policies),
        all_configured(p.connection_policies),
        rules.len() == p.connection_policies.len(),
        forall|i: int| 0 <= i < rules.len() ==> rules_alike(#[trigger] p.connection_policies[i], rules[i]),
        rules.to_multiset() == q.connection_policies.to_multiset(),
    ensures
        normalized_policy(p) == normalized_policy(q),
{
    let mid = GlobalPolicyView { connection_policies: rules, ..p };
    lemma_normalized_policy_ignores_list_order(p, mid);
    assert(all_configured(rules)) by {
        assert forall|i: int| 0 <= i < rules.len() implies (#[trigger] rules[i]).execution_mode_configured by {
            assert(rules_alike(p.connection_policies[i], rules[i]));
        }
    }
    lemma_normalized_connections_permutation(rules, q.connection_policies);
    if let (Some(a), Some(b)) = (p.allowed_connection_ids, q.allowed_connection_ids) {
        lemma_canonical_names_same_elements(a, b);
    }
    if let (Some(a), Some(b)) = (p.allowed_tool_names, q.allowed_tool_names) {
        lemma_canonical_names_same_elements(a, b);
    }
    lemma_canonical_names_same_elements(p.allowed_group_ids, q.allowed_group_ids);
    lemma_normalized_flags_same_elements(p.group_policies, q.group_policies);
}

} // verus!
