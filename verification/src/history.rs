//! Query history: the SQL predicate of a history search (every filter value
//! bound as a parameter), its paging, and the connection options offered as
//! filters.

use vstd::prelude::*;
use crate::text::{chars_of, string_of, string_views, trim, trim_chars};

verus! {

/// A value bound to a `?` parameter of a history query.
#[derive(Debug, Clone, PartialEq, Eq)]
pub enum SqlValue {
    Integer(i64),
    Text(String),
}

/// The view of a bound value.
pub enum SqlValueView {
    Integer(i64),
    Text(Seq<char>),
}

pub open spec fn value_view(v: SqlValue) -> SqlValueView {
    match v {
        SqlValue::Integer(i) => SqlValueView::Integer(i),
        SqlValue::Text(t) => SqlValueView::Text(t@),
    }
}

pub open spec fn value_views(v: Seq<SqlValue>) -> Seq<SqlValueView> {
    v.map_values(|x: SqlValue| value_view(x))
}

/// A connection selected as a history filter.
#[derive(Debug, Clone, PartialEq, Eq)]
pub struct HistoryConnectionFilter {
    pub connection_id: String,
    pub connection_name: String,
}

/// A database of a connection selected as a history filter.
#[derive(Debug, Clone, PartialEq, Eq)]
pub struct HistoryDatabaseFilter {
    pub connection_id: String,
    pub connection_name: String,
    pub database: String,
}

/// Where the previous page ended.
#[derive(Debug, Clone, PartialEq, Eq)]
pub struct HistoryCursor {
    pub executed_at: String,
    pub id: String,
}

/// A history search.
#[derive(Debug, Clone, PartialEq, Eq)]
pub struct HistorySearchRequest {
    pub connections: Vec<HistoryConnectionFilter>,
    pub databases: Vec<HistoryDatabaseFilter>,
    pub activity_kind: Option<String>,
    pub success: Option<bool>,
    pub started_at: Option<String>,
    pub ended_at: Option<String>,
    pub search_text: String,
    pub cursor: Option<HistoryCursor>,
    pub limit: usize,
}

/// The characters that stand for themselves in a `LIKE ... ESCAPE '\'`
/// pattern once escaped.
pub open spec fn escape_char(c: char) -> Seq<char> {
    if c == '\\' || c == '%' || c == '_' {
        seq!['\\', c]
    } else {
        seq![c]
    }
}

/// A search text escaped for a `LIKE` pattern: backslash, `%` and `_` are
/// each preceded by a backslash.
pub open spec fn escaped(s: Seq<char>) -> Seq<char>
    decreases s.len(),
{
    if s.len() == 0 {
        Seq::empty()
    } else {
        escaped(s.drop_last()) + escape_char(s.last())
    }
}

/// Escapes a search text for a `LIKE` pattern.
pub fn escape_history_like_pattern(value: &str) -> (r: String)
    ensures
        r@ == escaped(value@),
{
    let c = chars_of(value);
    let mut out: Vec<char> = Vec::new();
    let mut i: usize = 0;
    assert(c@.take(0) =~= Seq::<char>::empty());
    while i < c.len()
        invariant
            i <= c.len(),
            out@ == escaped(c@.take(i as int)),
        decreases c.len() - i,
    {
        let ch = c[i];
        let ghost prev = out@;
        if ch == '\\' || ch == '%' || ch == '_' {
            out.push('\\');
        }
        out.push(ch);
        assert(c@.take(i + 1).drop_last() =~= c@.take(i as int));
        assert(out@ =~= prev + escape_char(ch));
        i = i + 1;
    }
    assert(c@.take(c.len() as int) =~= c@);
    assert(c@ == value@);
    string_of(out.as_slice())
}

/// Whether a database selection belongs to a selected connection: by id
/// where either has one, otherwise by name.
pub open spec fn targets(c_id: Seq<char>, c_name: Seq<char>, d_id: Seq<char>, d_name: Seq<char>) -> bool {
    if c_id.len() > 0 || d_id.len() > 0 {
        c_id.len() > 0 && c_id == d_id
    } else {
        c_name.len() > 0 && c_name == d_name
    }
}

/// Whether a database selection belongs to a selected connection.
pub fn history_filter_targets_connection(connection: &HistoryConnectionFilter, database: &HistoryDatabaseFilter) -> (r: bool)
    ensures
        r == targets(
            connection.connection_id@,
            connection.connection_name@,
            database.connection_id@,
            database.connection_name@,
        ),
{
    let c_id = connection.connection_id.as_str().unicode_len() > 0;
    let d_id = database.connection_id.as_str().unicode_len() > 0;
    if c_id || d_id {
        c_id && connection.connection_id == database.connection_id
    } else {
        connection.connection_name.as_str().unicode_len() > 0 && connection.connection_name == database.connection_name
    }
}

/// One alternative of the scope clause: its SQL and the values it binds.
pub type Alternative = (Seq<char>, Seq<SqlValueView>);

/// Whether a selected connection is narrowed by one of its selected
/// databases (and so adds no alternative of its own).
pub open spec fn narrowed(c: HistoryConnectionFilter, dbs: Seq<HistoryDatabaseFilter>) -> bool {
    exists|j: int|
        0 <= j < dbs.len() && (#[trigger] dbs[j]).database@.len() > 0 && targets(
            c.connection_id@,
            c.connection_name@,
            dbs[j].connection_id@,
            dbs[j].connection_name@,
        )
}

/// The alternative a whole connection adds.
pub open spec fn connection_alternative(c: HistoryConnectionFilter) -> Option<Alternative> {
    if c.connection_id@.len() > 0 {
        Some(("connection_id = ?"@, seq![SqlValueView::Text(c.connection_id@)]))
    } else if c.connection_name@.len() > 0 {
        Some(("(connection_id = '' AND connection_name = ?)"@, seq![SqlValueView::Text(c.connection_name@)]))
    } else {
        None
    }
}

/// The alternative a database selection adds.
pub open spec fn database_alternative(d: HistoryDatabaseFilter) -> Option<Alternative> {
    if d.database@.len() == 0 {
        None
    } else if d.connection_id@.len() > 0 {
        Some(
            (
                "(connection_id = ? AND database = ?)"@,
                seq![SqlValueView::Text(d.connection_id@), SqlValueView::Text(d.database@)],
            ),
        )
    } else if d.connection_name@.len() > 0 {
        Some(
            (
                "(connection_id = '' AND connection_name = ? AND database = ?)"@,
                seq![SqlValueView::Text(d.connection_name@), SqlValueView::Text(d.database@)],
            ),
        )
    } else {
        None
    }
}

/// The alternatives of the connections, in order.
pub open spec fn connection_alternatives(cs: Seq<HistoryConnectionFilter>, dbs: Seq<HistoryDatabaseFilter>) -> Seq<Alternative>
    decreases cs.len(),
{
    if cs.len() == 0 {
        Seq::empty()
    } else {
        connection_alternatives(cs.drop_last(), dbs) + if narrowed(cs.last(), dbs) {
            Seq::empty()
        } else {
            match connection_alternative(cs.last()) {
                Some(a) => seq![a],
                None => Seq::empty(),
            }
        }
    }
}

/// The alternatives of the database selections, in order.
pub open spec fn database_alternatives(dbs: Seq<HistoryDatabaseFilter>) -> Seq<Alternative>
    decreases dbs.len(),
{
    if dbs.len() == 0 {
        Seq::empty()
    } else {
        database_alternatives(dbs.drop_last()) + match database_alternative(dbs.last()) {
            Some(a) => seq![a],
            None => Seq::empty(),
        }
    }
}

/// The parts joined with a separator.
pub open spec fn join(parts: Seq<Seq<char>>, sep: Seq<char>) -> Seq<char>
    decreases parts.len(),
{
    if parts.len() == 0 {
        Seq::empty()
    } else if parts.len() == 1 {
        parts[0]
    } else {
        join(parts.drop_last(), sep) + sep + parts.last()
    }
}

/// The SQL of each alternative.
pub open spec fn alternative_sql(alts: Seq<Alternative>) -> Seq<Seq<char>> {
    alts.map_values(|a: Alternative| a.0)
}

/// The values of the alternatives, in order.
pub open spec fn alternative_values(alts: Seq<Alternative>) -> Seq<SqlValueView>
    decreases alts.len(),
{
    if alts.len() == 0 {
        Seq::empty()
    } else {
        alternative_values(alts.drop_last()) + alts.last().1
    }
}

/// Joins parts with a separator.
pub fn join_strings(parts: &[String], sep: &str) -> (r: String)
    ensures
        r@ == join(string_views(parts@), sep@),
{
    let mut out = String::from_str("");
    proof {
        reveal_strlit("");
    }
    let mut i: usize = 0;
    assert(string_views(parts@.take(0)) =~= Seq::<Seq<char>>::empty());
    while i < parts.len()
        invariant
            i <= parts.len(),
            out@ == join(string_views(parts@.take(i as int)), sep@),
        decreases parts.len() - i,
    {
        let ghost prev = string_views(parts@.take(i as int));
        let ghost next = string_views(parts@.take(i + 1));
        assert(next =~= prev.push(parts@[i as int]@));
        assert(next.drop_last() =~= prev);
        if i == 0 {
            out = out.concat(parts[i].as_str());
            assert(out@ =~= parts@[0]@);
        } else {
            out = out.concat(sep).concat(parts[i].as_str());
        }
        i = i + 1;
    }
    assert(parts@.take(parts.len() as int) =~= parts@);
    out
}

fn is_narrowed(c: &HistoryConnectionFilter, dbs: &[HistoryDatabaseFilter]) -> (r: bool)
    ensures
        r == narrowed(*c, dbs@),
{
    let mut j: usize = 0;
    while j < dbs.len()
        invariant
            j <= dbs.len(),
            forall|k: int|
                0 <= k < j ==> !((#[trigger] dbs@[k]).database@.len() > 0 && targets(
                    c.connection_id@,
                    c.connection_name@,
                    dbs@[k].connection_id@,
                    dbs@[k].connection_name@,
                )),
        decreases dbs.len() - j,
    {
        if dbs[j].database.as_str().unicode_len() > 0 && history_filter_targets_connection(c, &dbs[j]) {
            return true;
        }
        j = j + 1;
    }
    false
}

/// The values pushed for an alternative.
fn push_text(values: &mut Vec<SqlValue>, t: &String)
    ensures
        value_views(final(values)@) == value_views(old(values)@).push(SqlValueView::Text(t@)),
{
    let ghost prev = value_views(values@);
    values.push(SqlValue::Text(t.clone()));
    assert(value_views(values@) =~= prev.push(SqlValueView::Text(t@)));
}

/// The scope clause of a history search: the selected connections (each
/// whole, unless one of its databases is selected) and the selected
/// databases, as alternatives joined by `OR`, with their values appended in
/// the same order. Nothing is added when nothing is selected.
pub fn append_history_scope_clause(
    clauses: &mut Vec<String>,
    values: &mut Vec<SqlValue>,
    connections: &[HistoryConnectionFilter],
    databases: &[HistoryDatabaseFilter],
)
    ensures
        ({
            let alts = connection_alternatives(connections@, databases@) + database_alternatives(databases@);
            &&& value_views(final(values)@) == value_views(old(values)@) + alternative_values(alts)
            &&& string_views(final(clauses)@) == string_views(old(clauses)@) + if alts.len() == 0 {
                Seq::<Seq<char>>::empty()
            } else {
                seq!["("@ + join(alternative_sql(alts), " OR "@) + ")"@]
            }
        }),
{
    let ghost v0 = value_views(values@);
    let mut alternatives: Vec<String> = Vec::new();
    let mut i: usize = 0;
    assert(connections@.take(0) =~= Seq::<HistoryConnectionFilter>::empty());
    assert(string_views(alternatives@) =~= alternative_sql(connection_alternatives(connections@.take(0), databases@)));
    while i < connections.len()
        invariant
            i <= connections.len(),
            string_views(alternatives@) == alternative_sql(connection_alternatives(connections@.take(i as int), databases@)),
            value_views(values@) == v0 + alternative_values(connection_alternatives(connections@.take(i as int), databases@)),
        decreases connections.len() - i,
    {
        let c = &connections[i];
        let ghost pre = connection_alternatives(connections@.take(i as int), databases@);
        assert(connections@.take(i + 1).drop_last() =~= connections@.take(i as int));
        assert(connections@.take(i + 1).last() == connections@[i as int]);
        let ghost post = connection_alternatives(connections@.take(i + 1), databases@);
        if is_narrowed(c, databases) {
            assert(post =~= pre);
        } else if c.connection_id.as_str().unicode_len() > 0 {
            let ghost a = ("connection_id = ?"@, seq![SqlValueView::Text(c.connection_id@)]);
            assert(post =~= pre.push(a));
            let ghost sp = string_views(alternatives@);
            alternatives.push(String::from_str("connection_id = ?"));
            assert(string_views(alternatives@) =~= sp.push(a.0));
            assert(alternative_sql(post) =~= alternative_sql(pre).push(a.0));
            push_text(values, &c.connection_id);
            assert(post.drop_last() =~= pre);
            assert(value_views(values@) =~= v0 + alternative_values(post));
        } else if c.connection_name.as_str().unicode_len() > 0 {
            let ghost a = ("(connection_id = '' AND connection_name = ?)"@, seq![SqlValueView::Text(c.connection_name@)]);
            assert(post =~= pre.push(a));
            let ghost sp = string_views(alternatives@);
            alternatives.push(String::from_str("(connection_id = '' AND connection_name = ?)"));
            assert(string_views(alternatives@) =~= sp.push(a.0));
            assert(alternative_sql(post) =~= alternative_sql(pre).push(a.0));
            push_text(values, &c.connection_name);
            assert(post.drop_last() =~= pre);
            assert(value_views(values@) =~= v0 + alternative_values(post));
        } else {
            assert(post =~= pre);
        }
        i = i + 1;
    }
    assert(connections@.take(connections.len() as int) =~= connections@);
    let ghost ca = connection_alternatives(connections@, databases@);
    let mut j: usize = 0;
    assert(databases@.take(0) =~= Seq::<HistoryDatabaseFilter>::empty());
    assert(ca + database_alternatives(databases@.take(0)) =~= ca);
    while j < databases.len()
        invariant
            j <= databases.len(),
            ca == connection_alternatives(connections@, databases@),
            string_views(alternatives@) == alternative_sql(ca + database_alternatives(databases@.take(j as int))),
            value_views(values@) == v0 + alternative_values(ca + database_alternatives(databases@.take(j as int))),
        decreases databases.len() - j,
    {
        let d = &databases[j];
        let ghost pre = ca + database_alternatives(databases@.take(j as int));
        assert(databases@.take(j + 1).drop_last() =~= databases@.take(j as int));
        assert(databases@.take(j + 1).last() == databases@[j as int]);
        let ghost post = ca + database_alternatives(databases@.take(j + 1));
        if d.database.as_str().unicode_len() == 0 {
            assert(post =~= pre);
        } else if d.connection_id.as_str().unicode_len() > 0 {
            let ghost a = (
                "(connection_id = ? AND database = ?)"@,
                seq![SqlValueView::Text(d.connection_id@), SqlValueView::Text(d.database@)],
            );
            assert(post =~= pre.push(a));
            let ghost sp = string_views(alternatives@);
            alternatives.push(String::from_str("(connection_id = ? AND database = ?)"));
            assert(string_views(alternatives@) =~= sp.push(a.0));
            assert(alternative_sql(post) =~= alternative_sql(pre).push(a.0));
            let ghost vp = value_views(values@);
            push_text(values, &d.connection_id);
            push_text(values, &d.database);
            assert(post.drop_last() =~= pre);
            assert(value_views(values@) =~= v0 + alternative_values(post));
        } else if d.connection_name.as_str().unicode_len() > 0 {
            let ghost a = (
                "(connection_id = '' AND connection_name = ? AND database = ?)"@,
                seq![SqlValueView::Text(d.connection_name@), SqlValueView::Text(d.database@)],
            );
            assert(post =~= pre.push(a));
            let ghost sp = string_views(alternatives@);
            alternatives.push(String::from_str("(connection_id = '' AND connection_name = ? AND database = ?)"));
            assert(string_views(alternatives@) =~= sp.push(a.0));
            assert(alternative_sql(post) =~= alternative_sql(pre).push(a.0));
            push_text(values, &d.connection_name);
            push_text(values, &d.database);
            assert(post.drop_last() =~= pre);
            assert(value_views(values@) =~= v0 + alternative_values(post));
        } else {
            assert(post =~= pre);
        }
        j = j + 1;
    }
    assert(databases@.take(databases.len() as int) =~= databases@);
    if alternatives.len() > 0 {
        let joined = join_strings(alternatives.as_slice(), " OR ");
        let clause = String::from_str("(").concat(joined.as_str()).concat(")");
        let ghost cp = string_views(clauses@);
        clauses.push(clause);
        assert(string_views(clauses@) =~= cp.push(clause@));
    } else {
        assert(string_views(clauses@) =~= string_views(clauses@) + Seq::<Seq<char>>::empty());
    }
}

/// The scope clause, as one clause with its values (none when nothing is
/// selected).
pub open spec fn scope_clause(req: HistorySearchRequest) -> Seq<Alternative> {
    let alts = connection_alternatives(req.connections@, req.databases@) + database_alternatives(req.databases@);
    if alts.len() == 0 {
        Seq::empty()
    } else {
        seq![("("@ + join(alternative_sql(alts), " OR "@) + ")"@, alternative_values(alts))]
    }
}

/// A clause that is present when an optional text is set and not empty.
pub open spec fn text_clause(o: Option<String>, sql: Seq<char>) -> Seq<Alternative> {
    match o {
        Some(t) => if t@.len() > 0 {
            seq![(sql, seq![SqlValueView::Text(t@)])]
        } else {
            Seq::empty()
        },
        None => Seq::empty(),
    }
}

/// The clause that matches the search text in any of five columns.
pub open spec fn search_sql() -> Seq<char> {
    "(sql_text LIKE ? ESCAPE '\\' COLLATE NOCASE OR connection_name LIKE ? ESCAPE '\\' COLLATE NOCASE OR database LIKE ? ESCAPE '\\' COLLATE NOCASE OR operation LIKE ? ESCAPE '\\' COLLATE NOCASE OR target LIKE ? ESCAPE '\\' COLLATE NOCASE)"@
}

/// The search clause: the trimmed search text, escaped and wrapped in `%`,
/// bound once per column.
pub open spec fn search_clause(text: Seq<char>) -> Seq<Alternative> {
    let t = trim(text);
    if t.len() == 0 {
        Seq::empty()
    } else {
        let p = SqlValueView::Text("%"@ + escaped(t) + "%"@);
        seq![(search_sql(), seq![p, p, p, p, p])]
    }
}

/// All clauses of a history search, in order, with their values.
pub open spec fn search_clauses(req: HistorySearchRequest) -> Seq<Alternative> {
    scope_clause(req) + text_clause(req.activity_kind, "activity_kind = ?"@) + match req.success {
        Some(b) => seq![("success = ?"@, seq![SqlValueView::Integer(if b { 1i64 } else { 0i64 })])],
        None => Seq::empty(),
    } + text_clause(req.started_at, "julianday(executed_at) >= julianday(?)"@) + text_clause(
        req.ended_at,
        "julianday(executed_at) <= julianday(?)"@,
    ) + search_clause(req.search_text@)
}

/// The `WHERE` part of a history query: empty without clauses, otherwise
/// the clauses joined by `AND`.
pub open spec fn where_sql(clauses: Seq<Alternative>) -> Seq<char> {
    if clauses.len() == 0 {
        Seq::empty()
    } else {
        " WHERE "@ + join(alternative_sql(clauses), " AND "@)
    }
}

fn push_clause(clauses: &mut Vec<String>, values: &mut Vec<SqlValue>, sql: &str, v: SqlValue, ghost_all: Ghost<Seq<Alternative>>)
    requires
        string_views(old(clauses)@) == alternative_sql(ghost_all@),
        value_views(old(values)@) == alternative_values(ghost_all@),
    ensures
        string_views(final(clauses)@) == alternative_sql(ghost_all@.push((sql@, seq![value_view(v)]))),
        value_views(final(values)@) == alternative_values(ghost_all@.push((sql@, seq![value_view(v)]))),
{
    let ghost a = (sql@, seq![value_view(v)]);
    let ghost cp = string_views(clauses@);
    clauses.push(String::from_str(sql));
    assert(string_views(clauses@) =~= cp.push(sql@));
    assert(alternative_sql(ghost_all@.push(a)) =~= alternative_sql(ghost_all@).push(sql@));
    let ghost vp = value_views(values@);
    values.push(v);
    assert(value_views(values@) =~= vp.push(value_view(v)));
    assert(ghost_all@.push(a).drop_last() =~= ghost_all@);
    assert(value_views(values@) =~= alternative_values(ghost_all@) + a.1);
}

fn scope_part(request: &HistorySearchRequest) -> (r: (Vec<String>, Vec<SqlValue>))
    ensures
        string_views(r.0@) == alternative_sql(scope_clause(*request)),
        value_views(r.1@) == alternative_values(scope_clause(*request)),
{
    let mut clauses: Vec<String> = Vec::new();
    let mut values: Vec<SqlValue> = Vec::new();
    assert(string_views(clauses@) =~= Seq::<Seq<char>>::empty());
    assert(value_views(values@) =~= Seq::<SqlValueView>::empty());
    append_history_scope_clause(&mut clauses, &mut values, request.connections.as_slice(), request.databases.as_slice());
    proof {
        let alts = connection_alternatives(request.connections@, request.databases@) + database_alternatives(request.databases@);
        let all = scope_clause(*request);
        assert(Seq::<Seq<char>>::empty() + Seq::<Seq<char>>::empty() =~= Seq::<Seq<char>>::empty());
        assert(Seq::<SqlValueView>::empty() + alternative_values(alts) =~= alternative_values(alts));
        if alts.len() == 0 {
            assert(string_views(clauses@) =~= alternative_sql(all));
        } else {
            assert(string_views(clauses@) =~= alternative_sql(all));
            assert(all.drop_last() =~= Seq::<Alternative>::empty());
            assert(alternative_values(Seq::<Alternative>::empty()) =~= Seq::<SqlValueView>::empty());
            assert(alternative_values(all.drop_last()) =~= Seq::<SqlValueView>::empty());
            assert(all.last().1 == alternative_values(alts));
            assert(alternative_values(all) =~= alternative_values(alts));
        }
    }
    (clauses, values)
}

fn add_text_clause(
    clauses: &mut Vec<String>,
    values: &mut Vec<SqlValue>,
    o: &Option<String>,
    sql: &str,
    all: Ghost<Seq<Alternative>>,
)
    requires
        string_views(old(clauses)@) == alternative_sql(all@),
        value_views(old(values)@) == alternative_values(all@),
    ensures
        string_views(final(clauses)@) == alternative_sql(all@ + text_clause(*o, sql@)),
        value_views(final(values)@) == alternative_values(all@ + text_clause(*o, sql@)),
{
    if let Some(t) = o {
        if t.as_str().unicode_len() > 0 {
            push_clause(clauses, values, sql, SqlValue::Text(t.clone()), all);
            assert(all@ + text_clause(*o, sql@) =~= all@.push((sql@, seq![SqlValueView::Text(t@)])));
            return;
        }
    }
    assert(all@ + text_clause(*o, sql@) =~= all@);
}

/// The success clause.
pub open spec fn success_clause(o: Option<bool>) -> Seq<Alternative> {
    match o {
        Some(b) => seq![("success = ?"@, seq![SqlValueView::Integer(if b { 1i64 } else { 0i64 })])],
        None => Seq::empty(),
    }
}

fn add_success_clause(clauses: &mut Vec<String>, values: &mut Vec<SqlValue>, o: Option<bool>, all: Ghost<Seq<Alternative>>)
    requires
        string_views(old(clauses)@) == alternative_sql(all@),
        value_views(old(values)@) == alternative_values(all@),
    ensures
        string_views(final(clauses)@) == alternative_sql(all@ + success_clause(o)),
        value_views(final(values)@) == alternative_values(all@ + success_clause(o)),
{
    if let Some(success) = o {
        let n: i64 = if success {
            1
        } else {
            0
        };
        push_clause(clauses, values, "success = ?", SqlValue::Integer(n), all);
        assert(all@ + success_clause(o) =~= all@.push(("success = ?"@, seq![SqlValueView::Integer(n)])));
    } else {
        assert(all@ + success_clause(o) =~= all@);
    }
}

fn add_search_clause(clauses: &mut Vec<String>, values: &mut Vec<SqlValue>, text: &String, all: Ghost<Seq<Alternative>>)
    requires
        string_views(old(clauses)@) == alternative_sql(all@),
        value_views(old(values)@) == alternative_values(all@),
    ensures
        string_views(final(clauses)@) == alternative_sql(all@ + search_clause(text@)),
        value_views(final(values)@) == alternative_values(all@ + search_clause(text@)),
{
    let c = chars_of(text.as_str());
    let t = trim_chars(c.as_slice());
    if t.len() > 0 {
        let ts = string_of(t.as_slice());
        let pattern = String::from_str("%").concat(escape_history_like_pattern(ts.as_str()).as_str()).concat("%");
        let ghost p = SqlValueView::Text(pattern@);
        let ghost a = (search_sql(), seq![p, p, p, p, p]);
        let ghost cp = string_views(clauses@);
        clauses.push(String::from_str(
            "(sql_text LIKE ? ESCAPE '\\' COLLATE NOCASE OR connection_name LIKE ? ESCAPE '\\' COLLATE NOCASE OR database LIKE ? ESCAPE '\\' COLLATE NOCASE OR operation LIKE ? ESCAPE '\\' COLLATE NOCASE OR target LIKE ? ESCAPE '\\' COLLATE NOCASE)",
        ));
        assert(string_views(clauses@) =~= cp.push(search_sql()));
        let ghost vp = value_views(values@);
        push_text(values, &pattern);
        push_text(values, &pattern);
        push_text(values, &pattern);
        push_text(values, &pattern);
        push_text(values, &pattern);
        assert(all@ + search_clause(text@) =~= all@.push(a));
        assert(alternative_sql(all@.push(a)) =~= alternative_sql(all@).push(search_sql()));
        assert(all@.push(a).drop_last() =~= all@);
        assert(value_views(values@) =~= vp + a.1);
    } else {
        assert(all@ + search_clause(text@) =~= all@);
    }
}

/// The `WHERE` part of a history search and the values it binds. Only fixed
/// SQL fragments are assembled; every filter value is bound as a parameter.
pub fn history_search_predicate(request: &HistorySearchRequest) -> (r: (String, Vec<SqlValue>))
    ensures
        r.0@ == where_sql(search_clauses(*request)),
        value_views(r.1@) == alternative_values(search_clauses(*request)),
        placeholders(r.0@) == r.1.len(),
{
    let (mut clauses, mut values) = scope_part(request);
    let ghost a0 = scope_clause(*request);
    add_text_clause(&mut clauses, &mut values, &request.activity_kind, "activity_kind = ?", Ghost(a0));
    let ghost a1 = a0 + text_clause(request.activity_kind, "activity_kind = ?"@);
    add_success_clause(&mut clauses, &mut values, request.success, Ghost(a1));
    let ghost a2 = a1 + success_clause(request.success);
    add_text_clause(&mut clauses, &mut values, &request.started_at, "julianday(executed_at) >= julianday(?)", Ghost(a2));
    let ghost a3 = a2 + text_clause(request.started_at, "julianday(executed_at) >= julianday(?)"@);
    add_text_clause(&mut clauses, &mut values, &request.ended_at, "julianday(executed_at) <= julianday(?)", Ghost(a3));
    let ghost a4 = a3 + text_clause(request.ended_at, "julianday(executed_at) <= julianday(?)"@);
    add_search_clause(&mut clauses, &mut values, &request.search_text, Ghost(a4));
    assert(a4 + search_clause(request.search_text@) == search_clauses(*request));
    let predicate = if clauses.len() == 0 {
        let e = String::from_str("");
        proof {
            reveal_strlit("");
        }
        e
    } else {
        String::from_str(" WHERE ").concat(join_strings(clauses.as_slice(), " AND ").as_str())
    };
    proof {
        lemma_history_search_placeholders_match(*request);
        assert(value_views(values@).len() == values@.len());
    }
    (predicate, values)
}

/// Rows per history page: 100 when none is asked for, otherwise between 1
/// and 200.
pub open spec fn page_limit(limit: usize) -> usize {
    if limit == 0 {
        100
    } else if limit > 200 {
        200
    } else {
        limit
    }
}

/// Rows per history page.
pub fn history_page_limit(limit: usize) -> (r: usize)
    ensures
        r == page_limit(limit),
        1 <= r <= 200,
{
    if limit == 0 {
        100
    } else if limit > 200 {
        200
    } else {
        limit
    }
}

/// A predicate narrowed to the rows after a cursor.
pub open spec fn after_cursor_sql(predicate: Seq<char>) -> Seq<char> {
    (if predicate.len() == 0 {
        " WHERE "@
    } else {
        predicate + " AND "@
    }) + "(executed_at < ? OR (executed_at = ? AND id < ?))"@
}

/// The predicate of one page: the search predicate narrowed to rows after
/// the cursor, ordered as the query orders them (newest first, then by id).
pub fn history_page_predicate(predicate: String, values: Vec<SqlValue>, cursor: &Option<HistoryCursor>) -> (r: (
    String,
    Vec<SqlValue>,
))
    ensures
        match cursor {
            Some(c) => {
                &&& r.0@ == after_cursor_sql(predicate@)
                &&& value_views(r.1@) == value_views(values@) + seq![
                    SqlValueView::Text(c.executed_at@),
                    SqlValueView::Text(c.executed_at@),
                    SqlValueView::Text(c.id@),
                ]
            },
            None => r.0@ == predicate@ && r.1@ == values@,
        },
        placeholders(r.0@) == placeholders(predicate@) + (r.1.len() - values.len()),
{
    match cursor {
        Some(c) => {
            let p = if predicate.as_str().unicode_len() == 0 {
                String::from_str(" WHERE ").concat("(executed_at < ? OR (executed_at = ? AND id < ?))")
            } else {
                predicate.concat(" AND ").concat("(executed_at < ? OR (executed_at = ? AND id < ?))")
            };
            let mut v = values;
            let ghost v0 = value_views(v@);
            push_text(&mut v, &c.executed_at);
            push_text(&mut v, &c.executed_at);
            push_text(&mut v, &c.id);
            assert(value_views(v@) =~= v0 + seq![
                SqlValueView::Text(c.executed_at@),
                SqlValueView::Text(c.executed_at@),
                SqlValueView::Text(c.id@),
            ]);
            proof {
                lemma_fragment_placeholders();
                let tail = "(executed_at < ? OR (executed_at = ? AND id < ?))"@;
                if predicate@.len() == 0 {
                    assert(predicate@ =~= Seq::<char>::empty());
                    lemma_placeholders_concat(" WHERE "@, tail);
                } else {
                    lemma_placeholders_concat(predicate@, " AND "@);
                    lemma_placeholders_concat(predicate@ + " AND "@, tail);
                }
                assert(value_views(v@).len() == v@.len());
                assert(value_views(values@).len() == values@.len());
            }
            (p, v)
        },
        None => (predicate, values),
    }
}

/// Splits the rows fetched for a page (one more than the limit is fetched)
/// into the page and whether more rows follow.
pub fn split_history_page<T>(rows: Vec<T>, limit: usize) -> (r: (Vec<T>, bool))
    ensures
        r.1 == (rows@.len() > limit),
        r.0@ == if rows@.len() > limit {
            rows@.take(limit as int)
        } else {
            rows@
        },
{
    let more = rows.len() > limit;
    let mut page = rows;
    if more {
        page.truncate(limit);
    }
    (page, more)
}

/// A connection offered as a history filter, with the databases seen for it.
#[derive(Debug, Clone, PartialEq, Eq)]
pub struct HistoryConnectionOption {
    pub connection_id: String,
    pub connection_name: String,
    pub databases: Vec<String>,
}

/// The view of an option.
pub struct OptionView {
    pub id: Seq<char>,
    pub name: Seq<char>,
    pub databases: Seq<Seq<char>>,
}

pub open spec fn option_view(o: HistoryConnectionOption) -> OptionView {
    OptionView { id: o.connection_id@, name: o.connection_name@, databases: string_views(o.databases@) }
}

pub open spec fn option_views(v: Seq<HistoryConnectionOption>) -> Seq<OptionView> {
    v.map_values(|o: HistoryConnectionOption| option_view(o))
}

/// A history row as `(connection id, connection name, database)`.
pub type RowView = (Seq<char>, Seq<char>, Seq<char>);

pub open spec fn row_views(rows: Seq<(String, String, String)>) -> Seq<RowView> {
    rows.map_values(|r: (String, String, String)| (r.0@, r.1@, r.2@))
}

/// Whether a row belongs to an option: by id, or for rows of older releases
/// without one, by name among options without an id.
pub open spec fn same_source(o: OptionView, row: RowView) -> bool {
    if row.0.len() == 0 {
        o.id.len() == 0 && o.name == row.1
    } else {
        o.id == row.0
    }
}

/// The option a row belongs to.
pub open spec fn option_index(opts: Seq<OptionView>, row: RowView) -> Option<int>
    decreases opts.len(),
{
    if opts.len() == 0 {
        None
    } else if same_source(opts.last(), row) {
        Some(opts.len() - 1)
    } else {
        option_index(opts.drop_last(), row)
    }
}

/// The options after one more row (rows come newest first): a new source
/// adds an option, and a database not yet listed for its source is added.
pub open spec fn add_row(opts: Seq<OptionView>, row: RowView) -> Seq<OptionView> {
    match option_index(opts, row) {
        Some(i) => if row.2.len() > 0 && !opts[i].databases.contains(row.2) {
            opts.update(i, OptionView { databases: opts[i].databases.push(row.2), ..opts[i] })
        } else {
            opts
        },
        None => opts.push(
            OptionView {
                id: row.0,
                name: row.1,
                databases: if row.2.len() > 0 {
                    seq![row.2]
                } else {
                    Seq::empty()
                },
            },
        ),
    }
}

/// The options for rows read newest first.
pub open spec fn options_of(rows: Seq<RowView>) -> Seq<OptionView>
    decreases rows.len(),
{
    if rows.len() == 0 {
        Seq::empty()
    } else {
        add_row(options_of(rows.drop_last()), rows.last())
    }
}

proof fn lemma_option_index_bounds(opts: Seq<OptionView>, row: RowView)
    ensures
        option_index(opts, row) matches Some(i) ==> 0 <= i < opts.len() && same_source(opts[i], row),
        option_index(opts, row) is None ==> forall|j: int| 0 <= j < opts.len() ==> !same_source(#[trigger] opts[j], row),
    decreases opts.len(),
{
    if opts.len() > 0 {
        lemma_option_index_bounds(opts.drop_last(), row);
        if !same_source(opts.last(), row) {
            assert forall|j: int| 0 <= j < opts.len() - 1 implies opts[j] == opts.drop_last()[j] by {}
        }
    }
}

fn find_option(options: &Vec<HistoryConnectionOption>, id: &String, name: &String) -> (r: Option<usize>)
    ensures
        r matches Some(i) ==> i < options@.len() && option_index(option_views(options@), (id@, name@, Seq::empty())) == Some(i as int),
        r is None ==> option_index(option_views(options@), (id@, name@, Seq::empty())) is None,
{
    let ghost ov = option_views(options@);
    let ghost row: RowView = (id@, name@, Seq::empty());
    let mut k = options.len();
    assert(ov.take(k as int) =~= ov);
    while k > 0
        invariant
            k <= options.len(),
            ov == option_views(options@),
            row == (id@, name@, Seq::<char>::empty()),
            option_index(ov, row) == option_index(ov.take(k as int), row),
        decreases k,
    {
        let o = &options[k - 1];
        assert(ov.take(k as int).last() == option_view(*o));
        assert(ov.take(k as int).drop_last() =~= ov.take(k - 1));
        let id_empty = id.as_str().unicode_len() == 0;
        let same = if id_empty {
            o.connection_id.as_str().unicode_len() == 0 && o.connection_name == *name
        } else {
            o.connection_id == *id
        };
        assert(same == same_source(option_view(*o), row));
        assert(ov.take(k as int).len() == k);
        if same {
            assert(option_index(ov.take(k as int), row) == Some(k - 1));
            return Some(k - 1);
        }
        assert(option_index(ov.take(k as int), row) == option_index(ov.take(k - 1), row));
        k = k - 1;
    }
    None
}

fn strings_have(v: &Vec<String>, x: &String) -> (r: bool)
    ensures
        r == string_views(v@).contains(x@),
{
    crate::text::strings_contain(v.as_slice(), x)
}

/// The connections offered as history filters, from rows read newest first:
/// one option per source in the order first seen, each with its non-empty
/// databases in the order first seen.
pub fn history_connection_options(rows: Vec<(String, String, String)>) -> (r: Vec<HistoryConnectionOption>)
    ensures
        option_views(r@) == options_of(row_views(rows@)),
{
    let ghost rv = row_views(rows@);
    let mut options: Vec<HistoryConnectionOption> = Vec::new();
    let mut i: usize = 0;
    assert(option_views(options@) =~= options_of(rv.take(0)));
    while i < rows.len()
        invariant
            i <= rows.len(),
            rv == row_views(rows@),
            option_views(options@) == options_of(rv.take(i as int)),
        decreases rows.len() - i,
    {
        let (id, name, db) = &rows[i];
        let ghost row: RowView = (id@, name@, db@);
        assert(rv[i as int] == row);
        assert(rv.take(i + 1).drop_last() =~= rv.take(i as int));
        assert(rv.take(i + 1).last() == row);
        let ghost ov = option_views(options@);
        assert(option_index(ov, row) == option_index(ov, (id@, name@, Seq::empty()))) by {
            lemma_option_index_same(ov, row, (id@, name@, Seq::empty()));
        }
        proof {
            lemma_option_index_bounds(ov, row);
        }
        match find_option(&options, id, name) {
            Some(k) => {
                let has_db = db.as_str().unicode_len() > 0;
                if has_db && !strings_have(&options[k].databases, db) {
                    let mut o = options.remove(k);
                    let ghost ob = option_view(o);
                    o.databases.push(db.clone());
                    assert(string_views(o.databases@) =~= ob.databases.push(db@));
                    options.insert(k, o);
                    assert(option_views(options@) =~= ov.update(k as int, OptionView { databases: ov[k as int].databases.push(db@), ..ov[k as int] }));
                } else {
                    assert(option_views(options@) =~= ov);
                }
            },
            None => {
                let mut dbs: Vec<String> = Vec::new();
                if db.as_str().unicode_len() > 0 {
                    dbs.push(db.clone());
                }
                let ghost nd = string_views(dbs@);
                assert(nd =~= if db@.len() > 0 { seq![db@] } else { Seq::<Seq<char>>::empty() });
                options.push(HistoryConnectionOption { connection_id: id.clone(), connection_name: name.clone(), databases: dbs });
                assert(option_views(options@) =~= ov.push(OptionView { id: id@, name: name@, databases: nd }));
            },
        }
        i = i + 1;
    }
    assert(rv.take(rows.len() as int) =~= rv);
    options
}

proof fn lemma_option_index_same(opts: Seq<OptionView>, a: RowView, b: RowView)
    requires
        a.0 == b.0 && a.1 == b.1,
    ensures
        option_index(opts, a) == option_index(opts, b),
    decreases opts.len(),
{
    if opts.len() > 0 {
        lemma_option_index_same(opts.drop_last(), a, b);
    }
}

/// The number of `?` placeholders in `s` from index `i` on.
pub open spec fn placeholders_from(s: Seq<char>, i: int) -> nat
    decreases s.len() - i,
{
    if i < 0 || i >= s.len() {
        0
    } else {
        (if s[i] == '?' {
            1nat
        } else {
            0nat
        }) + placeholders_from(s, i + 1)
    }
}

/// The number of `?` placeholders in an SQL text.
pub open spec fn placeholders(s: Seq<char>) -> nat {
    placeholders_from(s, 0)
}

proof fn lemma_placeholders_shift(a: Seq<char>, b: Seq<char>, j: int)
    requires
        0 <= j,
    ensures
        placeholders_from(a + b, a.len() + j) == placeholders_from(b, j),
    decreases b.len() - j,
{
    if j < b.len() {
        lemma_placeholders_shift(a, b, j + 1);
        assert((a + b)[a.len() + j] == b[j]);
    }
}

proof fn lemma_placeholders_concat_from(a: Seq<char>, b: Seq<char>, i: int)
    requires
        0 <= i <= a.len(),
    ensures
        placeholders_from(a + b, i) == placeholders_from(a, i) + placeholders(b),
    decreases a.len() - i,
{
    if i < a.len() {
        lemma_placeholders_concat_from(a, b, i + 1);
        assert((a + b)[i] == a[i]);
    } else {
        lemma_placeholders_shift(a, b, 0);
    }
}

/// Placeholders add up over concatenation.
pub proof fn lemma_placeholders_concat(a: Seq<char>, b: Seq<char>)
    ensures
        placeholders(a + b) == placeholders(a) + placeholders(b),
{
    lemma_placeholders_concat_from(a, b, 0);
}

proof fn lemma_fragment_connection_id()
    ensures
        placeholders("connection_id = ?"@) == 1,
{
    reveal_strlit("connection_id = ?");
    reveal_with_fuel(placeholders_from, 45);
    assert(placeholders_from("connection_id = ?"@, 0) == 1);
}

proof fn lemma_fragment_connection_name()
    ensures
        placeholders("(connection_id = '' AND connection_name = ?)"@) == 1,
{
    reveal_strlit("(connection_id = '' AND connection_name = ?)");
    reveal_with_fuel(placeholders_from, 45);
    assert(placeholders_from("(connection_id = '' AND connection_name = ?)"@, 40) == 1);
    assert(placeholders_from("(connection_id = '' AND connection_name = ?)"@, 0) == 1);
}

proof fn lemma_fragment_database_by_id()
    ensures
        placeholders("(connection_id = ? AND database = ?)"@) == 2,
{
    reveal_strlit("(connection_id = ? AND database = ?)");
    reveal_with_fuel(placeholders_from, 45);
    assert(placeholders_from("(connection_id = ? AND database = ?)"@, 0) == 2);
}

proof fn lemma_fragment_database_by_name()
    ensures
        placeholders("(connection_id = '' AND connection_name = ? AND database = ?)"@) == 2,
{
    reveal_strlit("(connection_id = '' AND connection_name = ? AND database = ?)");
    reveal_with_fuel(placeholders_from, 45);
    assert(placeholders_from("(connection_id = '' AND connection_name = ? AND database = ?)"@, 40) == 2);
    assert(placeholders_from("(connection_id = '' AND connection_name = ? AND database = ?)"@, 0) == 2);
}

proof fn lemma_fragment_activity_kind()
    ensures
        placeholders("activity_kind = ?"@) == 1,
{
    reveal_strlit("activity_kind = ?");
    reveal_with_fuel(placeholders_from, 45);
    assert(placeholders_from("activity_kind = ?"@, 0) == 1);
}

proof fn lemma_fragment_success()
    ensures
        placeholders("success = ?"@) == 1,
{
    reveal_strlit("success = ?");
    reveal_with_fuel(placeholders_from, 45);
    assert(placeholders_from("success = ?"@, 0) == 1);
}

proof fn lemma_fragment_started_at()
    ensures
        placeholders("julianday(executed_at) >= julianday(?)"@) == 1,
{
    reveal_strlit("julianday(executed_at) >= julianday(?)");
    reveal_with_fuel(placeholders_from, 45);
    assert(placeholders_from("julianday(executed_at) >= julianday(?)"@, 0) == 1);
}

proof fn lemma_fragment_ended_at()
    ensures
        placeholders("julianday(executed_at) <= julianday(?)"@) == 1,
{
    reveal_strlit("julianday(executed_at) <= julianday(?)");
    reveal_with_fuel(placeholders_from, 45);
    assert(placeholders_from("julianday(executed_at) <= julianday(?)"@, 0) == 1);
}

proof fn lemma_fragment_search()
    ensures
        placeholders("(sql_text LIKE ? ESCAPE '\\' COLLATE NOCASE OR connection_name LIKE ? ESCAPE '\\' COLLATE NOCASE OR database LIKE ? ESCAPE '\\' COLLATE NOCASE OR operation LIKE ? ESCAPE '\\' COLLATE NOCASE OR target LIKE ? ESCAPE '\\' COLLATE NOCASE)"@) == 5,
{
    reveal_strlit("(sql_text LIKE ? ESCAPE '\\' COLLATE NOCASE OR connection_name LIKE ? ESCAPE '\\' COLLATE NOCASE OR database LIKE ? ESCAPE '\\' COLLATE NOCASE OR operation LIKE ? ESCAPE '\\' COLLATE NOCASE OR target LIKE ? ESCAPE '\\' COLLATE NOCASE)");
    reveal_with_fuel(placeholders_from, 45);
    assert(placeholders_from("(sql_text LIKE ? ESCAPE '\\' COLLATE NOCASE OR connection_name LIKE ? ESCAPE '\\' COLLATE NOCASE OR database LIKE ? ESCAPE '\\' COLLATE NOCASE OR operation LIKE ? ESCAPE '\\' COLLATE NOCASE OR target LIKE ? ESCAPE '\\' COLLATE NOCASE)"@, 200) == 1);
    assert(placeholders_from("(sql_text LIKE ? ESCAPE '\\' COLLATE NOCASE OR connection_name LIKE ? ESCAPE '\\' COLLATE NOCASE OR database LIKE ? ESCAPE '\\' COLLATE NOCASE OR operation LIKE ? ESCAPE '\\' COLLATE NOCASE OR target LIKE ? ESCAPE '\\' COLLATE NOCASE)"@, 160) == 1);
    assert(placeholders_from("(sql_text LIKE ? ESCAPE '\\' COLLATE NOCASE OR connection_name LIKE ? ESCAPE '\\' COLLATE NOCASE OR database LIKE ? ESCAPE '\\' COLLATE NOCASE OR operation LIKE ? ESCAPE '\\' COLLATE NOCASE OR target LIKE ? ESCAPE '\\' COLLATE NOCASE)"@, 120) == 2);
    assert(placeholders_from("(sql_text LIKE ? ESCAPE '\\' COLLATE NOCASE OR connection_name LIKE ? ESCAPE '\\' COLLATE NOCASE OR database LIKE ? ESCAPE '\\' COLLATE NOCASE OR operation LIKE ? ESCAPE '\\' COLLATE NOCASE OR target LIKE ? ESCAPE '\\' COLLATE NOCASE)"@, 80) == 3);
    assert(placeholders_from("(sql_text LIKE ? ESCAPE '\\' COLLATE NOCASE OR connection_name LIKE ? ESCAPE '\\' COLLATE NOCASE OR database LIKE ? ESCAPE '\\' COLLATE NOCASE OR operation LIKE ? ESCAPE '\\' COLLATE NOCASE OR target LIKE ? ESCAPE '\\' COLLATE NOCASE)"@, 40) == 4);
    assert(placeholders_from("(sql_text LIKE ? ESCAPE '\\' COLLATE NOCASE OR connection_name LIKE ? ESCAPE '\\' COLLATE NOCASE OR database LIKE ? ESCAPE '\\' COLLATE NOCASE OR operation LIKE ? ESCAPE '\\' COLLATE NOCASE OR target LIKE ? ESCAPE '\\' COLLATE NOCASE)"@, 0) == 5);
}

proof fn lemma_fragment_cursor()
    ensures
        placeholders("(executed_at < ? OR (executed_at = ? AND id < ?))"@) == 3,
{
    reveal_strlit("(executed_at < ? OR (executed_at = ? AND id < ?))");
    reveal_with_fuel(placeholders_from, 45);
    assert(placeholders_from("(executed_at < ? OR (executed_at = ? AND id < ?))"@, 40) == 1);
    assert(placeholders_from("(executed_at < ? OR (executed_at = ? AND id < ?))"@, 0) == 3);
}

proof fn lemma_fragment_open_paren()
    ensures
        placeholders("("@) == 0,
{
    reveal_strlit("(");
    reveal_with_fuel(placeholders_from, 45);
    assert(placeholders_from("("@, 0) == 0);
}

proof fn lemma_fragment_close_paren()
    ensures
        placeholders(")"@) == 0,
{
    reveal_strlit(")");
    reveal_with_fuel(placeholders_from, 45);
    assert(placeholders_from(")"@, 0) == 0);
}

proof fn lemma_fragment_or()
    ensures
        placeholders(" OR "@) == 0,
{
    reveal_strlit(" OR ");
    reveal_with_fuel(placeholders_from, 45);
    assert(placeholders_from(" OR "@, 0) == 0);
}

proof fn lemma_fragment_and()
    ensures
        placeholders(" AND "@) == 0,
{
    reveal_strlit(" AND ");
    reveal_with_fuel(placeholders_from, 45);
    assert(placeholders_from(" AND "@, 0) == 0);
}

proof fn lemma_fragment_where()
    ensures
        placeholders(" WHERE "@) == 0,
{
    reveal_strlit(" WHERE ");
    reveal_with_fuel(placeholders_from, 45);
    assert(placeholders_from(" WHERE "@, 0) == 0);
}

/// The placeholders of the fixed SQL fragments.
proof fn lemma_fragment_placeholders()
    ensures
        placeholders("connection_id = ?"@) == 1,
        placeholders("(connection_id = '' AND connection_name = ?)"@) == 1,
        placeholders("(connection_id = ? AND database = ?)"@) == 2,
        placeholders("(connection_id = '' AND connection_name = ? AND database = ?)"@) == 2,
        placeholders("activity_kind = ?"@) == 1,
        placeholders("success = ?"@) == 1,
        placeholders("julianday(executed_at) >= julianday(?)"@) == 1,
        placeholders("julianday(executed_at) <= julianday(?)"@) == 1,
        placeholders("(sql_text LIKE ? ESCAPE '\\' COLLATE NOCASE OR connection_name LIKE ? ESCAPE '\\' COLLATE NOCASE OR database LIKE ? ESCAPE '\\' COLLATE NOCASE OR operation LIKE ? ESCAPE '\\' COLLATE NOCASE OR target LIKE ? ESCAPE '\\' COLLATE NOCASE)"@) == 5,
        placeholders("(executed_at < ? OR (executed_at = ? AND id < ?))"@) == 3,
        placeholders("("@) == 0,
        placeholders(")"@) == 0,
        placeholders(" OR "@) == 0,
        placeholders(" AND "@) == 0,
        placeholders(" WHERE "@) == 0,
{
    lemma_fragment_connection_id();
    lemma_fragment_connection_name();
    lemma_fragment_database_by_id();
    lemma_fragment_database_by_name();
    lemma_fragment_activity_kind();
    lemma_fragment_success();
    lemma_fragment_started_at();
    lemma_fragment_ended_at();
    lemma_fragment_search();
    lemma_fragment_cursor();
    lemma_fragment_open_paren();
    lemma_fragment_close_paren();
    lemma_fragment_or();
    lemma_fragment_and();
    lemma_fragment_where();
}

/// An alternative binds one value per placeholder of its SQL.
pub open spec fn balanced(a: Alternative) -> bool {
    placeholders(a.0) == a.1.len()
}

/// Every alternative of a list is balanced.
pub open spec fn all_balanced(alts: Seq<Alternative>) -> bool {
    forall|i: int| 0 <= i < alts.len() ==> balanced(#[trigger] alts[i])
}

proof fn lemma_all_balanced_concat(a: Seq<Alternative>, b: Seq<Alternative>)
    requires
        all_balanced(a),
        all_balanced(b),
    ensures
        all_balanced(a + b),
{
    assert forall|i: int| 0 <= i < (a + b).len() implies balanced(#[trigger] (a + b)[i]) by {
        if i < a.len() {
            assert((a + b)[i] == a[i]);
        } else {
            assert((a + b)[i] == b[i - a.len()]);
        }
    }
}

/// Joining balanced alternatives with a separator without placeholders
/// keeps one value per placeholder.
proof fn lemma_join_balanced(alts: Seq<Alternative>, sep: Seq<char>)
    requires
        all_balanced(alts),
        placeholders(sep) == 0,
    ensures
        placeholders(join(alternative_sql(alts), sep)) == alternative_values(alts).len(),
    decreases alts.len(),
{
    let parts = alternative_sql(alts);
    if alts.len() == 0 {
    } else if alts.len() == 1 {
        assert(alternative_values(alts.drop_last()) =~= Seq::<SqlValueView>::empty());
        assert(balanced(alts[0]));
    } else {
        let rest = alts.drop_last();
        assert(all_balanced(rest)) by {
            assert forall|i: int| 0 <= i < rest.len() implies balanced(#[trigger] rest[i]) by {
                assert(rest[i] == alts[i]);
            }
        }
        lemma_join_balanced(rest, sep);
        assert(parts.drop_last() =~= alternative_sql(rest));
        assert(balanced(alts[alts.len() - 1]));
        lemma_placeholders_concat(join(parts.drop_last(), sep), sep);
        lemma_placeholders_concat(join(parts.drop_last(), sep) + sep, parts.last());
    }
}

proof fn lemma_connection_alternatives_balanced(cs: Seq<HistoryConnectionFilter>, dbs: Seq<HistoryDatabaseFilter>)
    ensures
        all_balanced(connection_alternatives(cs, dbs)),
    decreases cs.len(),
{
    lemma_fragment_placeholders();
    if cs.len() > 0 {
        lemma_connection_alternatives_balanced(cs.drop_last(), dbs);
        let tail = if narrowed(cs.last(), dbs) {
            Seq::<Alternative>::empty()
        } else {
            match connection_alternative(cs.last()) {
                Some(a) => seq![a],
                None => Seq::empty(),
            }
        };
        assert(all_balanced(tail));
        lemma_all_balanced_concat(connection_alternatives(cs.drop_last(), dbs), tail);
    }
}

proof fn lemma_database_alternatives_balanced(dbs: Seq<HistoryDatabaseFilter>)
    ensures
        all_balanced(database_alternatives(dbs)),
    decreases dbs.len(),
{
    lemma_fragment_placeholders();
    if dbs.len() > 0 {
        lemma_database_alternatives_balanced(dbs.drop_last());
        let tail = match database_alternative(dbs.last()) {
            Some(a) => seq![a],
            None => Seq::<Alternative>::empty(),
        };
        assert(all_balanced(tail));
        lemma_all_balanced_concat(database_alternatives(dbs.drop_last()), tail);
    }
}

proof fn lemma_search_clauses_balanced(req: HistorySearchRequest)
    ensures
        all_balanced(search_clauses(req)),
{
    lemma_fragment_placeholders();
    let alts = connection_alternatives(req.connections@, req.databases@) + database_alternatives(req.databases@);
    lemma_connection_alternatives_balanced(req.connections@, req.databases@);
    lemma_database_alternatives_balanced(req.databases@);
    lemma_all_balanced_concat(connection_alternatives(req.connections@, req.databases@), database_alternatives(req.databases@));
    if alts.len() > 0 {
        lemma_join_balanced(alts, " OR "@);
        lemma_placeholders_concat("("@, join(alternative_sql(alts), " OR "@));
        lemma_placeholders_concat("("@ + join(alternative_sql(alts), " OR "@), ")"@);
    }
    let sc = scope_clause(req);
    assert(all_balanced(sc));
    let k = text_clause(req.activity_kind, "activity_kind = ?"@);
    let su = match req.success {
        Some(b) => seq![("success = ?"@, seq![SqlValueView::Integer(if b { 1i64 } else { 0i64 })])],
        None => Seq::<Alternative>::empty(),
    };
    let st = text_clause(req.started_at, "julianday(executed_at) >= julianday(?)"@);
    let en = text_clause(req.ended_at, "julianday(executed_at) <= julianday(?)"@);
    let se = search_clause(req.search_text@);
    assert(all_balanced(k));
    assert(all_balanced(su));
    assert(all_balanced(st));
    assert(all_balanced(en));
    assert(all_balanced(se));
    lemma_all_balanced_concat(sc, k);
    lemma_all_balanced_concat(sc + k, su);
    lemma_all_balanced_concat(sc + k + su, st);
    lemma_all_balanced_concat(sc + k + su + st, en);
    lemma_all_balanced_concat(sc + k + su + st + en, se);
}

/// Every `?` of a history search's `WHERE` part has its own bound value:
/// the SQL holds exactly as many placeholders as values are bound.
pub proof fn lemma_history_search_placeholders_match(req: HistorySearchRequest)
    ensures
        placeholders(where_sql(search_clauses(req))) == alternative_values(search_clauses(req)).len(),
{
    lemma_fragment_placeholders();
    let clauses = search_clauses(req);
    lemma_search_clauses_balanced(req);
    if clauses.len() > 0 {
        lemma_join_balanced(clauses, " AND "@);
        lemma_placeholders_concat(" WHERE "@, join(alternative_sql(clauses), " AND "@));
    } else {
        assert(where_sql(clauses) =~= Seq::<char>::empty());
    }
}

/// A page after a cursor binds one value per placeholder too: narrowing a
/// history search to the rows after a cursor adds three placeholders, and
/// the page binds the cursor's three values.
pub proof fn lemma_history_page_placeholders_match(req: HistorySearchRequest)
    ensures
        placeholders(after_cursor_sql(where_sql(search_clauses(req)))) == alternative_values(search_clauses(req)).len()
            + 3,
{
    lemma_history_search_placeholders_match(req);
    lemma_fragment_placeholders();
    let p = where_sql(search_clauses(req));
    let tail = "(executed_at < ? OR (executed_at = ? AND id < ?))"@;
    if p.len() == 0 {
        lemma_placeholders_concat(" WHERE "@, tail);
    } else {
        lemma_placeholders_concat(p, " AND "@);
        lemma_placeholders_concat(p + " AND "@, tail);
    }
}

} // verus!
