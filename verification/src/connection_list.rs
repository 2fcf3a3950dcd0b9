//! Saving the whole list of connections: which stored rows stay, which
//! connections' secrets stay, and whether the save writes any secret.

use vstd::prelude::*;
use crate::text::{chars_of, str_eq, string_views};
use crate::json::{json_object_get, object_get, JsonValue};
use crate::secret_writes::{layer_has_secret, ConnectionSecretFields, TransportLayerSecrets};

verus! {

/// Whether character `c` matches pattern character `p` as SQLite's `LIKE`
/// compares them: `_` matches any character, and ASCII letters match in
/// either case.
pub open spec fn like_char(c: char, p: char) -> bool {
    ||| p == '_'
    ||| c == p
    ||| ('a' <= p <= 'z' && c as u32 == p as u32 - 32)
    ||| ('A' <= p <= 'Z' && c as u32 == p as u32 + 32)
}

/// Whether `s` matches the `LIKE` pattern `prefix` followed by `%`.
pub open spec fn like_prefix(s: Seq<char>, prefix: Seq<char>) -> bool {
    prefix.len() <= s.len() && forall|i: int| 0 <= i < prefix.len() ==> like_char(#[trigger] s[i], prefix[i])
}

fn like_char_exec(c: char, p: char) -> (r: bool)
    ensures
        r == like_char(c, p),
{
    let cu = c as u32;
    let pu = p as u32;
    p == '_' || c == p || ('a' <= p && p <= 'z' && cu + 32 == pu) || ('A' <= p && p <= 'Z' && cu == pu + 32)
}

/// Whether `s` matches the `LIKE` pattern `prefix` followed by `%`.
pub fn matches_like_prefix(s: &str, prefix: &str) -> (r: bool)
    ensures
        r == like_prefix(s@, prefix@),
{
    let sc = chars_of(s);
    let pc = chars_of(prefix);
    if pc.len() > sc.len() {
        return false;
    }
    let mut i: usize = 0;
    while i < pc.len()
        invariant
            i <= pc@.len() <= sc@.len(),
            sc@ == s@,
            pc@ == prefix@,
            forall|j: int| 0 <= j < i ==> like_char(#[trigger] sc@[j], pc@[j]),
        decreases pc.len() - i,
    {
        if !like_char_exec(sc[i], pc[i]) {
            return false;
        }
        i = i + 1;
    }
    true
}

/// Whether the secrets kept under `owner` survive saving a connection list
/// whose retained connection ids are `retained`: those of retained
/// connections, of AI configurations and tunnel profiles, and the global
/// namespace.
pub open spec fn secret_owner_kept(owner: Seq<char>, retained: Seq<Seq<char>>) -> bool {
    ||| retained.contains(owner)
    ||| like_prefix(owner, "ai_config."@)
    ||| like_prefix(owner, "tunnel_profile."@)
    ||| owner == "dbx.global"@
}

fn contains_str(list: &[String], s: &str) -> (r: bool)
    ensures
        r == string_views(list@).contains(s@),
{
    let mut i: usize = 0;
    while i < list.len()
        invariant
            i <= list.len(),
            forall|j: int| 0 <= j < i ==> (#[trigger] list@[j])@ != s@,
        decreases list.len() - i,
    {
        if str_eq(list[i].as_str(), s) {
            assert(string_views(list@)[i as int] == s@);
            return true;
        }
        i = i + 1;
    }
    assert forall|j: int| 0 <= j < string_views(list@).len() implies string_views(list@)[j] != s@ by {
        assert(string_views(list@)[j] == list@[j]@);
    }
    false
}

/// Whether the secrets kept under `owner` survive a list save that retains
/// the connections `retained`.
pub fn connection_secret_owner_kept(owner: &str, retained: &[String]) -> (r: bool)
    ensures
        r == secret_owner_kept(owner@, string_views(retained@)),
{
    contains_str(retained, owner) || matches_like_prefix(owner, "ai_config.") || matches_like_prefix(
        owner,
        "tunnel_profile.",
    ) || str_eq(owner, "dbx.global")
}

/// The stored rows a list save keeps, in order: the unreadable ones whose
/// id the new list does not reuse. Rows are (id, readable).
pub open spec fn preserved_rows(rows: Seq<(String, bool)>, incoming: Seq<Seq<char>>) -> Seq<Seq<char>>
    decreases rows.len(),
{
    if rows.len() == 0 {
        Seq::empty()
    } else {
        let rest = preserved_rows(rows.drop_last(), incoming);
        let (id, readable) = rows.last();
        if !readable && !incoming.contains(id@) {
            rest.push(id@)
        } else {
            rest
        }
    }
}

/// What saving a connection list keeps.
pub struct ConnectionListSave {
    /// The unreadable rows kept as they are stored.
    pub preserved: Vec<String>,
    /// The connections whose secrets stay: the preserved rows, then the
    /// saved list.
    pub retained: Vec<String>,
}

/// Saving the connection list `incoming` (their ids) over the stored rows
/// `rows`, each (id, readable): every row is replaced, except unreadable
/// rows whose id the list does not reuse, which are kept; the secrets of
/// the kept rows and of the saved list are retained.
pub fn plan_connection_list_save(rows: &[(String, bool)], incoming: &[String]) -> (r: ConnectionListSave)
    ensures
        string_views(r.preserved@) == preserved_rows(rows@, string_views(incoming@)),
        string_views(r.retained@) == preserved_rows(rows@, string_views(incoming@)) + string_views(incoming@),
{
    let ghost inc = string_views(incoming@);
    let mut preserved: Vec<String> = Vec::new();
    let mut i: usize = 0;
    assert(rows@.take(0) =~= Seq::<(String, bool)>::empty());
    assert(string_views(preserved@) =~= Seq::<Seq<char>>::empty());
    while i < rows.len()
        invariant
            i <= rows.len(),
            inc == string_views(incoming@),
            string_views(preserved@) == preserved_rows(rows@.take(i as int), inc),
        decreases rows.len() - i,
    {
        assert(rows@.take(i + 1).drop_last() =~= rows@.take(i as int));
        assert(rows@.take(i + 1).last() == rows@[i as int]);
        let (id, readable) = &rows[i];
        if !*readable && !contains_str(incoming, id.as_str()) {
            let ghost before = string_views(preserved@);
            preserved.push(id.clone());
            assert(string_views(preserved@) =~= before.push(id@));
        }
        i = i + 1;
    }
    assert(rows@.take(rows.len() as int) =~= rows@);
    let mut retained: Vec<String> = Vec::new();
    let mut k: usize = 0;
    while k < preserved.len()
        invariant
            k <= preserved.len(),
            string_views(retained@) == string_views(preserved@).take(k as int),
        decreases preserved.len() - k,
    {
        let ghost before = string_views(retained@);
        retained.push(preserved[k].clone());
        assert(string_views(retained@) =~= before.push(preserved@[k as int]@));
        k = k + 1;
        assert(string_views(retained@) =~= string_views(preserved@).take(k as int));
    }
    let mut k: usize = 0;
    while k < incoming.len()
        invariant
            k <= incoming.len(),
            string_views(retained@) == string_views(preserved@) + string_views(incoming@).take(k as int),
        decreases incoming.len() - k,
    {
        let ghost before = string_views(retained@);
        retained.push(incoming[k].clone());
        assert(string_views(retained@) =~= before.push(incoming@[k as int]@));
        k = k + 1;
        assert(string_views(retained@) =~= string_views(preserved@) + string_views(incoming@).take(k as int));
    }
    assert(string_views(incoming@).take(incoming.len() as int) =~= string_views(incoming@));
    assert(string_views(preserved@).take(preserved.len() as int) =~= string_views(preserved@));
    ConnectionListSave { preserved, retained }
}

proof fn lemma_preserved_rows_contains(rows: Seq<(String, bool)>, incoming: Seq<Seq<char>>, x: Seq<char>)
    ensures
        preserved_rows(rows, incoming).contains(x) <==> (!incoming.contains(x) && exists|i: int|
            0 <= i < rows.len() && (#[trigger] rows[i]).0@ == x && !rows[i].1),
    decreases rows.len(),
{
    if rows.len() > 0 {
        let init = rows.drop_last();
        lemma_preserved_rows_contains(init, incoming, x);
        let rest = preserved_rows(init, incoming);
        let (id, readable) = rows.last();
        if exists|i: int| 0 <= i < rows.len() && (#[trigger] rows[i]).0@ == x && !rows[i].1 {
            let i = choose|i: int| 0 <= i < rows.len() && (#[trigger] rows[i]).0@ == x && !rows[i].1;
            if i < rows.len() - 1 {
                assert(init[i] == rows[i]);
            }
        }
        if exists|i: int| 0 <= i < init.len() && (#[trigger] init[i]).0@ == x && !init[i].1 {
            let i = choose|i: int| 0 <= i < init.len() && (#[trigger] init[i]).0@ == x && !init[i].1;
            assert(rows[i] == init[i]);
        }
        if !readable && !incoming.contains(id@) {
            assert(rest.push(id@).contains(x) <==> (rest.contains(x) || x == id@)) by {
                if rest.push(id@).contains(x) {
                    let j = choose|j: int| 0 <= j < rest.push(id@).len() && rest.push(id@)[j] == x;
                    if j < rest.len() {
                        assert(rest[j] == x);
                    }
                }
                if rest.contains(x) {
                    let j = choose|j: int| 0 <= j < rest.len() && rest[j] == x;
                    assert(rest.push(id@)[j] == x);
                }
                if x == id@ {
                    assert(rest.push(id@)[rest.len() as int] == x);
                }
            }
            if x == id@ {
                assert(rows[rows.len() - 1].0@ == x);
            }
        }
    }
}

/// Saving a connection list over stored rows with distinct ids: a row the
/// list leaves out is kept, with its secrets, where it cannot be read; where
/// it can be read, it is deleted, and so are its secrets unless they belong
/// to an AI configuration, a tunnel profile or the global namespace.
pub proof fn lemma_list_save_keeps_unreadable(
    rows: Seq<(String, bool)>,
    incoming: Seq<String>,
    preserved: Seq<Seq<char>>,
    retained: Seq<Seq<char>>,
    i: int,
)
    requires
        forall|a: int, b: int| 0 <= a < b < rows.len() ==> (#[trigger] rows[a]).0@ != (#[trigger] rows[b]).0@,
        preserved == preserved_rows(rows, string_views(incoming)),
        retained == preserved + string_views(incoming),
        0 <= i < rows.len(),
        !string_views(incoming).contains(rows[i].0@),
    ensures
        !rows[i].1 ==> preserved.contains(rows[i].0@) && secret_owner_kept(rows[i].0@, retained),
        rows[i].1 ==> !retained.contains(rows[i].0@) && (secret_owner_kept(rows[i].0@, retained) <==> (like_prefix(
            rows[i].0@,
            "ai_config."@,
        ) || like_prefix(rows[i].0@, "tunnel_profile."@) || rows[i].0@ == "dbx.global"@)),
{
    let x = rows[i].0@;
    let inc = string_views(incoming);
    lemma_preserved_rows_contains(rows, inc, x);
    if !rows[i].1 {
        let j = choose|j: int| 0 <= j < preserved.len() && preserved[j] == x;
        assert(retained[j] == x);
    } else {
        if preserved.contains(x) {
            let k = choose|k: int| 0 <= k < rows.len() && (#[trigger] rows[k]).0@ == x && !rows[k].1;
            assert(k != i);
            if k < i {
                assert(rows[k].0@ != rows[i].0@);
            } else {
                assert(rows[i].0@ != rows[k].0@);
            }
        }
        if retained.contains(x) {
            let j = choose|j: int| 0 <= j < retained.len() && retained[j] == x;
            if j < preserved.len() {
                assert(preserved[j] == x);
            } else {
                assert(inc[j - preserved.len()] == x);
            }
        }
    }
}

/// Saving a connection list retains every connection of the list, with the
/// secrets kept under its id.
pub proof fn lemma_list_save_retains_saved(
    rows: Seq<(String, bool)>,
    incoming: Seq<String>,
    retained: Seq<Seq<char>>,
    i: int,
)
    requires
        retained == preserved_rows(rows, string_views(incoming)) + string_views(incoming),
        0 <= i < incoming.len(),
    ensures
        retained.contains(incoming[i]@),
        secret_owner_kept(incoming[i]@, retained),
{
    let p = preserved_rows(rows, string_views(incoming));
    assert(retained[p.len() + i] == string_views(incoming)[i]);
}

/// Whether a JSON value counts as a secret that is present: a non-empty
/// string or any value but `null`.
pub open spec fn nonempty_json(v: JsonValue) -> bool {
    match v {
        JsonValue::Text(t) => t@.len() > 0,
        JsonValue::Null => false,
        _ => true,
    }
}

/// The value of the first of `keys` that the object `entries` holds.
pub open spec fn first_present(entries: Seq<(String, JsonValue)>, keys: Seq<Seq<char>>) -> Option<JsonValue>
    decreases keys.len(),
{
    if keys.len() == 0 {
        None
    } else {
        match object_get(entries, keys[0]) {
            Some(v) => Some(v),
            None => first_present(entries, keys.subrange(1, keys.len() as int)),
        }
    }
}

/// The member `key` of `v` is an object holding `field` with a present
/// secret.
pub open spec fn nested_secret(v: Seq<(String, JsonValue)>, key: Seq<char>, field: Seq<char>) -> bool {
    object_get(v, key) matches Some(JsonValue::Object(o)) && object_get(o@, field) matches Some(x) && nonempty_json(x)
}

/// Whether a connection's driver options hold a credential inline: the
/// first of `token`, `password`, `value`, `clientSecret` in `auth`, the
/// token-signing key, the Nacos console password, or a Cassandra TLS store
/// password.
pub open spec fn external_has_secret(external: Option<JsonValue>) -> bool {
    match external {
        Some(JsonValue::Object(e)) => {
            ||| (object_get(e@, "auth"@) matches Some(JsonValue::Object(a)) && first_present(
                a@,
                seq!["token"@, "password"@, "value"@, "clientSecret"@],
            ) matches Some(x) && nonempty_json(x))
            ||| nested_secret(e@, "tokenSigning"@, "key"@)
            ||| nested_secret(e@, "rnacosConsoleAuth"@, "password"@)
            ||| nested_secret(e@, "tls"@, "truststore_password"@)
            ||| nested_secret(e@, "tls"@, "keystore_password"@)
        },
        _ => false,
    }
}

/// Whether a connection carries any credential in its configuration, so
/// that saving it writes a secret and needs the encryption key.
pub open spec fn has_inline_secrets(
    f: ConnectionSecretFields,
    plugin: Seq<(String, String)>,
    external: Option<JsonValue>,
) -> bool {
    ||| f.password@.len() > 0
    ||| (f.url_params matches Some(u) && u@.len() > 0)
    ||| (f.init_script matches Some(u) && u@.len() > 0)
    ||| (f.connection_string matches Some(u) && u@.len() > 0)
    ||| f.redis_sentinel_password@.len() > 0
    ||| (exists|i: int| 0 <= i < plugin.len() && (#[trigger] plugin[i]).1@.len() > 0)
    ||| (exists|i: int| 0 <= i < f.transport_layers@.len() && layer_has_secret(#[trigger] f.transport_layers@[i]))
    ||| external_has_secret(external)
}

fn nonempty_opt(o: &Option<String>) -> (r: bool)
    ensures
        r == (*o matches Some(u) && u@.len() > 0),
{
    match o {
        Some(u) => u.as_str().unicode_len() > 0,
        None => false,
    }
}

fn nonempty_json_exec(v: &JsonValue) -> (r: bool)
    ensures
        r == nonempty_json(*v),
{
    match v {
        JsonValue::Text(t) => t.as_str().unicode_len() > 0,
        JsonValue::Null => false,
        _ => true,
    }
}

fn nested_secret_exec(v: &[(String, JsonValue)], key: &str, field: &str) -> (r: bool)
    ensures
        r == nested_secret(v@, key@, field@),
{
    match json_object_get(v, key) {
        Some(JsonValue::Object(o)) => match json_object_get(o.as_slice(), field) {
            Some(x) => nonempty_json_exec(x),
            None => false,
        },
        _ => false,
    }
}

fn auth_secret_exec(a: &[(String, JsonValue)]) -> (r: bool)
    ensures
        r == (first_present(a@, seq!["token"@, "password"@, "value"@, "clientSecret"@]) matches Some(x)
            && nonempty_json(x)),
{
    reveal_with_fuel(first_present, 5);
    let ghost keys = seq!["token"@, "password"@, "value"@, "clientSecret"@];
    assert(keys.subrange(1, 4) =~= seq!["password"@, "value"@, "clientSecret"@]);
    assert(keys.subrange(1, 4).subrange(1, 3) =~= seq!["value"@, "clientSecret"@]);
    assert(keys.subrange(1, 4).subrange(1, 3).subrange(1, 2) =~= seq!["clientSecret"@]);
    assert(seq!["clientSecret"@].subrange(1, 1) =~= Seq::<Seq<char>>::empty());
    if let Some(x) = json_object_get(a, "token") {
        return nonempty_json_exec(x);
    }
    if let Some(x) = json_object_get(a, "password") {
        return nonempty_json_exec(x);
    }
    if let Some(x) = json_object_get(a, "value") {
        return nonempty_json_exec(x);
    }
    if let Some(x) = json_object_get(a, "clientSecret") {
        return nonempty_json_exec(x);
    }
    false
}

/// Whether a connection's driver options hold a credential inline.
pub fn external_config_has_secret(external: &Option<JsonValue>) -> (r: bool)
    ensures
        r == external_has_secret(*external),
{
    match external {
        Some(JsonValue::Object(e)) => {
            let es = e.as_slice();
            let auth = match json_object_get(es, "auth") {
                Some(JsonValue::Object(a)) => auth_secret_exec(a.as_slice()),
                _ => false,
            };
            auth || nested_secret_exec(es, "tokenSigning", "key") || nested_secret_exec(
                es,
                "rnacosConsoleAuth",
                "password",
            ) || nested_secret_exec(es, "tls", "truststore_password") || nested_secret_exec(
                es,
                "tls",
                "keystore_password",
            )
        },
        _ => false,
    }
}

/// Whether a connection carries any credential in its configuration: its
/// credential fields, its plugin secrets (name, value) and its driver
/// options `external`.
pub fn connection_has_inline_secrets(
    fields: &ConnectionSecretFields,
    plugin: &[(String, String)],
    external: &Option<JsonValue>,
) -> (r: bool)
    ensures
        r == has_inline_secrets(*fields, plugin@, *external),
{
    if fields.password.as_str().unicode_len() > 0 || nonempty_opt(&fields.url_params) || nonempty_opt(
        &fields.init_script,
    ) || nonempty_opt(&fields.connection_string) || fields.redis_sentinel_password.as_str().unicode_len() > 0 {
        return true;
    }
    let mut i: usize = 0;
    while i < plugin.len()
        invariant
            i <= plugin.len(),
            forall|j: int| 0 <= j < i ==> (#[trigger] plugin@[j]).1@.len() == 0,
        decreases plugin.len() - i,
    {
        if plugin[i].1.as_str().unicode_len() > 0 {
            assert((plugin@[i as int]).1@.len() > 0);
            return true;
        }
        i = i + 1;
    }
    let layers = &fields.transport_layers;
    let mut k: usize = 0;
    while k < layers.len()
        invariant
            k <= layers.len(),
            layers@ == fields.transport_layers@,
            forall|j: int| 0 <= j < k ==> !layer_has_secret(#[trigger] layers@[j]),
        decreases layers.len() - k,
    {
        let has = match &layers[k] {
            TransportLayerSecrets::Ssh { password, key_passphrase, .. } => password.as_str().unicode_len() > 0
                || key_passphrase.as_str().unicode_len() > 0,
            TransportLayerSecrets::Proxy { password, .. } => password.as_str().unicode_len() > 0,
            TransportLayerSecrets::HttpTunnel { token, .. } => token.as_str().unicode_len() > 0,
        };
        if has {
            assert(layer_has_secret(layers@[k as int]));
            return true;
        }
        k = k + 1;
    }
    external_config_has_secret(external)
}

/// A list save keeps the secrets of every retained connection, of every
/// AI configuration and tunnel profile, and of the global namespace.
pub proof fn lemma_shared_secrets_survive(retained: Seq<Seq<char>>, owner: Seq<char>, id: Seq<char>)
    ensures
        retained.contains(owner) ==> secret_owner_kept(owner, retained),
        secret_owner_kept("ai_config."@ + id, retained),
        secret_owner_kept("tunnel_profile."@ + id, retained),
        secret_owner_kept("dbx.global"@, retained),
{
    reveal_strlit("ai_config.");
    reveal_strlit("tunnel_profile.");
    let a = "ai_config."@ + id;
    let t = "tunnel_profile."@ + id;
    assert forall|i: int| 0 <= i < "ai_config."@.len() implies like_char(#[trigger] a[i], "ai_config."@[i]) by {}
    assert forall|i: int| 0 <= i < "tunnel_profile."@.len() implies like_char(#[trigger] t[i], "tunnel_profile."@[i]) by {}
}

/// A list save drops the secrets of a connection it does not retain, unless
/// they sit in a shared namespace: an owner shorter than both namespace
/// prefixes and other than the global namespace loses them.
pub proof fn lemma_dropped_secrets_go(retained: Seq<Seq<char>>, owner: Seq<char>)
    requires
        !retained.contains(owner),
        owner.len() < 10,
        owner != "dbx.global"@,
    ensures
        !secret_owner_kept(owner, retained),
{
    reveal_strlit("ai_config.");
    reveal_strlit("tunnel_profile.");
}

/// A connection carries inline credentials where any credential field,
/// plugin secret or transport-layer secret is non-empty; one whose fields,
/// plugin secrets and layers are all blank and that has no driver options
/// carries none.
pub proof fn lemma_inline_secrets_found(
    f: ConnectionSecretFields,
    plugin: Seq<(String, String)>,
    external: Option<JsonValue>,
    i: int,
    j: int,
)
    ensures
        f.password@.len() > 0 ==> has_inline_secrets(f, plugin, external),
        f.redis_sentinel_password@.len() > 0 ==> has_inline_secrets(f, plugin, external),
        (f.url_params matches Some(u) && u@.len() > 0) ==> has_inline_secrets(f, plugin, external),
        (f.connection_string matches Some(u) && u@.len() > 0) ==> has_inline_secrets(f, plugin, external),
        (f.init_script matches Some(u) && u@.len() > 0) ==> has_inline_secrets(f, plugin, external),
        0 <= i < plugin.len() && plugin[i].1@.len() > 0 ==> has_inline_secrets(f, plugin, external),
        0 <= j < f.transport_layers@.len() && layer_has_secret(f.transport_layers@[j]) ==> has_inline_secrets(
            f,
            plugin,
            external,
        ),
        ({
            &&& f.password@.len() == 0 && f.redis_sentinel_password@.len() == 0
            &&& !(f.url_params matches Some(u) && u@.len() > 0)
            &&& !(f.connection_string matches Some(u) && u@.len() > 0)
            &&& !(f.init_script matches Some(u) && u@.len() > 0)
            &&& forall|k: int| 0 <= k < plugin.len() ==> (#[trigger] plugin[k]).1@.len() == 0
            &&& forall|k: int| 0 <= k < f.transport_layers@.len() ==> !layer_has_secret(
                #[trigger] f.transport_layers@[k],
            )
            &&& external is None
        }) ==> !has_inline_secrets(f, plugin, external),
{
}

} // verus!
