//! Loading a saved connection: its credentials come back from the encrypted
//! secret store, and plugin secrets still held inline in the configuration
//! are moved into the store. A model of the store shows that what saving a
//! connection writes, loading reads back.

use vstd::prelude::*;
use crate::text::str_eq;
use crate::migration::opt_view;
use crate::secrets::{layer_secret_lookup, transport_layer_secret_lookup, LayerSecret};
use crate::secret_writes::{
    connection_secret_writes, empty_string, fields_sanitized, layer_scrubbed, layers_writes, layer_writes, push_write,
    lemma_layer_writes_keys, optional_write,
    write_views, ConnectionSecretFields, SecretWrite, SecretWriteView, TransportLayerSecrets,
};
use crate::secrets::{ssh_segment, SSH_TUNNEL_SECRET_PREFIX, TRANSPORT_LAYER_SECRET_PREFIX};

verus! {

/// The value stored under `key` among a connection's readable secrets,
/// given as (key, value) pairs; the first pair with that key wins.
pub open spec fn stored_secret(stored: Seq<(String, String)>, key: Seq<char>) -> Option<Seq<char>>
    decreases stored.len(),
{
    if stored.len() == 0 {
        None
    } else if stored[0].0@ == key {
        Some(stored[0].1@)
    } else {
        stored_secret(stored.subrange(1, stored.len() as int), key)
    }
}

/// The value of the first of `keys` that holds one.
pub open spec fn first_stored_secret(stored: Seq<(String, String)>, keys: Seq<Seq<char>>) -> Option<Seq<char>>
    decreases keys.len(),
{
    if keys.len() == 0 {
        None
    } else {
        match stored_secret(stored, keys[0]) {
            Some(v) => Some(v),
            None => first_stored_secret(stored, keys.subrange(1, keys.len() as int)),
        }
    }
}

/// A found value, or the empty text.
pub open spec fn or_empty(o: Option<Seq<char>>) -> Seq<char> {
    match o {
        Some(v) => v,
        None => Seq::empty(),
    }
}

/// The secret of a transport layer after loading.
pub open spec fn loaded_layer_secret(
    stored: Seq<(String, String)>,
    secret: LayerSecret,
    index: usize,
    layer_id: Seq<char>,
) -> Seq<char> {
    or_empty(first_stored_secret(stored, layer_secret_lookup(secret, index, layer_id)))
}

/// The layer `after` is the layer `before`, at `index`, with its secrets
/// loaded from the store: same kind and id, each secret from its keys.
pub open spec fn layer_loaded(
    stored: Seq<(String, String)>,
    index: usize,
    before: TransportLayerSecrets,
    after: TransportLayerSecrets,
) -> bool {
    match before {
        TransportLayerSecrets::Ssh { id, .. } => after matches TransportLayerSecrets::Ssh {
            id: id2,
            password,
            key_passphrase,
        } && id2@ == id@ && password@ == loaded_layer_secret(stored, LayerSecret::SshPassword, index, id@)
            && key_passphrase@ == loaded_layer_secret(stored, LayerSecret::SshKeyPassphrase, index, id@),
        TransportLayerSecrets::Proxy { id, .. } => after matches TransportLayerSecrets::Proxy { id: id2, password }
            && id2@ == id@ && password@ == loaded_layer_secret(stored, LayerSecret::ProxyPassword, index, id@),
        TransportLayerSecrets::HttpTunnel { id, .. } => after matches TransportLayerSecrets::HttpTunnel {
            id: id2,
            token,
        } && id2@ == id@ && token@ == loaded_layer_secret(stored, LayerSecret::HttpTunnelToken, index, id@),
    }
}

/// The credentials `after` are those of `before` loaded from the store:
/// the password, Sentinel password, connection string and init script come
/// from their keys alone; the URL parameters from their key, else from the
/// configuration; every layer as `layer_loaded` says.
pub open spec fn fields_loaded(
    stored: Seq<(String, String)>,
    before: ConnectionSecretFields,
    after: ConnectionSecretFields,
) -> bool {
    &&& after.save_password == before.save_password
    &&& after.password@ == or_empty(stored_secret(stored, "password"@))
    &&& opt_view(after.url_params) == match stored_secret(stored, "url_params"@) {
        Some(v) => Some(v),
        None => opt_view(before.url_params),
    }
    &&& after.transport_layers@.len() == before.transport_layers@.len()
    &&& forall|i: int|
        0 <= i < before.transport_layers@.len() ==> layer_loaded(
            stored,
            i as usize,
            #[trigger] before.transport_layers@[i],
            after.transport_layers@[i],
        )
    &&& after.redis_sentinel_password@ == or_empty(stored_secret(stored, "redis_sentinel_password"@))
    &&& opt_view(after.connection_string) == stored_secret(stored, "connection_string"@)
    &&& opt_view(after.init_script) == stored_secret(stored, "init_script"@)
}

/// The plugin secrets a load starts from: those the store holds, if any,
/// else those inline in the configuration.
pub open spec fn plugin_start(inline: Seq<(String, String)>, stored_plugin: Seq<(String, String)>) -> Seq<
    (String, String),
> {
    if stored_plugin.len() > 0 {
        stored_plugin
    } else {
        inline
    }
}

/// A plugin secret after loading: an empty one is filled from the store
/// under `prefix` and its name, where the store holds it.
pub open spec fn loaded_plugin_value(stored: Seq<(String, String)>, prefix: Seq<char>, entry: (String, String)) -> Seq<
    char,
> {
    if entry.1@.len() == 0 {
        or_empty(stored_secret(stored, prefix + entry.0@))
    } else {
        entry.1@
    }
}

/// The writes that move non-empty plugin secrets into the store, in order.
pub open spec fn plugin_rewrites(prefix: Seq<char>, entries: Seq<(String, String)>) -> Seq<SecretWriteView>
    decreases entries.len(),
{
    if entries.len() == 0 {
        Seq::empty()
    } else {
        let rest = plugin_rewrites(prefix, entries.drop_last());
        let (k, v) = entries.last();
        if v@.len() > 0 {
            rest.push(SecretWriteView::Put(prefix + k@, v@))
        } else {
            rest
        }
    }
}

/// What loading one saved connection yields.
pub struct ConnectionLoadPlan {
    /// The credentials, loaded from the store.
    pub fields: ConnectionSecretFields,
    /// The plugin secrets, by name, loaded from the store.
    pub plugin_secrets: Vec<(String, String)>,
    /// The writes that move inline plugin secrets into the store.
    pub writes: Vec<SecretWrite>,
    /// Whether the stored configuration must be rewritten without its
    /// plugin secrets.
    pub rewrite_config: bool,
}

/// The value stored under `key`, if any.
pub fn find_stored_secret(stored: &[(String, String)], key: &str) -> (r: Option<String>)
    ensures
        opt_view(r) == stored_secret(stored@, key@),
{
    let mut i: usize = 0;
    assert(stored@.subrange(0, stored@.len() as int) =~= stored@);
    while i < stored.len()
        invariant
            i <= stored.len(),
            stored_secret(stored@, key@) == stored_secret(stored@.subrange(i as int, stored@.len() as int), key@),
        decreases stored.len() - i,
    {
        let ghost rest = stored@.subrange(i as int, stored@.len() as int);
        assert(rest.subrange(1, rest.len() as int) =~= stored@.subrange(i + 1, stored@.len() as int));
        assert(rest[0] == stored@[i as int]);
        if str_eq(stored[i].0.as_str(), key) {
            return Some(stored[i].1.clone());
        }
        i = i + 1;
    }
    None
}

/// The value of the first of `keys` that the store holds.
fn find_first_stored_secret(stored: &[(String, String)], keys: &Vec<String>) -> (r: Option<String>)
    ensures
        opt_view(r) == first_stored_secret(stored@, keys@.map_values(|k: String| k@)),
{
    let ghost all = keys@.map_values(|k: String| k@);
    let mut i: usize = 0;
    assert(all.subrange(0, all.len() as int) =~= all);
    while i < keys.len()
        invariant
            i <= keys.len(),
            all == keys@.map_values(|k: String| k@),
            first_stored_secret(stored@, all) == first_stored_secret(stored@, all.subrange(i as int, all.len() as int)),
        decreases keys.len() - i,
    {
        let ghost rest = all.subrange(i as int, all.len() as int);
        assert(rest.subrange(1, rest.len() as int) =~= all.subrange(i + 1, all.len() as int));
        assert(rest[0] == keys@[i as int]@);
        let found = find_stored_secret(stored, keys[i].as_str());
        if found.is_some() {
            return found;
        }
        i = i + 1;
    }
    None
}

fn or_empty_string(o: Option<String>) -> (r: String)
    ensures
        r@ == or_empty(opt_view(o)),
{
    match o {
        Some(v) => v,
        None => empty_string(),
    }
}

fn load_layer_secret(stored: &[(String, String)], secret: LayerSecret, index: usize, layer_id: &str) -> (r: String)
    ensures
        r@ == loaded_layer_secret(stored@, secret, index, layer_id@),
{
    let keys = transport_layer_secret_lookup(secret, index, layer_id);
    assert(keys@.map_values(|k: String| k@) =~= crate::text::string_views(keys@));
    or_empty_string(find_first_stored_secret(stored, &keys))
}

fn load_layer(stored: &[(String, String)], index: usize, layer: &TransportLayerSecrets) -> (r: TransportLayerSecrets)
    ensures
        layer_loaded(stored@, index, *layer, r),
{
    match layer {
        TransportLayerSecrets::Ssh { id, .. } => TransportLayerSecrets::Ssh {
            id: id.clone(),
            password: load_layer_secret(stored, LayerSecret::SshPassword, index, id.as_str()),
            key_passphrase: load_layer_secret(stored, LayerSecret::SshKeyPassphrase, index, id.as_str()),
        },
        TransportLayerSecrets::Proxy { id, .. } => TransportLayerSecrets::Proxy {
            id: id.clone(),
            password: load_layer_secret(stored, LayerSecret::ProxyPassword, index, id.as_str()),
        },
        TransportLayerSecrets::HttpTunnel { id, .. } => TransportLayerSecrets::HttpTunnel {
            id: id.clone(),
            token: load_layer_secret(stored, LayerSecret::HttpTunnelToken, index, id.as_str()),
        },
    }
}

/// The credentials of a saved connection, loaded from its readable secrets
/// `stored`.
pub fn load_connection_fields(fields: &ConnectionSecretFields, stored: &[(String, String)]) -> (r:
    ConnectionSecretFields)
    ensures
        fields_loaded(stored@, *fields, r),
{
    let password = or_empty_string(find_stored_secret(stored, "password"));
    let url_params = match find_stored_secret(stored, "url_params") {
        Some(v) => Some(v),
        None => fields.url_params.clone(),
    };
    let mut layers: Vec<TransportLayerSecrets> = Vec::new();
    let mut i: usize = 0;
    while i < fields.transport_layers.len()
        invariant
            i <= fields.transport_layers.len(),
            layers@.len() == i,
            forall|j: int|
                0 <= j < i ==> layer_loaded(
                    stored@,
                    j as usize,
                    #[trigger] fields.transport_layers@[j],
                    layers@[j],
                ),
        decreases fields.transport_layers.len() - i,
    {
        let layer = load_layer(stored, i, &fields.transport_layers[i]);
        layers.push(layer);
        i = i + 1;
    }
    let redis = or_empty_string(find_stored_secret(stored, "redis_sentinel_password"));
    let connection_string = find_stored_secret(stored, "connection_string");
    let init_script = find_stored_secret(stored, "init_script");
    ConnectionSecretFields {
        save_password: fields.save_password,
        password,
        transport_layers: layers,
        redis_sentinel_password: redis,
        url_params,
        connection_string,
        init_script,
    }
}

/// Whether some plugin secret of `entries` is non-empty.
pub open spec fn has_inline_plugin_secret(entries: Seq<(String, String)>) -> bool {
    exists|i: int| 0 <= i < entries.len() && (#[trigger] entries[i]).1@.len() > 0
}

/// Loading one saved connection, from the credentials and plugin secrets
/// its stored configuration holds, the plugin secrets the store holds under
/// `plugin_prefix` (their names with the prefix taken off), and all its
/// readable secrets `stored`. The credentials are loaded as
/// `fields_loaded` says. The plugin secrets start from the stored ones if
/// there are any, else from the inline ones; each empty one is filled from
/// the store, and each non-empty one is written to the store, which also
/// asks for the configuration to be rewritten without it.
pub fn plan_connection_load(
    fields: &ConnectionSecretFields,
    inline_plugin: &[(String, String)],
    stored_plugin: &[(String, String)],
    stored: &[(String, String)],
    plugin_prefix: &str,
) -> (r: ConnectionLoadPlan)
    ensures
        fields_loaded(stored@, *fields, r.fields),
        r.plugin_secrets@.len() == plugin_start(inline_plugin@, stored_plugin@).len(),
        forall|i: int|
            0 <= i < r.plugin_secrets@.len() ==> {
                let e = #[trigger] plugin_start(inline_plugin@, stored_plugin@)[i];
                &&& r.plugin_secrets@[i].0@ == e.0@
                &&& r.plugin_secrets@[i].1@ == loaded_plugin_value(stored@, plugin_prefix@, e)
            },
        write_views(r.writes@) == plugin_rewrites(plugin_prefix@, plugin_start(inline_plugin@, stored_plugin@)),
        r.rewrite_config == has_inline_plugin_secret(plugin_start(inline_plugin@, stored_plugin@)),
{
    let loaded = load_connection_fields(fields, stored);
    let start: &[(String, String)] = if stored_plugin.len() > 0 {
        stored_plugin
    } else {
        inline_plugin
    };
    let ghost entries = plugin_start(inline_plugin@, stored_plugin@);
    assert(start@ == entries);
    let mut plugin: Vec<(String, String)> = Vec::new();
    let mut writes: Vec<SecretWrite> = Vec::new();
    let mut rewrite = false;
    let mut i: usize = 0;
    assert(entries.take(0) =~= Seq::<(String, String)>::empty());
    while i < start.len()
        invariant
            i <= start.len(),
            start@ == entries,
            plugin@.len() == i,
            forall|j: int|
                0 <= j < i ==> {
                    let e = #[trigger] entries[j];
                    &&& plugin@[j].0@ == e.0@
                    &&& plugin@[j].1@ == loaded_plugin_value(stored@, plugin_prefix@, e)
                },
            write_views(writes@) == plugin_rewrites(plugin_prefix@, entries.take(i as int)),
            rewrite == has_inline_plugin_secret(entries.take(i as int)),
        decreases start.len() - i,
    {
        assert(entries.take(i + 1).drop_last() =~= entries.take(i as int));
        assert(entries.take(i + 1).last() == entries[i as int]);
        let (name, current) = &start[i];
        let key = String::from_str(plugin_prefix).concat(name.as_str());
        if current.as_str().unicode_len() == 0 {
            let value = or_empty_string(find_stored_secret(stored, key.as_str()));
            plugin.push((name.clone(), value));
            assert(has_inline_plugin_secret(entries.take(i + 1)) == has_inline_plugin_secret(entries.take(i as int))) by {
                if has_inline_plugin_secret(entries.take(i + 1)) {
                    let k = choose|k: int| 0 <= k < i + 1 && (#[trigger] entries.take(i + 1)[k]).1@.len() > 0;
                    assert(k < i);
                    assert(entries.take(i as int)[k] == entries.take(i + 1)[k]);
                }
                if has_inline_plugin_secret(entries.take(i as int)) {
                    let k = choose|k: int| 0 <= k < i && (#[trigger] entries.take(i as int)[k]).1@.len() > 0;
                    assert(entries.take(i as int)[k] == entries.take(i + 1)[k]);
                }
            }
        } else {
            push_write(&mut writes, SecretWrite::Put(key, current.clone()));
            plugin.push((name.clone(), current.clone()));
            rewrite = true;
            assert(entries.take(i + 1)[i as int] == entries[i as int]);
        }
        i = i + 1;
    }
    assert(entries.take(start.len() as int) =~= entries);
    ConnectionLoadPlan { fields: loaded, plugin_secrets: plugin, writes, rewrite_config: rewrite }
}

/// Whether `key` starts with `prefix`.
pub open spec fn key_starts_with(key: Seq<char>, prefix: Seq<char>) -> bool {
    prefix.len() <= key.len() && key.subrange(0, prefix.len() as int) == prefix
}

/// The secret store after one write: an empty value removes its key.
pub open spec fn apply_secret_write(m: Map<Seq<char>, Seq<char>>, w: SecretWriteView) -> Map<Seq<char>, Seq<char>> {
    match w {
        SecretWriteView::Put(k, v) => if v.len() == 0 {
            m.remove(k)
        } else {
            m.insert(k, v)
        },
        SecretWriteView::Remove(k) => m.remove(k),
        SecretWriteView::RemovePrefix(p) => Map::new(
            |k: Seq<char>| m.dom().contains(k) && !key_starts_with(k, p),
            |k: Seq<char>| m[k],
        ),
    }
}

/// The secret store after the writes, applied in order.
pub open spec fn apply_secret_writes(m: Map<Seq<char>, Seq<char>>, ws: Seq<SecretWriteView>) -> Map<
    Seq<char>,
    Seq<char>,
>
    decreases ws.len(),
{
    if ws.len() == 0 {
        m
    } else {
        apply_secret_write(apply_secret_writes(m, ws.drop_last()), ws.last())
    }
}

/// What the store holds under `k`.
pub open spec fn held(m: Map<Seq<char>, Seq<char>>, k: Seq<char>) -> Option<Seq<char>> {
    if m.dom().contains(k) {
        Some(m[k])
    } else {
        None
    }
}

/// `stored` lists the store `m`: each key reads as the store holds it.
pub open spec fn lists_store(stored: Seq<(String, String)>, m: Map<Seq<char>, Seq<char>>) -> bool {
    forall|k: Seq<char>| #[trigger] stored_secret(stored, k) == held(m, k)
}

/// No two writes of `ws` store under the same key.
pub open spec fn put_keys_distinct(ws: Seq<SecretWriteView>) -> bool {
    forall|i: int, j: int|
        0 <= i < j < ws.len() ==> (#[trigger] ws[i] matches SecretWriteView::Put(a, _) && #[trigger] ws[j] matches SecretWriteView::Put(b, _) ==> a != b)
}

/// A value as the store keeps it: an empty one is not kept.
pub open spec fn kept(v: Seq<char>) -> Option<Seq<char>> {
    if v.len() == 0 {
        None
    } else {
        Some(v)
    }
}

proof fn lemma_apply_concat(m: Map<Seq<char>, Seq<char>>, a: Seq<SecretWriteView>, b: Seq<SecretWriteView>)
    ensures
        apply_secret_writes(m, a + b) == apply_secret_writes(apply_secret_writes(m, a), b),
    decreases b.len(),
{
    if b.len() == 0 {
        assert(a + b =~= a);
    } else {
        lemma_apply_concat(m, a, b.drop_last());
        assert((a + b).drop_last() =~= a + b.drop_last());
        assert((a + b).last() == b.last());
    }
}

/// Writes that are all stores, under keys starting with `t`, each key
/// once: each key ends up holding its value, and any other key keeps what
/// it held.
proof fn lemma_apply_puts(m: Map<Seq<char>, Seq<char>>, ws: Seq<SecretWriteView>)
    requires
        forall|j: int| 0 <= j < ws.len() ==> (#[trigger] ws[j] matches SecretWriteView::Put(k, _) && k.len() > 0 && k[0] == 't'),
        put_keys_distinct(ws),
    ensures
        forall|j: int| 0 <= j < ws.len() ==> (#[trigger] ws[j] matches SecretWriteView::Put(k, v) ==> held(apply_secret_writes(m, ws), k) == kept(v)),
        forall|k: Seq<char>| (k.len() == 0 || k[0] != 't') ==> #[trigger] held(apply_secret_writes(m, ws), k) == held(m, k),
    decreases ws.len(),
{
    if ws.len() > 0 {
        let init = ws.drop_last();
        assert forall|i: int, j: int| 0 <= i < j < init.len() implies (#[trigger] init[i] matches SecretWriteView::Put(a, _) && #[trigger] init[j] matches SecretWriteView::Put(b, _) ==> a != b) by {
            assert(init[i] == ws[i] && init[j] == ws[j]);
        }
        assert forall|j: int| 0 <= j < init.len() implies (#[trigger] init[j] matches SecretWriteView::Put(k, _) && k.len() > 0 && k[0] == 't') by {
            assert(init[j] == ws[j]);
        }
        lemma_apply_puts(m, init);
        let prev = apply_secret_writes(m, init);
        let n = ws.len() - 1;
        assert(ws[n] matches SecretWriteView::Put(_, _));
        match ws[n] {
            SecretWriteView::Put(kl, vl) => {
                assert forall|j: int| 0 <= j < ws.len() implies (#[trigger] ws[j] matches SecretWriteView::Put(k, v) ==> held(apply_secret_writes(m, ws), k) == kept(v)) by {
                    if j < n {
                        assert(init[j] == ws[j]);
                        match ws[j] {
                            SecretWriteView::Put(k, v) => {
                                assert(k != kl);
                            },
                            _ => {},
                        }
                    }
                }
                assert forall|k: Seq<char>| (k.len() == 0 || k[0] != 't') implies #[trigger] held(apply_secret_writes(m, ws), k) == held(m, k) by {
                    assert(k != kl);
                    assert(held(prev, k) == held(m, k));
                }
            },
            _ => {},
        }
    }
}

/// The two layers agree: same kind, id and credentials.
pub open spec fn layer_views_equal(a: TransportLayerSecrets, b: TransportLayerSecrets) -> bool {
    match a {
        TransportLayerSecrets::Ssh { id, password, key_passphrase } => b matches TransportLayerSecrets::Ssh {
            id: id2,
            password: p2,
            key_passphrase: k2,
        } && id@ == id2@ && password@ == p2@ && key_passphrase@ == k2@,
        TransportLayerSecrets::Proxy { id, password } => b matches TransportLayerSecrets::Proxy { id: id2, password: p2 }
            && id@ == id2@ && password@ == p2@,
        TransportLayerSecrets::HttpTunnel { id, token } => b matches TransportLayerSecrets::HttpTunnel {
            id: id2,
            token: t2,
        } && id@ == id2@ && token@ == t2@,
    }
}

proof fn lemma_layer_writes_contained(layers: Seq<TransportLayerSecrets>, n: int, i: int)
    requires
        0 <= i < n <= layers.len(),
    ensures
        forall|e: SecretWriteView| layer_writes(i as usize, layers[i]).contains(e) ==> #[trigger] layers_writes(layers, n).contains(e),
    decreases n,
{
    let w = layers_writes(layers, n);
    let prev = layers_writes(layers, n - 1);
    let last = layer_writes((n - 1) as usize, layers[n - 1]);
    assert(w == prev + last);
    if i < n - 1 {
        lemma_layer_writes_contained(layers, n - 1, i);
        assert forall|e: SecretWriteView| layer_writes(i as usize, layers[i]).contains(e) implies #[trigger] w.contains(e) by {
            assert(prev.contains(e));
            let j = choose|j: int| 0 <= j < prev.len() && prev[j] == e;
            assert(w[j] == e);
        }
    } else {
        assert forall|e: SecretWriteView| layer_writes(i as usize, layers[i]).contains(e) implies #[trigger] w.contains(e) by {
            let j = choose|j: int| 0 <= j < last.len() && last[j] == e;
            assert(w[prev.len() + j] == e);
        }
    }
}

proof fn lemma_kept_or_empty(v: Seq<char>)
    ensures
        or_empty(kept(v)) == v,
{
    if v.len() == 0 {
        assert(v =~= Seq::<char>::empty());
    }
}

/// One layer reads back: its credentials were stored under its own keys,
/// and no older key holds anything.
proof fn lemma_layer_loads_back(
    stored: Seq<(String, String)>,
    store: Map<Seq<char>, Seq<char>>,
    i: usize,
    layer: TransportLayerSecrets,
    sanitized: TransportLayerSecrets,
    loaded: TransportLayerSecrets,
)
    requires
        lists_store(stored, store),
        forall|e: SecretWriteView| #[trigger] layer_writes(i, layer).contains(e) ==> (e matches SecretWriteView::Put(k, v) && held(store, k) == kept(v)),
        held(store, "ssh_password"@) is None,
        held(store, "ssh_key_passphrase"@) is None,
        held(store, "proxy_password"@) is None,
        forall|k: Seq<char>| key_starts_with(k, SSH_TUNNEL_SECRET_PREFIX@) ==> #[trigger] held(store, k) is None,
        layer_scrubbed(layer, sanitized),
        layer_loaded(stored, i, sanitized, loaded),
    ensures
        layer_views_equal(layer, loaded),
{
    reveal_with_fuel(first_stored_secret, 3);
    let ws = layer_writes(i, layer);
    assert(ws.contains(ws[0]));
    match layer {
        TransportLayerSecrets::Ssh { id, password, key_passphrase } => {
            assert(ws.contains(ws[1]));
            lemma_kept_or_empty(password@);
            lemma_kept_or_empty(key_passphrase@);
            let tunnel = SSH_TUNNEL_SECRET_PREFIX@ + ssh_segment(i, id@);
            let pk = tunnel + ".password"@;
            let kk = tunnel + ".key_passphrase"@;
            assert(pk.subrange(0, SSH_TUNNEL_SECRET_PREFIX@.len() as int) =~= SSH_TUNNEL_SECRET_PREFIX@);
            assert(kk.subrange(0, SSH_TUNNEL_SECRET_PREFIX@.len() as int) =~= SSH_TUNNEL_SECRET_PREFIX@);
            assert(key_starts_with(pk, SSH_TUNNEL_SECRET_PREFIX@));
            assert(key_starts_with(kk, SSH_TUNNEL_SECRET_PREFIX@));
            assert(held(store, pk) is None);
            assert(held(store, kk) is None);
            let l1 = layer_secret_lookup(LayerSecret::SshPassword, i, id@);
            let l2 = layer_secret_lookup(LayerSecret::SshKeyPassphrase, i, id@);
            assert(l1.subrange(1, 2) =~= seq![l1[1]]);
            assert(l2.subrange(1, 2) =~= seq![l2[1]]);
            assert(seq![l1[1]].subrange(1, 1) =~= Seq::<Seq<char>>::empty());
            assert(seq![l2[1]].subrange(1, 1) =~= Seq::<Seq<char>>::empty());
            assert(stored_secret(stored, l1[0]) == held(store, l1[0]));
            assert(stored_secret(stored, l1[1]) == held(store, l1[1]));
            assert(stored_secret(stored, l2[0]) == held(store, l2[0]));
            assert(stored_secret(stored, l2[1]) == held(store, l2[1]));
        },
        TransportLayerSecrets::Proxy { id, password } => {
            lemma_kept_or_empty(password@);
            let l1 = layer_secret_lookup(LayerSecret::ProxyPassword, i, id@);
            assert(stored_secret(stored, l1[0]) == held(store, l1[0]));
            if id@ == "legacy-proxy"@ {
                assert(l1.subrange(1, 2) =~= seq![l1[1]]);
                assert(seq![l1[1]].subrange(1, 1) =~= Seq::<Seq<char>>::empty());
                assert(stored_secret(stored, l1[1]) == held(store, l1[1]));
            } else {
                assert(l1.subrange(1, 1) =~= Seq::<Seq<char>>::empty());
            }
        },
        TransportLayerSecrets::HttpTunnel { id, token } => {
            lemma_kept_or_empty(token@);
            let l1 = layer_secret_lookup(LayerSecret::HttpTunnelToken, i, id@);
            assert(stored_secret(stored, l1[0]) == held(store, l1[0]));
            assert(l1.subrange(1, 1) =~= Seq::<Seq<char>>::empty());
        },
    }
}

/// Whether a write changes what the store holds under `k`.
pub open spec fn touches(w: SecretWriteView, k: Seq<char>) -> bool {
    match w {
        SecretWriteView::Put(a, _) => a == k,
        SecretWriteView::Remove(a) => a == k,
        SecretWriteView::RemovePrefix(p) => key_starts_with(k, p),
    }
}

/// What a write leaves under a key it touches.
pub open spec fn touch_effect(w: SecretWriteView) -> Option<Seq<char>> {
    match w {
        SecretWriteView::Put(_, v) => kept(v),
        _ => None,
    }
}

proof fn lemma_starts_with_chars(k: Seq<char>, p: Seq<char>)
    ensures
        key_starts_with(k, p) ==> forall|x: int| 0 <= x < p.len() ==> k[x] == #[trigger] p[x],
{
    if key_starts_with(k, p) {
        assert forall|x: int| 0 <= x < p.len() implies k[x] == #[trigger] p[x] by {
            assert(k.subrange(0, p.len() as int)[x] == k[x]);
        }
    }
}

proof fn lemma_untouched(m: Map<Seq<char>, Seq<char>>, ws: Seq<SecretWriteView>, k: Seq<char>)
    requires
        forall|i: int| 0 <= i < ws.len() ==> !touches(#[trigger] ws[i], k),
    ensures
        held(apply_secret_writes(m, ws), k) == held(m, k),
    decreases ws.len(),
{
    if ws.len() > 0 {
        assert forall|i: int| 0 <= i < ws.drop_last().len() implies !touches(#[trigger] ws.drop_last()[i], k) by {
            assert(ws.drop_last()[i] == ws[i]);
        }
        lemma_untouched(m, ws.drop_last(), k);
        assert(!touches(ws[ws.len() - 1], k));
    }
}

proof fn lemma_last_touch(m: Map<Seq<char>, Seq<char>>, ws: Seq<SecretWriteView>, k: Seq<char>, j: int)
    requires
        0 <= j < ws.len(),
        touches(ws[j], k),
        forall|i: int| j < i < ws.len() ==> !touches(#[trigger] ws[i], k),
    ensures
        held(apply_secret_writes(m, ws), k) == touch_effect(ws[j]),
    decreases ws.len(),
{
    let init = ws.drop_last();
    if j == ws.len() - 1 {
    } else {
        assert forall|i: int| j < i < init.len() implies !touches(#[trigger] init[i], k) by {
            assert(init[i] == ws[i]);
        }
        assert(init[j] == ws[j]);
        lemma_last_touch(m, init, k, j);
        assert(!touches(ws[ws.len() - 1], k));
    }
}

/// Saving a connection and loading it back gives its credentials back.
/// Saving stores each credential under its key (an empty one stores
/// nothing) and keeps the configuration without them; loading, from any
/// listing `stored` of the store that results, whatever it held before,
/// yields the saved password (none is stored and an empty one loads where
/// the password is not to be saved), URL parameters, Sentinel password,
/// connection string, init script and every layer's credentials. This holds
/// where no optional credential is present but empty, and no two layers
/// store a credential under the same key.
pub proof fn lemma_saved_credentials_load_back(
    f: ConnectionSecretFields,
    sanitized: ConnectionSecretFields,
    before: Map<Seq<char>, Seq<char>>,
    stored: Seq<(String, String)>,
    loaded: ConnectionSecretFields,
)
    requires
        !(f.url_params matches Some(u) && u@.len() == 0),
        !(f.connection_string matches Some(c) && c@.len() == 0),
        !(f.init_script matches Some(c) && c@.len() == 0),
        put_keys_distinct(layers_writes(f.transport_layers@, f.transport_layers@.len() as int)),
        fields_sanitized(f, sanitized),
        lists_store(stored, apply_secret_writes(before, connection_secret_writes(f))),
        fields_loaded(stored, sanitized, loaded),
    ensures
        loaded.save_password == f.save_password,
        loaded.password@ == if f.save_password {
            f.password@
        } else {
            Seq::empty()
        },
        stored_secret(stored, "password"@) == if f.save_password {
            kept(f.password@)
        } else {
            None
        },
        opt_view(loaded.url_params) == opt_view(f.url_params),
        loaded.redis_sentinel_password@ == f.redis_sentinel_password@,
        opt_view(loaded.connection_string) == opt_view(f.connection_string),
        opt_view(loaded.init_script) == opt_view(f.init_script),
        loaded.transport_layers@.len() == f.transport_layers@.len(),
        forall|i: int|
            0 <= i < f.transport_layers@.len() ==> layer_views_equal(
                #[trigger] f.transport_layers@[i],
                loaded.transport_layers@[i],
            ),
{
    reveal_strlit("password");
    reveal_strlit("transport_layers.");
    reveal_strlit("redis_sentinel_password");
    reveal_strlit("url_params");
    reveal_strlit("ssh_password");
    reveal_strlit("ssh_key_passphrase");
    reveal_strlit("proxy_password");
    reveal_strlit("ssh_tunnels.");
    reveal_strlit("connection_string");
    reveal_strlit("init_script");
    let layers = f.transport_layers@;
    let n = layers.len() as int;
    let l = layers_writes(layers, n);
    let pw = if f.save_password {
        f.password@
    } else {
        Seq::empty()
    };
    let a = seq![SecretWriteView::Put("password"@, pw), SecretWriteView::RemovePrefix(TRANSPORT_LAYER_SECRET_PREFIX@)];
    let b = seq![
        SecretWriteView::Put("redis_sentinel_password"@, f.redis_sentinel_password@),
        SecretWriteView::Put(
            "url_params"@,
            match f.url_params {
                Some(u) => u@,
                None => Seq::empty(),
            },
        ),
        SecretWriteView::Put("ssh_password"@, Seq::empty()),
        SecretWriteView::Put("ssh_key_passphrase"@, Seq::empty()),
        SecretWriteView::Put("proxy_password"@, Seq::empty()),
        SecretWriteView::RemovePrefix(SSH_TUNNEL_SECRET_PREFIX@),
        optional_write("connection_string"@, f.connection_string),
        optional_write("init_script"@, f.init_script),
    ];
    assert(connection_secret_writes(f) =~= a + l + b);
    lemma_apply_concat(before, a + l, b);
    lemma_apply_concat(before, a, l);
    let m1 = apply_secret_writes(before, a);
    let m2 = apply_secret_writes(m1, l);
    let fin = apply_secret_writes(m2, b);
    assert(fin == apply_secret_writes(before, connection_secret_writes(f)));

    // The password: set first, touched by nothing after.
    assert(!key_starts_with("password"@, TRANSPORT_LAYER_SECRET_PREFIX@));
    lemma_last_touch(before, a, "password"@, 0);
    lemma_layer_writes_keys(layers, n);
    lemma_apply_puts(m1, l);
    assert(held(m2, "password"@) == kept(pw));
    assert forall|i: int| 0 <= i < b.len() implies !touches(#[trigger] b[i], "password"@) by {}
    lemma_untouched(m2, b, "password"@);
    lemma_kept_or_empty(pw);
    assert(stored_secret(stored, "password"@) == held(fin, "password"@));

    // The keys the last writes set.
    lemma_starts_with_chars("redis_sentinel_password"@, SSH_TUNNEL_SECRET_PREFIX@);
    lemma_starts_with_chars("url_params"@, SSH_TUNNEL_SECRET_PREFIX@);
    lemma_starts_with_chars("ssh_password"@, SSH_TUNNEL_SECRET_PREFIX@);
    lemma_starts_with_chars("ssh_key_passphrase"@, SSH_TUNNEL_SECRET_PREFIX@);
    lemma_starts_with_chars("proxy_password"@, SSH_TUNNEL_SECRET_PREFIX@);
    assert(SSH_TUNNEL_SECRET_PREFIX@[0] == 's');
    assert(SSH_TUNNEL_SECRET_PREFIX@[4] == 't');
    assert("ssh_password"@[4] == 'p');
    assert("redis_sentinel_password"@[0] == 'r');
    assert("proxy_password"@[0] == 'p');
    assert(!key_starts_with("redis_sentinel_password"@, SSH_TUNNEL_SECRET_PREFIX@));
    assert(!key_starts_with("proxy_password"@, SSH_TUNNEL_SECRET_PREFIX@));
    assert("ssh_key_passphrase"@[4] == 'k');
    lemma_last_touch(m2, b, "redis_sentinel_password"@, 0);
    lemma_kept_or_empty(f.redis_sentinel_password@);
    assert(stored_secret(stored, "redis_sentinel_password"@) == held(fin, "redis_sentinel_password"@));
    lemma_last_touch(m2, b, "url_params"@, 1);
    assert(stored_secret(stored, "url_params"@) == held(fin, "url_params"@));
    lemma_last_touch(m2, b, "ssh_password"@, 2);
    lemma_last_touch(m2, b, "ssh_key_passphrase"@, 3);
    lemma_last_touch(m2, b, "proxy_password"@, 4);
    lemma_last_touch(m2, b, "connection_string"@, 6);
    assert(stored_secret(stored, "connection_string"@) == held(fin, "connection_string"@));
    lemma_last_touch(m2, b, "init_script"@, 7);
    assert(stored_secret(stored, "init_script"@) == held(fin, "init_script"@));
    assert forall|k: Seq<char>| key_starts_with(k, SSH_TUNNEL_SECRET_PREFIX@) implies #[trigger] held(fin, k) is None by {
        assert(k[0] == SSH_TUNNEL_SECRET_PREFIX@[0]);
        lemma_last_touch(m2, b, k, 5);
    }

    // Every layer.
    assert forall|i: int| 0 <= i < n implies layer_views_equal(
        #[trigger] layers[i],
        loaded.transport_layers@[i],
    ) by {
        lemma_layer_writes_contained(layers, n, i);
        assert forall|e: SecretWriteView| #[trigger] layer_writes(i as usize, layers[i]).contains(e) implies (e matches SecretWriteView::Put(k, v) && held(fin, k) == kept(v)) by {
            assert(l.contains(e));
            let j = choose|j: int| 0 <= j < l.len() && l[j] == e;
            match e {
                SecretWriteView::Put(k, v) => {
                    assert(k[0] == 't');
                    lemma_starts_with_chars(k, SSH_TUNNEL_SECRET_PREFIX@);
                    assert(SSH_TUNNEL_SECRET_PREFIX@[0] == 's');
                    assert forall|x: int| 0 <= x < b.len() implies !touches(#[trigger] b[x], k) by {}
                    lemma_untouched(m2, b, k);
                },
                _ => {},
            }
        }
        lemma_layer_loads_back(
            stored,
            fin,
            i as usize,
            layers[i],
            sanitized.transport_layers@[i],
            loaded.transport_layers@[i],
        );
    }
}

/// Loading a connection's plugin secrets: a non-empty secret keeps its
/// value, whatever the store holds, and is written to the store under the
/// prefix and its name; an empty one takes the value the store holds there,
/// or stays empty. The configuration is rewritten exactly when something is
/// written to the store, and only such secrets are written.
pub proof fn lemma_plugin_secrets_load(stored: Seq<(String, String)>, prefix: Seq<char>, entries: Seq<(String, String)>)
    ensures
        forall|i: int|
            0 <= i < entries.len() && (#[trigger] entries[i]).1@.len() > 0 ==> loaded_plugin_value(
                stored,
                prefix,
                entries[i],
            ) == entries[i].1@ && plugin_rewrites(prefix, entries).contains(
                SecretWriteView::Put(prefix + entries[i].0@, entries[i].1@),
            ),
        forall|i: int|
            0 <= i < entries.len() && (#[trigger] entries[i]).1@.len() == 0 ==> loaded_plugin_value(
                stored,
                prefix,
                entries[i],
            ) == match stored_secret(stored, prefix + entries[i].0@) {
                Some(v) => v,
                None => Seq::empty(),
            },
        forall|j: int|
            0 <= j < plugin_rewrites(prefix, entries).len() ==> (#[trigger] plugin_rewrites(prefix, entries)[j] matches SecretWriteView::Put(
                k,
                v,
            ) && v.len() > 0 && exists|i: int|
                0 <= i < entries.len() && k == prefix + (#[trigger] entries[i]).0@ && v == entries[i].1@),
        has_inline_plugin_secret(entries) <==> plugin_rewrites(prefix, entries).len() > 0,
    decreases entries.len(),
{
    if entries.len() > 0 {
        let init = entries.drop_last();
        lemma_plugin_secrets_load(stored, prefix, init);
        let rest = plugin_rewrites(prefix, init);
        let w = plugin_rewrites(prefix, entries);
        let (k, v) = entries.last();
        assert forall|i: int| 0 <= i < entries.len() && (#[trigger] entries[i]).1@.len() > 0 implies w.contains(
            SecretWriteView::Put(prefix + entries[i].0@, entries[i].1@),
        ) by {
            if i < entries.len() - 1 {
                assert(init[i] == entries[i]);
                assert(rest.contains(SecretWriteView::Put(prefix + init[i].0@, init[i].1@)));
                let m = choose|m: int| 0 <= m < rest.len() && rest[m] == SecretWriteView::Put(prefix + init[i].0@, init[i].1@);
                if v@.len() > 0 {
                    assert(w[m] == rest[m]);
                }
            } else {
                assert(w[w.len() - 1] == SecretWriteView::Put(prefix + k@, v@));
            }
        }
        assert forall|j: int| 0 <= j < w.len() implies (#[trigger] w[j] matches SecretWriteView::Put(kk, vv) && vv.len() > 0
            && exists|i: int| 0 <= i < entries.len() && kk == prefix + (#[trigger] entries[i]).0@ && vv == entries[i].1@) by {
            if j < rest.len() {
                assert(w[j] == rest[j]);
                match rest[j] {
                    SecretWriteView::Put(kk, vv) => {
                        let i = choose|i: int| 0 <= i < init.len() && kk == prefix + (#[trigger] init[i]).0@ && vv == init[i].1@;
                        assert(entries[i] == init[i]);
                    },
                    _ => {},
                }
            } else {
                assert(entries[entries.len() - 1] == (k, v));
            }
        }
        if has_inline_plugin_secret(entries) {
            let i = choose|i: int| 0 <= i < entries.len() && (#[trigger] entries[i]).1@.len() > 0;
            assert(w.contains(SecretWriteView::Put(prefix + entries[i].0@, entries[i].1@)));
        }
        if w.len() > 0 {
            if v@.len() > 0 {
                assert(entries[entries.len() - 1].1@.len() > 0);
            } else {
                assert(rest.len() > 0);
                let i = choose|i: int| 0 <= i < init.len() && (#[trigger] init[i]).1@.len() > 0;
                assert(entries[i] == init[i]);
            }
        }
    }
}

} // verus!
