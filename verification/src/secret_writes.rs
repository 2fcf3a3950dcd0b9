//! The writes to the encrypted secret store that saving a connection makes:
//! every credential goes to its own key, blanked or dropped values remove
//! theirs, and keys of older layouts are cleared.

use vstd::prelude::*;
use crate::text::{chars_of, trim, trim_chars};
use crate::json::JsonValue;
use crate::secrets::{
    layer_secret_key, transport_layer_http_tunnel_token_key, transport_layer_proxy_password_key,
    transport_layer_ssh_key_passphrase_key, transport_layer_ssh_password_key, SSH_TUNNEL_SECRET_PREFIX,
    TRANSPORT_LAYER_SECRET_PREFIX,
};

verus! {

/// One write to a connection's secrets.
#[derive(Debug, Clone, PartialEq, Eq)]
pub enum SecretWrite {
    /// Store the value under the key; an empty value removes the key.
    Put(String, String),
    /// Remove the key.
    Remove(String),
    /// Remove every key that starts with the prefix.
    RemovePrefix(String),
}

/// The view of a write.
pub enum SecretWriteView {
    Put(Seq<char>, Seq<char>),
    Remove(Seq<char>),
    RemovePrefix(Seq<char>),
}

pub open spec fn write_view(w: SecretWrite) -> SecretWriteView {
    match w {
        SecretWrite::Put(k, v) => SecretWriteView::Put(k@, v@),
        SecretWrite::Remove(k) => SecretWriteView::Remove(k@),
        SecretWrite::RemovePrefix(p) => SecretWriteView::RemovePrefix(p@),
    }
}

pub open spec fn write_views(w: Seq<SecretWrite>) -> Seq<SecretWriteView> {
    w.map_values(|x: SecretWrite| write_view(x))
}

/// The credentials of one transport layer of a connection.
#[derive(Debug, Clone, PartialEq, Eq)]
pub enum TransportLayerSecrets {
    Ssh { id: String, password: String, key_passphrase: String },
    Proxy { id: String, password: String },
    HttpTunnel { id: String, token: String },
}

/// The credential-bearing fields of a connection's configuration.
#[derive(Debug, Clone, PartialEq, Eq)]
pub struct ConnectionSecretFields {
    pub save_password: bool,
    pub password: String,
    pub transport_layers: Vec<TransportLayerSecrets>,
    pub redis_sentinel_password: String,
    pub url_params: Option<String>,
    pub connection_string: Option<String>,
    pub init_script: Option<String>,
}

/// The writes for the layer at `index`.
pub open spec fn layer_writes(index: usize, layer: TransportLayerSecrets) -> Seq<SecretWriteView> {
    match layer {
        TransportLayerSecrets::Ssh { id, password, key_passphrase } => seq![
            SecretWriteView::Put(layer_secret_key(index, id@, ".ssh_password"@), password@),
            SecretWriteView::Put(layer_secret_key(index, id@, ".ssh_key_passphrase"@), key_passphrase@),
        ],
        TransportLayerSecrets::Proxy { id, password } => seq![
            SecretWriteView::Put(layer_secret_key(index, id@, ".proxy_password"@), password@),
        ],
        TransportLayerSecrets::HttpTunnel { id, token } => seq![
            SecretWriteView::Put(layer_secret_key(index, id@, ".http_tunnel_token"@), token@),
        ],
    }
}

/// The writes for the first `n` layers, in order.
pub open spec fn layers_writes(layers: Seq<TransportLayerSecrets>, n: int) -> Seq<SecretWriteView>
    decreases n,
{
    if n <= 0 {
        Seq::empty()
    } else {
        layers_writes(layers, n - 1) + layer_writes((n - 1) as usize, layers[n - 1])
    }
}

/// An optional secret: stored where present, removed where not.
pub open spec fn optional_write(key: Seq<char>, value: Option<String>) -> SecretWriteView {
    match value {
        Some(v) => SecretWriteView::Put(key, v@),
        None => SecretWriteView::Remove(key),
    }
}

/// The writes that saving a connection makes to its secrets, in order: the
/// password (removed where the user chose not to save it), every transport
/// layer's credentials under fresh keys, the Sentinel password, the URL
/// parameters, the removal of the keys older releases used for a single
/// tunnel, and the connection string and init script.
pub open spec fn connection_secret_writes(f: ConnectionSecretFields) -> Seq<SecretWriteView> {
    seq![
        SecretWriteView::Put("password"@, if f.save_password { f.password@ } else { Seq::empty() }),
        SecretWriteView::RemovePrefix(TRANSPORT_LAYER_SECRET_PREFIX@),
    ] + layers_writes(f.transport_layers@, f.transport_layers@.len() as int) + seq![
        SecretWriteView::Put("redis_sentinel_password"@, f.redis_sentinel_password@),
        SecretWriteView::Put(
            "url_params"@,
            match f.url_params {
                Some(u) => u@,
                None => Seq::empty(),
            },
        ),
        SecretWriteView::Put("ssh_password"@, Seq::empty()),
        SecretWriteView::Put("ssh_key_passphrase"@, Seq::empty()),
        SecretWriteView::Put("proxy_password"@, Seq::empty()),
        SecretWriteView::RemovePrefix(SSH_TUNNEL_SECRET_PREFIX@),
        optional_write("connection_string"@, f.connection_string),
        optional_write("init_script"@, f.init_script),
    ]
}

pub(crate) fn push_write(out: &mut Vec<SecretWrite>, w: SecretWrite)
    ensures
        write_views(final(out)@) == write_views(old(out)@).push(write_view(w)),
{
    let ghost before = write_views(out@);
    out.push(w);
    assert(write_views(out@) =~= before.push(write_view(w)));
}

pub(crate) fn empty_string() -> (r: String)
    ensures
        r@ == Seq::<char>::empty(),
{
    let e = String::from_str("");
    proof {
        reveal_strlit("");
    }
    assert(e@ =~= Seq::<char>::empty());
    e
}

fn optional_secret_write(key: &str, value: &Option<String>) -> (r: SecretWrite)
    ensures
        write_view(r) == optional_write(key@, *value),
{
    match value {
        Some(v) => SecretWrite::Put(String::from_str(key), v.clone()),
        None => SecretWrite::Remove(String::from_str(key)),
    }
}

/// The writes that saving a connection with these credentials makes to its
/// secrets, in the order they are applied.
pub fn connection_secret_write_plan(fields: &ConnectionSecretFields) -> (r: Vec<SecretWrite>)
    ensures
        write_views(r@) == connection_secret_writes(*fields),
{
    let mut out: Vec<SecretWrite> = Vec::new();
    let password = if fields.save_password {
        fields.password.clone()
    } else {
        empty_string()
    };
    push_write(&mut out, SecretWrite::Put(String::from_str("password"), password));
    push_write(&mut out, SecretWrite::RemovePrefix(String::from_str(TRANSPORT_LAYER_SECRET_PREFIX)));
    let ghost head = write_views(out@);
    let layers = &fields.transport_layers;
    let mut i: usize = 0;
    while i < layers.len()
        invariant
            i <= layers.len(),
            layers@ == fields.transport_layers@,
            write_views(out@) == head + layers_writes(layers@, i as int),
        decreases layers.len() - i,
    {
        let ghost before = write_views(out@);
        match &layers[i] {
            TransportLayerSecrets::Ssh { id, password, key_passphrase } => {
                push_write(
                    &mut out,
                    SecretWrite::Put(transport_layer_ssh_password_key(i, id.as_str()), password.clone()),
                );
                push_write(
                    &mut out,
                    SecretWrite::Put(transport_layer_ssh_key_passphrase_key(i, id.as_str()), key_passphrase.clone()),
                );
            },
            TransportLayerSecrets::Proxy { id, password } => {
                push_write(
                    &mut out,
                    SecretWrite::Put(transport_layer_proxy_password_key(i, id.as_str()), password.clone()),
                );
            },
            TransportLayerSecrets::HttpTunnel { id, token } => {
                push_write(
                    &mut out,
                    SecretWrite::Put(transport_layer_http_tunnel_token_key(i, id.as_str()), token.clone()),
                );
            },
        }
        assert(write_views(out@) =~= before + layer_writes(i, layers@[i as int]));
        i = i + 1;
        assert(layers_writes(layers@, i as int) == layers_writes(layers@, i - 1) + layer_writes(
            (i - 1) as usize,
            layers@[i - 1],
        ));
    }
    push_write(
        &mut out,
        SecretWrite::Put(String::from_str("redis_sentinel_password"), fields.redis_sentinel_password.clone()),
    );
    let url = match &fields.url_params {
        Some(u) => u.clone(),
        None => empty_string(),
    };
    push_write(&mut out, SecretWrite::Put(String::from_str("url_params"), url));
    push_write(&mut out, SecretWrite::Put(String::from_str("ssh_password"), empty_string()));
    push_write(&mut out, SecretWrite::Put(String::from_str("ssh_key_passphrase"), empty_string()));
    push_write(&mut out, SecretWrite::Put(String::from_str("proxy_password"), empty_string()));
    push_write(&mut out, SecretWrite::RemovePrefix(String::from_str(SSH_TUNNEL_SECRET_PREFIX)));
    push_write(&mut out, optional_secret_write("connection_string", &fields.connection_string));
    push_write(&mut out, optional_secret_write("init_script", &fields.init_script));
    assert(write_views(out@) =~= connection_secret_writes(*fields));
    out
}

/// The writes for a connection's plugin secrets: every key under
/// `prefix` is removed, then each secret with a non-empty name is stored
/// under `prefix` and its name, in order.
pub open spec fn plugin_secret_writes(prefix: Seq<char>, secrets: Seq<(String, String)>) -> Seq<SecretWriteView>
    decreases secrets.len(),
{
    if secrets.len() == 0 {
        seq![SecretWriteView::RemovePrefix(prefix)]
    } else {
        let rest = plugin_secret_writes(prefix, secrets.drop_last());
        let (k, v) = secrets.last();
        if k@.len() > 0 {
            rest.push(SecretWriteView::Put(prefix + k@, v@))
        } else {
            rest
        }
    }
}

/// The writes that store a connection's plugin secrets under `prefix`.
pub fn plugin_secret_write_plan(prefix: &str, secrets: &[(String, String)]) -> (r: Vec<SecretWrite>)
    ensures
        write_views(r@) == plugin_secret_writes(prefix@, secrets@),
{
    let mut out: Vec<SecretWrite> = Vec::new();
    push_write(&mut out, SecretWrite::RemovePrefix(String::from_str(prefix)));
    let mut i: usize = 0;
    assert(secrets@.take(0) =~= Seq::<(String, String)>::empty());
    while i < secrets.len()
        invariant
            i <= secrets.len(),
            write_views(out@) == plugin_secret_writes(prefix@, secrets@.take(i as int)),
        decreases secrets.len() - i,
    {
        assert(secrets@.take(i + 1).drop_last() =~= secrets@.take(i as int));
        assert(secrets@.take(i + 1).last() == secrets@[i as int]);
        let (k, v) = &secrets[i];
        if k.as_str().unicode_len() > 0 {
            push_write(&mut out, SecretWrite::Put(String::from_str(prefix).concat(k.as_str()), v.clone()));
        }
        i = i + 1;
    }
    assert(secrets@.take(secrets.len() as int) =~= secrets@);
    out
}

/// Every write of the first `n` layers stores under a transport-layer key.
pub(crate) proof fn lemma_layer_writes_keys(layers: Seq<TransportLayerSecrets>, n: int)
    ensures
        forall|j: int|
            0 <= j < layers_writes(layers, n).len() ==> (#[trigger] layers_writes(layers, n)[j] matches SecretWriteView::Put(
                k,
                _,
            ) && k.len() > 0 && k[0] == 't'),
    decreases n,
{
    reveal_strlit("transport_layers.");
    if n > 0 {
        lemma_layer_writes_keys(layers, n - 1);
        let prev = layers_writes(layers, n - 1);
        let last = layer_writes((n - 1) as usize, layers[n - 1]);
        assert forall|j: int| 0 <= j < last.len() implies (#[trigger] last[j] matches SecretWriteView::Put(k, _) && k.len()
            > 0 && k[0] == 't') by {
            match last[j] {
                SecretWriteView::Put(k, _) => {
                    assert(k[0] == TRANSPORT_LAYER_SECRET_PREFIX@[0]);
                },
                _ => {},
            }
        }
        assert forall|j: int| 0 <= j < layers_writes(layers, n).len() implies (#[trigger] layers_writes(
            layers,
            n,
        )[j] matches SecretWriteView::Put(k, _) && k.len() > 0 && k[0] == 't') by {
            if j < prev.len() {
                assert(layers_writes(layers, n)[j] == prev[j]);
            } else {
                assert(layers_writes(layers, n)[j] == last[j - prev.len()]);
            }
        }
    }
}

/// Whether a write stores a non-empty password.
pub open spec fn stores_password(w: SecretWriteView) -> bool {
    match w {
        SecretWriteView::Put(k, v) => k == "password"@ && v.len() > 0,
        _ => false,
    }
}

/// A password the user chose not to save is never stored: the one write
/// under the key `password` removes it.
pub proof fn lemma_unsaved_password_never_stored(f: ConnectionSecretFields)
    requires
        !f.save_password,
    ensures
        forall|i: int|
            0 <= i < connection_secret_writes(f).len() ==> !stores_password(#[trigger] connection_secret_writes(f)[i]),
{
    reveal_strlit("password");
    reveal_strlit("redis_sentinel_password");
    reveal_strlit("url_params");
    reveal_strlit("connection_string");
    reveal_strlit("init_script");
    let n = f.transport_layers@.len() as int;
    let mid = layers_writes(f.transport_layers@, n);
    lemma_layer_writes_keys(f.transport_layers@, n);
    let w = connection_secret_writes(f);
    assert forall|i: int| 0 <= i < w.len() implies !stores_password(#[trigger] w[i]) by {
        if 2 <= i < 2 + mid.len() {
            assert(w[i] == mid[i - 2]);
            assert("password"@[0] == 'p');
        } else if i >= 2 + mid.len() {
            let j = i - 2 - mid.len();
            assert("password"@.len() == 8);
            if j == 6 || j == 7 {
                match w[i] {
                    SecretWriteView::Put(k, _) => {
                        assert(k.len() != 8);
                    },
                    _ => {},
                }
            }
        }
    }
}

/// The writes that restore synced WebDAV credentials `(account, sealed
/// blob)`: every stored WebDAV password is removed, then each blob is
/// stored under `webdav_password.` and its account, in order.
pub open spec fn sync_credential_writes(credentials: Seq<(String, String)>) -> Seq<SecretWriteView>
    decreases credentials.len(),
{
    if credentials.len() == 0 {
        seq![SecretWriteView::RemovePrefix("webdav_password."@)]
    } else {
        sync_credential_writes(credentials.drop_last()).push(
            SecretWriteView::Put("webdav_password."@ + credentials.last().0@, credentials.last().1@),
        )
    }
}

/// The writes that restore synced WebDAV credentials; refused, with nothing
/// written, where an account is blank.
pub fn sync_credential_write_plan(credentials: &[(String, String)]) -> (r: Result<Vec<SecretWrite>, String>)
    ensures
        match r {
            Ok(w) => {
                &&& forall|i: int| 0 <= i < credentials@.len() ==> trim(#[trigger] credentials@[i].0@).len() > 0
                &&& write_views(w@) == sync_credential_writes(credentials@)
            },
            Err(e) => {
                &&& exists|i: int| 0 <= i < credentials@.len() && trim(#[trigger] credentials@[i].0@).len() == 0
                &&& e@ == "Synced credential account must not be empty"@
            },
        },
{
    let mut out: Vec<SecretWrite> = Vec::new();
    push_write(&mut out, SecretWrite::RemovePrefix(String::from_str("webdav_password.")));
    let mut i: usize = 0;
    assert(credentials@.take(0) =~= Seq::<(String, String)>::empty());
    while i < credentials.len()
        invariant
            i <= credentials.len(),
            forall|j: int| 0 <= j < i ==> trim(#[trigger] credentials@[j].0@).len() > 0,
            write_views(out@) == sync_credential_writes(credentials@.take(i as int)),
        decreases credentials.len() - i,
    {
        let (account, blob) = &credentials[i];
        if trim_chars(chars_of(account.as_str()).as_slice()).len() == 0 {
            return Err(String::from_str("Synced credential account must not be empty"));
        }
        assert(credentials@.take(i + 1).drop_last() =~= credentials@.take(i as int));
        assert(credentials@.take(i + 1).last() == credentials@[i as int]);
        push_write(
            &mut out,
            SecretWrite::Put(String::from_str("webdav_password.").concat(account.as_str()), blob.clone()),
        );
        i = i + 1;
    }
    assert(credentials@.take(credentials.len() as int) =~= credentials@);
    Ok(out)
}

/// Whether some string of `s` is non-empty.
pub open spec fn has_nonempty(s: Seq<String>) -> bool {
    exists|i: int| 0 <= i < s.len() && (#[trigger] s[i])@.len() > 0
}

/// Whether restoring a sync snapshot may write a secret, and so needs the
/// encryption key: some connection has URL parameters, some synced secret is
/// non-empty, some credential is synced, or tunnel secrets or AI
/// configurations are restored.
pub open spec fn import_needs_key(
    url_params: Seq<Option<String>>,
    secrets: Option<Seq<String>>,
    credentials: Option<usize>,
    tunnel_secrets: bool,
    ai_configs: bool,
) -> bool {
    ||| exists|i: int| 0 <= i < url_params.len() && (#[trigger] url_params[i] matches Some(u) && u@.len() > 0)
    ||| (secrets matches Some(s) && has_nonempty(s))
    ||| (credentials matches Some(n) && n > 0)
    ||| tunnel_secrets
    ||| ai_configs
}

/// Whether a sync import needs the key, from the URL parameters of the
/// restored connections, the restored secret values, the number of restored
/// credentials and whether tunnel secrets or AI configurations come along.
pub fn sync_import_needs_key(
    url_params: &[Option<String>],
    secrets: &Option<Vec<String>>,
    credentials: Option<usize>,
    tunnel_secrets: bool,
    ai_configs: bool,
) -> (r: bool)
    ensures
        r == import_needs_key(
            url_params@,
            match secrets {
                Some(v) => Some(v@),
                None => None,
            },
            credentials,
            tunnel_secrets,
            ai_configs,
        ),
{
    let mut i: usize = 0;
    while i < url_params.len()
        invariant
            i <= url_params.len(),
            forall|j: int| 0 <= j < i ==> !(#[trigger] url_params@[j] matches Some(u) && u@.len() > 0),
        decreases url_params.len() - i,
    {
        match &url_params[i] {
            Some(u) => if u.as_str().unicode_len() > 0 {
                assert(url_params@[i as int] matches Some(w) && w@.len() > 0);
                return true;
            },
            None => {},
        }
        i = i + 1;
    }
    match secrets {
        Some(v) => {
            let mut k: usize = 0;
            while k < v.len()
                invariant
                    k <= v.len(),
                    secrets matches Some(w) && w@ == v@,
                    forall|j: int| 0 <= j < k ==> (#[trigger] v@[j])@.len() == 0,
                decreases v.len() - k,
            {
                if v[k].as_str().unicode_len() > 0 {
                    assert((v@[k as int])@.len() > 0);
                    assert(has_nonempty(v@));
                    return true;
                }
                k = k + 1;
            }
        },
        None => {},
    }
    match credentials {
        Some(n) => if n > 0 {
            return true;
        },
        None => {},
    }
    tunnel_secrets || ai_configs
}

/// Where a legacy configuration's secrets are kept.
#[derive(Debug, Clone, Copy, PartialEq, Eq)]
pub enum LegacyConfigKind {
    /// An AI configuration, by id.
    AiConfig,
    /// The single AI configuration of old releases.
    SingleAiConfig,
    /// An AI provider configuration, by provider.
    AiProvider,
    /// A tunnel profile, by id.
    TunnelProfile,
}

/// The secret namespace of a legacy configuration.
pub open spec fn legacy_config_namespace_of(kind: LegacyConfigKind, id: Seq<char>) -> Seq<char> {
    match kind {
        LegacyConfigKind::AiConfig => "ai_config."@ + id,
        LegacyConfigKind::SingleAiConfig => "ai_config.legacy"@,
        LegacyConfigKind::AiProvider => "ai_config.provider."@ + id,
        LegacyConfigKind::TunnelProfile => "tunnel_profile."@ + id,
    }
}

/// The secret namespace under which a legacy configuration's secret blob is
/// stored (`id` is unused for the single AI configuration).
pub fn legacy_config_namespace(kind: LegacyConfigKind, id: &str) -> (r: String)
    ensures
        r@ == legacy_config_namespace_of(kind, id@),
{
    match kind {
        LegacyConfigKind::AiConfig => String::from_str("ai_config.").concat(id),
        LegacyConfigKind::SingleAiConfig => String::from_str("ai_config.legacy"),
        LegacyConfigKind::AiProvider => String::from_str("ai_config.provider.").concat(id),
        LegacyConfigKind::TunnelProfile => String::from_str("tunnel_profile.").concat(id),
    }
}

/// What moving a configuration's inline secrets to its encrypted blob does.
#[derive(Debug, Clone, Copy, PartialEq, Eq)]
pub enum ConfigBlobMove {
    /// Nothing secret was inline.
    Nothing,
    /// An encrypted blob is already stored: it wins, and only the plaintext
    /// column is cleared.
    KeepStored,
    /// Encrypt the inline secrets as the blob.
    Store,
}

/// The move for a configuration whose split-off secrets are `secrets`, given
/// whether an encrypted blob is already stored for it: only a non-empty
/// object of secrets moves, and a stored blob wins over stale inline values.
pub fn config_blob_move(secrets: &JsonValue, has_stored_blob: bool) -> (r: ConfigBlobMove)
    ensures
        r == if !(secrets matches JsonValue::Object(e) && e@.len() > 0) {
            ConfigBlobMove::Nothing
        } else if has_stored_blob {
            ConfigBlobMove::KeepStored
        } else {
            ConfigBlobMove::Store
        },
{
    let has_value = match secrets {
        JsonValue::Object(e) => e.len() > 0,
        _ => false,
    };
    if !has_value {
        ConfigBlobMove::Nothing
    } else if has_stored_blob {
        ConfigBlobMove::KeepStored
    } else {
        ConfigBlobMove::Store
    }
}

/// The restored connection secrets that a sync import stores, as
/// (connection id, key, value): those with a non-empty value, in order.
pub open spec fn restored_secrets(secrets: Seq<(String, String, String)>) -> Seq<(Seq<char>, Seq<char>, Seq<char>)>
    decreases secrets.len(),
{
    if secrets.len() == 0 {
        Seq::empty()
    } else {
        let rest = restored_secrets(secrets.drop_last());
        let (c, k, v) = secrets.last();
        if v@.len() > 0 {
            rest.push((c@, k@, v@))
        } else {
            rest
        }
    }
}

/// The views of (connection id, key, value) triples.
pub open spec fn triple_views(t: Seq<(String, String, String)>) -> Seq<(Seq<char>, Seq<char>, Seq<char>)> {
    t.map_values(|x: (String, String, String)| (x.0@, x.1@, x.2@))
}

/// The connection secrets a sync import stores, from the restored
/// (connection id, key, value) triples: empty values are skipped.
pub fn sync_connection_secret_plan(secrets: &[(String, String, String)]) -> (r: Vec<(String, String, String)>)
    ensures
        triple_views(r@) == restored_secrets(secrets@),
{
    let mut out: Vec<(String, String, String)> = Vec::new();
    let mut i: usize = 0;
    assert(secrets@.take(0) =~= Seq::<(String, String, String)>::empty());
    assert(triple_views(out@) =~= Seq::<(Seq<char>, Seq<char>, Seq<char>)>::empty());
    while i < secrets.len()
        invariant
            i <= secrets.len(),
            triple_views(out@) == restored_secrets(secrets@.take(i as int)),
        decreases secrets.len() - i,
    {
        assert(secrets@.take(i + 1).drop_last() =~= secrets@.take(i as int));
        assert(secrets@.take(i + 1).last() == secrets@[i as int]);
        let (c, k, v) = &secrets[i];
        if v.as_str().unicode_len() > 0 {
            let ghost before = triple_views(out@);
            out.push((c.clone(), k.clone(), v.clone()));
            assert(triple_views(out@) =~= before.push((c@, k@, v@)));
        }
        i = i + 1;
    }
    assert(secrets@.take(secrets.len() as int) =~= secrets@);
    out
}

/// Whether a transport layer carries a non-empty credential.
pub open spec fn layer_has_secret(layer: TransportLayerSecrets) -> bool {
    match layer {
        TransportLayerSecrets::Ssh { password, key_passphrase, .. } => password@.len() > 0 || key_passphrase@.len()
            > 0,
        TransportLayerSecrets::Proxy { password, .. } => password@.len() > 0,
        TransportLayerSecrets::HttpTunnel { token, .. } => token@.len() > 0,
    }
}

/// `after` is `before` with every credential cleared: same kind and id.
pub open spec fn layer_scrubbed(before: TransportLayerSecrets, after: TransportLayerSecrets) -> bool {
    match before {
        TransportLayerSecrets::Ssh { id, .. } => after matches TransportLayerSecrets::Ssh {
            id: id2,
            password,
            key_passphrase,
        } && id2@ == id@ && password@.len() == 0 && key_passphrase@.len() == 0,
        TransportLayerSecrets::Proxy { id, .. } => after matches TransportLayerSecrets::Proxy { id: id2, password }
            && id2@ == id@ && password@.len() == 0,
        TransportLayerSecrets::HttpTunnel { id, .. } => after matches TransportLayerSecrets::HttpTunnel {
            id: id2,
            token,
        } && id2@ == id@ && token@.len() == 0,
    }
}

/// A legacy tunnel profile with its credentials cleared, for its stored
/// configuration, and whether clearing changed it, in which case the
/// original profile is moved to its encrypted blob.
pub fn scrub_tunnel_profile(profile: &TransportLayerSecrets) -> (r: (TransportLayerSecrets, bool))
    ensures
        layer_scrubbed(*profile, r.0),
        !layer_has_secret(r.0),
        r.1 == layer_has_secret(*profile),
{
    match profile {
        TransportLayerSecrets::Ssh { id, password, key_passphrase } => (
            TransportLayerSecrets::Ssh { id: id.clone(), password: empty_string(), key_passphrase: empty_string() },
            password.as_str().unicode_len() > 0 || key_passphrase.as_str().unicode_len() > 0,
        ),
        TransportLayerSecrets::Proxy { id, password } => (
            TransportLayerSecrets::Proxy { id: id.clone(), password: empty_string() },
            password.as_str().unicode_len() > 0,
        ),
        TransportLayerSecrets::HttpTunnel { id, token } => (
            TransportLayerSecrets::HttpTunnel { id: id.clone(), token: empty_string() },
            token.as_str().unicode_len() > 0,
        ),
    }
}

/// `after` holds none of the credentials of `before`: the password,
/// Sentinel password, URL parameters, connection string and init script are
/// cleared and every layer is scrubbed; whether to save the password stays.
pub open spec fn fields_sanitized(before: ConnectionSecretFields, after: ConnectionSecretFields) -> bool {
    &&& after.save_password == before.save_password
    &&& after.password@.len() == 0
    &&& after.url_params is None
    &&& after.transport_layers@.len() == before.transport_layers@.len()
    &&& forall|i: int|
        0 <= i < before.transport_layers@.len() ==> layer_scrubbed(
            #[trigger] before.transport_layers@[i],
            after.transport_layers@[i],
        )
    &&& after.redis_sentinel_password@.len() == 0
    &&& after.connection_string is None
    &&& after.init_script is None
}

/// The credential fields of a connection as its stored configuration keeps
/// them: every credential goes to the secret store instead.
pub fn sanitized_connection_fields(fields: &ConnectionSecretFields) -> (r: ConnectionSecretFields)
    ensures
        fields_sanitized(*fields, r),
        forall|i: int| 0 <= i < r.transport_layers@.len() ==> !layer_has_secret(#[trigger] r.transport_layers@[i]),
{
    let mut layers: Vec<TransportLayerSecrets> = Vec::new();
    let mut i: usize = 0;
    while i < fields.transport_layers.len()
        invariant
            i <= fields.transport_layers.len(),
            layers@.len() == i,
            forall|j: int| 0 <= j < i ==> layer_scrubbed(#[trigger] fields.transport_layers@[j], layers@[j]),
            forall|j: int| 0 <= j < i ==> !layer_has_secret(#[trigger] layers@[j]),
        decreases fields.transport_layers.len() - i,
    {
        let (clean, _) = scrub_tunnel_profile(&fields.transport_layers[i]);
        layers.push(clean);
        i = i + 1;
    }
    ConnectionSecretFields {
        save_password: fields.save_password,
        password: empty_string(),
        transport_layers: layers,
        redis_sentinel_password: empty_string(),
        url_params: None,
        connection_string: None,
        init_script: None,
    }
}

/// The moves of legacy tunnel profiles, each given as (id, profile): for
/// each, in order, its secret namespace, the profile as its stored
/// configuration keeps it (no credential left), and whether the original
/// profile goes to its encrypted blob (it held a credential).
pub fn plan_tunnel_profile_moves(tunnels: &[(String, TransportLayerSecrets)]) -> (r: Vec<
    (String, TransportLayerSecrets, bool),
>)
    ensures
        r@.len() == tunnels@.len(),
        forall|i: int|
            0 <= i < r@.len() ==> {
                let (id, profile) = #[trigger] tunnels@[i];
                &&& r@[i].0@ == legacy_config_namespace_of(LegacyConfigKind::TunnelProfile, id@)
                &&& layer_scrubbed(profile, r@[i].1)
                &&& !layer_has_secret(r@[i].1)
                &&& r@[i].2 == layer_has_secret(profile)
            },
{
    let mut out: Vec<(String, TransportLayerSecrets, bool)> = Vec::new();
    let mut i: usize = 0;
    while i < tunnels.len()
        invariant
            i <= tunnels.len(),
            out@.len() == i,
            forall|j: int|
                0 <= j < i ==> {
                    let (id, profile) = #[trigger] tunnels@[j];
                    &&& out@[j].0@ == legacy_config_namespace_of(LegacyConfigKind::TunnelProfile, id@)
                    &&& layer_scrubbed(profile, out@[j].1)
                    &&& !layer_has_secret(out@[j].1)
                    &&& out@[j].2 == layer_has_secret(profile)
                },
        decreases tunnels.len() - i,
    {
        let (id, profile) = &tunnels[i];
        let namespace = legacy_config_namespace(LegacyConfigKind::TunnelProfile, id.as_str());
        let (clean, changed) = scrub_tunnel_profile(profile);
        out.push((namespace, clean, changed));
        i = i + 1;
    }
    out
}

/// Saving plugin secrets first clears every key under the prefix, then
/// stores each secret with a non-empty name under the prefix and its name,
/// with its value; a secret with an empty name is never stored, and nothing
/// else is written.
pub proof fn lemma_plugin_secrets_stored(prefix: Seq<char>, secrets: Seq<(String, String)>)
    ensures
        plugin_secret_writes(prefix, secrets).len() >= 1,
        plugin_secret_writes(prefix, secrets)[0] == SecretWriteView::RemovePrefix(prefix),
        forall|i: int|
            0 <= i < secrets.len() && (#[trigger] secrets[i]).0@.len() > 0 ==> plugin_secret_writes(
                prefix,
                secrets,
            ).contains(SecretWriteView::Put(prefix + secrets[i].0@, secrets[i].1@)),
        forall|j: int|
            1 <= j < plugin_secret_writes(prefix, secrets).len() ==> (#[trigger] plugin_secret_writes(
                prefix,
                secrets,
            )[j] matches SecretWriteView::Put(k, v) && exists|i: int|
                0 <= i < secrets.len() && secrets[i].0@.len() > 0 && k == prefix + (#[trigger] secrets[i]).0@ && v
                    == secrets[i].1@),
    decreases secrets.len(),
{
    if secrets.len() > 0 {
        let init = secrets.drop_last();
        lemma_plugin_secrets_stored(prefix, init);
        let rest = plugin_secret_writes(prefix, init);
        let w = plugin_secret_writes(prefix, secrets);
        let (k, v) = secrets.last();
        assert forall|i: int| 0 <= i < secrets.len() && (#[trigger] secrets[i]).0@.len() > 0 implies w.contains(
            SecretWriteView::Put(prefix + secrets[i].0@, secrets[i].1@),
        ) by {
            if i < secrets.len() - 1 {
                assert(init[i] == secrets[i]);
                assert(rest.contains(SecretWriteView::Put(prefix + init[i].0@, init[i].1@)));
                let m = choose|m: int| 0 <= m < rest.len() && rest[m] == SecretWriteView::Put(prefix + init[i].0@, init[i].1@);
                if k@.len() > 0 {
                    assert(w[m] == rest[m]);
                }
            } else {
                assert(w[w.len() - 1] == SecretWriteView::Put(prefix + k@, v@));
            }
        }
        assert forall|j: int| 1 <= j < w.len() implies (#[trigger] w[j] matches SecretWriteView::Put(kk, vv) && exists|i: int|
            0 <= i < secrets.len() && secrets[i].0@.len() > 0 && kk == prefix + (#[trigger] secrets[i]).0@ && vv
                == secrets[i].1@) by {
            if j < rest.len() {
                assert(w[j] == rest[j]);
                assert(rest[j] matches SecretWriteView::Put(kk, vv) && exists|i: int|
                    0 <= i < init.len() && init[i].0@.len() > 0 && kk == prefix + (#[trigger] init[i]).0@ && vv
                        == init[i].1@);
                match rest[j] {
                    SecretWriteView::Put(kk, vv) => {
                        let i = choose|i: int|
                            0 <= i < init.len() && init[i].0@.len() > 0 && kk == prefix + (#[trigger] init[i]).0@ && vv
                                == init[i].1@;
                        assert(secrets[i] == init[i]);
                    },
                    _ => {},
                }
            } else {
                assert(secrets[secrets.len() - 1] == (k, v));
            }
        }
    }
}

/// A sync import needs the encryption key when it may write any secret:
/// a restored connection with URL parameters, a non-empty restored secret,
/// a restored credential, tunnel secrets or AI configurations. One that
/// restores none of these does not.
pub proof fn lemma_import_key_need(
    url_params: Seq<Option<String>>,
    secrets: Option<Seq<String>>,
    credentials: Option<usize>,
    tunnel_secrets: bool,
    ai_configs: bool,
    i: int,
)
    ensures
        0 <= i < url_params.len() && (url_params[i] matches Some(u) && u@.len() > 0) ==> import_needs_key(
            url_params,
            secrets,
            credentials,
            tunnel_secrets,
            ai_configs,
        ),
        (secrets matches Some(s) && 0 <= i < s.len() && s[i]@.len() > 0) ==> import_needs_key(
            url_params,
            secrets,
            credentials,
            tunnel_secrets,
            ai_configs,
        ),
        (credentials matches Some(n) && n > 0) || tunnel_secrets || ai_configs ==> import_needs_key(
            url_params,
            secrets,
            credentials,
            tunnel_secrets,
            ai_configs,
        ),
        (forall|k: int| 0 <= k < url_params.len() ==> !(#[trigger] url_params[k] matches Some(u) && u@.len() > 0))
            && (secrets matches Some(s) ==> forall|k: int| 0 <= k < s.len() ==> (#[trigger] s[k])@.len() == 0)
            && !(credentials matches Some(n) && n > 0) && !tunnel_secrets && !ai_configs ==> !import_needs_key(
            url_params,
            secrets,
            credentials,
            tunnel_secrets,
            ai_configs,
        ),
{
}

} // verus!
