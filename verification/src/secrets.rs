//! Names under which connection secrets are stored.

use vstd::prelude::*;
use crate::text::{
    chars_after, chars_occur_at, chars_of, char_views, has_prefix, insert_sorted, is_canonical_list, string_of,
    string_views, strictly_sorted, trim, trim_chars,
};

verus! {

/// Stored secrets of SSH tunnel hops start with this.
pub const SSH_TUNNEL_SECRET_PREFIX: &'static str = "ssh_tunnels.";
/// Stored secrets of transport layers start with this.
pub const TRANSPORT_LAYER_SECRET_PREFIX: &'static str = "transport_layers.";

/// The decimal digits of `n`.
pub open spec fn decimal(n: nat) -> Seq<char>
    decreases n,
{
    if n < 10 {
        seq![(48 + n) as char]
    } else {
        decimal(n / 10) + seq![(48 + n % 10) as char]
    }
}

/// `n` in decimal, as `usize::to_string` writes it.
pub fn usize_decimal(n: usize) -> (r: String)
    ensures
        r@ == decimal(n as nat),
{
    let mut digits: Vec<char> = Vec::new();
    let mut m = n;
    let ghost mut tail: Seq<char> = Seq::empty();
    while m >= 10
        invariant
            decimal(n as nat) == decimal(m as nat) + tail,
            digits@.len() == tail.len(),
            forall|i: int| 0 <= i < tail.len() ==> digits@[i] == tail[tail.len() - 1 - i],
        decreases m,
    {
        let d = (48 + (m % 10) as u8) as char;
        proof {
            assert(decimal(m as nat) == decimal((m / 10) as nat) + seq![d]);
            assert(decimal(n as nat) == decimal((m / 10) as nat) + (seq![d] + tail)) by {
                assert(decimal((m / 10) as nat) + seq![d] + tail =~= decimal((m / 10) as nat) + (seq![d] + tail));
            }
        }
        digits.push(d);
        proof {
            tail = seq![d] + tail;
        }
        m = m / 10;
    }
    let d = (48 + m as u8) as char;
    digits.push(d);
    proof {
        assert(decimal(m as nat) == seq![d]);
        tail = seq![d] + tail;
    }
    let mut out: Vec<char> = Vec::new();
    let mut k = digits.len();
    while k > 0
        invariant
            k <= digits@.len(),
            digits@.len() == tail.len(),
            forall|i: int| 0 <= i < tail.len() ==> digits@[i] == tail[tail.len() - 1 - i],
            out@ == tail.subrange(0, (tail.len() - k) as int),
        decreases k,
    {
        out.push(digits[k - 1]);
        k = k - 1;
        assert(out@ =~= tail.subrange(0, (tail.len() - k) as int));
    }
    assert(out@ =~= tail);
    assert(decimal(n as nat) =~= tail);
    string_of(out.as_slice())
}

/// The segment that names a hop's secrets: its id, or its position where
/// the id is blank.
pub open spec fn ssh_segment(index: usize, hop_id: Seq<char>) -> Seq<char> {
    if trim(hop_id).len() == 0 {
        decimal(index as nat)
    } else {
        hop_id
    }
}

/// The segment that names an SSH tunnel hop's secrets.
pub fn ssh_tunnel_secret_segment(index: usize, hop_id: &str) -> (r: String)
    ensures
        r@ == ssh_segment(index, hop_id@),
{
    let c = chars_of(hop_id);
    if trim_chars(c.as_slice()).len() == 0 {
        usize_decimal(index)
    } else {
        String::from_str(hop_id)
    }
}

/// Where a hop's password is stored.
pub fn ssh_tunnel_password_key(index: usize, hop_id: &str) -> (r: String)
    ensures
        r@ == SSH_TUNNEL_SECRET_PREFIX@ + ssh_segment(index, hop_id@) + ".password"@,
{
    String::from_str(SSH_TUNNEL_SECRET_PREFIX).concat(ssh_tunnel_secret_segment(index, hop_id).as_str()).concat(".password")
}

/// Where a hop's key passphrase is stored.
pub fn ssh_tunnel_key_passphrase_key(index: usize, hop_id: &str) -> (r: String)
    ensures
        r@ == SSH_TUNNEL_SECRET_PREFIX@ + ssh_segment(index, hop_id@) + ".key_passphrase"@,
{
    String::from_str(SSH_TUNNEL_SECRET_PREFIX).concat(ssh_tunnel_secret_segment(index, hop_id).as_str()).concat(
        ".key_passphrase",
    )
}

/// The segment that names a transport layer's secrets: its trimmed id, or
/// its position where the id is blank.
pub open spec fn layer_segment(index: usize, layer_id: Seq<char>) -> Seq<char> {
    if trim(layer_id).len() == 0 {
        decimal(index as nat)
    } else {
        trim(layer_id)
    }
}

/// The segment that names a transport layer's secrets.
pub fn transport_layer_secret_segment(index: usize, layer_id: &str) -> (r: String)
    ensures
        r@ == layer_segment(index, layer_id@),
{
    let c = chars_of(layer_id);
    let t = trim_chars(c.as_slice());
    if t.len() == 0 {
        usize_decimal(index)
    } else {
        string_of(t.as_slice())
    }
}

/// Where a transport layer's secret `field` is stored.
pub open spec fn layer_secret_key(index: usize, layer_id: Seq<char>, field: Seq<char>) -> Seq<char> {
    TRANSPORT_LAYER_SECRET_PREFIX@ + layer_segment(index, layer_id) + field
}

fn layer_key(index: usize, layer_id: &str, field: &str) -> (r: String)
    ensures
        r@ == layer_secret_key(index, layer_id@, field@),
{
    String::from_str(TRANSPORT_LAYER_SECRET_PREFIX).concat(transport_layer_secret_segment(index, layer_id).as_str()).concat(
        field,
    )
}

/// Where a transport layer's SSH password is stored.
pub fn transport_layer_ssh_password_key(index: usize, layer_id: &str) -> (r: String)
    ensures
        r@ == layer_secret_key(index, layer_id@, ".ssh_password"@),
{
    layer_key(index, layer_id, ".ssh_password")
}

/// Where a transport layer's SSH key passphrase is stored.
pub fn transport_layer_ssh_key_passphrase_key(index: usize, layer_id: &str) -> (r: String)
    ensures
        r@ == layer_secret_key(index, layer_id@, ".ssh_key_passphrase"@),
{
    layer_key(index, layer_id, ".ssh_key_passphrase")
}

/// Where a transport layer's proxy password is stored.
pub fn transport_layer_proxy_password_key(index: usize, layer_id: &str) -> (r: String)
    ensures
        r@ == layer_secret_key(index, layer_id@, ".proxy_password"@),
{
    layer_key(index, layer_id, ".proxy_password")
}

/// Where a transport layer's HTTP tunnel token is stored.
pub fn transport_layer_http_tunnel_token_key(index: usize, layer_id: &str) -> (r: String)
    ensures
        r@ == layer_secret_key(index, layer_id@, ".http_tunnel_token"@),
{
    layer_key(index, layer_id, ".http_tunnel_token")
}

/// The secret of a transport layer.
#[derive(Debug, Clone, Copy, PartialEq, Eq)]
pub enum LayerSecret {
    SshPassword,
    SshKeyPassphrase,
    ProxyPassword,
    HttpTunnelToken,
}

/// The stored keys under which a transport layer's secret is looked up, in
/// order: the layer's own key, then the key an older release stored it
/// under, if any (an SSH hop's key, or the single-tunnel key of the layer
/// with id `legacy` or `legacy-proxy`).
pub open spec fn layer_secret_lookup(secret: LayerSecret, index: usize, layer_id: Seq<char>) -> Seq<Seq<char>> {
    match secret {
        LayerSecret::SshPassword => seq![
            layer_secret_key(index, layer_id, ".ssh_password"@),
            if layer_id == "legacy"@ {
                "ssh_password"@
            } else {
                SSH_TUNNEL_SECRET_PREFIX@ + ssh_segment(index, layer_id) + ".password"@
            },
        ],
        LayerSecret::SshKeyPassphrase => seq![
            layer_secret_key(index, layer_id, ".ssh_key_passphrase"@),
            if layer_id == "legacy"@ {
                "ssh_key_passphrase"@
            } else {
                SSH_TUNNEL_SECRET_PREFIX@ + ssh_segment(index, layer_id) + ".key_passphrase"@
            },
        ],
        LayerSecret::ProxyPassword => if layer_id == "legacy-proxy"@ {
            seq![layer_secret_key(index, layer_id, ".proxy_password"@), "proxy_password"@]
        } else {
            seq![layer_secret_key(index, layer_id, ".proxy_password"@)]
        },
        LayerSecret::HttpTunnelToken => seq![layer_secret_key(index, layer_id, ".http_tunnel_token"@)],
    }
}

/// The stored keys under which the secret of the transport layer at
/// `index`, with id `layer_id`, is looked up when a connection is loaded;
/// the first key that holds a value wins, and none leaves the secret empty.
pub fn transport_layer_secret_lookup(secret: LayerSecret, index: usize, layer_id: &str) -> (r: Vec<String>)
    ensures
        string_views(r@) == layer_secret_lookup(secret, index, layer_id@),
{
    let mut r: Vec<String> = Vec::new();
    match secret {
        LayerSecret::SshPassword => {
            r.push(transport_layer_ssh_password_key(index, layer_id));
            if crate::text::str_eq(layer_id, "legacy") {
                r.push(String::from_str("ssh_password"));
            } else {
                r.push(ssh_tunnel_password_key(index, layer_id));
            }
        },
        LayerSecret::SshKeyPassphrase => {
            r.push(transport_layer_ssh_key_passphrase_key(index, layer_id));
            if crate::text::str_eq(layer_id, "legacy") {
                r.push(String::from_str("ssh_key_passphrase"));
            } else {
                r.push(ssh_tunnel_key_passphrase_key(index, layer_id));
            }
        },
        LayerSecret::ProxyPassword => {
            r.push(transport_layer_proxy_password_key(index, layer_id));
            if crate::text::str_eq(layer_id, "legacy-proxy") {
                r.push(String::from_str("proxy_password"));
            }
        },
        LayerSecret::HttpTunnelToken => {
            r.push(transport_layer_http_tunnel_token_key(index, layer_id));
        },
    }
    assert(string_views(r@) =~= layer_secret_lookup(secret, index, layer_id@));
    r
}

/// A stored WebDAV password is keyed by this and the account's name.
pub const WEBDAV_PASSWORD_KEY_PREFIX: &'static str = "webdav_password.";

/// The account a secret key names, if it is a WebDAV password key with a
/// non-empty account.
pub open spec fn webdav_account_of(key: Seq<char>) -> Option<Seq<char>> {
    let p = "webdav_password."@;
    if has_prefix(key, p) && key.len() > p.len() {
        Some(key.skip(p.len() as int))
    } else {
        None
    }
}

/// The accounts that have a stored WebDAV password: those named by a secret
/// key, and the legacy accounts (kept in the settings) whose password was
/// found.
pub open spec fn webdav_account_set(keys: Seq<Seq<char>>, legacy: Seq<Seq<char>>) -> Set<Seq<char>> {
    Set::new(
        |a: Seq<char>|
            (exists|i: int| 0 <= i < keys.len() && webdav_account_of(#[trigger] keys[i]) == Some(a))
                || legacy.contains(a),
    )
}

/// The accounts with a stored WebDAV password, sorted and without
/// duplicates: from the keys of the global secret namespace, and from the
/// legacy accounts whose password could be read.
pub fn webdav_password_accounts(secret_keys: &[String], legacy_accounts: &[String]) -> (r: Vec<String>)
    ensures
        is_canonical_list(
            string_views(r@),
            webdav_account_set(string_views(secret_keys@), string_views(legacy_accounts@)),
        ),
{
    let ghost keys = string_views(secret_keys@);
    let ghost legacy = string_views(legacy_accounts@);
    let prefix = chars_of(WEBDAV_PASSWORD_KEY_PREFIX);
    proof {
        reveal_strlit("webdav_password.");
    }
    let mut acc: Vec<Vec<char>> = Vec::new();
    let mut i: usize = 0;
    assert(char_views(acc@).to_set() =~= webdav_account_set(keys.take(0), Seq::empty()));
    while i < secret_keys.len()
        invariant
            i <= secret_keys.len(),
            keys == string_views(secret_keys@),
            prefix@ == "webdav_password."@,
            strictly_sorted(char_views(acc@)),
            char_views(acc@).to_set() == webdav_account_set(keys.take(i as int), Seq::empty()),
        decreases secret_keys.len() - i,
    {
        let k = chars_of(secret_keys[i].as_str());
        let ghost before = char_views(acc@).to_set();
        if k.len() > prefix.len() && chars_occur_at(k.as_slice(), prefix.as_slice(), 0) {
            let a = chars_after(k.as_slice(), prefix.len());
            insert_sorted(&mut acc, a);
        }
        i = i + 1;
        assert(char_views(acc@).to_set() =~= webdav_account_set(keys.take(i as int), Seq::empty())) by {
            let now = keys.take(i as int);
            let was = keys.take(i - 1);
            assert(now[i - 1] == keys[i - 1]);
            assert forall|s: Seq<char>| webdav_account_set(now, Seq::empty()).contains(s)
                implies char_views(acc@).to_set().contains(s) by {
                let j = choose|j: int| 0 <= j < now.len() && webdav_account_of(#[trigger] now[j]) == Some(s);
                if j < i - 1 {
                    assert(was[j] == now[j]);
                    assert(webdav_account_set(was, Seq::empty()).contains(s));
                }
            }
            assert forall|s: Seq<char>| char_views(acc@).to_set().contains(s)
                implies webdav_account_set(now, Seq::empty()).contains(s) by {
                if before.contains(s) {
                    assert(webdav_account_set(was, Seq::empty()).contains(s));
                    let j = choose|j: int| 0 <= j < was.len() && webdav_account_of(#[trigger] was[j]) == Some(s);
                    assert(was[j] == now[j]);
                } else {
                    assert(webdav_account_of(now[i - 1]) == Some(s));
                }
            }
        }
    }
    assert(keys.take(secret_keys.len() as int) =~= keys);
    let mut j: usize = 0;
    assert(char_views(acc@).to_set() =~= webdav_account_set(keys, legacy.take(0)));
    while j < legacy_accounts.len()
        invariant
            j <= legacy_accounts.len(),
            legacy == string_views(legacy_accounts@),
            strictly_sorted(char_views(acc@)),
            char_views(acc@).to_set() == webdav_account_set(keys, legacy.take(j as int)),
        decreases legacy_accounts.len() - j,
    {
        let ghost before = char_views(acc@).to_set();
        insert_sorted(&mut acc, chars_of(legacy_accounts[j].as_str()));
        j = j + 1;
        assert(char_views(acc@).to_set() =~= webdav_account_set(keys, legacy.take(j as int))) by {
            let now = legacy.take(j as int);
            let was = legacy.take(j - 1);
            assert(now =~= was.push(legacy[j - 1]));
            assert forall|s: Seq<char>| webdav_account_set(keys, now).contains(s)
                implies char_views(acc@).to_set().contains(s) by {
                if now.contains(s) && s != legacy[j - 1] {
                    let q = choose|q: int| 0 <= q < now.len() && now[q] == s;
                    assert(was[q] == s);
                }
            }
            assert forall|s: Seq<char>| char_views(acc@).to_set().contains(s)
                implies webdav_account_set(keys, now).contains(s) by {
                if before.contains(s) && was.contains(s) {
                    let q = choose|q: int| 0 <= q < was.len() && was[q] == s;
                    assert(now[q] == s);
                } else if !before.contains(s) {
                    assert(now[j - 1] == s);
                }
            }
        }
    }
    assert(legacy.take(legacy_accounts.len() as int) =~= legacy);
    let mut r: Vec<String> = Vec::new();
    let mut k: usize = 0;
    while k < acc.len()
        invariant
            k <= acc.len(),
            string_views(r@) == char_views(acc@).take(k as int),
        decreases acc.len() - k,
    {
        let ghost prev = string_views(r@);
        r.push(string_of(acc[k].as_slice()));
        k = k + 1;
        assert(string_views(r@) =~= prev.push(char_views(acc@)[k - 1]));
        assert(string_views(r@) =~= char_views(acc@).take(k as int));
    }
    assert(char_views(acc@).take(acc.len() as int) =~= char_views(acc@));
    r
}

} // verus!
