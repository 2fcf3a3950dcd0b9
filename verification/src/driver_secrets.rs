//! Credentials in the driver options of particular connection kinds (MQTT,
//! message-queue token signing, Nacos, Cassandra TLS, Salesforce): the
//! secret-store writes that saving such a connection makes, and how loading
//! puts stored values back into the options. Each kind keeps its secrets
//! under its own key prefix and keys, given by the caller.

use vstd::prelude::*;
use crate::text::str_eq;
use crate::migration::opt_view;
use crate::json::{json_as_str, json_object_get, json_object_insert, object_get, text_of, JsonValue};
use crate::connection_json::{child_json_object, child_object, json_secret, secret_in};
use crate::secret_writes::{push_write, write_views, SecretWrite, SecretWriteView};

verus! {

/// A store of `v` under `key`, where there is a value.
pub open spec fn put_value(key: Seq<char>, v: Option<Seq<char>>) -> Seq<SecretWriteView> {
    match v {
        Some(s) => seq![SecretWriteView::Put(key, s)],
        None => Seq::empty(),
    }
}

/// `a`, or else `b`.
pub open spec fn or_else(a: Option<Seq<char>>, b: Option<Seq<char>>) -> Option<Seq<char>> {
    match a {
        Some(x) => Some(x),
        None => b,
    }
}

fn push_put(out: &mut Vec<SecretWrite>, key: &str, v: Option<String>)
    ensures
        write_views(final(out)@) == write_views(old(out)@) + put_value(key@, opt_view(v)),
{
    let ghost before = write_views(out@);
    match v {
        Some(s) => {
            push_write(out, SecretWrite::Put(String::from_str(key), s));
        },
        None => {},
    }
    assert(write_views(out@) =~= before + put_value(key@, opt_view(v)));
}

fn first_of(current: Option<&str>, existing: &Option<String>) -> (r: Option<String>)
    ensures
        opt_view(r) == or_else(
            match current {
                Some(c) => Some(c@),
                None => None,
            },
            opt_view(*existing),
        ),
{
    match current {
        Some(c) => Some(String::from_str(c)),
        None => existing.clone(),
    }
}

/// The block `key` of the driver options when its `kind` is `kind`.
pub open spec fn block_of_kind(external: Option<JsonValue>, key: Seq<char>, kind: Seq<char>) -> Option<
    Seq<(String, JsonValue)>,
> {
    match child_object(external, key) {
        Some(a) => if text_of(object_get(a, "kind"@)) == Some(kind) {
            Some(a)
        } else {
            None
        },
        None => None,
    }
}

fn block_of_kind_exec<'a>(external: &'a Option<JsonValue>, key: &str, kind: &str) -> (r: Option<
    &'a Vec<(String, JsonValue)>,
>)
    ensures
        match r {
            Some(a) => block_of_kind(*external, key@, kind@) == Some(a@),
            None => block_of_kind(*external, key@, kind@) is None,
        },
{
    match child_json_object(external.as_ref(), key) {
        Some(a) => match json_as_str(json_object_get(a.as_slice(), "kind")) {
            Some(k) => if str_eq(k, kind) {
                Some(a)
            } else {
                None
            },
            None => None,
        },
        None => None,
    }
}

/// Saving an MQTT connection's password: the prefix's keys are cleared,
/// then, for an MQTT connection whose `auth` block is of kind `password`,
/// the block's password, or else the one stored before, is stored.
pub open spec fn mqtt_auth_writes(
    applies: bool,
    external: Option<JsonValue>,
    prefix: Seq<char>,
    key: Seq<char>,
    existing: Option<Seq<char>>,
) -> Seq<SecretWriteView> {
    seq![SecretWriteView::RemovePrefix(prefix)] + if applies {
        match block_of_kind(external, "auth"@, "password"@) {
            Some(a) => put_value(key, or_else(secret_in(a, "password"@), existing)),
            None => Seq::empty(),
        }
    } else {
        Seq::empty()
    }
}

/// The writes that saving an MQTT connection's password makes; `applies`
/// says whether the connection is an MQTT one and `existing` is what `key`
/// holds before the save.
pub fn mqtt_auth_secret_writes(
    applies: bool,
    external: &Option<JsonValue>,
    prefix: &str,
    key: &str,
    existing: &Option<String>,
) -> (r: Vec<SecretWrite>)
    ensures
        write_views(r@) == mqtt_auth_writes(applies, *external, prefix@, key@, opt_view(*existing)),
{
    let mut out: Vec<SecretWrite> = Vec::new();
    push_write(&mut out, SecretWrite::RemovePrefix(String::from_str(prefix)));
    if applies {
        match block_of_kind_exec(external, "auth", "password") {
            Some(a) => {
                let v = first_of(json_secret(a, "password"), existing);
                push_put(&mut out, key, v);
            },
            None => {},
        }
    }
    assert(write_views(out@) =~= mqtt_auth_writes(applies, *external, prefix@, key@, opt_view(*existing)));
    out
}

/// Saving a message-queue token-signing key: where the connection is not a
/// message queue or has no `tokenSigning` block, the prefix's keys are
/// cleared; otherwise a non-empty key in the block is stored, and a missing
/// or empty one leaves the store as it is.
pub open spec fn token_signing_writes(applies: bool, external: Option<JsonValue>, prefix: Seq<char>, key: Seq<char>) -> Seq<
    SecretWriteView,
> {
    match child_object(external, "tokenSigning"@) {
        Some(s) => if applies {
            put_value(key, secret_in(s, "key"@))
        } else {
            seq![SecretWriteView::RemovePrefix(prefix)]
        },
        None => seq![SecretWriteView::RemovePrefix(prefix)],
    }
}

/// The writes that saving a message-queue token-signing key makes.
pub fn token_signing_secret_writes(applies: bool, external: &Option<JsonValue>, prefix: &str, key: &str) -> (r: Vec<
    SecretWrite,
>)
    ensures
        write_views(r@) == token_signing_writes(applies, *external, prefix@, key@),
{
    let mut out: Vec<SecretWrite> = Vec::new();
    match child_json_object(external.as_ref(), "tokenSigning") {
        Some(s) => if applies {
            let v = match json_secret(s, "key") {
                Some(k) => Some(String::from_str(k)),
                None => None,
            };
            push_put(&mut out, key, v);
        } else {
            push_write(&mut out, SecretWrite::RemovePrefix(String::from_str(prefix)));
        },
        None => {
            push_write(&mut out, SecretWrite::RemovePrefix(String::from_str(prefix)));
        },
    }
    assert(write_views(out@) =~= token_signing_writes(applies, *external, prefix@, key@));
    out
}

/// The password to store for a Nacos auth block of kind `usernamePassword`:
/// the block's, or else the one stored before; none without such a block.
pub open spec fn nacos_password(block: Option<Seq<(String, JsonValue)>>, existing: Option<Seq<char>>) -> Option<
    Seq<char>,
> {
    match block {
        Some(a) => or_else(secret_in(a, "password"@), existing),
        None => None,
    }
}

/// Saving a Nacos connection's passwords: the prefix's keys are cleared;
/// then, for a Nacos connection whose password is saved, the password of the
/// `auth` block and that of the `rnacosConsoleAuth` block (each of kind
/// `usernamePassword`), or else the ones stored before, are stored.
pub open spec fn nacos_auth_writes(
    applies: bool,
    save_password: bool,
    external: Option<JsonValue>,
    prefix: Seq<char>,
    primary_key: Seq<char>,
    console_key: Seq<char>,
    existing_primary: Option<Seq<char>>,
    existing_console: Option<Seq<char>>,
) -> Seq<SecretWriteView> {
    seq![SecretWriteView::RemovePrefix(prefix)] + if applies && save_password {
        put_value(primary_key, nacos_password(block_of_kind(external, "auth"@, "usernamePassword"@), existing_primary))
            + put_value(
            console_key,
            nacos_password(block_of_kind(external, "rnacosConsoleAuth"@, "usernamePassword"@), existing_console),
        )
    } else {
        Seq::empty()
    }
}

fn nacos_password_exec(block: Option<&Vec<(String, JsonValue)>>, existing: &Option<String>) -> (r: Option<String>)
    ensures
        opt_view(r) == nacos_password(
            match block {
                Some(a) => Some(a@),
                None => None,
            },
            opt_view(*existing),
        ),
{
    match block {
        Some(a) => first_of(json_secret(a, "password"), existing),
        None => None,
    }
}

/// The writes that saving a Nacos connection's passwords makes.
pub fn nacos_auth_secret_writes(
    applies: bool,
    save_password: bool,
    external: &Option<JsonValue>,
    prefix: &str,
    primary_key: &str,
    console_key: &str,
    existing_primary: &Option<String>,
    existing_console: &Option<String>,
) -> (r: Vec<SecretWrite>)
    ensures
        write_views(r@) == nacos_auth_writes(
            applies,
            save_password,
            *external,
            prefix@,
            primary_key@,
            console_key@,
            opt_view(*existing_primary),
            opt_view(*existing_console),
        ),
{
    let mut out: Vec<SecretWrite> = Vec::new();
    push_write(&mut out, SecretWrite::RemovePrefix(String::from_str(prefix)));
    if applies && save_password {
        let p = nacos_password_exec(block_of_kind_exec(external, "auth", "usernamePassword"), existing_primary);
        push_put(&mut out, primary_key, p);
        let c = nacos_password_exec(
            block_of_kind_exec(external, "rnacosConsoleAuth", "usernamePassword"),
            existing_console,
        );
        push_put(&mut out, console_key, c);
    }
    assert(write_views(out@) =~= nacos_auth_writes(
        applies,
        save_password,
        *external,
        prefix@,
        primary_key@,
        console_key@,
        opt_view(*existing_primary),
        opt_view(*existing_console),
    ));
    out
}

/// A string field of a block, or the empty text.
pub open spec fn text_or_empty(block: Seq<(String, JsonValue)>, field: Seq<char>) -> Seq<char> {
    match text_of(object_get(block, field)) {
        Some(t) => t,
        None => Seq::empty(),
    }
}

/// Saving a Cassandra connection's TLS store passwords: for a Cassandra
/// connection with a `tls` block, both passwords are written (an empty or
/// missing one removes its key); otherwise the prefix's keys are cleared.
pub open spec fn cassandra_tls_writes(
    applies: bool,
    external: Option<JsonValue>,
    prefix: Seq<char>,
    truststore_key: Seq<char>,
    keystore_key: Seq<char>,
) -> Seq<SecretWriteView> {
    match child_object(external, "tls"@) {
        Some(t) => if applies {
            seq![
                SecretWriteView::Put(truststore_key, text_or_empty(t, "truststore_password"@)),
                SecretWriteView::Put(keystore_key, text_or_empty(t, "keystore_password"@)),
            ]
        } else {
            seq![SecretWriteView::RemovePrefix(prefix)]
        },
        None => seq![SecretWriteView::RemovePrefix(prefix)],
    }
}

fn text_or_empty_exec(block: &Vec<(String, JsonValue)>, field: &str) -> (r: String)
    ensures
        r@ == text_or_empty(block@, field@),
{
    match json_as_str(json_object_get(block.as_slice(), field)) {
        Some(t) => String::from_str(t),
        None => crate::secret_writes::empty_string(),
    }
}

/// The writes that saving a Cassandra connection's TLS passwords makes.
pub fn cassandra_tls_secret_writes(
    applies: bool,
    external: &Option<JsonValue>,
    prefix: &str,
    truststore_key: &str,
    keystore_key: &str,
) -> (r: Vec<SecretWrite>)
    ensures
        write_views(r@) == cassandra_tls_writes(applies, *external, prefix@, truststore_key@, keystore_key@),
{
    let mut out: Vec<SecretWrite> = Vec::new();
    match child_json_object(external.as_ref(), "tls") {
        Some(t) => if applies {
            push_write(
                &mut out,
                SecretWrite::Put(String::from_str(truststore_key), text_or_empty_exec(t, "truststore_password")),
            );
            push_write(
                &mut out,
                SecretWrite::Put(String::from_str(keystore_key), text_or_empty_exec(t, "keystore_password")),
            );
        } else {
            push_write(&mut out, SecretWrite::RemovePrefix(String::from_str(prefix)));
        },
        None => {
            push_write(&mut out, SecretWrite::RemovePrefix(String::from_str(prefix)));
        },
    }
    assert(write_views(out@) =~= cassandra_tls_writes(applies, *external, prefix@, truststore_key@, keystore_key@));
    out
}

/// One Salesforce credential: its key is cleared, then the block's value,
/// or else the one stored before, is stored.
pub open spec fn replaced_secret(
    block: Seq<(String, JsonValue)>,
    field: Seq<char>,
    key: Seq<char>,
    existing: Option<Seq<char>>,
) -> Seq<SecretWriteView> {
    seq![SecretWriteView::Remove(key)] + put_value(key, or_else(secret_in(block, field), existing))
}

/// Saving a Salesforce connection's credentials: for a Salesforce
/// connection with an `auth` block, its client secret, refresh token and
/// password are each replaced in turn; otherwise the prefix's keys are
/// cleared. Keys and values stored before come in the order client secret,
/// refresh token, password.
pub open spec fn salesforce_auth_writes(
    applies: bool,
    external: Option<JsonValue>,
    prefix: Seq<char>,
    keys: (Seq<char>, Seq<char>, Seq<char>),
    existing: (Option<Seq<char>>, Option<Seq<char>>, Option<Seq<char>>),
) -> Seq<SecretWriteView> {
    match child_object(external, "auth"@) {
        Some(a) => if applies {
            replaced_secret(a, "clientSecret"@, keys.0, existing.0) + replaced_secret(
                a,
                "refreshToken"@,
                keys.1,
                existing.1,
            ) + replaced_secret(a, "password"@, keys.2, existing.2)
        } else {
            seq![SecretWriteView::RemovePrefix(prefix)]
        },
        None => seq![SecretWriteView::RemovePrefix(prefix)],
    }
}

fn push_replaced(
    out: &mut Vec<SecretWrite>,
    block: &Vec<(String, JsonValue)>,
    field: &str,
    key: &str,
    existing: &Option<String>,
)
    ensures
        write_views(final(out)@) == write_views(old(out)@) + replaced_secret(block@, field@, key@, opt_view(*existing)),
{
    let ghost before = write_views(out@);
    push_write(out, SecretWrite::Remove(String::from_str(key)));
    let v = first_of(json_secret(block, field), existing);
    push_put(out, key, v);
    assert(write_views(out@) =~= before + replaced_secret(block@, field@, key@, opt_view(*existing)));
}

/// The writes that saving a Salesforce connection's credentials makes.
pub fn salesforce_auth_secret_writes(
    applies: bool,
    external: &Option<JsonValue>,
    prefix: &str,
    keys: (&str, &str, &str),
    existing: (&Option<String>, &Option<String>, &Option<String>),
) -> (r: Vec<SecretWrite>)
    ensures
        write_views(r@) == salesforce_auth_writes(
            applies,
            *external,
            prefix@,
            (keys.0@, keys.1@, keys.2@),
            (opt_view(*existing.0), opt_view(*existing.1), opt_view(*existing.2)),
        ),
{
    let mut out: Vec<SecretWrite> = Vec::new();
    match child_json_object(external.as_ref(), "auth") {
        Some(a) => if applies {
            push_replaced(&mut out, a, "clientSecret", keys.0, existing.0);
            push_replaced(&mut out, a, "refreshToken", keys.1, existing.1);
            push_replaced(&mut out, a, "password", keys.2, existing.2);
        } else {
            push_write(&mut out, SecretWrite::RemovePrefix(String::from_str(prefix)));
        },
        None => {
            push_write(&mut out, SecretWrite::RemovePrefix(String::from_str(prefix)));
        },
    }
    assert(write_views(out@) =~= salesforce_auth_writes(
        applies,
        *external,
        prefix@,
        (keys.0@, keys.1@, keys.2@),
        (opt_view(*existing.0), opt_view(*existing.1), opt_view(*existing.2)),
    ));
    out
}

/// Loading one credential of a driver-option block: a non-empty value in
/// the block is stored under `key` (and the configuration is to be
/// rewritten without it); otherwise a value the store holds (`stored`) is
/// put into the block.
pub fn hydrate_json_secret(block: &mut Vec<(String, JsonValue)>, field: &str, key: &str, stored: &Option<String>) -> (r:
    Option<SecretWrite>)
    ensures
        match secret_in(old(block)@, field@) {
            Some(v) => final(block)@ == old(block)@ && (r matches Some(SecretWrite::Put(k, x)) && k@ == key@ && x@
                == v),
            None => r is None && match *stored {
                Some(s) => forall|f: Seq<char>| #[trigger] object_get(final(block)@, f) == if f == field@ {
                    Some(JsonValue::Text(s))
                } else {
                    object_get(old(block)@, f)
                },
                None => final(block)@ == old(block)@,
            },
        },
{
    match json_secret(block, field) {
        Some(v) => Some(SecretWrite::Put(String::from_str(key), String::from_str(v))),
        None => {
            match stored {
                Some(s) => {
                    json_object_insert(block, field, JsonValue::Text(s.clone()));
                },
                None => {},
            }
            None
        },
    }
}

/// Whether loading a Nacos connection whose password is not saved must
/// rewrite its configuration: its `auth` or `rnacosConsoleAuth` block of
/// kind `usernamePassword` still holds a non-empty password (which the load
/// blanks, clearing the stored Nacos keys).
pub open spec fn nacos_unsaved_rewrite(external: Option<JsonValue>) -> bool {
    ||| (block_of_kind(external, "auth"@, "usernamePassword"@) matches Some(a) && secret_in(a, "password"@) is Some)
    ||| (block_of_kind(external, "rnacosConsoleAuth"@, "usernamePassword"@) matches Some(a) && secret_in(
        a,
        "password"@,
    ) is Some)
}

/// Whether loading a Nacos connection whose password is not saved must
/// rewrite its configuration.
pub fn nacos_unsaved_needs_rewrite(external: &Option<JsonValue>) -> (r: bool)
    ensures
        r == nacos_unsaved_rewrite(*external),
{
    let primary = match block_of_kind_exec(external, "auth", "usernamePassword") {
        Some(a) => json_secret(a, "password").is_some(),
        None => false,
    };
    let console = match block_of_kind_exec(external, "rnacosConsoleAuth", "usernamePassword") {
        Some(a) => json_secret(a, "password").is_some(),
        None => false,
    };
    primary || console
}

/// The driver options hold, under `key`, the object `block`.
pub open spec fn options_hold_block(
    external: Option<JsonValue>,
    key: Seq<char>,
    block: Vec<(String, JsonValue)>,
) -> bool {
    external matches Some(JsonValue::Object(e)) && object_get(e@, key) == Some(JsonValue::Object(block))
}

/// The driver options hold no object under `key`.
pub open spec fn options_lack_block(external: Option<JsonValue>, key: Seq<char>) -> bool {
    !(external matches Some(JsonValue::Object(e)) && object_get(e@, key) matches Some(JsonValue::Object(_)))
}

/// The block's `field` holds the string `v`.
pub open spec fn field_text(block: Vec<(String, JsonValue)>, field: Seq<char>, v: Seq<char>) -> bool {
    object_get(block@, field) matches Some(JsonValue::Text(t)) && t@ == v
}

/// The block's `field` holds no non-empty string.
pub open spec fn field_blank(block: Vec<(String, JsonValue)>, field: Seq<char>) -> bool {
    !(object_get(block@, field) matches Some(JsonValue::Text(t)) && t@.len() > 0)
}

/// Saving a Nacos connection whose password is saved: the prefix is cleared
/// first; a non-empty password in a `usernamePassword` auth block is what is
/// stored under the password key, whatever the store held before; with no
/// such password the stored one is kept, and with neither nothing is stored
/// under the key. The console block's password goes under the console key
/// in the same way, after it.
pub proof fn lemma_nacos_edited_password_wins(
    external: Option<JsonValue>,
    prefix: Seq<char>,
    primary_key: Seq<char>,
    console_key: Seq<char>,
    existing_primary: Option<Seq<char>>,
    existing_console: Option<Seq<char>>,
    auth: Vec<(String, JsonValue)>,
    console: Vec<(String, JsonValue)>,
)
    requires
        options_hold_block(external, "auth"@, auth),
        field_text(auth, "kind"@, "usernamePassword"@),
        options_lack_block(external, "rnacosConsoleAuth"@) || (options_hold_block(external, "rnacosConsoleAuth"@, console)
            && field_text(console, "kind"@, "usernamePassword"@)),
    ensures
        ({
            let w = nacos_auth_writes(
                true,
                true,
                external,
                prefix,
                primary_key,
                console_key,
                existing_primary,
                existing_console,
            );
            &&& w.len() >= 1 && w[0] == SecretWriteView::RemovePrefix(prefix)
            &&& forall|p: Seq<char>|
                field_text(auth, "password"@, p) && p.len() > 0 ==> w.len() >= 2 && w[1] == SecretWriteView::Put(
                    primary_key,
                    p,
                )
            &&& field_blank(auth, "password"@) ==> match existing_primary {
                Some(old) => w.len() >= 2 && w[1] == SecretWriteView::Put(primary_key, old),
                None => forall|i: int| 1 <= i < w.len() ==> !(#[trigger] w[i] matches SecretWriteView::Put(k, _) && k
                    == primary_key && k != console_key),
            }
            &&& options_lack_block(external, "rnacosConsoleAuth"@) ==> forall|i: int|
                1 <= i < w.len() ==> (#[trigger] w[i] matches SecretWriteView::Put(k, _) && k == primary_key)
            &&& !options_lack_block(external, "rnacosConsoleAuth"@) ==> forall|p: Seq<char>|
                field_text(console, "password"@, p) && p.len() > 0 ==> w.last() == SecretWriteView::Put(console_key, p)
        }),
{
}

/// Saving a Nacos connection whose password is not saved, or a connection
/// of another kind, only clears the Nacos keys.
pub proof fn lemma_nacos_unsaved_clears(
    applies: bool,
    save_password: bool,
    external: Option<JsonValue>,
    prefix: Seq<char>,
    primary_key: Seq<char>,
    console_key: Seq<char>,
    existing_primary: Option<Seq<char>>,
    existing_console: Option<Seq<char>>,
)
    requires
        !applies || !save_password,
    ensures
        nacos_auth_writes(applies, save_password, external, prefix, primary_key, console_key, existing_primary, existing_console)
            == seq![SecretWriteView::RemovePrefix(prefix)],
{
    assert(seq![SecretWriteView::RemovePrefix(prefix)] + Seq::<SecretWriteView>::empty() =~= seq![
        SecretWriteView::RemovePrefix(prefix),
    ]);
}

/// Saving a Cassandra connection with a `tls` block stores both of its
/// passwords, the truststore's then the keystore's, each as the block
/// holds it (empty, which removes the key, where it is missing or not a
/// string); without the block, or for another kind, the TLS keys are
/// cleared.
pub proof fn lemma_cassandra_tls_passwords_stored(
    applies: bool,
    external: Option<JsonValue>,
    prefix: Seq<char>,
    truststore_key: Seq<char>,
    keystore_key: Seq<char>,
    tls: Vec<(String, JsonValue)>,
)
    ensures
        applies && options_hold_block(external, "tls"@, tls) ==> {
            let w = cassandra_tls_writes(applies, external, prefix, truststore_key, keystore_key);
            &&& w.len() == 2
            &&& w[0] matches SecretWriteView::Put(k, v) && k == truststore_key && (forall|t: Seq<char>|
                field_text(tls, "truststore_password"@, t) ==> v == t) && (!(object_get(
                tls@,
                "truststore_password"@,
            ) matches Some(JsonValue::Text(_))) ==> v.len() == 0)
            &&& w[1] matches SecretWriteView::Put(k, v) && k == keystore_key && (forall|t: Seq<char>|
                field_text(tls, "keystore_password"@, t) ==> v == t) && (!(object_get(
                tls@,
                "keystore_password"@,
            ) matches Some(JsonValue::Text(_))) ==> v.len() == 0)
        },
        !applies || options_lack_block(external, "tls"@) ==> cassandra_tls_writes(
            applies,
            external,
            prefix,
            truststore_key,
            keystore_key,
        ) == seq![SecretWriteView::RemovePrefix(prefix)],
{
}

/// Saving an MQTT connection whose `auth` block is of kind `password`:
/// the prefix is cleared, then a non-empty password in the block is stored
/// whatever the store held before; with none the stored one is kept; with
/// neither nothing is stored. Other kinds and blocks only clear the prefix.
pub proof fn lemma_mqtt_edited_password_wins(
    applies: bool,
    external: Option<JsonValue>,
    prefix: Seq<char>,
    key: Seq<char>,
    existing: Option<Seq<char>>,
    auth: Vec<(String, JsonValue)>,
)
    ensures
        applies && options_hold_block(external, "auth"@, auth) && field_text(auth, "kind"@, "password"@) ==> {
            let w = mqtt_auth_writes(applies, external, prefix, key, existing);
            &&& forall|p: Seq<char>|
                field_text(auth, "password"@, p) && p.len() > 0 ==> w == seq![
                    SecretWriteView::RemovePrefix(prefix),
                    SecretWriteView::Put(key, p),
                ]
            &&& field_blank(auth, "password"@) ==> w == match existing {
                Some(old) => seq![SecretWriteView::RemovePrefix(prefix), SecretWriteView::Put(key, old)],
                None => seq![SecretWriteView::RemovePrefix(prefix)],
            }
        },
        !applies || options_lack_block(external, "auth"@) ==> mqtt_auth_writes(applies, external, prefix, key, existing)
            == seq![SecretWriteView::RemovePrefix(prefix)],
{
    assert(seq![SecretWriteView::RemovePrefix(prefix)] + Seq::<SecretWriteView>::empty() =~= seq![
        SecretWriteView::RemovePrefix(prefix),
    ]);
    if applies && options_hold_block(external, "auth"@, auth) && field_text(auth, "kind"@, "password"@) {
        let w = mqtt_auth_writes(applies, external, prefix, key, existing);
        assert forall|p: Seq<char>| field_text(auth, "password"@, p) && p.len() > 0 implies w == seq![
            SecretWriteView::RemovePrefix(prefix),
            SecretWriteView::Put(key, p),
        ] by {
            assert(w =~= seq![SecretWriteView::RemovePrefix(prefix), SecretWriteView::Put(key, p)]);
        }
        if field_blank(auth, "password"@) {
            match existing {
                Some(old) => {
                    assert(w =~= seq![SecretWriteView::RemovePrefix(prefix), SecretWriteView::Put(key, old)]);
                },
                None => {
                    assert(w =~= seq![SecretWriteView::RemovePrefix(prefix)]);
                },
            }
        }
    }
}

/// Saving a message-queue token-signing key: with a `tokenSigning` block a
/// non-empty key in it is stored and nothing else happens, and a blank one
/// changes nothing; without the block, or for another kind, the signing
/// keys are cleared.
pub proof fn lemma_token_signing_key_stored(
    applies: bool,
    external: Option<JsonValue>,
    prefix: Seq<char>,
    key: Seq<char>,
    signing: Vec<(String, JsonValue)>,
)
    ensures
        applies && options_hold_block(external, "tokenSigning"@, signing) ==> {
            let w = token_signing_writes(applies, external, prefix, key);
            &&& forall|k: Seq<char>|
                field_text(signing, "key"@, k) && k.len() > 0 ==> w == seq![SecretWriteView::Put(key, k)]
            &&& field_blank(signing, "key"@) ==> w.len() == 0
        },
        !applies || options_lack_block(external, "tokenSigning"@) ==> token_signing_writes(applies, external, prefix, key)
            == seq![SecretWriteView::RemovePrefix(prefix)],
{
}

/// Saving a Salesforce connection with an `auth` block replaces its client
/// secret, refresh token and password in that order: each key is removed,
/// then a non-empty value in the block is stored under it whatever the
/// store held, else the stored value is kept, else nothing is stored.
/// Without the block, or for another kind, the Salesforce keys are cleared.
pub proof fn lemma_salesforce_edited_values_win(
    applies: bool,
    external: Option<JsonValue>,
    prefix: Seq<char>,
    keys: (Seq<char>, Seq<char>, Seq<char>),
    existing: (Option<Seq<char>>, Option<Seq<char>>, Option<Seq<char>>),
    auth: Vec<(String, JsonValue)>,
)
    ensures
        applies && options_hold_block(external, "auth"@, auth) ==> salesforce_auth_writes(
            applies,
            external,
            prefix,
            keys,
            existing,
        ) == kept_or_replaced(auth, "clientSecret"@, keys.0, existing.0) + kept_or_replaced(
            auth,
            "refreshToken"@,
            keys.1,
            existing.1,
        ) + kept_or_replaced(auth, "password"@, keys.2, existing.2),
        !applies || options_lack_block(external, "auth"@) ==> salesforce_auth_writes(
            applies,
            external,
            prefix,
            keys,
            existing,
        ) == seq![SecretWriteView::RemovePrefix(prefix)],
{
    if applies && options_hold_block(external, "auth"@, auth) {
        lemma_kept_or_replaced(auth, "clientSecret"@, keys.0, existing.0);
        lemma_kept_or_replaced(auth, "refreshToken"@, keys.1, existing.1);
        lemma_kept_or_replaced(auth, "password"@, keys.2, existing.2);
    }
}

/// One credential replaced, as its key's removal and then, where there is
/// one, the store of the block's non-empty value or else the stored one.
pub open spec fn kept_or_replaced(
    block: Vec<(String, JsonValue)>,
    field: Seq<char>,
    key: Seq<char>,
    existing: Option<Seq<char>>,
) -> Seq<SecretWriteView> {
    if object_get(block@, field) matches Some(JsonValue::Text(t)) && t@.len() > 0 {
        seq![SecretWriteView::Remove(key), SecretWriteView::Put(key, object_get(block@, field)->Some_0->Text_0@)]
    } else {
        match existing {
            Some(old) => seq![SecretWriteView::Remove(key), SecretWriteView::Put(key, old)],
            None => seq![SecretWriteView::Remove(key)],
        }
    }
}

proof fn lemma_kept_or_replaced(
    block: Vec<(String, JsonValue)>,
    field: Seq<char>,
    key: Seq<char>,
    existing: Option<Seq<char>>,
)
    ensures
        replaced_secret(block@, field, key, existing) == kept_or_replaced(block, field, key, existing),
{
    assert(replaced_secret(block@, field, key, existing) =~= kept_or_replaced(block, field, key, existing));
}

} // verus!
