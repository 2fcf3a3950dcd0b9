//! Duplicating a saved connection on behalf of an MCP client: the checks
//! that refuse the copy, in the order they are made, and the secrets that
//! the copy receives.

use vstd::prelude::*;
use crate::templates::{is_duplicate_template_name, lowercase_of};

verus! {

/// The secrets a copy receives: those of the source with a non-empty
/// plain text, as (key, plain text), in order.
pub open spec fn copied_secrets(secrets: Seq<(String, String)>) -> Seq<(Seq<char>, Seq<char>)>
    decreases secrets.len(),
{
    if secrets.len() == 0 {
        Seq::empty()
    } else {
        let rest = copied_secrets(secrets.drop_last());
        let (k, v) = secrets.last();
        if v@.len() > 0 {
            rest.push((k@, v@))
        } else {
            rest
        }
    }
}

/// The views of (key, value) pairs.
pub open spec fn pair_views(pairs: Seq<(String, String)>) -> Seq<(Seq<char>, Seq<char>)> {
    pairs.map_values(|p: (String, String)| (p.0@, p.1@))
}

/// Whether a connection named like `copy_name`, ignoring case, is among
/// `names`.
pub open spec fn name_taken(copy_name: Seq<char>, names: Seq<String>) -> bool {
    exists|i: int| 0 <= i < names.len() && lowercase_of(#[trigger] names[i]@) == lowercase_of(copy_name)
}

/// Whether an MCP client may change connection `connection_id`: not while
/// the global MCP policy is read-only, and only for a connection the policy
/// allows (`in_scope`), refused in that order.
pub fn mcp_connection_change_allowed(read_only: bool, in_scope: bool, connection_id: &str) -> (r: Result<(), String>)
    ensures
        read_only ==> (r matches Err(e) && e@
            == "MCP_READ_ONLY: DBX global MCP read-only mode is enabled. Connection changes are blocked."@),
        !read_only && !in_scope ==> (r matches Err(e) && e@ == "CONNECTION_OUT_OF_SCOPE: connection '"@ + connection_id@
            + "' is not allowed by the current DBX MCP policy"@),
        !read_only && in_scope ==> r is Ok,
{
    if read_only {
        return Err(
            String::from_str("MCP_READ_ONLY: DBX global MCP read-only mode is enabled. Connection changes are blocked."),
        );
    }
    if !in_scope {
        return Err(
            String::from_str("CONNECTION_OUT_OF_SCOPE: connection '").concat(connection_id).concat(
                "' is not allowed by the current DBX MCP policy",
            ),
        );
    }
    Ok(())
}

/// What duplicating connection `source_id` as `copy_name` comes to, or the
/// error that refuses it: the global read-only mode first, then the policy's
/// scope (`in_scope`), then a connection of the same name, ignoring case,
/// among the readable saved connections `names`, then a missing source.
/// Otherwise the copy receives the source's secrets `secrets`, (key, plain
/// text) in order, those with an empty plain text left out.
pub fn duplicate_connection_plan(
    read_only: bool,
    in_scope: bool,
    source_id: &str,
    copy_name: &str,
    names: &[String],
    source_found: bool,
    secrets: &[(String, String)],
) -> (r: Result<Vec<(String, String)>, String>)
    ensures
        read_only ==> (r matches Err(e) && e@
            == "MCP_READ_ONLY: DBX global MCP read-only mode is enabled. Connection changes are blocked."@),
        !read_only && !in_scope ==> (r matches Err(e) && e@ == "CONNECTION_OUT_OF_SCOPE: connection '"@ + source_id@
            + "' is not allowed by the current DBX MCP policy"@),
        !read_only && in_scope && name_taken(copy_name@, names@) ==> (r matches Err(e) && e@
            == "CONNECTION_ALREADY_EXISTS: connection '"@ + copy_name@ + "' already exists"@),
        !read_only && in_scope && !name_taken(copy_name@, names@) && !source_found ==> (r matches Err(e) && e@
            == "CONNECTION_NOT_FOUND: connection '"@ + source_id@ + "' was not found"@),
        !read_only && in_scope && !name_taken(copy_name@, names@) && source_found ==> (r matches Ok(v) && pair_views(v@)
            == copied_secrets(secrets@)),
{
    match mcp_connection_change_allowed(read_only, in_scope, source_id) {
        Err(e) => {
            return Err(e);
        },
        Ok(()) => {},
    }
    if is_duplicate_template_name(copy_name, names) {
        return Err(String::from_str("CONNECTION_ALREADY_EXISTS: connection '").concat(copy_name).concat("' already exists"));
    }
    if !source_found {
        return Err(String::from_str("CONNECTION_NOT_FOUND: connection '").concat(source_id).concat("' was not found"));
    }
    let mut out: Vec<(String, String)> = Vec::new();
    let mut i: usize = 0;
    assert(secrets@.take(0) =~= Seq::<(String, String)>::empty());
    assert(pair_views(out@) =~= Seq::<(Seq<char>, Seq<char>)>::empty());
    while i < secrets.len()
        invariant
            i <= secrets.len(),
            pair_views(out@) == copied_secrets(secrets@.take(i as int)),
        decreases secrets.len() - i,
    {
        assert(secrets@.take(i + 1).drop_last() =~= secrets@.take(i as int));
        assert(secrets@.take(i + 1).last() == secrets@[i as int]);
        let (k, v) = &secrets[i];
        if v.as_str().unicode_len() > 0 {
            let ghost before = pair_views(out@);
            out.push((k.clone(), v.clone()));
            assert(pair_views(out@) =~= before.push((k@, v@)));
        }
        i = i + 1;
    }
    assert(secrets@.take(secrets.len() as int) =~= secrets@);
    Ok(out)
}

} // verus!
