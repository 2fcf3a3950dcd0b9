//! Prompt templates: what a saved template must satisfy.

use vstd::prelude::*;
use crate::text::{chars_of, string_of, trim, trim_chars};

verus! {

/// Longest template name, in characters.
pub const MAX_TEMPLATE_NAME_CHARS: usize = 50;
/// Longest template content, in characters.
pub const MAX_TEMPLATE_CONTENT_CHARS: usize = 8000;

/// The lower-case form of a text, as `str::to_lowercase` gives it.
pub uninterp spec fn lowercase_of(s: Seq<char>) -> Seq<char>;

/// `str::to_lowercase`: full Unicode lower-casing, a function of the text
/// alone; its result is named, not stated.
#[verifier::external_body]
fn lowercase(s: &str) -> (r: String)
    ensures
        r@ == lowercase_of(s@),
{
    s.to_lowercase()
}

/// Validates a template before it is saved: the name is trimmed and must
/// be non-empty and at most 50 characters; the content (kept as given) at
/// most 8000 characters. Returns the trimmed name.
pub fn validate_prompt_template(name: &str, content: &str) -> (r: Result<String, String>)
    ensures
        match r {
            Ok(n) => n@ == trim(name@) && 0 < trim(name@).len() <= MAX_TEMPLATE_NAME_CHARS && content@.len()
                <= MAX_TEMPLATE_CONTENT_CHARS,
            Err(e) => if trim(name@).len() == 0 {
                e@ == "template name cannot be empty"@
            } else if trim(name@).len() > MAX_TEMPLATE_NAME_CHARS {
                e@ == "template name too long (max 50 chars)"@
            } else {
                content@.len() > MAX_TEMPLATE_CONTENT_CHARS && e@ == "template content too long (max 8000 chars)"@
            },
        },
{
    let c = chars_of(name);
    let t = trim_chars(c.as_slice());
    if t.len() == 0 {
        return Err(String::from_str("template name cannot be empty"));
    }
    if t.len() > MAX_TEMPLATE_NAME_CHARS {
        return Err(String::from_str("template name too long (max 50 chars)"));
    }
    if content.unicode_len() > MAX_TEMPLATE_CONTENT_CHARS {
        return Err(String::from_str("template content too long (max 8000 chars)"));
    }
    Ok(string_of(t.as_slice()))
}

/// Whether another template already has this name, ignoring case (with
/// Unicode case folding, which the database's own `LOWER` lacks).
pub fn is_duplicate_template_name(name: &str, other_names: &[String]) -> (r: bool)
    ensures
        r == exists|i: int| 0 <= i < other_names@.len() && lowercase_of(#[trigger] other_names@[i]@) == lowercase_of(name@),
{
    let lower = lowercase(name);
    let mut i: usize = 0;
    while i < other_names.len()
        invariant
            i <= other_names.len(),
            lower@ == lowercase_of(name@),
            forall|j: int| 0 <= j < i ==> lowercase_of(#[trigger] other_names@[j]@) != lowercase_of(name@),
        decreases other_names.len() - i,
    {
        let other = lowercase(other_names[i].as_str());
        if other == lower {
            return true;
        }
        i = i + 1;
    }
    false
}

/// What a save of a prompt template checks before it writes: the rules of
/// `validate_prompt_template`, then that no other template (`other_names`:
/// the names of the templates with another id) has the trimmed name,
/// ignoring case. Returns the name to store.
pub fn prepare_prompt_template(name: &str, content: &str, other_names: &[String]) -> (r: Result<String, String>)
    ensures
        match r {
            Ok(n) => {
                &&& n@ == trim(name@)
                &&& 0 < trim(name@).len() <= MAX_TEMPLATE_NAME_CHARS
                &&& content@.len() <= MAX_TEMPLATE_CONTENT_CHARS
                &&& !exists|i: int|
                    0 <= i < other_names@.len() && lowercase_of(#[trigger] other_names@[i]@) == lowercase_of(
                        trim(name@),
                    )
            },
            Err(e) => if trim(name@).len() == 0 {
                e@ == "template name cannot be empty"@
            } else if trim(name@).len() > MAX_TEMPLATE_NAME_CHARS {
                e@ == "template name too long (max 50 chars)"@
            } else if content@.len() > MAX_TEMPLATE_CONTENT_CHARS {
                e@ == "template content too long (max 8000 chars)"@
            } else {
                &&& exists|i: int|
                    0 <= i < other_names@.len() && lowercase_of(#[trigger] other_names@[i]@) == lowercase_of(
                        trim(name@),
                    )
                &&& e@ == "duplicate template name"@
            },
        },
{
    let n = validate_prompt_template(name, content)?;
    if is_duplicate_template_name(n.as_str(), other_names) {
        return Err(String::from_str("duplicate template name"));
    }
    Ok(n)
}

/// Deleting a template that is not there is an error.
pub fn template_delete_outcome(rows_deleted: usize) -> (r: Result<(), String>)
    ensures
        match r {
            Ok(_) => rows_deleted > 0,
            Err(e) => rows_deleted == 0 && e@ == "template not found"@,
        },
{
    if rows_deleted == 0 {
        Err(String::from_str("template not found"))
    } else {
        Ok(())
    }
}

} // verus!
