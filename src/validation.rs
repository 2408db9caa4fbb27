use vstd::prelude::*;

use crate::paths::{file_name, last_component, parent_dir, parent_of};
use crate::text::str_eq;

verus! {

/// The shape of a module id, as a regular expression.
pub const MODULE_ID_PATTERN: &'static str = "^[a-zA-Z][a-zA-Z0-9._-]+$";

pub open spec fn is_id_start(c: char) -> bool {
    ('a' <= c && c <= 'z') || ('A' <= c && c <= 'Z')
}

pub open spec fn is_id_char(c: char) -> bool {
    is_id_start(c) || ('0' <= c && c <= '9') || c == '.' || c == '_' || c == '-'
}

/// A module id: a letter, then at least one letter, digit, `.`, `_` or `-`.
pub open spec fn valid_module_id(s: Seq<char>) -> bool {
    &&& s.len() >= 2
    &&& is_id_start(s[0])
    &&& forall|i: int| 1 <= i < s.len() ==> is_id_char(#[trigger] s[i])
}

/// Relies on `regex_lite::Regex::new` and `Regex::is_match`: for the module-id pattern the
/// regex compiles, and matches exactly the texts that `valid_module_id` describes.
#[verifier::external_body]
fn regex_matches(pattern: &str, text: &str) -> (r: Option<bool>)
    ensures
        pattern@ == MODULE_ID_PATTERN@ ==> r == Some(valid_module_id(text@)),
{
    match regex_lite::Regex::new(pattern) {
        Ok(re) => Some(re.is_match(text)),
        Err(_) => None,
    }
}

/// Why a module id was refused.
#[derive(Clone, Copy, Debug, PartialEq, Eq, Structural)]
pub enum ValidationError {
    InvalidModuleId,
}

/// Accepts exactly the ids of the module-id shape.
pub fn validate_module_id(module_id: &str) -> (r: Result<(), ValidationError>)
    ensures
        r is Ok <==> valid_module_id(module_id@),
        r is Err ==> r->Err_0 == ValidationError::InvalidModuleId,
{
    match regex_matches(MODULE_ID_PATTERN, module_id) {
        Some(true) => Ok(()),
        _ => Err(ValidationError::InvalidModuleId),
    }
}

/// Names under the module directory that are never modules.
pub open spec fn is_reserved_name(n: Seq<char>) -> bool {
    ||| n == "meta-hybrid"@
    ||| n == "lost+found"@
    ||| n == ".git"@
    ||| n == ".idea"@
    ||| n == ".vscode"@
}

pub fn is_reserved(name: &str) -> (r: bool)
    ensures
        r == is_reserved_name(name@),
{
    str_eq(name, "meta-hybrid") || str_eq(name, "lost+found") || str_eq(name, ".git") || str_eq(
        name,
        ".idea",
    ) || str_eq(name, ".vscode")
}

/// The `k`-th directory above `path` (`path` itself for 0).
pub open spec fn nth_ancestor(path: Seq<char>, k: nat) -> Seq<char>
    decreases k,
{
    if k == 0 {
        path
    } else {
        parent_of(nth_ancestor(path, (k - 1) as nat))
    }
}

/// A final path component as an id: none for an empty one.
pub open spec fn name_as_id(name: Seq<char>) -> Option<Seq<char>> {
    if name.len() > 0 {
        Some(name)
    } else {
        None
    }
}

/// The id of the module a path lies in: the name of the nearest directory, from the
/// `k`-th one above `path` upwards, that holds a `module.prop` (`has_prop[j]` for the
/// `j`-th directory up); where none of them does, the name of the directory that holds
/// `path`.
pub open spec fn module_id_from(path: Seq<char>, has_prop: Seq<bool>, k: nat) -> Option<Seq<char>>
    decreases has_prop.len() - k,
{
    if k >= has_prop.len() {
        name_as_id(last_component(parent_of(path)))
    } else if has_prop[k as int] {
        name_as_id(last_component(nth_ancestor(path, k)))
    } else {
        module_id_from(path, has_prop, k + 1)
    }
}

pub open spec fn module_id_of(path: Seq<char>, has_prop: Seq<bool>) -> Option<Seq<char>> {
    module_id_from(path, has_prop, 0)
}

fn id_from_name(name: String) -> (r: Option<String>)
    ensures
        match r {
            Some(s) => name_as_id(name@) == Some(s@),
            None => name_as_id(name@) is None,
        },
{
    if name.as_str().unicode_len() > 0 {
        Some(name)
    } else {
        None
    }
}

pub fn extract_module_id(path: &str, has_prop: &Vec<bool>) -> (r: Option<String>)
    ensures
        match r {
            Some(s) => module_id_of(path@, has_prop@) == Some(s@),
            None => module_id_of(path@, has_prop@) is None,
        },
{
    let n = has_prop.len();
    let mut current = String::from_str(path);
    let mut k: usize = 0;
    while k < n
        invariant
            n == has_prop@.len(),
            k <= n,
            current@ == nth_ancestor(path@, k as nat),
            module_id_of(path@, has_prop@) == module_id_from(path@, has_prop@, k as nat),
        decreases n - k,
    {
        if has_prop[k] {
            let name = file_name(current.as_str());
            return id_from_name(name);
        }
        let up = parent_dir(current.as_str());
        current = up;
        k = k + 1;
    }
    let parent = parent_dir(path);
    id_from_name(file_name(parent.as_str()))
}

} // verus!
