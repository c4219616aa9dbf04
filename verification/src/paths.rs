//! Resolving the paths that tool requests name against the project root.

use vstd::prelude::*;
use crate::format::{push_chars, push_str};
use crate::text::{chars_of, string_of, trim_end_char, trim_end_char_spec};

verus! {

/// Whether a path is absolute: on Unix, it starts at the root `/`.
pub open spec fn is_absolute_spec(p: Seq<char>) -> bool {
    p.len() > 0 && p[0] == '/'
}

/// `root` joined with `p` as `Path::join` does on Unix: an absolute `p` replaces the
/// root; otherwise a `/` separates the two unless the root is empty or already ends
/// with one.
pub open spec fn joined_path_spec(root: Seq<char>, p: Seq<char>) -> Seq<char> {
    if is_absolute_spec(p) {
        p
    } else if root.len() == 0 || root.last() == '/' {
        root + p
    } else {
        root + seq!['/'] + p
    }
}

/// `path` resolved against `root` as `Path::join` does: an absolute path stays as it
/// is, a relative one is taken under the root.
pub fn resolve_path(path: &str, root: &str) -> (r: String)
    ensures
        r@ == joined_path_spec(root@, path@),
{
    let p = chars_of(path);
    if p.len() > 0 && p[0] == '/' {
        return string_of(p.as_slice());
    }
    let mut out = chars_of(root);
    let needs_sep = out.len() > 0 && out[out.len() - 1] != '/';
    if needs_sep {
        push_str(&mut out, "/");
        proof {
            reveal_strlit("/");
        }
    }
    push_chars(&mut out, p.as_slice());
    string_of(out.as_slice())
}

/// The path a tool request names, in the form the index stores paths: resolved
/// against the project root.
pub fn normalize_tool_path(path: &str, project_root: &str) -> (r: String)
    ensures
        r@ == joined_path_spec(project_root@, path@),
{
    resolve_path(path, project_root)
}

/// The project root as paths are stripped of it: without trailing `/`s.
pub fn trimmed_project_root(root: &str) -> (r: String)
    ensures
        r@ == trim_end_char_spec(root@, '/'),
{
    let c = chars_of(root);
    string_of(trim_end_char(c.as_slice(), '/'))
}


/// Under an absolute project root, a resolved path is absolute, so resolving it again
/// leaves it as it is; a path that is already absolute is never changed.
pub proof fn law_resolve_idempotent(root: Seq<char>, p: Seq<char>)
    ensures
        is_absolute_spec(p) ==> joined_path_spec(root, p) == p,
        is_absolute_spec(root) ==> is_absolute_spec(joined_path_spec(root, p)),
        is_absolute_spec(root) ==> joined_path_spec(root, joined_path_spec(root, p))
            == joined_path_spec(root, p),
{
    if is_absolute_spec(root) && !is_absolute_spec(p) {
        let j = joined_path_spec(root, p);
        if root.len() == 0 || root.last() == '/' {
            assert(j[0] == (root + p)[0]);
        } else {
            assert(j[0] == (root + seq!['/'] + p)[0]);
        }
    }
}

} // verus!
