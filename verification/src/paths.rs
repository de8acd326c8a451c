//! Path strings under the box root.
use vstd::prelude::*;
use crate::text::{chars_of, concat_str, copy_str, push_char};

verus! {

/// `a` joined with `b` as `Path::join` does on Unix: an absolute `b`
/// replaces `a`; otherwise a `/` is put between them unless `a` is empty
/// or already ends with one.
pub open spec fn join_path(a: Seq<char>, b: Seq<char>) -> Seq<char> {
    if b.len() > 0 && b[0] == '/' {
        b
    } else if a.len() == 0 || a.last() == '/' {
        a + b
    } else {
        a + seq!['/'] + b
    }
}

/// Joins two path strings (see [`join_path`]).
pub fn join(a: &str, b: &str) -> (r: String)
    ensures
        r@ == join_path(a@, b@),
{
    let av = chars_of(a);
    let bv = chars_of(b);
    if bv.len() > 0 && bv[0] == '/' {
        copy_str(b)
    } else if av.len() == 0 || av[av.len() - 1] == '/' {
        concat_str(a, b)
    } else {
        let mut r = copy_str(a);
        push_char(&mut r, '/');
        r.append(b);
        r
    }
}

/// Whether something exists at path `p`.
///
/// Calls `std::path::Path::exists`. What it returns depends on the file
/// system at the time of the call, so the contract states nothing of it.
#[verifier::external_body]
pub(crate) fn path_exists(p: &str) -> bool {
    std::path::Path::new(p).exists()
}

/// The last component of path `p`, as `Path::file_name` gives it.
pub uninterp spec fn path_file_name(p: Seq<char>) -> Option<Seq<char>>;

/// The last component of a path.
///
/// Calls `std::path::Path::file_name`; the result is named by
/// [`path_file_name`]. A component of a path given as `&str` is valid
/// UTF-8, so the conversion to `String` loses nothing.
#[verifier::external_body]
pub(crate) fn file_name_of(p: &str) -> (r: Option<String>)
    ensures
        match r {
            Some(x) => path_file_name(p@) == Some(x@),
            None => path_file_name(p@) is None,
        },
{
    match std::path::Path::new(p).file_name() {
        Some(n) => Some(n.to_string_lossy().into_owned()),
        None => None,
    }
}

/// The workspace root of a session: `<root>/workspaces/<name>`.
pub fn workspace_root(root: &str, name: &str) -> (r: String)
    ensures
        r@ == join_path(join_path(root@, "workspaces"@), name@),
{
    let w = join(root, "workspaces");
    join(w.as_str(), name)
}

} // verus!
