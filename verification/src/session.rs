//! Sessions (workspaces): the naming rules and the on-disk metadata format.
//!
//! A session's metadata lives in `<root>/sessions/<name>/`, one file per
//! field: `project_dir`, `created_at`, `command` and `env` (entries joined
//! by NUL), `repos` (one per line) and `strategy`.
use vstd::prelude::*;
use crate::fields::{
    free_of, is_trimmed, join, join_str, lemma_read_lines_roundtrip, lemma_read_list_roundtrip, read_lines,
    read_lines_str, read_list, read_list_str,
};
use crate::paths::{join as join_paths, join_path};
use crate::text::{append_str, chars_of, concat_str, copy_str, is_ascii_alnum, str_eq, trim, trim_str};

verus! {

/// A session as stored in its metadata directory.
#[derive(Debug, Clone)]
pub struct Session {
    pub name: String,
    pub project_dir: String,
    pub command: Vec<String>,
    pub env: Vec<String>,
    pub repos: Vec<String>,
    pub strategy: String,
}

/// What `box workspace list` shows of a session.
#[derive(Debug, Clone)]
pub struct SessionSummary {
    pub name: String,
    pub project_dir: String,
    pub command: String,
    pub created_at: String,
    pub repos: Vec<String>,
    pub strategy: String,
}

/// The sessions directory under the box root.
pub fn sessions_dir(root: &str) -> (r: String)
    ensures
        r@ == join_path(root@, "sessions"@),
{
    join_paths(root, "sessions")
}

// ---------------------------------------------------------------------------
// Names
// ---------------------------------------------------------------------------

/// Names that would clash with subcommands and cannot name a session.
pub open spec fn is_reserved(n: Seq<char>) -> bool {
    n == "new"@ || n == "remove"@ || n == "exec"@ || n == "edit"@ || n == "upgrade"@ || n == "path"@
        || n == "config"@ || n == "list"@ || n == "ls"@ || n == "repo"@
}

/// Characters allowed in a session name.
pub open spec fn is_name_char(c: char) -> bool {
    is_ascii_alnum(c) || c == '-' || c == '_'
}

#[derive(Debug, Clone, Copy, PartialEq, Eq, Structural)]
pub enum NameErrorKind {
    /// The name is empty.
    Empty,
    /// The name contains `/`.
    Slash,
    /// The name is reserved.
    Reserved,
    /// The name contains a character other than letters, digits, `-`, `_`.
    InvalidChars,
}

/// Why a session name was refused, and the name.
#[derive(Debug, Clone)]
pub struct NameError {
    pub kind: NameErrorKind,
    pub name: String,
}

/// The first rule that `n` breaks, in the order they are checked.
pub open spec fn name_error(n: Seq<char>) -> Option<NameErrorKind> {
    if n.len() == 0 {
        Some(NameErrorKind::Empty)
    } else if n.contains('/') {
        Some(NameErrorKind::Slash)
    } else if is_reserved(n) {
        Some(NameErrorKind::Reserved)
    } else if !(forall|i: int| 0 <= i < n.len() ==> is_name_char(#[trigger] n[i])) {
        Some(NameErrorKind::InvalidChars)
    } else {
        None
    }
}

/// A session name is accepted exactly when it is not empty, not one of
/// the reserved words, and made only of ASCII letters, digits, `-` and
/// `_`, in any position: a name such as `2fa-login` is accepted.
pub proof fn lemma_accepted_names(n: Seq<char>)
    ensures
        name_error(n) is None <==> {
            &&& n.len() > 0
            &&& !is_reserved(n)
            &&& forall|i: int|
                0 <= i < n.len() ==> {
                    let c = #[trigger] n[i];
                    ('a' <= c && c <= 'z') || ('A' <= c && c <= 'Z') || ('0' <= c && c <= '9') || c == '-' || c == '_'
                }
        },
{
    if n.contains('/') {
        let i = choose|i: int| 0 <= i < n.len() && n[i] == '/';
        assert(n[i] == '/');
    }
}

fn is_reserved_exec(n: &str) -> (r: bool)
    ensures
        r == is_reserved(n@),
{
    str_eq(n, "new") || str_eq(n, "remove") || str_eq(n, "exec") || str_eq(n, "edit") || str_eq(n, "upgrade")
        || str_eq(n, "path") || str_eq(n, "config") || str_eq(n, "list") || str_eq(n, "ls") || str_eq(n, "repo")
}

/// Checks a session name and returns it unchanged when valid.
pub fn validate_name(name: &str) -> (r: Result<String, NameError>)
    ensures
        match name_error(name@) {
            None => r matches Ok(s) && s@ == name@,
            Some(k) => r matches Err(e) && e.kind == k && e.name@ == name@,
        },
{
    let v = chars_of(name);
    let n = v.len();
    if n == 0 {
        return Err(NameError { kind: NameErrorKind::Empty, name: copy_str(name) });
    }
    let mut i: usize = 0;
    while i < n
        invariant
            n == v@.len(),
            v@ == name@,
            i <= n,
            forall|k: int| 0 <= k < i ==> v@[k] != '/',
        decreases n - i,
    {
        if v[i] == '/' {
            assert(name@.contains('/')) by {
                assert(name@[i as int] == '/');
            }
            return Err(NameError { kind: NameErrorKind::Slash, name: copy_str(name) });
        }
        i = i + 1;
    }
    assert(!name@.contains('/'));
    if is_reserved_exec(name) {
        return Err(NameError { kind: NameErrorKind::Reserved, name: copy_str(name) });
    }
    let mut j: usize = 0;
    while j < n
        invariant
            n == v@.len(),
            v@ == name@,
            j <= n,
            n > 0,
            !name@.contains('/'),
            !is_reserved(name@),
            forall|k: int| 0 <= k < j ==> is_name_char(#[trigger] v@[k]),
        decreases n - j,
    {
        let c = v[j];
        let ok = ('a' <= c && c <= 'z') || ('A' <= c && c <= 'Z') || ('0' <= c && c <= '9') || c == '-' || c
            == '_';
        if !ok {
            assert(!is_name_char(name@[j as int]));
            return Err(NameError { kind: NameErrorKind::InvalidChars, name: copy_str(name) });
        }
        j = j + 1;
    }
    Ok(copy_str(name))
}

/// The text shown for a refused name.
pub open spec fn name_message(k: NameErrorKind, n: Seq<char>) -> Seq<char> {
    match k {
        NameErrorKind::Empty => "Session name is required."@,
        NameErrorKind::Slash => "Invalid session name '"@ + n + "'. The '/' character is not allowed."@,
        NameErrorKind::Reserved => "'"@ + n + "' is a reserved name and cannot be used as a session name."@,
        NameErrorKind::InvalidChars => "Invalid session name '"@ + n
            + "'. Use only letters, digits, hyphens, and underscores."@,
    }
}

impl NameError {
    /// The message shown to the user.
    pub fn message(&self) -> (r: String)
        ensures
            r@ == name_message(self.kind, self.name@),
    {
        match self.kind {
            NameErrorKind::Empty => copy_str("Session name is required."),
            NameErrorKind::Slash => {
                let mut r = concat_str("Invalid session name '", self.name.as_str());
                append_str(&mut r, "'. The '/' character is not allowed.");
                r
            },
            NameErrorKind::Reserved => {
                let mut r = concat_str("'", self.name.as_str());
                append_str(&mut r, "' is a reserved name and cannot be used as a session name.");
                r
            },
            NameErrorKind::InvalidChars => {
                let mut r = concat_str("Invalid session name '", self.name.as_str());
                append_str(&mut r, "'. Use only letters, digits, hyphens, and underscores.");
                r
            },
        }
    }
}

// ---------------------------------------------------------------------------
// Metadata files
// ---------------------------------------------------------------------------

/// Contents of the `command` or `env` file: entries joined by NUL.
pub fn nul_list_file(v: &Vec<String>) -> (r: String)
    ensures
        r@ == join(v@.map_values(|x: String| x@), '\0'),
{
    join_str(v, '\0')
}

/// Entries of a `command` or `env` file: the non-empty NUL-separated parts.
pub fn read_nul_list(s: &str) -> (r: Vec<String>)
    ensures
        r@.map_values(|x: String| x@) == read_list(s@, '\0'),
{
    read_list_str(s, '\0')
}

/// Contents of the `repos` file: one repo per line.
pub fn repos_file(v: &Vec<String>) -> (r: String)
    ensures
        r@ == join(v@.map_values(|x: String| x@), '\n'),
{
    join_str(v, '\n')
}

/// Entries of a `repos` file: its trimmed non-empty lines.
pub fn read_repos(s: &str) -> (r: Vec<String>)
    ensures
        r@.map_values(|x: String| x@) == read_lines(s@),
{
    read_lines_str(s)
}

/// The value of a `project_dir` file: its contents without surrounding
/// whitespace.
pub fn read_project_dir(s: &str) -> (r: String)
    ensures
        r@ == trim(s@),
{
    trim_str(s)
}

/// Flag that `workspace list` leaves out of a displayed command.
pub open spec fn hidden_flag() -> Seq<char> {
    "--allow-dangerously-skip-permissions"@
}

/// The entries of `v` other than [`hidden_flag`], in order.
pub open spec fn without_hidden(v: Seq<Seq<char>>) -> Seq<Seq<char>>
    decreases v.len(),
{
    if v.len() == 0 {
        v
    } else if v.last() == hidden_flag() {
        without_hidden(v.drop_last())
    } else {
        without_hidden(v.drop_last()).push(v.last())
    }
}

/// The command of a session as `workspace list` shows it: the entries of
/// the `command` file other than the permissions flag, joined by spaces.
pub fn display_command(s: &str) -> (r: String)
    ensures
        r@ == join(without_hidden(read_list(s@, '\0')), ' '),
{
    let parts = read_list_str(s, '\0');
    let ghost ps = parts@.map_values(|x: String| x@);
    let mut kept: Vec<String> = Vec::new();
    let mut i: usize = 0;
    while i < parts.len()
        invariant
            i <= parts@.len(),
            ps == parts@.map_values(|x: String| x@),
            kept@.map_values(|x: String| x@) == without_hidden(ps.subrange(0, i as int)),
        decreases parts@.len() - i,
    {
        assert(ps.subrange(0, i + 1).drop_last() =~= ps.subrange(0, i as int));
        assert(ps.subrange(0, i + 1).last() == parts@[i as int]@);
        if !str_eq(parts[i].as_str(), "--allow-dangerously-skip-permissions") {
            kept.push(parts[i].clone());
            assert(kept@.map_values(|x: String| x@) =~= without_hidden(ps.subrange(0, i as int)).push(
                parts@[i as int]@,
            ));
        }
        i = i + 1;
    }
    assert(ps.subrange(0, parts@.len() as int) =~= ps);
    join_str(&kept, ' ')
}

/// Whether a session directory holds session metadata: a `project_dir`
/// or a `repos` file.
pub fn is_session_dir(has_project_dir: bool, has_repos: bool) -> (r: bool)
    ensures
        r == (has_project_dir || has_repos),
{
    has_project_dir || has_repos
}

/// Where the project directory of a loaded session comes from.
#[derive(Debug, Clone, Copy, PartialEq, Eq, Structural)]
pub enum ProjectDirSource {
    /// Read the `project_dir` file.
    File,
    /// A multi-repo session without a project directory: empty.
    Empty,
}

/// Why `load` refuses a session directory.
#[derive(Debug, Clone, Copy, PartialEq, Eq, Structural)]
pub enum LoadError {
    /// The session directory does not exist.
    NotFound,
    /// Neither `project_dir` nor `repos` exists.
    MissingProjectDir,
}

/// What loading a session reads, given which of its files exist: the
/// directory must exist; the project directory comes from `project_dir`
/// when present, is empty when only `repos` is present, and is missing
/// metadata otherwise.
pub fn load_plan(dir_exists: bool, has_project_dir: bool, has_repos: bool) -> (r: Result<ProjectDirSource, LoadError>)
    ensures
        !dir_exists ==> r == Err::<ProjectDirSource, LoadError>(LoadError::NotFound),
        dir_exists && has_project_dir ==> r == Ok::<ProjectDirSource, LoadError>(ProjectDirSource::File),
        dir_exists && !has_project_dir && has_repos ==> r == Ok::<ProjectDirSource, LoadError>(
            ProjectDirSource::Empty,
        ),
        dir_exists && !has_project_dir && !has_repos ==> r == Err::<ProjectDirSource, LoadError>(
            LoadError::MissingProjectDir,
        ),
{
    if !dir_exists {
        Err(LoadError::NotFound)
    } else if has_project_dir {
        Ok(ProjectDirSource::File)
    } else if has_repos {
        Ok(ProjectDirSource::Empty)
    } else {
        Err(LoadError::MissingProjectDir)
    }
}

/// Whether the nested `sessions/<name>/default/` layout should be moved
/// up: there is no `project_dir` at the top but `default/project_dir` exists.
pub fn needs_migration(has_project_dir: bool, has_nested_project_dir: bool) -> (r: bool)
    ensures
        r == (!has_project_dir && has_nested_project_dir),
{
    !has_project_dir && has_nested_project_dir
}

/// The message for a session that `load` cannot find.
pub fn not_found_message(name: &str) -> (r: String)
    ensures
        r@ == "Session '"@ + name@ + "' not found."@,
{
    let mut r = concat_str("Session '", name);
    append_str(&mut r, "' not found.");
    r
}

/// The message for a session directory without project metadata.
pub fn missing_metadata_message(name: &str) -> (r: String)
    ensures
        r@ == "Session '"@ + name@ + "' is missing project directory metadata."@,
{
    let mut r = concat_str("Session '", name);
    append_str(&mut r, "' is missing project directory metadata.");
    r
}

/// The project shown in the multiplexer's header for a session: the last
/// component of its project directory (nothing when the session could not
/// be read or has none).
pub fn project_name_for_session(project_dir: Option<&str>) -> (r: String)
    ensures
        match project_dir {
            Some(d) => match crate::paths::path_file_name(d@) {
                Some(n) => r@ == n,
                None => r@ == Seq::<char>::empty(),
            },
            None => r@ == Seq::<char>::empty(),
        },
{
    match project_dir {
        Some(d) => match crate::paths::file_name_of(d) {
            Some(n) => n,
            None => String::new(),
        },
        None => String::new(),
    }
}

/// What a session's files are written with reads back as written: the
/// `command` and `env` lists for entries that are non-empty and hold no
/// NUL, and the `repos` list for names that are non-empty, free of
/// surrounding whitespace and of newlines.
pub proof fn lemma_session_lists_read_back(list: Seq<Seq<char>>, repos: Seq<Seq<char>>)
    requires
        free_of(list, '\0'),
        forall|i: int| 0 <= i < list.len() ==> #[trigger] list[i].len() > 0,
        free_of(repos, '\n'),
        forall|i: int| 0 <= i < repos.len() ==> #[trigger] repos[i].len() > 0 && is_trimmed(repos[i]),
    ensures
        read_list(join(list, '\0'), '\0') == list,
        read_lines(join(repos, '\n')) == repos,
{
    lemma_read_list_roundtrip(list, '\0');
    lemma_read_lines_roundtrip(repos);
}

} // verus!
