//! The decisions of the workspace commands: targets, ages, pruning, repo
//! selection and the paths and texts they show.
use vstd::prelude::*;
use crate::fields::{join, join_sep, join_with, split};
use crate::paths::{join as join_paths, join_path, workspace_root};
use crate::repo::RepoEntry;
use crate::strset::{strs, StrSet};
use crate::text::{
    append_str, chars_of, concat_str, copy_str, has_prefix, has_suffix, push_char, str_eq, string_of, string_of_range,
    strip_prefix, strip_suffix, trim, trim_str,
};

verus! {

// ---------------------------------------------------------------------------
// `box repo` targets
// ---------------------------------------------------------------------------

/// What a `box repo` command works on.
#[derive(Debug)]
pub enum RepoTarget {
    Workspace(String),
    Preset(String),
}

/// The error when neither target was given.
pub open spec fn no_target_message() -> Seq<char> {
    "Specify a target with --workspace <name> or --preset <name>."@
}

/// The target of a `box repo` command: exactly one of `--workspace` and
/// `--preset` (the command line never gives both).
pub fn resolve_repo_target(workspace: Option<String>, preset: Option<String>) -> (r: Result<RepoTarget, String>)
    requires
        !(workspace is Some && preset is Some),
    ensures
        match (workspace, preset) {
            (Some(w), None) => r matches Ok(RepoTarget::Workspace(x)) && x@ == w@,
            (None, Some(p)) => r matches Ok(RepoTarget::Preset(x)) && x@ == p@,
            _ => r matches Err(m) && m@ == no_target_message(),
        },
{
    match (workspace, preset) {
        (Some(w), None) => Ok(RepoTarget::Workspace(w)),
        (None, Some(p)) => Ok(RepoTarget::Preset(p)),
        _ => Err("Specify a target with --workspace <name> or --preset <name>.".to_string()),
    }
}

/// The error when an edit would leave a workspace without repos.
pub open spec fn final_repo_message(name: Seq<char>) -> Seq<char> {
    "Cannot remove the final repo from workspace '"@ + name + "'. Remove the workspace instead."@
}

/// Refuses to leave workspace `name` without repos.
pub fn ensure_workspace_has_repos(name: &str, repos: &Vec<String>) -> (r: Result<(), String>)
    ensures
        repos@.len() > 0 ==> r is Ok,
        repos@.len() == 0 ==> (r matches Err(m) && m@ == final_repo_message(name@)),
{
    if repos.len() == 0 {
        let mut m = concat_str("Cannot remove the final repo from workspace '", name);
        append_str(&mut m, "'. Remove the workspace instead.");
        return Err(m);
    }
    Ok(())
}

// ---------------------------------------------------------------------------
// Creating a session
// ---------------------------------------------------------------------------

/// The error for a repo that is not registered.
pub open spec fn not_in_registry_message(name: Seq<char>) -> Seq<char> {
    "Repo '"@ + name + "' not found in registry."@
}

/// The error when no repo was selected.
pub open spec fn no_sources_message() -> Seq<char> {
    "No sources registered. Run `box source add <url>` first."@
}

/// The first registered entry named `name`.
pub open spec fn registered_entry(registry: Seq<RepoEntry>, name: Seq<char>) -> Option<RepoEntry>
    decreases registry.len(),
{
    if registry.len() == 0 {
        None
    } else if registry[0].name@ == name {
        Some(registry[0])
    } else {
        registered_entry(registry.drop_first(), name)
    }
}

/// The first of `names` that is not registered.
pub open spec fn first_unregistered(names: Seq<Seq<char>>, registry: Seq<RepoEntry>) -> Option<Seq<char>>
    decreases names.len(),
{
    if names.len() == 0 {
        None
    } else if registered_entry(registry, names[0]) is None {
        Some(names[0])
    } else {
        first_unregistered(names.drop_first(), registry)
    }
}

/// Whether `x` is the registered entry named `name`.
pub open spec fn entry_matches(registry: Seq<RepoEntry>, name: Seq<char>, x: RepoEntry) -> bool {
    match registered_entry(registry, name) {
        Some(e) => x.name@ == e.name@ && x.path@ == e.path@,
        None => false,
    }
}

/// The registered entry named `name`, copied.
fn find_entry(registry: &Vec<RepoEntry>, name: &str) -> (r: Option<RepoEntry>)
    ensures
        match registered_entry(registry@, name@) {
            Some(e) => r matches Some(x) && x.name@ == e.name@ && x.path@ == e.path@,
            None => r is None,
        },
{
    let mut i: usize = 0;
    assert(registry@.skip(0) =~= registry@);
    while i < registry.len()
        invariant
            i <= registry@.len(),
            registered_entry(registry@, name@) == registered_entry(registry@.skip(i as int), name@),
        decreases registry@.len() - i,
    {
        proof {
            assert(registry@.skip(i as int).drop_first() =~= registry@.skip(i + 1));
            assert(registry@.skip(i as int)[0] == registry@[i as int]);
        }
        if str_eq(registry[i].name.as_str(), name) {
            return Some(registry[i].copied());
        }
        i = i + 1;
    }
    None
}

/// The entries of the repos a session is created with, in the order
/// given. Fails on the first name that is not registered, and when no
/// repo was named.
pub fn select_repos(names: &Vec<String>, registry: &Vec<RepoEntry>) -> (r: Result<Vec<RepoEntry>, String>)
    ensures
        match first_unregistered(strs(names@), registry@) {
            Some(n) => r matches Err(m) && m@ == not_in_registry_message(n),
            None => if names@.len() == 0 {
                r matches Err(m) && m@ == no_sources_message()
            } else {
                r matches Ok(v) && v@.len() == names@.len() && forall|k: int|
                    0 <= k < names@.len() ==> entry_matches(registry@, names@[k]@, #[trigger] v@[k])
            },
        },
{
    let ghost nv = strs(names@);
    let mut out: Vec<RepoEntry> = Vec::new();
    let mut i: usize = 0;
    assert(nv.skip(0) =~= nv);
    while i < names.len()
        invariant
            i <= names@.len(),
            nv == strs(names@),
            first_unregistered(nv, registry@) == first_unregistered(nv.skip(i as int), registry@),
            out@.len() == i,
            forall|k: int| 0 <= k < i ==> entry_matches(registry@, names@[k]@, #[trigger] out@[k]),
        decreases names@.len() - i,
    {
        proof {
            assert(nv.skip(i as int).drop_first() =~= nv.skip(i + 1));
            assert(nv.skip(i as int)[0] == names@[i as int]@);
        }
        match find_entry(registry, names[i].as_str()) {
            Some(e) => {
                let ghost before = out@;
                out.push(e);
                proof {
                    assert forall|k: int| 0 <= k < i + 1 implies entry_matches(registry@, names@[k]@, #[trigger] out@[k]) by {
                        if k < i {
                            assert(out@[k] == before[k]);
                        }
                    }
                }
            },
            None => {
                let mut m = concat_str("Repo '", names[i].as_str());
                append_str(&mut m, "' not found in registry.");
                return Err(m);
            },
        }
        i = i + 1;
    }
    assert(nv.skip(i as int) =~= Seq::<Seq<char>>::empty());
    if out.len() == 0 {
        return Err("No sources registered. Run `box source add <url>` first.".to_string());
    }
    Ok(out)
}

/// Where `box workspace switch` takes the user: into the only repo of a
/// single-repo workspace, else to the workspace root.
pub open spec fn workspace_path(box_root: Seq<char>, name: Seq<char>, repos: Seq<Seq<char>>) -> Seq<char> {
    let root = join_path(join_path(box_root, "workspaces"@), name);
    if repos.len() == 1 {
        join_path(root, repos[0])
    } else {
        root
    }
}

/// The path of session `name`'s workspace (see [`workspace_path`]).
pub fn resolve_workspace_path(box_root: &str, name: &str, repos: &Vec<String>) -> (r: String)
    ensures
        r@ == workspace_path(box_root@, name@, strs(repos@)),
{
    let root = workspace_root(box_root, name);
    if repos.len() == 1 {
        join_paths(root.as_str(), repos[0].as_str())
    } else {
        root
    }
}

/// The two files whose presence marks session `name` under the box root
/// `box_root` as existing: its `project_dir` and its `repos`.
pub fn session_markers(box_root: &str, name: &str) -> (r: (String, String))
    ensures
        r.0@ == join_path(join_path(join_path(box_root@, "sessions"@), name@), "project_dir"@),
        r.1@ == join_path(join_path(join_path(box_root@, "sessions"@), name@), "repos"@),
{
    let sessions = crate::session::sessions_dir(box_root);
    let dir = join_paths(sessions.as_str(), name);
    (join_paths(dir.as_str(), "project_dir"), join_paths(dir.as_str(), "repos"))
}

/// Whether session `name` exists: whether either of its
/// [`session_markers`] is on disk, as [`crate::session::is_session_dir`]
/// decides from the two answers (the second is asked only when the first
/// is no). What the disk answers is not stated.
pub fn session_exists(box_root: &str, name: &str) -> bool {
    let (project_dir, repos) = session_markers(box_root, name);
    let has_project_dir = crate::paths::path_exists(project_dir.as_str());
    let has_repos = !has_project_dir && crate::paths::path_exists(repos.as_str());
    crate::session::is_session_dir(has_project_dir, has_repos)
}

// ---------------------------------------------------------------------------
// Showing project paths
// ---------------------------------------------------------------------------

/// The first character of `part`, or nothing.
pub open spec fn initial(part: Seq<char>) -> Seq<char> {
    if part.len() == 0 { part } else { seq![part[0]] }
}

/// Each middle component of `parts` cut to its first character.
pub open spec fn abbreviate(parts: Seq<Seq<char>>) -> Seq<Seq<char>> {
    Seq::new(
        parts.len(),
        |i: int|
            if i == 0 || i == parts.len() - 1 {
                parts[i]
            } else {
                initial(parts[i])
            },
    )
}

/// A project path as listed: the home directory replaced by `~` (when
/// `home` is not empty and the path starts with it), then every component
/// but the first and last cut to its first character; a path of at most
/// two components stays whole.
pub open spec fn shortened(path: Seq<char>, home: Seq<char>) -> Seq<char> {
    let full = if home.len() > 0 && has_prefix(path, home) {
        "~"@ + path.skip(home.len() as int)
    } else {
        path
    };
    let parts = split(full, '/');
    if parts.len() <= 2 {
        full
    } else {
        join(abbreviate(parts), '/')
    }
}

/// Shortens a project path for display (see [`shortened`]); for example
/// `/Users/yusuke/projects/my-app` becomes `/U/y/p/my-app`.
pub fn shorten_project_path(path: &str, home: &str) -> (r: String)
    ensures
        r@ == shortened(path@, home@),
{
    let full = if home.unicode_len() > 0 {
        match strip_prefix(path, home) {
            Some(rest) => concat_str("~", rest.as_str()),
            None => copy_str(path),
        }
    } else {
        copy_str(path)
    };
    let parts = crate::fields::split_str(full.as_str(), '/');
    if parts.len() <= 2 {
        return full;
    }
    let ghost pv = strs(parts@);
    let last = parts.len() - 1;
    let mut out: Vec<String> = Vec::new();
    let mut i: usize = 0;
    while i < parts.len()
        invariant
            i <= parts@.len(),
            pv == strs(parts@),
            last == parts@.len() - 1,
            strs(out@) == abbreviate(pv).subrange(0, i as int),
        decreases parts@.len() - i,
    {
        let piece = if i == 0 || i == last {
            copy_str(parts[i].as_str())
        } else {
            let cv = chars_of(parts[i].as_str());
            if cv.len() == 0 {
                String::new()
            } else {
                let one = string_of_range(cv.as_slice(), 0, 1);
                assert(one@ =~= seq![pv[i as int][0]]);
                one
            }
        };
        assert(piece@ == abbreviate(pv)[i as int]);
        let ghost before = out@;
        let ghost pc = piece@;
        out.push(piece);
        assert(strs(out@) =~= strs(before).push(pc));
        assert(strs(out@) =~= abbreviate(pv).subrange(0, i + 1));
        i = i + 1;
    }
    assert(abbreviate(pv).subrange(0, i as int) =~= abbreviate(pv));
    crate::fields::join_str(&out, '/')
}

// ---------------------------------------------------------------------------
// Ages
// ---------------------------------------------------------------------------

/// The largest number of whole seconds a `TimeDelta` holds (`i64::MAX`
/// milliseconds).
pub open spec fn max_delta_secs() -> int {
    9223372036854775
}

/// A span of `total` seconds, when a `TimeDelta` can hold it.
pub open spec fn delta_secs(total: int) -> Option<i64> {
    if -max_delta_secs() <= total <= max_delta_secs() {
        Some(total as i64)
    } else {
        None
    }
}

/// A span of `n` seconds, in seconds.
///
/// Calls `chrono::TimeDelta::try_seconds`, which returns `None` exactly
/// when `n` lies outside `±i64::MAX / 1000`; a span it makes holds `n`
/// whole seconds.
#[verifier::external_body]
fn try_seconds(n: i64) -> (r: Option<i64>)
    ensures
        r == delta_secs(n as int),
{
    match chrono::TimeDelta::try_seconds(n) {
        Some(d) => Some(d.num_seconds()),
        None => None,
    }
}

/// A span of `n` minutes, in seconds.
///
/// Calls `chrono::TimeDelta::try_minutes`, which multiplies by 60 with an
/// overflow check and then bounds the result as `try_seconds` does.
#[verifier::external_body]
fn try_minutes(n: i64) -> (r: Option<i64>)
    ensures
        r == delta_secs(n * 60),
{
    match chrono::TimeDelta::try_minutes(n) {
        Some(d) => Some(d.num_seconds()),
        None => None,
    }
}

/// A span of `n` hours, in seconds.
///
/// Calls `chrono::TimeDelta::try_hours`, which multiplies by 3600 with an
/// overflow check and then bounds the result as `try_seconds` does.
#[verifier::external_body]
fn try_hours(n: i64) -> (r: Option<i64>)
    ensures
        r == delta_secs(n * 3600),
{
    match chrono::TimeDelta::try_hours(n) {
        Some(d) => Some(d.num_seconds()),
        None => None,
    }
}

/// A span of `n` days, in seconds.
///
/// Calls `chrono::TimeDelta::try_days`, which multiplies by 86400 with an
/// overflow check and then bounds the result as `try_seconds` does.
#[verifier::external_body]
fn try_days(n: i64) -> (r: Option<i64>)
    ensures
        r == delta_secs(n * 86400),
{
    match chrono::TimeDelta::try_days(n) {
        Some(d) => Some(d.num_seconds()),
        None => None,
    }
}

/// Whether `c` is an ASCII digit.
pub open spec fn is_digit(c: char) -> bool {
    '0' <= c && c <= '9'
}

/// The value of a run of decimal digits.
pub open spec fn digits_value(d: Seq<char>) -> int
    decreases d.len(),
{
    if d.len() == 0 {
        0
    } else {
        digits_value(d.drop_last()) * 10 + (d.last() as int - '0' as int)
    }
}

/// Whether every character of `d` is a digit.
pub open spec fn all_digits(d: Seq<char>) -> bool {
    forall|k: int| 0 <= k < d.len() ==> is_digit(#[trigger] d[k])
}

/// What follows an optional leading sign.
pub open spec fn unsigned_part(s: Seq<char>) -> Seq<char> {
    if s.len() > 0 && (s[0] == '-' || s[0] == '+') {
        s.drop_first()
    } else {
        s
    }
}

/// `str::parse::<i64>`: an optional sign and at least one digit, nothing
/// else, with the value in range.
pub open spec fn parse_i64(s: Seq<char>) -> Option<i64> {
    let d = unsigned_part(s);
    if d.len() == 0 || !all_digits(d) {
        None
    } else {
        let v = if s[0] == '-' { -digits_value(d) } else { digits_value(d) };
        if i64::MIN <= v <= i64::MAX {
            Some(v as i64)
        } else {
            None
        }
    }
}

proof fn lemma_digits_grow(d: Seq<char>)
    requires
        d.len() > 0,
        forall|k: int| 0 <= k < d.len() ==> is_digit(#[trigger] d[k]),
    ensures
        digits_value(d) >= digits_value(d.drop_last()),
        digits_value(d.drop_last()) >= 0,
    decreases d.len(),
{
    if d.len() > 1 {
        lemma_digits_grow(d.drop_last());
    }
    assert(is_digit(d[d.len() - 1]));
}

/// Parses an `i64` as `str::parse` does (see [`parse_i64`]).
pub fn parse_i64_str(s: &str) -> (r: Option<i64>)
    ensures
        r == parse_i64(s@),
{
    let v = chars_of(s);
    let neg = v.len() > 0 && v[0] == '-';
    let start: usize = if v.len() > 0 && (v[0] == '-' || v[0] == '+') { 1 } else { 0 };
    let ghost d = unsigned_part(s@);
    assert(d =~= v@.subrange(start as int, v@.len() as int));
    if start == v.len() {
        assert(d.len() == 0);
        return None;
    }
    let limit: u64 = 9223372036854775808;
    let mut acc: u64 = 0;
    let mut big = false;
    let mut i: usize = start;
    while i < v.len()
        invariant
            start <= i <= v@.len(),
            d == v@.subrange(start as int, v@.len() as int),
            forall|k: int| start <= k < i ==> is_digit(#[trigger] v@[k]),
            v@ == s@,
            d == unsigned_part(s@),
            !big ==> acc as int == digits_value(v@.subrange(start as int, i as int)) && acc <= limit,
            big ==> digits_value(v@.subrange(start as int, i as int)) > limit,
            limit == 9223372036854775808,
        decreases v@.len() - i,
    {
        let c = v[i];
        if !('0' <= c && c <= '9') {
            assert(d[i - start] == c);
            assert(!is_digit(d[i - start]));
            assert(!all_digits(d));
            return None;
        }
        let dig: u64 = if c == '0' { 0 } else if c == '1' { 1 } else if c == '2' { 2 } else if c == '3' { 3 }
            else if c == '4' { 4 } else if c == '5' { 5 } else if c == '6' { 6 } else if c == '7' { 7 }
            else if c == '8' { 8 } else { 9 };
        assert(dig as int == c as int - '0' as int);
        let ghost pre = v@.subrange(start as int, i as int);
        let ghost post = v@.subrange(start as int, i + 1);
        assert(post.drop_last() =~= pre);
        assert(post.last() == c);
        proof {
            assert forall|k: int| 0 <= k < post.len() implies is_digit(#[trigger] post[k]) by {
                assert(post[k] == v@[start + k]);
            }
            lemma_digits_grow(post);
        }
        if !big {
            if acc > (limit - dig) / 10 {
                big = true;
                assert(digits_value(post) > limit) by (nonlinear_arith)
                    requires
                        digits_value(post) == acc * 10 + dig,
                        acc > (limit - dig) / 10,
                        dig <= 9,
                        limit == 9223372036854775808,
                ;
            } else {
                assert(acc * 10 + dig <= limit) by (nonlinear_arith)
                    requires
                        acc <= (limit - dig) / 10,
                        dig <= 9,
                        limit == 9223372036854775808,
                ;
                acc = acc * 10 + dig;
            }
        }
        i = i + 1;
    }
    proof {
        assert(v@.subrange(start as int, i as int) =~= d);
        assert forall|k: int| 0 <= k < d.len() implies is_digit(#[trigger] d[k]) by {
            assert(d[k] == v@[start + k]);
        }
        assert(all_digits(d));
    }
    if big {
        return None;
    }
    if neg {
        if acc == limit {
            Some(-9223372036854775807i64 - 1)
        } else {
            Some(-(acc as i64))
        }
    } else {
        if acc == limit {
            None
        } else {
            Some(acc as i64)
        }
    }
}

/// Why an age was refused.
pub open spec fn invalid_age_message(value: Seq<char>) -> Seq<char> {
    "Invalid age '"@ + value + "'. Use a positive value such as 12h or 7d."@
}

/// The error for an age that is not positive.
pub open spec fn nonpositive_age_message() -> Seq<char> {
    "Age must be greater than zero."@
}

/// The error for an age with an unknown unit.
pub open spec fn bad_unit_message(value: Seq<char>) -> Seq<char> {
    "Invalid age '"@ + value + "'. Supported units: s, m, h, d."@
}

/// The error for an age longer than a `TimeDelta` holds.
pub open spec fn too_large_message(value: Seq<char>) -> Seq<char> {
    "Age '"@ + value + "' is too large."@
}

/// What `--older-than` means: a positive whole number followed by one of
/// the units `s`, `m`, `h`, `d`, as a number of seconds.
pub open spec fn age_seconds(value: Seq<char>) -> Result<i64, Seq<char>> {
    let cut = if value.len() == 0 { 0 } else { value.len() - 1 };
    let number = value.subrange(0, cut);
    let unit = value.subrange(cut, value.len() as int);
    match parse_i64(number) {
        None => Err(invalid_age_message(value)),
        Some(amount) => if amount <= 0 {
            Err(nonpositive_age_message())
        } else {
            let span = if unit == "s"@ {
                Some(delta_secs(amount as int))
            } else if unit == "m"@ {
                Some(delta_secs(amount * 60))
            } else if unit == "h"@ {
                Some(delta_secs(amount * 3600))
            } else if unit == "d"@ {
                Some(delta_secs(amount * 86400))
            } else {
                None
            };
            match span {
                None => Err(bad_unit_message(value)),
                Some(None) => Err(too_large_message(value)),
                Some(Some(secs)) => Ok(secs),
            }
        },
    }
}

proof fn lemma_decimal_digits(n: nat)
    ensures
        crate::text::decimal(n).len() >= 1,
        all_digits(crate::text::decimal(n)),
        digits_value(crate::text::decimal(n)) == n,
    decreases n,
{
    let d = crate::text::decimal(n);
    if n < 10 {
        assert(d.drop_last() =~= Seq::<char>::empty());
        assert(d.last() as int - '0' as int == n);
        assert(digits_value(d.drop_last()) == 0);
    } else {
        vstd::arithmetic::div_mod::lemma_fundamental_div_mod(n as int, 10);
        assert(n % 10 < 10);
        assert(d.last() == crate::text::digit_char(n % 10));
        assert(d.last() as int - '0' as int == n % 10);
        lemma_decimal_digits(n / 10);
        let p = crate::text::decimal(n / 10);
        assert(d.drop_last() =~= p);
        assert forall|k: int| 0 <= k < d.len() implies is_digit(#[trigger] d[k]) by {
            if k < p.len() {
                assert(d[k] == p[k]);
            }
        }
        assert(digits_value(d) == digits_value(p) * 10 + (n % 10) as int);
        assert(digits_value(p) * 10 == 10 * ((n / 10) as int));
        assert(n as int == 10 * ((n / 10) as int) + (n % 10) as int);
    }
}

proof fn lemma_age_of(n: nat, unit: char, secs: int)
    requires
        n >= 1,
        (unit == 's' && secs == 1) || (unit == 'm' && secs == 60) || (unit == 'h' && secs == 3600) || (unit == 'd'
            && secs == 86400),
        n * secs <= max_delta_secs(),
    ensures
        age_seconds(crate::text::decimal(n).push(unit)) == Ok::<i64, Seq<char>>((n * secs) as i64),
{
    reveal_strlit("s");
    reveal_strlit("m");
    reveal_strlit("h");
    reveal_strlit("d");
    let dm = crate::text::decimal(n);
    let v = dm.push(unit);
    lemma_decimal_digits(n);
    assert(v.subrange(0, v.len() - 1) =~= dm);
    assert(v.subrange(v.len() - 1, v.len() as int) =~= seq![unit]);
    assert(is_digit(dm[0]));
    assert(unsigned_part(dm) == dm);
    assert(n <= n * secs) by (nonlinear_arith)
        requires
            secs >= 1,
    ;
    assert(parse_i64(dm) == Some(n as i64));
    let unit_s = v.subrange(v.len() - 1, v.len() as int);
    if unit == 's' {
        assert(unit_s == "s"@);
    } else if unit == 'm' {
        assert(unit_s[0] != "s"@[0]);
        assert(unit_s == "m"@);
    } else if unit == 'h' {
        assert(unit_s[0] != "s"@[0] && unit_s[0] != "m"@[0]);
        assert(unit_s == "h"@);
    } else {
        assert(unit_s[0] != "s"@[0] && unit_s[0] != "m"@[0] && unit_s[0] != "h"@[0]);
        assert(unit_s == "d"@);
    }
}

/// Every positive whole number of seconds, minutes, hours or days that a
/// `TimeDelta` holds is an age: its decimal text followed by the unit
/// parses to that many seconds. The default age of pruning, `1d`, is one
/// day.
pub proof fn lemma_positive_ages(n: nat, unit: char, secs: int)
    requires
        n >= 1,
        (unit == 's' && secs == 1) || (unit == 'm' && secs == 60) || (unit == 'h' && secs == 3600) || (unit == 'd'
            && secs == 86400),
        n * secs <= max_delta_secs(),
    ensures
        age_seconds(crate::text::decimal(n).push(unit)) == Ok::<i64, Seq<char>>((n * secs) as i64),
        age_seconds("1d"@) == Ok::<i64, Seq<char>>(86400),
{
    lemma_age_of(n, unit, secs);
    lemma_age_of(1, 'd', 86400);
    reveal_strlit("1d");
    assert(crate::text::decimal(1) =~= seq!['1']);
    assert("1d"@ =~= crate::text::decimal(1).push('d'));
}

/// Parses an age such as `12h` or `7d` into seconds (see [`age_seconds`]).
/// The unit is the last character, which must be ASCII for the split.
pub fn parse_age(value: &str) -> (r: Result<i64, String>)
    requires
        value@.len() == 0 || (value@.last() as u32) < 128,
    ensures
        match age_seconds(value@) {
            Ok(s) => r matches Ok(x) && x == s,
            Err(m) => r matches Err(x) && x@ == m,
        },
{
    let v = chars_of(value);
    let cut = if v.len() == 0 { 0 } else { v.len() - 1 };
    let number = string_of_range(v.as_slice(), 0, cut);
    let unit = string_of_range(v.as_slice(), cut, v.len());
    let amount = match parse_i64_str(number.as_str()) {
        None => {
            let mut m = concat_str("Invalid age '", value);
            append_str(&mut m, "'. Use a positive value such as 12h or 7d.");
            return Err(m);
        },
        Some(a) => a,
    };
    if amount <= 0 {
        return Err("Age must be greater than zero.".to_string());
    }
    let span = if str_eq(unit.as_str(), "s") {
        try_seconds(amount)
    } else if str_eq(unit.as_str(), "m") {
        try_minutes(amount)
    } else if str_eq(unit.as_str(), "h") {
        try_hours(amount)
    } else if str_eq(unit.as_str(), "d") {
        try_days(amount)
    } else {
        let mut m = concat_str("Invalid age '", value);
        append_str(&mut m, "'. Supported units: s, m, h, d.");
        return Err(m);
    };
    match span {
        Some(secs) => Ok(secs),
        None => {
            let mut m = concat_str("Age '", value);
            append_str(&mut m, "' is too large.");
            Err(m)
        },
    }
}

// ---------------------------------------------------------------------------
// Pruning
// ---------------------------------------------------------------------------

/// The UTC time `s` denotes in format `fmt`, in seconds since the epoch,
/// as chrono parses it.
pub uninterp spec fn parsed_utc_timestamp(s: Seq<char>, fmt: Seq<char>) -> Option<i64>;

/// Parses a naive date and time in UTC.
///
/// Calls `chrono::NaiveDateTime::parse_from_str` and, on success, takes the
/// UNIX timestamp of that time in UTC. The result is named by
/// [`parsed_utc_timestamp`]; which strings parse is not stated.
#[verifier::external_body]
fn parse_utc_timestamp(s: &str, fmt: &str) -> (r: Option<i64>)
    ensures
        r == parsed_utc_timestamp(s@, fmt@),
{
    match chrono::NaiveDateTime::parse_from_str(s, fmt) {
        Ok(t) => Some(t.and_utc().timestamp()),
        Err(_) => None,
    }
}

/// The format of a session's `created_at` file before its ` UTC` suffix.
pub open spec fn created_at_format() -> Seq<char> {
    "%Y-%m-%d %H:%M:%S"@
}

/// The creation time recorded in a `created_at` file, in seconds since the
/// epoch: the trimmed content must end in ` UTC`, and what precedes it must
/// parse in [`created_at_format`].
pub fn created_at_seconds(content: &str) -> (r: Option<i64>)
    ensures
        has_suffix(trim(content@), " UTC"@) ==> r == parsed_utc_timestamp(
            trim(content@).subrange(0, trim(content@).len() - 4),
            created_at_format(),
        ),
        !has_suffix(trim(content@), " UTC"@) ==> r is None,
{
    let t = trim_str(content);
    proof {
        reveal_strlit(" UTC");
    }
    match strip_suffix(t.as_str(), " UTC") {
        Some(naive) => parse_utc_timestamp(naive.as_str(), "%Y-%m-%d %H:%M:%S"),
        None => None,
    }
}

/// Whether a workspace is pruned: it is not active, and it was created at
/// or before the cutoff (one whose creation time is unknown is kept).
pub open spec fn prunable(name: Seq<char>, created_at: Option<i64>, cutoff: i64, active: Set<Seq<char>>) -> bool {
    !active.contains(name) && match created_at {
        Some(t) => t <= cutoff,
        None => false,
    }
}

/// Pruning goes by age alone among inactive workspaces: one created at
/// the cutoff or earlier goes, one created later stays, so whatever a
/// cutoff prunes it also prunes when the workspace is older or the cutoff
/// later; an active workspace, or one without a creation time, is never
/// pruned.
pub proof fn lemma_prune_by_age(name: Seq<char>, t: i64, older: i64, cutoff: i64, later: i64, active: Set<Seq<char>>)
    requires
        older <= t,
        cutoff <= later,
    ensures
        active.contains(name) ==> !prunable(name, Some(t), cutoff, active),
        !prunable(name, None, cutoff, active),
        !active.contains(name) ==> (prunable(name, Some(t), cutoff, active) <==> t <= cutoff),
        prunable(name, Some(t), cutoff, active) ==> prunable(name, Some(older), cutoff, active),
        prunable(name, Some(t), cutoff, active) ==> prunable(name, Some(t), later, active),
{
}

/// Decides whether a workspace is pruned (see [`prunable`]); times are in
/// seconds since the epoch.
pub fn is_prunable(name: &str, created_at: Option<i64>, cutoff: i64, active: &StrSet) -> (r: bool)
    ensures
        r == prunable(name@, created_at, cutoff, active@.to_set()),
{
    !active.contains(name) && match created_at {
        Some(t) => t <= cutoff,
        None => false,
    }
}

/// The error after some workspaces could not be removed.
pub open spec fn retained_message(failed: Seq<Seq<char>>) -> Seq<char> {
    "Failed to remove workspace(s): "@ + join_sep(failed, ", "@) + ". Session metadata was retained."@
}

/// The sessions of `names` whose metadata goes after their workspaces
/// were removed: those not among the `failed` ones, in order. The failed
/// ones keep their metadata.
pub fn sessions_to_forget(names: &Vec<String>, failed: &StrSet) -> (r: Vec<String>)
    ensures
        strs(r@) == strs(names@).filter(|n: Seq<char>| !failed@.contains(n)),
{
    let ghost nv = strs(names@);
    let ghost keep = |n: Seq<char>| !failed@.contains(n);
    let mut out: Vec<String> = Vec::new();
    let mut i: usize = 0;
    assert(nv.subrange(0, 0).filter(keep) == Seq::<Seq<char>>::empty()) by {
        reveal(Seq::filter);
    }
    while i < names.len()
        invariant
            i <= names@.len(),
            nv == strs(names@),
            keep == (|n: Seq<char>| !failed@.contains(n)),
            strs(out@) == nv.subrange(0, i as int).filter(keep),
        decreases names@.len() - i,
    {
        let ghost before = out@;
        assert(nv.subrange(0, i + 1).drop_last() =~= nv.subrange(0, i as int));
        assert(nv.subrange(0, i + 1).last() == names@[i as int]@);
        let kept = !failed.contains(names[i].as_str());
        assert(kept == keep(names@[i as int]@));
        if kept {
            out.push(copy_str(names[i].as_str()));
            assert(strs(out@) =~= strs(before).push(names@[i as int]@));
        }
        assert(nv.subrange(0, i + 1).filter(keep) == if kept {
            nv.subrange(0, i as int).filter(keep).push(names@[i as int]@)
        } else {
            nv.subrange(0, i as int).filter(keep)
        }) by {
            reveal(Seq::filter);
        }
        i = i + 1;
    }
    assert(nv.subrange(0, i as int) =~= nv);
    out
}

/// Formats the error after some workspaces could not be removed.
pub fn removal_failed_message(failed: &StrSet) -> (r: String)
    ensures
        r@ == retained_message(failed@),
{
    let names = failed.to_vec();
    let mut m = "Failed to remove workspace(s): ".to_string();
    let j = join_with(&names, ", ");
    append_str(&mut m, j.as_str());
    append_str(&mut m, ". Session metadata was retained.");
    m
}

// ---------------------------------------------------------------------------
// Upgrades
// ---------------------------------------------------------------------------

/// The release asset for a platform: `box-<arch>-<os>`, with macOS called
/// `darwin`; other systems are not supported.
pub fn upgrade_asset_name(arch: &str, os: &str) -> (r: Result<String, String>)
    ensures
        os@ == "macos"@ ==> (r matches Ok(x) && x@ == "box-"@ + arch@ + "-darwin"@),
        os@ == "linux"@ ==> (r matches Ok(x) && x@ == "box-"@ + arch@ + "-linux"@),
        os@ != "macos"@ && os@ != "linux"@ ==> (r matches Err(m) && m@ == "Unsupported platform: "@ + os@),
{
    proof {
        reveal_strlit("macos");
        reveal_strlit("linux");
    }
    let os_name = if str_eq(os, "macos") {
        "darwin"
    } else if str_eq(os, "linux") {
        "linux"
    } else {
        return Err(concat_str("Unsupported platform: ", os));
    };
    let mut r = concat_str("box-", arch);
    append_str(&mut r, "-");
    append_str(&mut r, os_name);
    proof {
        reveal_strlit("-");
        reveal_strlit("darwin");
        reveal_strlit("-darwin");
        reveal_strlit("linux");
        reveal_strlit("-linux");
        assert("-"@ + "darwin"@ =~= "-darwin"@);
        assert("-"@ + "linux"@ =~= "-linux"@);
        assert("macos"@ != "linux"@) by {
            assert("macos"@[0] != "linux"@[0]);
        }
        assert(r@ =~= "box-"@ + arch@ + ("-"@ + os_name@));
    }
    Ok(r)
}

// ---------------------------------------------------------------------------
// Removing workspaces
// ---------------------------------------------------------------------------

/// What `workspace remove` does.
#[derive(Debug, PartialEq, Eq)]
pub enum RemoveMode {
    /// Remove every workspace (`--all`).
    All,
    /// Remove the named workspace.
    One(String),
    /// Prune the workspaces at least this old.
    Prune(String),
}

/// The age pruned when none is given: one day.
pub open spec fn default_age() -> Seq<char> {
    "1d"@
}

/// What `workspace remove` does with its arguments: everything with
/// `--all`, else the named workspace, else the pruning of workspaces older
/// than `--older-than` (one day when it is not given).
pub fn remove_mode(args: crate::cli::RemoveArgs) -> (r: RemoveMode)
    ensures
        args.all ==> r == RemoveMode::All,
        !args.all && args.name is Some ==> (r matches RemoveMode::One(n) && n@ == args.name->0@),
        !args.all && args.name is None ==> (r matches RemoveMode::Prune(a) && a@ == match args.older_than {
            Some(o) => o@,
            None => default_age(),
        }),
{
    if args.all {
        RemoveMode::All
    } else {
        match args.name {
            Some(n) => RemoveMode::One(n),
            None => match args.older_than {
                Some(o) => RemoveMode::Prune(o),
                None => RemoveMode::Prune("1d".to_string()),
            },
        }
    }
}

} // verus!
