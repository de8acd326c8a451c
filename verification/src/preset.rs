//! Presets: named lists of sources stored one per line in
//! `<root>/presets/<name>`.
use vstd::prelude::*;
use crate::edit::{append_missing, append_missing_exec, first_missing, first_shared_exec};
use crate::fields::{
    free_of, is_trimmed, join, join_sep, join_str, join_with, lemma_read_lines_roundtrip,
    lemma_read_lines_trailing_newline, read_lines, read_lines_str,
};
use crate::paths::{join as join_paths, join_path};
use crate::strset::{ascending, lemma_push_to_set, lex_lt, str_lt, strs, StrSet};
use crate::text::{append_str, chars_of, concat_str, copy_str, push_char, str_eq};

verus! {

/// The presets directory under the box root.
pub fn presets_dir(root: &str) -> (r: String)
    ensures
        r@ == join_path(root@, "presets"@),
{
    join_paths(root, "presets")
}

/// Whether `name` may name a preset: not empty, no `/` or `\`, and not
/// starting with `.` (which rules out `.`, `..` and hidden files).
pub open spec fn valid_preset_name(name: Seq<char>) -> bool {
    name.len() > 0 && !name.contains('/') && !name.contains('\\') && name[0] != '.'
}

/// A preset name is accepted exactly when it is not empty, does not start
/// with `.`, and holds no `/` and no backslash anywhere; any other character,
/// digits and dots after the first included, is fine.
pub proof fn lemma_accepted_preset_names(n: Seq<char>)
    ensures
        valid_preset_name(n) <==> {
            &&& n.len() > 0
            &&& n[0] != '.'
            &&& forall|i: int| 0 <= i < n.len() ==> #[trigger] n[i] != '/' && n[i] != '\\'
        },
{
    if n.contains('/') {
        let i = choose|i: int| 0 <= i < n.len() && n[i] == '/';
        assert(n[i] == '/');
    }
    if n.contains('\\') {
        let i = choose|i: int| 0 <= i < n.len() && n[i] == '\\';
        assert(n[i] == '\\');
    }
}

/// The error for a name that may not name a preset.
pub open spec fn invalid_name_message(name: Seq<char>) -> Seq<char> {
    "Invalid preset name '"@ + name + "'."@
}

/// Checks a preset name (see [`valid_preset_name`]).
pub fn validate_name(name: &str) -> (r: Result<(), String>)
    ensures
        valid_preset_name(name@) ==> r is Ok,
        !valid_preset_name(name@) ==> (r matches Err(m) && m@ == invalid_name_message(name@)),
{
    let v = chars_of(name);
    let mut ok = v.len() > 0 && v[0] != '.';
    let mut i: usize = 0;
    while i < v.len()
        invariant
            v@ == name@,
            i <= v@.len(),
            ok == (v@.len() > 0 && v@[0] != '.' && forall|k: int| 0 <= k < i ==> v@[k] != '/' && v@[k] != '\\'),
        decreases v@.len() - i,
    {
        if v[i] == '/' || v[i] == '\\' {
            ok = false;
        }
        i = i + 1;
    }
    proof {
        if ok {
            assert(!name@.contains('/'));
            assert(!name@.contains('\\'));
        } else if v@.len() > 0 && v@[0] != '.' {
            let k = choose|k: int| 0 <= k < i && !(v@[k] != '/' && v@[k] != '\\');
            assert(name@[k] == v@[k]);
        }
    }
    if ok {
        Ok(())
    } else {
        let mut m = concat_str("Invalid preset name '", name);
        append_str(&mut m, "'.");
        Err(m)
    }
}

/// The error for a preset that does not exist.
pub open spec fn not_found_message(name: Seq<char>) -> Seq<char> {
    "No preset named '"@ + name + "' found."@
}

/// The error for a preset list with no repo.
pub open spec fn empty_message() -> Seq<char> {
    "A preset must contain at least one repo."@
}

/// The error for a repo that is not registered.
pub open spec fn unregistered_message(repo: Seq<char>) -> Seq<char> {
    "Repo '"@ + repo + "' not found in registry."@
}

/// The repos of a preset file (one per line, trimmed, blank lines skipped).
pub fn load(content: &str) -> (r: Vec<String>)
    ensures
        strs(r@) == read_lines(content@),
{
    read_lines_str(content)
}

/// What saving a preset writes: its repos without repeats, first
/// occurrence first, and the file content (one repo per line).
#[derive(Debug)]
pub struct PresetWrite {
    pub repos: Vec<String>,
    pub content: String,
}

/// Prepares saving preset `name` with `repos`, given the registered
/// source names. Fails for an invalid name, for an empty list, and for the
/// first repo (after removing repeats) that is not registered.
pub fn add(name: &str, repos: &Vec<String>, registered: &Vec<String>) -> (r: Result<PresetWrite, String>)
    ensures
        !valid_preset_name(name@) ==> (r matches Err(m) && m@ == invalid_name_message(name@)),
        valid_preset_name(name@) && repos@.len() == 0 ==> (r matches Err(m) && m@ == empty_message()),
        valid_preset_name(name@) && repos@.len() > 0 ==> {
            let unique = append_missing(Seq::empty(), strs(repos@));
            match first_missing(unique, strs(registered@)) {
                Some(x) => r matches Err(m) && m@ == unregistered_message(x),
                None => r matches Ok(w) && strs(w.repos@) == unique && w.content@ == join(unique, '\n').push('\n'),
            }
        },
{
    validate_name(name)?;
    if repos.len() == 0 {
        return Err("A preset must contain at least one repo.".to_string());
    }
    let empty: Vec<String> = Vec::new();
    assert(strs(empty@) =~= Seq::<Seq<char>>::empty());
    let unique = append_missing_exec(empty, repos);
    match first_shared_exec(&unique, registered, false) {
        Some(x) => {
            let mut m = concat_str("Repo '", x.as_str());
            append_str(&mut m, "' not found in registry.");
            Err(m)
        },
        None => {
            let mut content = join_str(&unique, '\n');
            push_char(&mut content, '\n');
            Ok(PresetWrite { repos: unique, content })
        },
    }
}

/// The message shown once a preset was written.
pub open spec fn saved_message(name: Seq<char>, repos: Seq<Seq<char>>, existed: bool) -> Seq<char> {
    "Preset '\x1b[1m"@ + name + "\x1b[0m' "@ + (if existed { "updated"@ } else { "saved"@ }) + " ("@
        + join_sep(repos, ", "@) + ")."@
}

/// Formats the message shown once a preset was written.
pub fn saved(name: &str, repos: &Vec<String>, existed: bool) -> (r: String)
    ensures
        r@ == saved_message(name@, strs(repos@), existed),
{
    let mut m = concat_str("Preset '\x1b[1m", name);
    append_str(&mut m, "\x1b[0m' ");
    append_str(&mut m, if existed { "updated" } else { "saved" });
    append_str(&mut m, " (");
    let j = join_with(repos, ", ");
    append_str(&mut m, j.as_str());
    append_str(&mut m, ").");
    m
}

/// Checks that a preset may be written: `preset add` creates a new one,
/// `preset update` replaces an existing one.
pub fn check_target(name: &str, exists: bool, creating: bool) -> (r: Result<(), String>)
    ensures
        creating && exists ==> (r matches Err(m) && m@ == "Preset '"@ + name@ + "' already exists."@),
        !creating && !exists ==> (r matches Err(m) && m@ == not_found_message(name@)),
        creating != exists ==> r is Ok,
{
    if creating && exists {
        let mut m = concat_str("Preset '", name);
        append_str(&mut m, "' already exists.");
        Err(m)
    } else if !creating && !exists {
        let mut m = concat_str("No preset named '", name);
        append_str(&mut m, "' found.");
        Err(m)
    } else {
        Ok(())
    }
}

/// The repos of `repos` that are registered, in order.
pub open spec fn kept(repos: Seq<Seq<char>>, registered: Seq<Seq<char>>) -> Seq<Seq<char>>
    decreases repos.len(),
{
    if repos.len() == 0 {
        Seq::empty()
    } else if registered.contains(repos.last()) {
        kept(repos.drop_last(), registered).push(repos.last())
    } else {
        kept(repos.drop_last(), registered)
    }
}

/// The warning for each repo of `repos` that is no longer registered.
pub open spec fn warnings(name: Seq<char>, repos: Seq<Seq<char>>, registered: Seq<Seq<char>>) -> Seq<Seq<char>>
    decreases repos.len(),
{
    if repos.len() == 0 {
        Seq::empty()
    } else if registered.contains(repos.last()) {
        warnings(name, repos.drop_last(), registered)
    } else {
        warnings(name, repos.drop_last(), registered).push(
            "Warning: preset '"@ + name + "' references removed repo '"@ + repos.last() + "', skipping."@,
        )
    }
}

/// A preset's repos that are still registered, and a warning for each one
/// that is not; fails when none is left.
pub fn resolve(name: &str, repos: &Vec<String>, registered: &Vec<String>) -> (r: Result<(Vec<String>, Vec<String>), String>)
    ensures
        kept(strs(repos@), strs(registered@)).len() == 0 ==> (r matches Err(m) && m@ == "Preset '"@ + name@
            + "' has no valid repos (all referenced repos have been removed)."@),
        kept(strs(repos@), strs(registered@)).len() > 0 ==> (r matches Ok(p) && strs(p.0@) == kept(
            strs(repos@),
            strs(registered@),
        ) && strs(p.1@) == warnings(name@, strs(repos@), strs(registered@))),
{
    let ghost rv = strs(repos@);
    let ghost reg = strs(registered@);
    let mut valid: Vec<String> = Vec::new();
    let mut warns: Vec<String> = Vec::new();
    let mut i: usize = 0;
    while i < repos.len()
        invariant
            i <= repos@.len(),
            rv == strs(repos@),
            reg == strs(registered@),
            strs(valid@) == kept(rv.subrange(0, i as int), reg),
            strs(warns@) == warnings(name@, rv.subrange(0, i as int), reg),
        decreases repos@.len() - i,
    {
        assert(rv.subrange(0, i + 1).drop_last() =~= rv.subrange(0, i as int));
        assert(rv.subrange(0, i + 1).last() == repos@[i as int]@);
        if crate::edit::contains_str(registered, repos[i].as_str()) {
            let c = copy_str(repos[i].as_str());
            let ghost before = valid@;
            valid.push(c);
            assert(strs(valid@) =~= strs(before).push(repos@[i as int]@));
        } else {
            let mut w = concat_str("Warning: preset '", name);
            append_str(&mut w, "' references removed repo '");
            append_str(&mut w, repos[i].as_str());
            append_str(&mut w, "', skipping.");
            let ghost before = warns@;
            let ghost wv = w@;
            warns.push(w);
            assert(strs(warns@) =~= strs(before).push(wv));
        }
        i = i + 1;
    }
    assert(rv.subrange(0, i as int) =~= rv);
    if valid.len() == 0 {
        let mut m = concat_str("Preset '", name);
        append_str(&mut m, "' has no valid repos (all referenced repos have been removed).");
        return Err(m);
    }
    Ok((valid, warns))
}

/// Whether a file in the presets directory is listed: its name is not
/// empty and does not start with `.`.
pub open spec fn listed_name(name: Seq<char>) -> bool {
    name.len() > 0 && name[0] != '.'
}

/// A preset as listed: its name and repos, when the file is listed and has
/// at least one repo.
pub fn list_entry(name: &str, content: &str) -> (r: Option<(String, Vec<String>)>)
    ensures
        listed_name(name@) && read_lines(content@).len() > 0 ==> (r matches Some(e) && e.0@ == name@ && strs(e.1@)
            == read_lines(content@)),
        !(listed_name(name@) && read_lines(content@).len() > 0) ==> r is None,
{
    let v = chars_of(name);
    if v.len() == 0 || v[0] == '.' {
        return None;
    }
    let repos = read_lines_str(content);
    if repos.len() == 0 {
        return None;
    }
    Some((copy_str(name), repos))
}

/// The names of `entries`.
pub open spec fn entry_names(entries: Seq<(String, Vec<String>)>) -> Seq<Seq<char>> {
    entries.map_values(|e: (String, Vec<String>)| e.0@)
}

/// Orders listed presets by name, as a stable sort does: presets of the
/// same name keep the order they came in.
pub fn sort_by_name(entries: Vec<(String, Vec<String>)>) -> (r: Vec<(String, Vec<String>)>)
    ensures
        r@.len() == entries@.len(),
        exists|perm: Seq<usize>|
            {
                &&& crate::strset::stable_order_of(entry_names(entries@), perm)
                &&& forall|q: int|
                    0 <= q < r@.len() ==> (#[trigger] r@[q]).0@ == entries@[perm[q] as int].0@ && strs(r@[q].1@)
                        == strs(entries@[perm[q] as int].1@)
            },
{
    let mut keys: Vec<String> = Vec::new();
    let mut i: usize = 0;
    while i < entries.len()
        invariant
            i <= entries@.len(),
            strs(keys@) == entry_names(entries@).subrange(0, i as int),
        decreases entries@.len() - i,
    {
        let ghost before = keys@;
        keys.push(copy_str(entries[i].0.as_str()));
        assert(strs(keys@) =~= strs(before).push(entry_names(entries@)[i as int]));
        assert(entry_names(entries@).subrange(0, i + 1) =~= entry_names(entries@).subrange(0, i as int).push(
            entry_names(entries@)[i as int],
        ));
        i = i + 1;
    }
    assert(entry_names(entries@).subrange(0, i as int) =~= entry_names(entries@));
    let perm = crate::strset::stable_order(&keys);
    let mut out: Vec<(String, Vec<String>)> = Vec::new();
    let mut k: usize = 0;
    while k < perm.len()
        invariant
            k <= perm@.len(),
            crate::strset::stable_order_of(entry_names(entries@), perm@),
            out@.len() == k,
            forall|q: int|
                0 <= q < k ==> (#[trigger] out@[q]).0@ == entries@[perm@[q] as int].0@ && strs(out@[q].1@)
                    == strs(entries@[perm@[q] as int].1@),
        decreases perm@.len() - k,
    {
        let e = &entries[perm[k]];
        out.push((copy_str(e.0.as_str()), crate::strset::copy_strs(&e.1)));
        k = k + 1;
    }
    out
}

/// What saving a preset writes reads back as the repos it saved: the
/// file holds each repo once, in order, and loading it gives that list,
/// for repo names that are non-empty, free of surrounding whitespace and
/// of newlines (as source names are).
pub proof fn lemma_saved_preset_reads_back(repos: Seq<Seq<char>>)
    requires
        free_of(repos, '\n'),
        forall|i: int| 0 <= i < repos.len() ==> #[trigger] repos[i].len() > 0 && is_trimmed(repos[i]),
    ensures
        read_lines(join(append_missing(Seq::empty(), repos), '\n').push('\n')) == append_missing(Seq::empty(), repos),
{
    let u = append_missing(Seq::<Seq<char>>::empty(), repos);
    assert forall|i: int| 0 <= i < u.len() implies repos.contains(#[trigger] u[i]) by {
        assert(u.contains(u[i]));
        crate::edit::lemma_append_missing_contains(Seq::empty(), repos, u[i]);
    }
    assert(free_of(u, '\n')) by {
        assert forall|i: int, j: int| 0 <= i < u.len() && 0 <= j < u[i].len() implies u[i][j] != '\n' by {
            assert(repos.contains(u[i]));
            let k = choose|k: int| 0 <= k < repos.len() && repos[k] == u[i];
        }
    }
    assert forall|i: int| 0 <= i < u.len() implies #[trigger] u[i].len() > 0 && is_trimmed(u[i]) by {
        assert(repos.contains(u[i]));
        let k = choose|k: int| 0 <= k < repos.len() && repos[k] == u[i];
        assert(repos[k].len() > 0 && is_trimmed(repos[k]));
    }
    lemma_read_lines_trailing_newline(join(u, '\n'));
    lemma_read_lines_roundtrip(u);
}

} // verus!
