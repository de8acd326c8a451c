//! The registry of sources: bare clones under `<root>/repos/<name>.git`.
use vstd::prelude::*;
use crate::paths::{join as join_paths, join_path};
use crate::text::{chars_of, copy_str, str_eq, string_of_range};

verus! {

/// A registered source: its name and the path of its bare clone.
#[derive(Debug, Clone)]
pub struct RepoEntry {
    pub name: String,
    pub path: String,
}

impl RepoEntry {
    /// A copy of the entry.
    pub fn copied(&self) -> (r: RepoEntry)
        ensures
            r.name@ == self.name@,
            r.path@ == self.path@,
    {
        RepoEntry { name: copy_str(self.name.as_str()), path: copy_str(self.path.as_str()) }
    }
}

/// The directory of registered sources under the box root.
pub fn repos_dir(root: &str) -> (r: String)
    ensures
        r@ == join_path(root@, "repos"@),
{
    join_paths(root, "repos")
}

/// The source name a bare-clone directory stands for: its name without the
/// `.git` suffix, when it has that suffix and something before it.
pub open spec fn name_of_bare_dir(d: Seq<char>) -> Option<Seq<char>> {
    if d.len() > 4 && d.subrange(d.len() - 4, d.len() as int) == ".git"@ {
        Some(d.subrange(0, d.len() - 4))
    } else {
        None
    }
}

/// The source name of a bare-clone directory name (see [`name_of_bare_dir`]).
pub fn repo_name_from_dir(dir_name: &str) -> (r: Option<String>)
    ensures
        match name_of_bare_dir(dir_name@) {
            Some(n) => r matches Some(s) && s@ == n,
            None => r is None,
        },
{
    let v = chars_of(dir_name);
    let n = v.len();
    if n <= 4 {
        return None;
    }
    let suffix = string_of_range(v.as_slice(), n - 4, n);
    if str_eq(suffix.as_str(), ".git") {
        Some(string_of_range(v.as_slice(), 0, n - 4))
    } else {
        None
    }
}

/// The directory name of a source's bare clone: `<name>.git`.
pub fn bare_dir_name(name: &str) -> (r: String)
    ensures
        r@ == name@ + ".git"@,
{
    crate::text::concat_str(name, ".git")
}

/// Whether `name` may be given to `source remove`: no `/` or `\` in it, and
/// not `.` or `..`.
pub open spec fn removable_name(name: Seq<char>) -> bool {
    !name.contains('/') && !name.contains('\\') && name != ".."@ && name != "."@
}

pub fn is_removable_name(name: &str) -> (r: bool)
    ensures
        r == removable_name(name@),
{
    let v = chars_of(name);
    let mut i: usize = 0;
    while i < v.len()
        invariant
            i <= v@.len(),
            v@ == name@,
            forall|k: int| 0 <= k < i ==> v@[k] != '/' && v@[k] != '\\',
        decreases v@.len() - i,
    {
        if v[i] == '/' || v[i] == '\\' {
            assert(name@[i as int] == v@[i as int]);
            return false;
        }
        i = i + 1;
    }
    !str_eq(name, "..") && !str_eq(name, ".")
}

/// The error for a name registered already.
pub open spec fn duplicate_message(name: Seq<char>) -> Seq<char> {
    "A repo named '"@ + name + "' is already registered."@
}

/// Refuses `name` when a source of that name is registered already.
pub fn check_unregistered(name: &str, registered: &Vec<RepoEntry>) -> (r: Result<(), String>)
    ensures
        entry_names(registered@).contains(name@) ==> (r matches Err(m) && m@ == duplicate_message(name@)),
        !entry_names(registered@).contains(name@) ==> r is Ok,
{
    let ghost names = entry_names(registered@);
    let mut i: usize = 0;
    while i < registered.len()
        invariant
            i <= registered@.len(),
            names == entry_names(registered@),
            forall|k: int| 0 <= k < i ==> names[k] != name@,
        decreases registered@.len() - i,
    {
        if str_eq(registered[i].name.as_str(), name) {
            assert(names[i as int] == name@);
            let mut m = crate::text::concat_str("A repo named '", name);
            crate::text::append_str(&mut m, "' is already registered.");
            return Err(m);
        }
        i = i + 1;
    }
    Ok(())
}

/// The name a source is registered under: the last component of its
/// canonical path (see [`crate::paths::path_file_name`]); fails when the
/// path has none, or when a source of that name is registered already.
pub fn registration_name(canonical: &str, registered: &Vec<RepoEntry>) -> (r: Result<String, String>)
    ensures
        match crate::paths::path_file_name(canonical@) {
            None => r matches Err(m) && m@ == "Cannot derive repo name from path."@,
            Some(n) => if entry_names(registered@).contains(n) {
                r matches Err(m) && m@ == duplicate_message(n)
            } else {
                r matches Ok(x) && x@ == n
            },
        },
{
    let name = match crate::paths::file_name_of(canonical) {
        Some(n) => n,
        None => {
            return Err("Cannot derive repo name from path.".to_string());
        },
    };
    match check_unregistered(name.as_str(), registered) {
        Ok(()) => Ok(name),
        Err(m) => Err(m),
    }
}

/// Whether a source given to `source add` is a remote URL: it has a scheme
/// (`://`), or it is scp-like, a host then `:` before any `/`
/// (`git@github.com:user/app.git`).
pub open spec fn is_url(s: Seq<char>) -> bool {
    crate::text::find_sub(s, "://"@) is Some || match crate::text::first_index(s, ':') {
        Some(c) => c > 0 && match crate::text::first_index(s, '/') {
            Some(q) => c < q,
            None => true,
        },
        None => false,
    }
}

/// `s` without trailing `/`s.
pub open spec fn trim_slashes(s: Seq<char>) -> Seq<char>
    decreases s.len(),
{
    if s.len() > 0 && s.last() == '/' {
        trim_slashes(s.drop_last())
    } else {
        s
    }
}

/// Where the last component of `s[..k]` starts: just after its last `/`
/// or `:` (0 when there is none).
pub open spec fn component_start(s: Seq<char>, k: int) -> int
    decreases k,
{
    if k <= 0 {
        0
    } else if s[k - 1] == '/' || s[k - 1] == ':' {
        k
    } else {
        component_start(s, k - 1)
    }
}

/// The name a source given by URL is registered under: the last component
/// of the URL (trailing `/`s ignored) without a `.git` suffix, when that
/// leaves something.
pub open spec fn url_name(s: Seq<char>) -> Option<Seq<char>> {
    let t = trim_slashes(s);
    let c = t.skip(component_start(t, t.len() as int));
    let n = if crate::text::has_suffix(c, ".git"@) { c.subrange(0, c.len() - 4) } else { c };
    if n.len() == 0 {
        None
    } else {
        Some(n)
    }
}

proof fn lemma_component_start_after(s: Seq<char>, j: int, k: int)
    requires
        1 <= j <= k <= s.len(),
        s[j - 1] == '/' || s[j - 1] == ':',
        forall|i: int| j <= i < k ==> #[trigger] s[i] != '/' && s[i] != ':',
    ensures
        component_start(s, k) == j,
    decreases k - j,
{
    if k > j {
        lemma_component_start_after(s, j, k - 1);
    }
}

/// A source given by URL is named after the last component of its path,
/// behind the last `/` or `:`, with a `.git` suffix dropped: both
/// `<prefix>/<name>.git` and `<prefix>/<name>` (or with `:` before the
/// name, as in `git@host:name.git`) give `<name>`.
pub proof fn lemma_url_names(p: Seq<char>, sep: char, n: Seq<char>)
    requires
        sep == '/' || sep == ':',
        n.len() > 0,
        forall|i: int| 0 <= i < n.len() ==> #[trigger] n[i] != '/' && n[i] != ':',
        !crate::text::has_suffix(n, ".git"@),
    ensures
        url_name(p.push(sep) + n + ".git"@) == Some(n),
        url_name(p.push(sep) + n) == Some(n),
{
    reveal_strlit(".git");
    let j: int = p.len() as int + 1;
    let a = p.push(sep) + n + ".git"@;
    assert(a.last() == 't');
    assert(trim_slashes(a) == a);
    lemma_component_start_after(a, j, a.len() as int);
    let ca = a.skip(j);
    assert(ca =~= n + ".git"@);
    assert(ca.subrange(ca.len() - 4, ca.len() as int) =~= ".git"@);
    assert(ca.subrange(0, ca.len() - 4) =~= n);
    let b = p.push(sep) + n;
    assert(b.last() == n.last());
    assert(trim_slashes(b) == b);
    lemma_component_start_after(b, j, b.len() as int);
    assert(b.skip(j) =~= n);
}

/// Tells whether a source is a URL (see [`is_url`]).
pub fn is_url_source(src: &str) -> (r: bool)
    ensures
        r == is_url(src@),
{
    let v = chars_of(src);
    let sep = chars_of("://");
    proof {
        reveal_strlit("://");
    }
    if crate::text::find_in(v.as_slice(), sep.as_slice(), 0).is_some() {
        return true;
    }
    let mut i: usize = 0;
    while i < v.len()
        invariant
            i <= v@.len(),
            v@ == src@,
            crate::text::find_sub(src@, "://"@) is None,
            forall|k: int| 0 <= k < i ==> v@[k] != ':' && v@[k] != '/',
        decreases v@.len() - i,
    {
        if v[i] == ':' || v[i] == '/' {
            proof {
                crate::text::lemma_first_index(src@, v@[i as int], i as int);
                if v@[i as int] == ':' {
                    lemma_no_char_before(src@, '/', i as int);
                } else {
                    lemma_no_char_before(src@, ':', i as int);
                }
            }
            return v[i] == ':' && i > 0;
        }
        i = i + 1;
    }
    proof {
        crate::text::lemma_first_index(src@, ':', i as int);
    }
    false
}

proof fn lemma_first_index_found(s: Seq<char>, c: char)
    ensures
        match crate::text::first_index(s, c) {
            Some(q) => 0 <= q < s.len() && s[q] == c,
            None => true,
        },
    decreases s.len(),
{
    if s.len() > 0 && s[0] != c {
        lemma_first_index_found(s.drop_first(), c);
    }
}

proof fn lemma_no_char_before(s: Seq<char>, c: char, i: int)
    requires
        0 <= i < s.len(),
        forall|k: int| 0 <= k < i ==> s[k] != c,
        s[i] != c,
    ensures
        match crate::text::first_index(s, c) {
            Some(q) => q > i,
            None => true,
        },
{
    lemma_first_index_found(s, c);
}

/// The name of a source given by URL (see [`url_name`]).
pub fn url_source_name(src: &str) -> (r: Option<String>)
    ensures
        match url_name(src@) {
            Some(n) => r matches Some(x) && x@ == n,
            None => r is None,
        },
{
    let v = chars_of(src);
    let mut end: usize = v.len();
    assert(v@.subrange(0, end as int) =~= v@);
    while end > 0 && v[end - 1] == '/'
        invariant
            end <= v@.len(),
            v@ == src@,
            trim_slashes(src@) == trim_slashes(v@.subrange(0, end as int)),
        decreases end,
    {
        assert(v@.subrange(0, end as int).drop_last() =~= v@.subrange(0, end - 1));
        end = end - 1;
    }
    let ghost t = v@.subrange(0, end as int);
    assert(trim_slashes(t) == t);
    let mut start: usize = end;
    while start > 0 && v[start - 1] != '/' && v[start - 1] != ':'
        invariant
            start <= end <= v@.len(),
            t == v@.subrange(0, end as int),
            component_start(t, end as int) == component_start(t, start as int),
        decreases start,
    {
        assert(t[start - 1] == v@[start - 1]);
        start = start - 1;
    }
    if start > 0 {
        assert(t[start - 1] == v@[start - 1]);
    }
    let c = string_of_range(v.as_slice(), start, end);
    assert(c@ =~= t.skip(component_start(t, t.len() as int)));
    proof {
        reveal_strlit(".git");
    }
    let n = match crate::text::strip_suffix(c.as_str(), ".git") {
        Some(x) => x,
        None => c,
    };
    if n.unicode_len() == 0 {
        None
    } else {
        Some(n)
    }
}

/// The origin URL a source shows in `source list`: the trimmed output of
/// `git remote get-url origin`, when it succeeded and printed something.
pub fn origin_from_output(success: bool, stdout: &str) -> (r: Option<String>)
    ensures
        !success ==> r is None,
        success && crate::text::trim(stdout@).len() == 0 ==> r is None,
        success && crate::text::trim(stdout@).len() > 0 ==> (r matches Some(u) && u@ == crate::text::trim(stdout@)),
{
    if !success {
        return None;
    }
    let url = crate::text::trim_str(stdout);
    if url.unicode_len() == 0 {
        None
    } else {
        Some(url)
    }
}

/// The error for a name that `source remove` refuses.
pub open spec fn invalid_repo_name_message(name: Seq<char>) -> Seq<char> {
    "Invalid repo name '"@ + name + "'."@
}

/// Checks a name given to `source remove` (see [`removable_name`]).
pub fn check_removable(name: &str) -> (r: Result<(), String>)
    ensures
        removable_name(name@) ==> r is Ok,
        !removable_name(name@) ==> (r matches Err(m) && m@ == invalid_repo_name_message(name@)),
{
    if is_removable_name(name) {
        Ok(())
    } else {
        let mut m = crate::text::concat_str("Invalid repo name '", name);
        crate::text::append_str(&mut m, "'.");
        Err(m)
    }
}

/// The names of `entries`.
pub open spec fn entry_names(entries: Seq<RepoEntry>) -> Seq<Seq<char>> {
    entries.map_values(|e: RepoEntry| e.name@)
}

/// Orders registered sources by name, as a stable sort does: sources of
/// the same name keep the order they came in.
pub fn sort_by_name(entries: Vec<RepoEntry>) -> (r: Vec<RepoEntry>)
    ensures
        sorted_listing(entries@, r@),
{
    let mut keys: Vec<String> = Vec::new();
    let mut i: usize = 0;
    while i < entries.len()
        invariant
            i <= entries@.len(),
            crate::strset::strs(keys@) == entry_names(entries@).subrange(0, i as int),
        decreases entries@.len() - i,
    {
        let ghost before = keys@;
        keys.push(copy_str(entries[i].name.as_str()));
        assert(crate::strset::strs(keys@) =~= crate::strset::strs(before).push(entry_names(entries@)[i as int]));
        assert(entry_names(entries@).subrange(0, i + 1) =~= entry_names(entries@).subrange(0, i as int).push(
            entry_names(entries@)[i as int],
        ));
        i = i + 1;
    }
    assert(entry_names(entries@).subrange(0, i as int) =~= entry_names(entries@));
    let perm = crate::strset::stable_order(&keys);
    let mut out: Vec<RepoEntry> = Vec::new();
    let mut k: usize = 0;
    while k < perm.len()
        invariant
            k <= perm@.len(),
            crate::strset::stable_order_of(entry_names(entries@), perm@),
            out@.len() == k,
            forall|q: int|
                0 <= q < k ==> (#[trigger] out@[q]).name@ == entries@[perm@[q] as int].name@ && out@[q].path@
                    == entries@[perm@[q] as int].path@,
        decreases perm@.len() - k,
    {
        let e = entries[perm[k]].copied();
        out.push(e);
        k = k + 1;
    }
    out
}

/// `listed` is what [`sort_by_name`] gives for `entries`.
pub open spec fn sorted_listing(entries: Seq<RepoEntry>, listed: Seq<RepoEntry>) -> bool {
    &&& listed.len() == entries.len()
    &&& exists|perm: Seq<usize>|
        {
            &&& crate::strset::stable_order_of(entry_names(entries), perm)
            &&& forall|q: int|
                0 <= q < listed.len() ==> (#[trigger] listed[q]).name@ == entries[perm[q] as int].name@
                    && listed[q].path@ == entries[perm[q] as int].path@
        }
}

/// Registering a source under a name not registered yet and then listing
/// the sources shows it exactly once, with its path; registering that
/// name again is refused as a duplicate (see [`check_unregistered`]).
pub proof fn lemma_registered_source_lists_once(registered: Seq<RepoEntry>, added: RepoEntry, listed: Seq<RepoEntry>)
    requires
        !entry_names(registered).contains(added.name@),
        sorted_listing(registered.push(added), listed),
    ensures
        exists|q: int|
            {
                &&& 0 <= q < listed.len()
                &&& (#[trigger] listed[q]).name@ == added.name@
                &&& listed[q].path@ == added.path@
                &&& forall|q2: int| 0 <= q2 < listed.len() && (#[trigger] listed[q2]).name@ == added.name@ ==> q2 == q
            },
        entry_names(registered.push(added)).contains(added.name@),
{
    let all = registered.push(added);
    let keys = entry_names(all);
    let n = registered.len() as int;
    let perm = choose|perm: Seq<usize>|
        {
            &&& crate::strset::stable_order_of(keys, perm)
            &&& forall|q: int|
                0 <= q < listed.len() ==> (#[trigger] listed[q]).name@ == all[perm[q] as int].name@ && listed[q].path@
                    == all[perm[q] as int].path@
        };
    assert(crate::strset::lists_index(perm, n));
    let q = choose|q: int| 0 <= q < perm.len() && #[trigger] perm[q] == n;
    assert(listed[q].name@ == added.name@);
    assert forall|q2: int| 0 <= q2 < listed.len() && (#[trigger] listed[q2]).name@ == added.name@ implies q2 == q by {
        let j = perm[q2] as int;
        if j < n {
            assert(keys[j] == added.name@);
            assert(entry_names(registered)[j] == added.name@);
        }
        assert(j == n);
        if q2 != q {
            crate::strset::lemma_lex_irreflexive(keys[n]);
            if q2 < q {
                assert(crate::strset::key_before(keys, perm[q2] as int, perm[q] as int));
            } else {
                assert(crate::strset::key_before(keys, perm[q] as int, perm[q2] as int));
            }
        }
    }
    assert(keys[n] == added.name@);
}

} // verus!
