//! Lists of strings stored as one string with a separator character, and
//! read back by splitting, trimming and dropping empty entries.
use vstd::prelude::*;
use crate::text::{is_white, push_char, trim, trim_bounds, string_of_range};

verus! {

/// `str::split(sep)`: the pieces of `s` between occurrences of `sep`.
/// There is always at least one piece.
pub open spec fn split(s: Seq<char>, sep: char) -> Seq<Seq<char>>
    decreases s.len(),
{
    if s.len() == 0 {
        seq![Seq::<char>::empty()]
    } else {
        let p = split(s.drop_last(), sep);
        if s.last() == sep {
            p.push(Seq::<char>::empty())
        } else {
            p.update(p.len() - 1, p.last().push(s.last()))
        }
    }
}

/// `v.join(sep)`: the entries of `v` with `sep` between consecutive ones.
pub open spec fn join(v: Seq<Seq<char>>, sep: char) -> Seq<char>
    decreases v.len(),
{
    if v.len() == 0 {
        Seq::empty()
    } else if v.len() == 1 {
        v[0]
    } else {
        join(v.drop_last(), sep) + seq![sep] + v.last()
    }
}

/// The non-empty entries of `v`, in order.
pub open spec fn non_empty(v: Seq<Seq<char>>) -> Seq<Seq<char>>
    decreases v.len(),
{
    if v.len() == 0 {
        v
    } else if v.last().len() == 0 {
        non_empty(v.drop_last())
    } else {
        non_empty(v.drop_last()).push(v.last())
    }
}

/// Each entry of `v` trimmed.
pub open spec fn trim_all(v: Seq<Seq<char>>) -> Seq<Seq<char>> {
    v.map_values(|e: Seq<char>| trim(e))
}

/// Reading a list stored with separator `sep`: split, drop empty pieces.
pub open spec fn read_list(s: Seq<char>, sep: char) -> Seq<Seq<char>> {
    non_empty(split(s, sep))
}

/// Reading a list of lines: split at newlines, trim each line, drop the
/// empty ones (as `lines()`, `trim` and an emptiness filter do together).
pub open spec fn read_lines(s: Seq<char>) -> Seq<Seq<char>> {
    non_empty(trim_all(split(s, '\n')))
}

proof fn lemma_split_nonempty(s: Seq<char>, sep: char)
    ensures
        split(s, sep).len() >= 1,
    decreases s.len(),
{
    if s.len() > 0 {
        lemma_split_nonempty(s.drop_last(), sep);
    }
}

/// Splits `v` at `sep` into its pieces, trimming each piece when `trim_each`.
fn split_pieces(v: &[char], sep: char, trim_each: bool) -> (r: Vec<String>)
    ensures
        r@.map_values(|x: String| x@) == if trim_each {
            trim_all(split(v@, sep))
        } else {
            split(v@, sep)
        },
{
    let mut out: Vec<String> = Vec::new();
    let mut start: usize = 0;
    let mut i: usize = 0;
    proof {
        lemma_split_nonempty(v@.subrange(0, 0), sep);
        assert(v@.subrange(0, 0) =~= Seq::<char>::empty());
    }
    while i < v.len()
        invariant
            start <= i <= v@.len(),
            v@.len() == v.len(),
            split(v@.subrange(0, i as int), sep).len() == out@.len() + 1,
            forall|k: int|
                0 <= k < out@.len() ==> #[trigger] out@[k]@ == if trim_each {
                    trim(split(v@.subrange(0, i as int), sep)[k])
                } else {
                    split(v@.subrange(0, i as int), sep)[k]
                },
            split(v@.subrange(0, i as int), sep).last() == v@.subrange(start as int, i as int),
        decreases v@.len() - i,
    {
        let ghost pre = v@.subrange(0, i as int);
        assert(v@.subrange(0, i + 1).drop_last() =~= pre);
        if v[i] == sep {
            let piece = if trim_each {
                let (a, b) = trim_bounds(v, start, i);
                string_of_range(v, a, b)
            } else {
                string_of_range(v, start, i)
            };
            out.push(piece);
            start = i + 1;
        } else {
            assert(v@.subrange(start as int, i + 1) =~= v@.subrange(start as int, i as int).push(v@[i as int]));
        }
        i = i + 1;
        assert(v@.subrange(start as int, i as int) =~= split(v@.subrange(0, i as int), sep).last()) by {
            if v@[i - 1] == sep {
                assert(v@.subrange(start as int, i as int) =~= Seq::<char>::empty());
            }
        }
    }
    let last = if trim_each {
        let (a, b) = trim_bounds(v, start, v.len());
        string_of_range(v, a, b)
    } else {
        string_of_range(v, start, v.len())
    };
    out.push(last);
    assert(v@.subrange(0, v@.len() as int) =~= v@);
    let ghost want = if trim_each {
        trim_all(split(v@, sep))
    } else {
        split(v@, sep)
    };
    assert(out@.map_values(|x: String| x@) =~= want);
    out
}

/// Keeps the non-empty strings of `v`, in order.
fn keep_non_empty(v: Vec<String>) -> (r: Vec<String>)
    ensures
        r@.map_values(|x: String| x@) == non_empty(v@.map_values(|x: String| x@)),
{
    let ghost vs = v@.map_values(|x: String| x@);
    let mut out: Vec<String> = Vec::new();
    let mut i: usize = 0;
    while i < v.len()
        invariant
            i <= v@.len(),
            vs == v@.map_values(|x: String| x@),
            out@.map_values(|x: String| x@) == non_empty(vs.subrange(0, i as int)),
        decreases v@.len() - i,
    {
        assert(vs.subrange(0, i + 1).drop_last() =~= vs.subrange(0, i as int));
        assert(vs.subrange(0, i + 1).last() == v@[i as int]@);
        if !str_is_empty(&v[i]) {
            let s = v[i].clone();
            out.push(s);
            assert(out@.map_values(|x: String| x@) =~= non_empty(vs.subrange(0, i as int)).push(v@[i as int]@));
        }
        i = i + 1;
    }
    assert(vs.subrange(0, v@.len() as int) =~= vs);
    out
}

fn str_is_empty(s: &String) -> (r: bool)
    ensures
        r == (s@.len() == 0),
{
    let v = crate::text::chars_of(s.as_str());
    v.len() == 0
}

/// The pieces of `s` between occurrences of `sep` (see [`split`]).
pub fn split_str(s: &str, sep: char) -> (r: Vec<String>)
    ensures
        r@.map_values(|x: String| x@) == split(s@, sep),
{
    let v = crate::text::chars_of(s);
    split_pieces(v.as_slice(), sep, false)
}

/// The entries of a list stored with separator `sep` (see [`read_list`]).
pub fn read_list_str(s: &str, sep: char) -> (r: Vec<String>)
    ensures
        r@.map_values(|x: String| x@) == read_list(s@, sep),
{
    let v = crate::text::chars_of(s);
    let pieces = split_pieces(v.as_slice(), sep, false);
    keep_non_empty(pieces)
}

/// The trimmed, non-empty lines of `s` (see [`read_lines`]).
pub fn read_lines_str(s: &str) -> (r: Vec<String>)
    ensures
        r@.map_values(|x: String| x@) == read_lines(s@),
{
    let v = crate::text::chars_of(s);
    let pieces = split_pieces(v.as_slice(), '\n', true);
    keep_non_empty(pieces)
}

/// The entries of `v` with `sep` between consecutive ones.
pub fn join_str(v: &Vec<String>, sep: char) -> (r: String)
    ensures
        r@ == join(v@.map_values(|x: String| x@), sep),
{
    let ghost vs = v@.map_values(|x: String| x@);
    let mut out = String::new();
    let mut i: usize = 0;
    while i < v.len()
        invariant
            i <= v@.len(),
            vs == v@.map_values(|x: String| x@),
            out@ == join(vs.subrange(0, i as int), sep),
        decreases v@.len() - i,
    {
        assert(vs.subrange(0, i + 1).drop_last() =~= vs.subrange(0, i as int));
        if i > 0 {
            push_char(&mut out, sep);
        }
        out.append(v[i].as_str());
        proof {
            if i == 0 {
                assert(vs.subrange(0, 1)[0] == v@[0]@);
                assert(out@ =~= join(vs.subrange(0, 1), sep));
            } else {
                assert(out@ =~= join(vs.subrange(0, i + 1), sep));
            }
        }
        i = i + 1;
    }
    assert(vs.subrange(0, v@.len() as int) =~= vs);
    out
}

/// `v.join(sep)` for a separator string.
pub open spec fn join_sep(v: Seq<Seq<char>>, sep: Seq<char>) -> Seq<char>
    decreases v.len(),
{
    if v.len() == 0 {
        Seq::empty()
    } else if v.len() == 1 {
        v[0]
    } else {
        join_sep(v.drop_last(), sep) + sep + v.last()
    }
}

/// The entries of `v` with the string `sep` between consecutive ones.
pub fn join_with(v: &Vec<String>, sep: &str) -> (r: String)
    ensures
        r@ == join_sep(v@.map_values(|x: String| x@), sep@),
{
    let ghost vs = v@.map_values(|x: String| x@);
    let mut out = String::new();
    let mut i: usize = 0;
    while i < v.len()
        invariant
            i <= v@.len(),
            vs == v@.map_values(|x: String| x@),
            out@ == join_sep(vs.subrange(0, i as int), sep@),
        decreases v@.len() - i,
    {
        assert(vs.subrange(0, i + 1).drop_last() =~= vs.subrange(0, i as int));
        if i > 0 {
            out.append(sep);
        }
        out.append(v[i].as_str());
        proof {
            if i == 0 {
                assert(vs.subrange(0, 1)[0] == v@[0]@);
                assert(out@ =~= join_sep(vs.subrange(0, 1), sep@));
            } else {
                assert(out@ =~= join_sep(vs.subrange(0, i + 1), sep@));
            }
        }
        i = i + 1;
    }
    assert(vs.subrange(0, v@.len() as int) =~= vs);
    out
}

// ---------------------------------------------------------------------------
// Laws
// ---------------------------------------------------------------------------

/// Whether no entry of `v` contains `sep`.
pub open spec fn free_of(v: Seq<Seq<char>>, sep: char) -> bool {
    forall|i: int, j: int| 0 <= i < v.len() && 0 <= j < v[i].len() ==> v[i][j] != sep
}

proof fn lemma_split_append_free(s: Seq<char>, t: Seq<char>, sep: char)
    requires
        forall|j: int| 0 <= j < t.len() ==> t[j] != sep,
    ensures
        split(s + t, sep) == split(s, sep).update(
            split(s, sep).len() - 1,
            split(s, sep).last() + t,
        ),
    decreases t.len(),
{
    lemma_split_nonempty(s, sep);
    if t.len() == 0 {
        assert(s + t =~= s);
        assert(split(s, sep).last() + t =~= split(s, sep).last());
        assert(split(s, sep).update(split(s, sep).len() - 1, split(s, sep).last()) =~= split(s, sep));
    } else {
        let t0 = t.drop_last();
        lemma_split_append_free(s, t0, sep);
        assert((s + t).drop_last() =~= s + t0);
        assert((s + t).last() == t.last());
        lemma_split_nonempty(s + t0, sep);
        let p = split(s + t0, sep);
        assert(p.last() == split(s, sep).last() + t0);
        assert(split(s + t, sep) =~= split(s, sep).update(split(s, sep).len() - 1, split(s, sep).last() + t)) by {
            assert(split(s, sep).last() + t =~= (split(s, sep).last() + t0).push(t.last()));
        }
    }
}

/// Splitting what `join` produced gives the entries back, provided none
/// of them contains the separator and there is at least one.
pub proof fn lemma_split_join(v: Seq<Seq<char>>, sep: char)
    requires
        v.len() >= 1,
        free_of(v, sep),
    ensures
        split(join(v, sep), sep) == v,
    decreases v.len(),
{
    if v.len() == 1 {
        assert(Seq::<char>::empty() + v[0] =~= v[0]);
        lemma_split_append_free(Seq::<char>::empty(), v[0], sep);
        assert(split(v[0], sep) =~= seq![Seq::<char>::empty()].update(0, Seq::<char>::empty() + v[0]));
        assert(split(join(v, sep), sep) =~= v);
    } else {
        let w = v.drop_last();
        assert(free_of(w, sep)) by {
            assert forall|i: int, j: int| 0 <= i < w.len() && 0 <= j < w[i].len() implies w[i][j] != sep by {
                assert(w[i] == v[i]);
            }
        }
        lemma_split_join(w, sep);
        let pre = join(w, sep) + seq![sep];
        assert(pre.drop_last() =~= join(w, sep));
        assert(split(pre, sep) == w.push(Seq::<char>::empty()));
        assert(forall|j: int| 0 <= j < v.last().len() ==> v.last()[j] != sep);
        lemma_split_append_free(pre, v.last(), sep);
        assert(Seq::<char>::empty() + v.last() =~= v.last());
        assert(split(join(v, sep), sep) =~= v);
    }
}

proof fn lemma_non_empty_id(v: Seq<Seq<char>>)
    requires
        forall|i: int| 0 <= i < v.len() ==> #[trigger] v[i].len() > 0,
    ensures
        non_empty(v) == v,
    decreases v.len(),
{
    if v.len() > 0 {
        lemma_non_empty_id(v.drop_last());
        assert(v.drop_last().push(v.last()) =~= v);
    }
}

/// A list stored with separator `sep` reads back as written, provided
/// every entry is non-empty and free of the separator.
pub proof fn lemma_read_list_roundtrip(v: Seq<Seq<char>>, sep: char)
    requires
        free_of(v, sep),
        forall|i: int| 0 <= i < v.len() ==> #[trigger] v[i].len() > 0,
    ensures
        read_list(join(v, sep), sep) == v,
{
    if v.len() == 0 {
        assert(split(Seq::<char>::empty(), sep) =~= seq![Seq::<char>::empty()]);
        assert(seq![Seq::<char>::empty()].drop_last() =~= Seq::<Seq<char>>::empty());
        assert(non_empty(seq![Seq::<char>::empty()]) =~= non_empty(Seq::<Seq<char>>::empty()));
    } else {
        lemma_split_join(v, sep);
        lemma_non_empty_id(v);
    }
}

/// Whether `e` is unchanged by trimming.
pub open spec fn is_trimmed(e: Seq<char>) -> bool {
    trim(e) == e
}

/// Lines written one per entry read back as written, provided every
/// entry is non-empty, has no surrounding whitespace and no newline.
pub proof fn lemma_read_lines_roundtrip(v: Seq<Seq<char>>)
    requires
        free_of(v, '\n'),
        forall|i: int| 0 <= i < v.len() ==> #[trigger] v[i].len() > 0 && is_trimmed(v[i]),
    ensures
        read_lines(join(v, '\n')) == v,
{
    if v.len() == 0 {
        assert(split(Seq::<char>::empty(), '\n') =~= seq![Seq::<char>::empty()]);
        let t = trim_all(seq![Seq::<char>::empty()]);
        assert(t[0] == trim(Seq::<char>::empty()));
        assert(trim(Seq::<char>::empty()) =~= Seq::<char>::empty());
        assert(t =~= seq![Seq::<char>::empty()]);
        assert(seq![Seq::<char>::empty()].drop_last() =~= Seq::<Seq<char>>::empty());
        assert(non_empty(seq![Seq::<char>::empty()]) =~= non_empty(Seq::<Seq<char>>::empty()));
    } else {
        lemma_split_join(v, '\n');
        assert(trim_all(v) =~= v);
        lemma_non_empty_id(v);
    }
}

/// A list written with a trailing separator reads back the same as
/// without it.
pub proof fn lemma_read_lines_trailing_newline(s: Seq<char>)
    ensures
        read_lines(s.push('\n')) == read_lines(s),
{
    lemma_split_nonempty(s, '\n');
    assert(s.push('\n').drop_last() =~= s);
    let p = split(s, '\n');
    assert(split(s.push('\n'), '\n') == p.push(Seq::<char>::empty()));
    assert(trim_all(p.push(Seq::<char>::empty())) =~= trim_all(p).push(trim(Seq::<char>::empty())));
    assert(trim(Seq::<char>::empty()) =~= Seq::<char>::empty());
    assert(trim_all(p.push(Seq::<char>::empty())).drop_last() =~= trim_all(p));
}

} // verus!
