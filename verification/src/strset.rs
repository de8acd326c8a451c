//! Sets of strings kept in ascending order, the way a `BTreeSet<String>`
//! walks them: by code point, character by character, a prefix first.
use vstd::prelude::*;
use crate::text::{chars_of, copy_str};

verus! {

/// `a` comes strictly before `b` in the order of `str`'s `Ord` (for UTF-8
/// the byte order and the code-point order agree).
pub open spec fn lex_lt(a: Seq<char>, b: Seq<char>) -> bool
    decreases a.len(),
{
    if a.len() == 0 {
        b.len() > 0
    } else if b.len() == 0 {
        false
    } else if a[0] != b[0] {
        (a[0] as int) < (b[0] as int)
    } else {
        lex_lt(a.drop_first(), b.drop_first())
    }
}

/// The order never puts a string before itself.
pub proof fn lemma_lex_irreflexive(a: Seq<char>)
    ensures
        !lex_lt(a, a),
    decreases a.len(),
{
    if a.len() > 0 {
        lemma_lex_irreflexive(a.drop_first());
    }
}

/// The order is transitive.
pub proof fn lemma_lex_transitive(a: Seq<char>, b: Seq<char>, c: Seq<char>)
    requires
        lex_lt(a, b),
        lex_lt(b, c),
    ensures
        lex_lt(a, c),
    decreases a.len(),
{
    if a.len() > 0 && b.len() > 0 && c.len() > 0 && a[0] == b[0] && b[0] == c[0] {
        lemma_lex_transitive(a.drop_first(), b.drop_first(), c.drop_first());
    }
}

/// Any two different strings are ordered one way or the other.
pub proof fn lemma_lex_total(a: Seq<char>, b: Seq<char>)
    ensures
        a == b || lex_lt(a, b) || lex_lt(b, a),
    decreases a.len(),
{
    if a.len() > 0 && b.len() > 0 {
        if a[0] == b[0] {
            lemma_lex_total(a.drop_first(), b.drop_first());
            if a.drop_first() == b.drop_first() {
                assert(a =~= seq![a[0]] + a.drop_first());
                assert(b =~= seq![b[0]] + b.drop_first());
            }
        }
    } else if a.len() == 0 && b.len() == 0 {
        assert(a =~= b);
    }
}

/// The order is asymmetric.
pub proof fn lemma_lex_asymmetric(a: Seq<char>, b: Seq<char>)
    requires
        lex_lt(a, b),
    ensures
        !lex_lt(b, a),
{
    if lex_lt(b, a) {
        lemma_lex_transitive(a, b, a);
        lemma_lex_irreflexive(a);
    }
}

/// Appending `x` adds `x` to the set of members.
pub proof fn lemma_push_to_set<A>(s: Seq<A>, x: A)
    ensures
        s.push(x).to_set() == s.to_set().insert(x),
{
    assert forall|y: A| s.push(x).to_set().contains(y) <==> s.to_set().insert(x).contains(y) by {
        if s.push(x).contains(y) {
            let k = choose|k: int| 0 <= k < s.push(x).len() && s.push(x)[k] == y;
            if k < s.len() {
                assert(s[k] == y);
            }
        }
        if s.contains(y) {
            let k = choose|k: int| 0 <= k < s.len() && s[k] == y;
            assert(s.push(x)[k] == y);
        }
        if y == x {
            assert(s.push(x)[s.len() as int] == y);
        }
    }
    assert(s.push(x).to_set() =~= s.to_set().insert(x));
}

/// Whether `a` sorts strictly before `b`.
pub fn str_lt(a: &str, b: &str) -> (r: bool)
    ensures
        r == lex_lt(a@, b@),
{
    let av = chars_of(a);
    let bv = chars_of(b);
    let mut i: usize = 0;
    assert(a@.skip(0) =~= a@);
    assert(b@.skip(0) =~= b@);
    while i < av.len() && i < bv.len() && av[i] == bv[i]
        invariant
            av@ == a@,
            bv@ == b@,
            i <= av@.len(),
            i <= bv@.len(),
            lex_lt(a@, b@) == lex_lt(a@.skip(i as int), b@.skip(i as int)),
        decreases av@.len() - i,
    {
        proof {
            let sa = a@.skip(i as int);
            let sb = b@.skip(i as int);
            assert(sa.drop_first() =~= a@.skip(i + 1));
            assert(sb.drop_first() =~= b@.skip(i + 1));
        }
        i = i + 1;
    }
    if i == av.len() {
        i < bv.len()
    } else if i == bv.len() {
        false
    } else {
        proof {
            let sa = a@.skip(i as int);
            let sb = b@.skip(i as int);
            assert(sa[0] == av@[i as int]);
            assert(sb[0] == bv@[i as int]);
        }
        av[i] < bv[i]
    }
}

/// Index `a` goes before index `b` when `keys` are sorted stably: its key
/// sorts first, or the keys are equal and `a` came first.
pub open spec fn key_before(keys: Seq<Seq<char>>, a: int, b: int) -> bool {
    lex_lt(keys[a], keys[b]) || (keys[a] == keys[b] && a < b)
}

/// Index `j` is among `perm`.
pub open spec fn lists_index(perm: Seq<usize>, j: int) -> bool {
    exists|q: int| 0 <= q < perm.len() && #[trigger] perm[q] == j
}

/// `perm` lists each index of `keys` once, in the order a stable sort by
/// key puts them: by key, and indices with equal keys as they came.
pub open spec fn stable_order_of(keys: Seq<Seq<char>>, perm: Seq<usize>) -> bool {
    &&& perm.len() == keys.len()
    &&& forall|q: int| 0 <= q < perm.len() ==> (#[trigger] perm[q]) < keys.len()
    &&& forall|j: int| 0 <= j < keys.len() ==> #[trigger] lists_index(perm, j)
    &&& forall|p: int, q: int|
        0 <= p < q < perm.len() ==> key_before(keys, #[trigger] perm[p] as int, #[trigger] perm[q] as int)
}

proof fn lemma_key_before_transitive(keys: Seq<Seq<char>>, a: int, b: int, c: int)
    requires
        key_before(keys, a, b),
        key_before(keys, b, c),
    ensures
        key_before(keys, a, c),
{
    if lex_lt(keys[a], keys[b]) && lex_lt(keys[b], keys[c]) {
        lemma_lex_transitive(keys[a], keys[b], keys[c]);
    }
}

/// The indices of `keys` in the order of a stable sort by key.
pub fn stable_order(keys: &Vec<String>) -> (perm: Vec<usize>)
    ensures
        stable_order_of(strs(keys@), perm@),
{
    let ghost ks = strs(keys@);
    let mut perm: Vec<usize> = Vec::new();
    let mut i: usize = 0;
    while i < keys.len()
        invariant
            i <= keys@.len(),
            ks == strs(keys@),
            perm@.len() == i,
            forall|q: int| 0 <= q < perm@.len() ==> (#[trigger] perm@[q]) < i,
            forall|j: int| 0 <= j < i ==> #[trigger] lists_index(perm@, j),
            forall|p: int, q: int|
                0 <= p < q < perm@.len() ==> key_before(ks, #[trigger] perm@[p] as int, #[trigger] perm@[q] as int),
        decreases keys@.len() - i,
    {
        let mut p: usize = perm.len();
        while p > 0 && str_lt(keys[i].as_str(), keys[perm[p - 1]].as_str())
            invariant
                p <= perm@.len(),
                i < keys@.len(),
                ks == strs(keys@),
                forall|q: int| 0 <= q < perm@.len() ==> (#[trigger] perm@[q]) < i,
                forall|q: int| p <= q < perm@.len() ==> lex_lt(ks[i as int], #[trigger] ks[perm@[q] as int]),
            decreases p,
        {
            assert(keys@[perm@[p - 1] as int]@ == ks[perm@[p - 1] as int]);
            p = p - 1;
        }
        let ghost old_perm = perm@;
        proof {
            if p > 0 {
                assert(keys@[old_perm[p - 1] as int]@ == ks[old_perm[p - 1] as int]);
                let last = old_perm[p - 1] as int;
                lemma_lex_total(ks[i as int], ks[last]);
                assert(key_before(ks, last, i as int));
                assert forall|a: int| 0 <= a < p implies key_before(ks, #[trigger] old_perm[a] as int, i as int) by {
                    if a < p - 1 {
                        lemma_key_before_transitive(ks, old_perm[a] as int, last, i as int);
                    }
                }
            }
        }
        perm.insert(p, i);
        proof {
            let np = perm@;
            assert(np == old_perm.insert(p as int, i));
            assert forall|a: int, b: int| 0 <= a < b < np.len() implies key_before(
                ks,
                #[trigger] np[a] as int,
                #[trigger] np[b] as int,
            ) by {
                if b < p {
                    assert(np[a] == old_perm[a] && np[b] == old_perm[b]);
                } else if b == p {
                    assert(np[a] == old_perm[a]);
                } else if a == p {
                    assert(np[b] == old_perm[b - 1]);
                } else if a < p {
                    assert(np[a] == old_perm[a] && np[b] == old_perm[b - 1]);
                } else {
                    assert(np[a] == old_perm[a - 1] && np[b] == old_perm[b - 1]);
                }
            }
            assert forall|j: int| 0 <= j < i + 1 implies #[trigger] lists_index(np, j) by {
                if j == i {
                    assert(np[p as int] == j);
                } else {
                    assert(lists_index(old_perm, j));
                    let q = choose|q: int| 0 <= q < old_perm.len() && #[trigger] old_perm[q] == j;
                    if q < p {
                        assert(np[q] == j);
                    } else {
                        assert(np[q + 1] == j);
                    }
                }
            }
        }
        i = i + 1;
    }
    perm
}

/// The view of a list of strings.
pub open spec fn strs(v: Seq<String>) -> Seq<Seq<char>> {
    v.map_values(|s: String| s@)
}

/// A copy of a list of strings.
pub fn copy_strs(v: &Vec<String>) -> (r: Vec<String>)
    ensures
        strs(r@) == strs(v@),
{
    let mut out: Vec<String> = Vec::new();
    let mut i: usize = 0;
    while i < v.len()
        invariant
            i <= v@.len(),
            strs(out@) == strs(v@).take(i as int),
        decreases v@.len() - i,
    {
        let ghost before = out@;
        out.push(copy_str(v[i].as_str()));
        assert(strs(out@) =~= strs(before).push(strs(v@)[i as int]));
        assert(strs(v@).take(i + 1) =~= strs(v@).take(i as int).push(strs(v@)[i as int]));
        i = i + 1;
    }
    assert(strs(v@).take(i as int) =~= strs(v@));
    out
}

/// Strictly ascending, hence without repeats.
pub open spec fn ascending(v: Seq<Seq<char>>) -> bool {
    forall|i: int, j: int| 0 <= i < j < v.len() ==> lex_lt(#[trigger] v[i], #[trigger] v[j])
}

proof fn lemma_insert_at(v: Seq<Seq<char>>, i: int, x: Seq<char>)
    requires
        ascending(v),
        0 <= i <= v.len(),
        forall|k: int| 0 <= k < i ==> lex_lt(#[trigger] v[k], x),
        forall|k: int| i <= k < v.len() ==> lex_lt(x, #[trigger] v[k]),
    ensures
        ascending(v.insert(i, x)),
        v.insert(i, x).to_set() == v.to_set().insert(x),
{
    let w = v.insert(i, x);
    assert forall|a: int, b: int| 0 <= a < b < w.len() implies lex_lt(#[trigger] w[a], #[trigger] w[b]) by {
        if a < i {
            assert(w[a] == v[a]);
        } else if a > i {
            assert(w[a] == v[a - 1]);
        }
        if b < i {
            assert(w[b] == v[b]);
        } else if b > i {
            assert(w[b] == v[b - 1]);
        }
    }
    assert forall|y: Seq<char>| w.to_set().contains(y) <==> v.to_set().insert(x).contains(y) by {
        if w.contains(y) {
            let k = choose|k: int| 0 <= k < w.len() && w[k] == y;
            if k < i {
                assert(v[k] == y);
            } else if k > i {
                assert(v[k - 1] == y);
            }
        }
        if v.contains(y) {
            let k = choose|k: int| 0 <= k < v.len() && v[k] == y;
            if k < i {
                assert(w[k] == y);
            } else {
                assert(w[k + 1] == y);
            }
        }
        if y == x {
            assert(w[i] == y);
        }
    }
    assert(w.to_set() =~= v.to_set().insert(x));
}

proof fn lemma_remove_at(v: Seq<Seq<char>>, i: int)
    requires
        ascending(v),
        0 <= i < v.len(),
    ensures
        ascending(v.remove(i)),
        v.remove(i).to_set() == v.to_set().remove(v[i]),
{
    let w = v.remove(i);
    let x = v[i];
    assert forall|a: int, b: int| 0 <= a < b < w.len() implies lex_lt(#[trigger] w[a], #[trigger] w[b]) by {
        let a2 = if a < i { a } else { a + 1 };
        let b2 = if b < i { b } else { b + 1 };
        assert(w[a] == v[a2]);
        assert(w[b] == v[b2]);
    }
    assert forall|y: Seq<char>| w.to_set().contains(y) <==> v.to_set().remove(x).contains(y) by {
        if w.contains(y) {
            let k = choose|k: int| 0 <= k < w.len() && w[k] == y;
            lemma_lex_irreflexive(x);
            if k < i {
                assert(v[k] == y);
                assert(lex_lt(v[k], v[i]));
            } else {
                assert(v[k + 1] == y);
                assert(lex_lt(v[i], v[k + 1]));
            }
        }
        if v.contains(y) && y != x {
            let k = choose|k: int| 0 <= k < v.len() && v[k] == y;
            if k < i {
                assert(w[k] == y);
            } else {
                assert(k != i);
                assert(w[k - 1] == y);
            }
        }
    }
    assert(w.to_set() =~= v.to_set().remove(x));
}

/// A set of strings held in ascending order.
#[derive(Debug)]
pub struct StrSet {
    items: Vec<String>,
}

impl View for StrSet {
    type V = Seq<Seq<char>>;

    closed spec fn view(&self) -> Seq<Seq<char>> {
        strs(self.items@)
    }
}

impl StrSet {
    /// The set's invariant: its items ascend.
    #[verifier::type_invariant]
    spec fn items_ascend(&self) -> bool {
        ascending(strs(self.items@))
    }

    /// The items ascend (which [`StrSet::items_ascend`] keeps true of
    /// every set).
    pub open spec fn wf(&self) -> bool {
        ascending(self@)
    }

    /// The empty set.
    pub fn new() -> (s: StrSet)
        ensures
            s.wf(),
            s@ == Seq::<Seq<char>>::empty(),
    {
        let s = StrSet { items: Vec::new() };
        assert(s@ =~= Seq::<Seq<char>>::empty());
        s
    }

    /// Number of members.
    pub fn len(&self) -> (n: usize)
        ensures
            n == self@.len(),
    {
        self.items.len()
    }

    /// Whether `x` is a member.
    pub fn contains(&self, x: &str) -> (r: bool)
        ensures
            r == self@.contains(x@),
    {
        let mut i: usize = 0;
        while i < self.items.len()
            invariant
                i <= self.items@.len(),
                forall|k: int| 0 <= k < i ==> self@[k] != x@,
            decreases self.items@.len() - i,
        {
            if crate::text::str_eq(self.items[i].as_str(), x) {
                assert(self@[i as int] == x@);
                return true;
            }
            i = i + 1;
        }
        false
    }

    /// Adds `x`, keeping the order; nothing changes when it is a member.
    pub fn insert(&mut self, x: &str)
        ensures
            final(self).wf(),
            final(self)@.to_set() == old(self)@.to_set().insert(x@),
            old(self)@.contains(x@) ==> final(self)@ == old(self)@,
    {
        proof {
            use_type_invariant(&*self);
        }
        let ghost v = self@;
        let n = self.items.len();
        let mut i: usize = 0;
        while i < n && str_lt(self.items[i].as_str(), x)
            invariant
                n == self.items@.len(),
                v == self@,
                ascending(v),
                i <= n,
                forall|k: int| 0 <= k < i ==> lex_lt(#[trigger] v[k], x@),
            decreases n - i,
        {
            i = i + 1;
        }
        if i < n && crate::text::str_eq(self.items[i].as_str(), x) {
            assert(v[i as int] == x@);
            assert(v.contains(x@));
            assert(v.to_set().insert(x@) =~= v.to_set());
            return;
        }
        proof {
            if i < n {
                lemma_lex_total(v[i as int], x@);
            }
            assert forall|k: int| i <= k < n implies lex_lt(x@, #[trigger] v[k]) by {
                if k > i {
                    lemma_lex_transitive(x@, v[i as int], v[k]);
                }
            }
            assert forall|k: int| 0 <= k < n implies #[trigger] v[k] != x@ by {
                lemma_lex_irreflexive(x@);
                if k < i {
                    assert(lex_lt(v[k], x@));
                } else {
                    assert(lex_lt(x@, v[k]));
                }
            }
            assert(!v.contains(x@));
        }
        let mut items: Vec<String> = Vec::new();
        std::mem::swap(&mut items, &mut self.items);
        items.insert(i, copy_str(x));
        proof {
            assert(strs(items@) =~= v.insert(i as int, x@));
            lemma_insert_at(v, i as int, x@);
        }
        self.items = items;
    }

    /// Takes `x` out; nothing changes when it is no member.
    pub fn remove(&mut self, x: &str)
        ensures
            final(self).wf(),
            final(self)@.to_set() == old(self)@.to_set().remove(x@),
    {
        proof {
            use_type_invariant(&*self);
        }
        let ghost v = self@;
        let n = self.items.len();
        let mut i: usize = 0;
        while i < n
            invariant
                n == self.items@.len(),
                v == self@,
                v == old(self)@,
                ascending(v),
                i <= n,
                forall|k: int| 0 <= k < i ==> v[k] != x@,
            decreases n - i,
        {
            if crate::text::str_eq(self.items[i].as_str(), x) {
                assert(v[i as int] == x@);
                let mut items: Vec<String> = Vec::new();
                std::mem::swap(&mut items, &mut self.items);
                items.remove(i);
                proof {
                    assert(strs(items@) =~= v.remove(i as int));
                    lemma_remove_at(v, i as int);
                }
                self.items = items;
                return;
            }
            i = i + 1;
        }
        proof {
            assert(!v.contains(x@));
            assert(v.to_set().remove(x@) =~= v.to_set());
        }
    }

    /// The members, in ascending order.
    pub fn to_vec(&self) -> (r: Vec<String>)
        ensures
            strs(r@) == self@,
    {
        let mut r: Vec<String> = Vec::new();
        let mut i: usize = 0;
        while i < self.items.len()
            invariant
                i <= self.items@.len(),
                self@.len() == self.items@.len(),
                r@.len() == i,
                forall|k: int| 0 <= k < i ==> (#[trigger] r@[k])@ == self@[k],
            decreases self.items@.len() - i,
        {
            let c = copy_str(self.items[i].as_str());
            assert(c@ == self@[i as int]);
            r.push(c);
            i = i + 1;
        }
        assert(strs(r@) =~= self@);
        r
    }
}

} // verus!
