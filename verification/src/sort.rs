//! Stable sorting by a strict weak order, as `slice::sort_by` does.
use vstd::prelude::*;

verus! {

/// A strict weak order on `Self`: `lt(a, b)` means `a` sorts before `b`.
pub trait StrictWeakOrder: Sized {
    spec fn lt(a: Self, b: Self) -> bool;

    fn exec_lt(&self, other: &Self) -> (r: bool)
        ensures
            r == Self::lt(*self, *other),
    ;

    proof fn lemma_asym(a: Self, b: Self)
        ensures
            Self::lt(a, b) ==> !Self::lt(b, a),
    ;

    proof fn lemma_neg_trans(a: Self, b: Self, c: Self)
        ensures
            Self::lt(a, b) ==> Self::lt(a, c) || Self::lt(c, b),
    ;
}

/// `out` is `inp` sorted by `T::lt`, keeping equivalent elements in their
/// input order; `p[i]` is the input position of `out[i]`.
pub open spec fn sort_witness<T>(out: Seq<T>, inp: Seq<T>, lt: spec_fn(T, T) -> bool, p: Seq<int>) -> bool {
    &&& out.len() == inp.len()
    &&& p.len() == inp.len()
    &&& forall|i: int| 0 <= i < p.len() ==> 0 <= #[trigger] p[i] < inp.len()
    &&& forall|i: int| 0 <= i < p.len() ==> #[trigger] out[i] == inp[p[i]]
    &&& forall|i: int, j: int| 0 <= i < j < p.len() ==> p[i] != p[j]
    &&& forall|i: int, j: int| 0 <= i < j < out.len() ==> !lt(#[trigger] out[j], #[trigger] out[i])
    &&& forall|i: int, j: int|
        0 <= i < j < out.len() && !lt(#[trigger] out[i], #[trigger] out[j]) ==> p[i] < p[j]
}

/// `out` is the stable sort of `inp`.
pub open spec fn stable_sorted<T>(out: Seq<T>, inp: Seq<T>, lt: spec_fn(T, T) -> bool) -> bool {
    exists|p: Seq<int>| sort_witness(out, inp, lt, p)
}

/// The order of a `StrictWeakOrder` type as a spec function.
pub open spec fn lt_of<T: StrictWeakOrder>() -> spec_fn(T, T) -> bool {
    |a: T, b: T| T::lt(a, b)
}

/// Sorting commutes with a map that carries the order over.
pub proof fn lemma_sorted_map<T, V>(
    out: Seq<T>,
    inp: Seq<T>,
    lt_t: spec_fn(T, T) -> bool,
    lt_v: spec_fn(V, V) -> bool,
    f: spec_fn(T) -> V,
)
    requires
        stable_sorted(out, inp, lt_t),
        forall|a: T, b: T| #[trigger] lt_t(a, b) == lt_v(f(a), f(b)),
    ensures
        stable_sorted(out.map_values(f), inp.map_values(f), lt_v),
{
    let p = choose|p: Seq<int>| sort_witness(out, inp, lt_t, p);
    let o2 = out.map_values(f);
    let i2 = inp.map_values(f);
    assert forall|i: int, j: int| 0 <= i < j < o2.len() implies !lt_v(#[trigger] o2[j], #[trigger] o2[i]) by {
        assert(!lt_t(out[j], out[i]));
    }
    assert forall|i: int, j: int| 0 <= i < j < o2.len() && !lt_v(#[trigger] o2[i], #[trigger] o2[j]) implies p[i] < p[j] by {
        assert(!lt_t(out[i], out[j]));
    }
    assert forall|i: int| 0 <= i < p.len() implies #[trigger] o2[i] == i2[p[i]] by {
        assert(out[i] == inp[p[i]]);
    }
    assert(sort_witness(o2, i2, lt_v, p));
}

/// Stable sort (insertion sort): the result is `v` ordered by `T::lt`, with
/// equivalent elements in their original order.
pub fn stable_sort<T: StrictWeakOrder>(v: Vec<T>) -> (r: Vec<T>)
    ensures
        stable_sorted(r@, v@, lt_of::<T>()),
{
    let ghost inp = v@;
    let n = v.len();
    let mut rest = v;
    let mut out: Vec<T> = Vec::new();
    let ghost mut p: Seq<int> = Seq::empty();
    let mut i: usize = 0;
    while rest.len() > 0
        invariant
            i + rest@.len() == inp.len(),
            inp.len() == n,
            rest@ == inp.subrange(i as int, inp.len() as int),
            sort_witness(out@, inp.take(i as int), lt_of::<T>(), p),
        decreases rest.len(),
    {
        let x = rest.remove(0);
        assert(x == inp[i as int]);
        let mut pos = out.len();
        while pos > 0 && x.exec_lt(&out[pos - 1])
            invariant
                pos <= out.len(),
                forall|k: int| pos <= k < out.len() ==> T::lt(x, #[trigger] out@[k]),
            decreases pos,
        {
            pos -= 1;
        }
        let ghost old_out = out@;
        let ghost old_p = p;
        proof {
            // Every element before `pos` is not after `x`.
            assert forall|k: int| 0 <= k < pos implies !T::lt(x, #[trigger] old_out[k]) by {
                if T::lt(x, old_out[k]) {
                    let z = old_out[pos - 1];
                    T::lemma_neg_trans(x, old_out[k], z);
                    assert(!T::lt(old_out[pos - 1], old_out[k]));
                }
            }
        }
        out.insert(pos, x);
        proof {
            p = old_p.insert(pos as int, i as int);
            let ii = inp.take(i + 1);
            assert(inp.take(i as int) =~= ii.take(i as int));
            assert forall|k: int| 0 <= k < p.len() implies 0 <= #[trigger] p[k] < ii.len() by {
                if k < pos {
                } else if k > pos {
                    assert(p[k] == old_p[k - 1]);
                }
            }
            assert forall|k: int| 0 <= k < p.len() implies #[trigger] out@[k] == ii[p[k]] by {
                if k < pos {
                    assert(out@[k] == old_out[k]);
                } else if k > pos {
                    assert(out@[k] == old_out[k - 1]);
                    assert(p[k] == old_p[k - 1]);
                }
            }
            assert forall|a: int, b: int| 0 <= a < b < p.len() implies p[a] != p[b] by {
                if a != pos && b != pos {
                    let a2 = if a < pos { a } else { a - 1 };
                    let b2 = if b < pos { b } else { b - 1 };
                    assert(p[a] == old_p[a2]);
                    assert(p[b] == old_p[b2]);
                } else if a == pos {
                    let b2 = b - 1;
                    assert(p[b] == old_p[b2]);
                } else {
                    assert(p[a] == old_p[a]);
                }
            }
            assert forall|a: int, b: int|
                0 <= a < b < out@.len() implies !T::lt(#[trigger] out@[b], #[trigger] out@[a]) by {
                if a == pos {
                    assert(out@[b] == old_out[b - 1]);
                    T::lemma_asym(x, old_out[b - 1]);
                } else if b == pos {
                    assert(out@[a] == old_out[a]);
                } else {
                    let a2 = if a < pos { a } else { a - 1 };
                    let b2 = if b < pos { b } else { b - 1 };
                    assert(out@[a] == old_out[a2]);
                    assert(out@[b] == old_out[b2]);
                }
            }
            assert forall|a: int, b: int|
                0 <= a < b < out@.len() && !T::lt(#[trigger] out@[a], #[trigger] out@[b]) implies p[a]
                < p[b] by {
                if a == pos {
                    assert(out@[b] == old_out[b - 1]);
                } else if b == pos {
                    assert(p[a] == old_p[a]);
                } else {
                    let a2 = if a < pos { a } else { a - 1 };
                    let b2 = if b < pos { b } else { b - 1 };
                    assert(out@[a] == old_out[a2]);
                    assert(out@[b] == old_out[b2]);
                    assert(p[a] == old_p[a2]);
                    assert(p[b] == old_p[b2]);
                }
            }
            assert(sort_witness(out@, ii, lt_of::<T>(), p));
            assert(rest@ =~= inp.subrange(i + 1, inp.len() as int));
        }
        i += 1;
    }
    assert(inp.take(i as int) =~= inp);
    out
}

/// Comparison results for sequence helpers, kept abstract.
proof fn lemma_lex_start(a: Seq<char>, b: Seq<char>)
    ensures
        a.subrange(0, a.len() as int) == a,
{
    assert(a.subrange(0, a.len() as int) =~= a);
}


// ------------------------------------------------------ lexicographic order

/// Lexicographic order of character sequences by code point, the order of
/// `String`'s `Ord` (UTF-8 keeps code point order).
pub open spec fn lex_lt(a: Seq<char>, b: Seq<char>) -> bool
    decreases a.len(),
{
    if a.len() == 0 {
        b.len() > 0
    } else if b.len() == 0 {
        false
    } else if a[0] != b[0] {
        (a[0] as int) < (b[0] as int)
    } else {
        lex_lt(a.drop_first(), b.drop_first())
    }
}

pub proof fn lemma_lex_asym(a: Seq<char>, b: Seq<char>)
    ensures
        lex_lt(a, b) ==> !lex_lt(b, a),
    decreases a.len(),
{
    if a.len() > 0 && b.len() > 0 && a[0] == b[0] {
        lemma_lex_asym(a.drop_first(), b.drop_first());
    }
}

pub proof fn lemma_lex_total(a: Seq<char>, b: Seq<char>)
    ensures
        lex_lt(a, b) || a == b || lex_lt(b, a),
    decreases a.len(),
{
    if a.len() > 0 && b.len() > 0 && a[0] == b[0] {
        lemma_lex_total(a.drop_first(), b.drop_first());
        if a.drop_first() == b.drop_first() {
            assert(a =~= seq![a[0]] + a.drop_first());
            assert(b =~= seq![b[0]] + b.drop_first());
        }
    } else if a.len() == 0 && b.len() == 0 {
        assert(a =~= b);
    } else if a.len() > 0 && b.len() > 0 {
        assert(a[0] as int != b[0] as int);
    }
}

pub proof fn lemma_lex_trans(a: Seq<char>, b: Seq<char>, c: Seq<char>)
    ensures
        lex_lt(a, b) && lex_lt(b, c) ==> lex_lt(a, c),
    decreases a.len(),
{
    if a.len() > 0 && b.len() > 0 && c.len() > 0 && a[0] == b[0] && b[0] == c[0] {
        lemma_lex_trans(a.drop_first(), b.drop_first(), c.drop_first());
    }
}

pub proof fn lemma_lex_neg_trans(a: Seq<char>, b: Seq<char>, c: Seq<char>)
    ensures
        lex_lt(a, b) ==> lex_lt(a, c) || lex_lt(c, b),
{
    lemma_lex_total(a, c);
    lemma_lex_trans(c, a, b);
}

pub proof fn lemma_lex_irrefl(a: Seq<char>)
    ensures
        !lex_lt(a, a),
{
    lemma_lex_asym(a, a);
}

/// Exec lexicographic comparison.
pub fn lex_less(a: &[char], b: &[char]) -> (r: bool)
    ensures
        r == lex_lt(a@, b@),
{
    let mut i: usize = 0;
    proof {
        lemma_lex_start(a@, b@);
        lemma_lex_start(b@, a@);
    }
    while i < a.len() && i < b.len() && a[i] == b[i]
        invariant
            i <= a.len(),
            i <= b.len(),
            lex_lt(a@, b@) == lex_lt(a@.subrange(i as int, a.len() as int), b@.subrange(i as int, b.len() as int)),
        decreases a.len() - i,
    {
        assert(a@.subrange(i as int, a.len() as int).drop_first() =~= a@.subrange(i + 1, a.len() as int));
        assert(b@.subrange(i as int, b.len() as int).drop_first() =~= b@.subrange(i + 1, b.len() as int));
        i += 1;
    }
    if i == a.len() {
        i < b.len()
    } else if i == b.len() {
        false
    } else {
        a[i] < b[i]
    }
}

} // verus!
