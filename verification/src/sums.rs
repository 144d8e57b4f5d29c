//! Sums over sequences, and the count of a pixel in a list.

use vstd::prelude::*;

verus! {

/// The sum of `f` over the elements of `s`.
pub open spec fn seq_sum<T>(s: Seq<T>, f: spec_fn(T) -> nat) -> nat
    decreases s.len(),
{
    if s.len() == 0 {
        0
    } else {
        seq_sum(s.drop_last(), f) + f(s.last())
    }
}

pub proof fn lemma_sum_push<T>(s: Seq<T>, x: T, f: spec_fn(T) -> nat)
    ensures
        seq_sum(s.push(x), f) == seq_sum(s, f) + f(x),
{
    assert(s.push(x).drop_last() =~= s);
}

pub proof fn lemma_sum_concat<T>(a: Seq<T>, b: Seq<T>, f: spec_fn(T) -> nat)
    ensures
        seq_sum(a + b, f) == seq_sum(a, f) + seq_sum(b, f),
    decreases b.len(),
{
    if b.len() == 0 {
        assert(a + b =~= a);
    } else {
        assert((a + b).drop_last() =~= a + b.drop_last());
        lemma_sum_concat(a, b.drop_last(), f);
    }
}

pub proof fn lemma_sum_update<T>(s: Seq<T>, i: int, x: T, f: spec_fn(T) -> nat)
    requires
        0 <= i < s.len(),
    ensures
        seq_sum(s.update(i, x), f) + f(s[i]) == seq_sum(s, f) + f(x),
    decreases s.len(),
{
    if i == s.len() - 1 {
        assert(s.update(i, x).drop_last() =~= s.drop_last());
    } else {
        assert(s.update(i, x).drop_last() =~= s.drop_last().update(i, x));
        lemma_sum_update(s.drop_last(), i, x, f);
    }
}

/// A sequence read backwards has the same sum.
pub proof fn lemma_sum_reverse<T>(s: Seq<T>, f: spec_fn(T) -> nat)
    ensures
        seq_sum(s.reverse(), f) == seq_sum(s, f),
    decreases s.len(),
{
    if s.len() > 0 {
        let rest = s.subrange(1, s.len() as int);
        assert(s.reverse() =~= rest.reverse().push(s[0]));
        assert(s =~= seq![s[0]] + rest);
        lemma_sum_push(rest.reverse(), s[0], f);
        lemma_sum_reverse(rest, f);
        lemma_sum_concat(seq![s[0]], rest, f);
        assert(seq![s[0]] =~= Seq::<T>::empty().push(s[0]));
        lemma_sum_push(Seq::<T>::empty(), s[0], f);
    } else {
        assert(s.reverse() =~= s);
    }
}

/// Two sequences of one length whose elements weigh the same, index by
/// index, have the same sum.
pub proof fn lemma_sum_pointwise<S, T>(
    s: Seq<S>,
    f: spec_fn(S) -> nat,
    t: Seq<T>,
    g: spec_fn(T) -> nat,
)
    requires
        s.len() == t.len(),
        forall|i: int| 0 <= i < s.len() ==> f(#[trigger] s[i]) == g(t[i]),
    ensures
        seq_sum(s, f) == seq_sum(t, g),
    decreases s.len(),
{
    if s.len() > 0 {
        lemma_sum_pointwise(s.drop_last(), f, t.drop_last(), g);
    }
}

pub proof fn lemma_sum_zero<T>(s: Seq<T>, f: spec_fn(T) -> nat)
    requires
        forall|i: int| 0 <= i < s.len() ==> f(#[trigger] s[i]) == 0,
    ensures
        seq_sum(s, f) == 0,
    decreases s.len(),
{
    if s.len() > 0 {
        lemma_sum_zero(s.drop_last(), f);
    }
}

/// The weight of a pixel in a count: one for `px` itself, nothing for any
/// other pixel.
pub open spec fn is_pixel(px: (u16, u16)) -> spec_fn((u16, u16)) -> nat {
    |p: (u16, u16)|
        if p == px {
            1nat
        } else {
            0nat
        }
}

/// How often `px` occurs in `pixels`.
pub open spec fn occurrences(pixels: Seq<(u16, u16)>, px: (u16, u16)) -> nat {
    seq_sum(pixels, is_pixel(px))
}

/// A pixel list holds `px` exactly where it counts it.
pub proof fn lemma_occurrences_contains(pixels: Seq<(u16, u16)>, px: (u16, u16))
    ensures
        occurrences(pixels, px) > 0 <==> pixels.contains(px),
    decreases pixels.len(),
{
    if pixels.len() > 0 {
        lemma_occurrences_contains(pixels.drop_last(), px);
        if pixels.last() == px {
            assert(pixels[pixels.len() - 1] == px);
        } else if pixels.contains(px) {
            let i = choose|i: int| 0 <= i < pixels.len() && pixels[i] == px;
            assert(pixels.drop_last()[i] == px);
        } else if pixels.drop_last().contains(px) {
            let i = choose|i: int| 0 <= i < pixels.drop_last().len() && pixels.drop_last()[i] == px;
            assert(pixels[i] == px);
        }
    }
}

} // verus!
