//! Arithmetic reductions over a sequence of integers: sum, minimum, maximum,
//! and floor mean, with the bound lemmas the statistics queries rest on.

use vstd::prelude::*;

verus! {

/// The sum of all elements of `s`.
pub open spec fn sum_of(s: Seq<int>) -> int
    decreases s.len(),
{
    if s.len() == 0 {
        0
    } else {
        sum_of(s.drop_last()) + s.last()
    }
}

/// The least element of `s`; meaningful only when `s` is non-empty.
pub open spec fn min_of(s: Seq<int>) -> int
    decreases s.len(),
{
    if s.len() <= 1 {
        s[0]
    } else {
        let rest = min_of(s.drop_last());
        if s.last() < rest {
            s.last()
        } else {
            rest
        }
    }
}

/// The greatest element of `s`; meaningful only when `s` is non-empty.
pub open spec fn max_of(s: Seq<int>) -> int
    decreases s.len(),
{
    if s.len() <= 1 {
        s[0]
    } else {
        let rest = max_of(s.drop_last());
        if s.last() > rest {
            s.last()
        } else {
            rest
        }
    }
}

/// The arithmetic mean of `s` rounded toward negative infinity; meaningful
/// only when `s` is non-empty.
pub open spec fn mean_of(s: Seq<int>) -> int {
    sum_of(s) / s.len() as int
}

/// Law: the minimum and the maximum bound every element, and each is itself
/// one of the elements.
pub proof fn lemma_min_max_bounds(s: Seq<int>)
    requires
        s.len() > 0,
    ensures
        forall|i: int| 0 <= i < s.len() ==> min_of(s) <= #[trigger] s[i] <= max_of(s),
        s.contains(min_of(s)),
        s.contains(max_of(s)),
    decreases s.len(),
{
    if s.len() > 1 {
        let rest = s.drop_last();
        lemma_min_max_bounds(rest);
        assert(forall|i: int| 0 <= i < rest.len() ==> rest[i] == #[trigger] s[i]);
        let jn = choose|jn: int| 0 <= jn < rest.len() && rest[jn] == min_of(rest);
        let jx = choose|jx: int| 0 <= jx < rest.len() && rest[jx] == max_of(rest);
        if s.last() < min_of(rest) {
            assert(s[s.len() - 1] == min_of(s));
        } else {
            assert(s[jn] == min_of(s));
        }
        if s.last() > max_of(rest) {
            assert(s[s.len() - 1] == max_of(s));
        } else {
            assert(s[jx] == max_of(s));
        }
    } else {
        assert(s[0] == min_of(s));
        assert(s[0] == max_of(s));
    }
}

/// Law: a sequence whose elements all lie between `lo` and `hi` has its sum
/// between `len * lo` and `len * hi`.
pub proof fn lemma_sum_bounds(s: Seq<int>, lo: int, hi: int)
    requires
        forall|i: int| 0 <= i < s.len() ==> lo <= #[trigger] s[i] <= hi,
    ensures
        s.len() * lo <= sum_of(s) <= s.len() * hi,
    decreases s.len(),
{
    if s.len() == 0 {
    } else {
        let rest = s.drop_last();
        lemma_sum_bounds(rest, lo, hi);
        assert(s.len() * lo == rest.len() * lo + lo) by (nonlinear_arith)
            requires rest.len() == s.len() - 1;
        assert(s.len() * hi == rest.len() * hi + hi) by (nonlinear_arith)
            requires rest.len() == s.len() - 1;
    }
}

/// Law: the floor mean of a non-empty sequence lies between the minimum and
/// the maximum of its elements.
pub proof fn lemma_mean_bounds(s: Seq<int>)
    requires
        s.len() > 0,
    ensures
        min_of(s) <= mean_of(s) <= max_of(s),
{
    let n = s.len() as int;
    let lo = min_of(s);
    let hi = max_of(s);
    lemma_min_max_bounds(s);
    lemma_sum_bounds(s, lo, hi);
    vstd::arithmetic::div_mod::lemma_div_is_ordered(n * lo, sum_of(s), n);
    vstd::arithmetic::div_mod::lemma_div_is_ordered(sum_of(s), n * hi, n);
    vstd::arithmetic::div_mod::lemma_div_multiples_vanish(lo, n);
    vstd::arithmetic::div_mod::lemma_div_multiples_vanish(hi, n);
}

} // verus!
