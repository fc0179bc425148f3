//! The ordering that the heap maintains, phrased over `cmp_spec`, the
//! specification-level counterpart of `Ord::cmp`, together with the
//! total-order facts that the heap proofs rely on.
//!
//! Every fact here is conditioned on `obeys_cmp::<T>()`: the statement that
//! `T`'s comparison is a lawful total order whose executable `cmp` agrees
//! with `cmp_spec`. `vstd` proves it for the primitive integer types.

use vstd::prelude::*;
use vstd::laws_cmp::obeys_cmp;
use vstd::laws_cmp::obeys_cmp_ord;
use vstd::laws_cmp::obeys_partial_cmp_spec_properties;
use vstd::laws_eq::obeys_eq_spec_properties;
use vstd::std_specs::cmp::OrdSpec;
use vstd::std_specs::cmp::PartialOrdSpec;
use vstd::std_specs::cmp::PartialEqSpec;
use core::cmp::Ordering;

verus! {

/// `a` is no greater than `b` under `T`'s three-way comparison.
pub open spec fn value_le<T: Ord>(a: T, b: T) -> bool {
    a.cmp_spec(&b) != Ordering::Greater
}

/// `obeys_cmp` includes the statement that the executable `cmp` agrees with
/// `cmp_spec`, which is what the verifier needs at each comparison site.
pub proof fn lemma_cmp_is_spec<T: Ord>()
    requires
        obeys_cmp::<T>(),
    ensures
        T::obeys_cmp_spec(),
{
    reveal(obeys_cmp_ord);
}

/// Under a lawful total order, every value compares equal to itself.
pub proof fn lemma_le_refl<T: Ord>(a: T)
    requires
        obeys_cmp::<T>(),
    ensures
        value_le(a, a),
{
    reveal(obeys_cmp_ord);
    reveal(obeys_partial_cmp_spec_properties);
    if a.cmp_spec(&a) == Ordering::Greater {
        assert(a.partial_cmp_spec(&a) == Some(Ordering::Greater));
        assert(a.partial_cmp_spec(&a) == Some(Ordering::Less));
        assert(false);
    }
}

/// Under a lawful total order, a strict `Less` comparison is exactly a
/// non-strict bound in one direction and its failure in the other.
pub proof fn lemma_lt_flip<T: Ord>(a: T, b: T)
    requires
        obeys_cmp::<T>(),
        a.cmp_spec(&b) == Ordering::Less,
    ensures
        value_le(a, b),
        !value_le(b, a),
{
    reveal(obeys_cmp_ord);
    reveal(obeys_partial_cmp_spec_properties);
    assert(a.partial_cmp_spec(&b) == Some(Ordering::Less));
    assert(b.partial_cmp_spec(&a) == Some(Ordering::Greater));
}

/// Under a lawful total order, when `a` does not compare `Less` than `b`,
/// `b` is no greater than `a`.
pub proof fn lemma_not_lt_flip<T: Ord>(a: T, b: T)
    requires
        obeys_cmp::<T>(),
        a.cmp_spec(&b) != Ordering::Less,
    ensures
        value_le(b, a),
{
    reveal(obeys_cmp_ord);
    reveal(obeys_partial_cmp_spec_properties);
    if b.cmp_spec(&a) == Ordering::Greater {
        assert(b.partial_cmp_spec(&a) == Some(Ordering::Greater));
        assert(a.partial_cmp_spec(&b) == Some(Ordering::Less));
        assert(false);
    }
}

/// Under a lawful total order, any two values are comparable: at least one
/// of `value_le(a, b)` and `value_le(b, a)` holds.
pub proof fn lemma_le_total<T: Ord>(a: T, b: T)
    requires
        obeys_cmp::<T>(),
    ensures
        value_le(a, b) || value_le(b, a),
{
    reveal(obeys_cmp_ord);
    reveal(obeys_partial_cmp_spec_properties);
    if a.cmp_spec(&b) == Ordering::Greater && b.cmp_spec(&a) == Ordering::Greater {
        assert(a.partial_cmp_spec(&b) == Some(Ordering::Greater));
        assert(b.partial_cmp_spec(&a) == Some(Ordering::Greater));
        assert(b.partial_cmp_spec(&a) == Some(Ordering::Less));
        assert(false);
    }
}

/// Under a lawful total order, `value_le` is transitive.
pub proof fn lemma_le_trans<T: Ord>(a: T, b: T, c: T)
    requires
        obeys_cmp::<T>(),
        value_le(a, b),
        value_le(b, c),
    ensures
        value_le(a, c),
{
    reveal(obeys_cmp_ord);
    reveal(obeys_partial_cmp_spec_properties);
    reveal(obeys_eq_spec_properties);
    if a.cmp_spec(&c) == Ordering::Greater {
        assert(c.partial_cmp_spec(&a) == Some(Ordering::Less));
        match (a.cmp_spec(&b), b.cmp_spec(&c)) {
            (Ordering::Less, Ordering::Less) => {
                assert(a.partial_cmp_spec(&c) == Some(Ordering::Less));
            },
            (Ordering::Less, Ordering::Equal) => {
                assert(b.eq_spec(&c));
                assert(c.partial_cmp_spec(&b) == Some(Ordering::Equal));
                assert(c.partial_cmp_spec(&b) == Some(Ordering::Less));
            },
            (Ordering::Equal, Ordering::Less) => {
                assert(a.eq_spec(&b));
                assert(b.partial_cmp_spec(&a) == Some(Ordering::Equal));
                assert(b.partial_cmp_spec(&a) == Some(Ordering::Less));
            },
            (Ordering::Equal, Ordering::Equal) => {
                assert(a.eq_spec(&c));
                assert(a.partial_cmp_spec(&c) == Some(Ordering::Equal));
            },
            _ => {},
        }
        assert(false);
    }
}

} // verus!
