use core::cmp::Ordering;
use vstd::prelude::*;
use vstd::std_specs::cmp::PartialOrdSpec;

verus! {

/// `a` ranks strictly below `b`: what `a < b` computes.
pub open spec fn lt<T: PartialOrd>(a: T, b: T) -> bool {
    a.partial_cmp_spec(&b) == Some(Ordering::Less)
}

/// `a` ranks strictly above `b`: what `a > b` computes.
pub open spec fn gt<T: PartialOrd>(a: T, b: T) -> bool {
    a.partial_cmp_spec(&b) == Some(Ordering::Greater)
}

/// `a` ranks above `b` or level with it: what `a >= b` computes.
pub open spec fn ge<T: PartialOrd>(a: T, b: T) -> bool {
    gt(a, b) || a.partial_cmp_spec(&b) == Some(Ordering::Equal)
}

/// `a` and `b` rank level. Two such values need not be the same value.
pub open spec fn level<T: PartialOrd>(a: T, b: T) -> bool {
    ge(a, b) && ge(b, a)
}

/// The comparisons of `T` behave as a total preorder: the operators compute
/// what `partial_cmp` specifies, any two values are comparable, `<` and `>`
/// mirror each other, and `>=` is transitive.
pub open spec fn total_order<T: PartialOrd>() -> bool {
    &&& T::obeys_partial_cmp_spec()
    &&& forall|a: T, b: T| #![trigger lt(a, b)] #![trigger ge(a, b)] lt(a, b) || ge(a, b)
    &&& forall|a: T, b: T| #![trigger lt(a, b)] #![trigger gt(b, a)] lt(a, b) <==> gt(b, a)
    &&& forall|a: T, b: T, c: T| #[trigger] ge(a, b) && #[trigger] ge(b, c) ==> ge(a, c)
}

/// In a total order no two distinct values rank level.
pub open spec fn strict_order<T: PartialOrd>() -> bool {
    &&& total_order::<T>()
    &&& forall|a: T, b: T| #[trigger] level(a, b) ==> a == b
}

} // verus!
