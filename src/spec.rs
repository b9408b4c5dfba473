//! The mathematical model of a merge join.

use vstd::prelude::*;
use core::cmp::Ordering;
use vstd::std_specs::cmp::OrdSpec;

verus! {

/// `g` describes the key extractor `f`: every key that `f` returns on `x` is `g(x)`.
pub open spec fn models<T, K, F: Fn(T) -> K>(f: F, g: spec_fn(T) -> K) -> bool {
    forall|x: T, k: K| #[trigger] call_ensures(f, (x,), k) ==> k == g(x)
}

/// `f` is a pure key extractor: it may be called on every value, and some mathematical
/// function describes it.
pub open spec fn is_key_fn<T, K, F: Fn(T) -> K>(f: F) -> bool {
    &&& forall|x: T| #[trigger] call_requires(f, (x,))
    &&& exists|g: spec_fn(T) -> K| #[trigger] models(f, g)
}

/// `K`'s comparison calls two keys equal exactly when they are the same key.
pub open spec fn is_key_order<K: Ord>() -> bool {
    forall|a: K, b: K| #[trigger] a.cmp_spec(&b) == Ordering::Equal <==> a == b
}

/// The pairs that a merge join of `ls` and `rs` emits, in order.
///
/// The heads are compared by key: the side with the lesser key drops its head; on equal
/// keys the pair of heads is emitted and both sides advance by one. The join ends as soon
/// as either side is empty.
pub open spec fn merge_join<L, R, K: Ord>(
    ls: Seq<L>,
    rs: Seq<R>,
    kl: spec_fn(L) -> K,
    kr: spec_fn(R) -> K,
) -> Seq<(L, R)>
    decreases ls.len() + rs.len(),
{
    if ls.len() == 0 || rs.len() == 0 {
        Seq::empty()
    } else {
        match kl(ls[0]).cmp_spec(&kr(rs[0])) {
            Ordering::Less => merge_join(ls.drop_first(), rs, kl, kr),
            Ordering::Greater => merge_join(ls, rs.drop_first(), kl, kr),
            Ordering::Equal => seq![(ls[0], rs[0])] + merge_join(
                ls.drop_first(),
                rs.drop_first(),
                kl,
                kr,
            ),
        }
    }
}

} // verus!
