//! Laws of the merge join, stated over its model.

use vstd::prelude::*;
use vstd::std_specs::cmp::OrdSpec;
use core::cmp::Ordering;
use vstd::std_specs::iter::IteratorSpec;
use crate::cursor::JoinIt;
use crate::spec::{is_key_order, merge_join, models};

verus! {

/// If either side is empty, the join is empty.
pub proof fn lemma_empty_side<L, R, K: Ord>(
    ls: Seq<L>,
    rs: Seq<R>,
    kl: spec_fn(L) -> K,
    kr: spec_fn(R) -> K,
)
    requires
        ls.len() == 0 || rs.len() == 0,
    ensures
        merge_join(ls, rs, kl, kr) == Seq::<(L, R)>::empty(),
{
}

/// If no left key equals any right key, the join is empty.
pub proof fn lemma_disjoint_keys<L, R, K: Ord>(
    ls: Seq<L>,
    rs: Seq<R>,
    kl: spec_fn(L) -> K,
    kr: spec_fn(R) -> K,
)
    requires
        is_key_order::<K>(),
        forall|a: int, b: int| 0 <= a < ls.len() && 0 <= b < rs.len() ==> kl(ls[a]) != kr(rs[b]),
    ensures
        merge_join(ls, rs, kl, kr) == Seq::<(L, R)>::empty(),
    decreases ls.len() + rs.len(),
{
    if ls.len() > 0 && rs.len() > 0 {
        assert(kl(ls[0]) != kr(rs[0]));
        match kl(ls[0]).cmp_spec(&kr(rs[0])) {
            Ordering::Less => {
                assert forall|a: int, b: int|
                    0 <= a < ls.drop_first().len() && 0 <= b < rs.len() implies kl(
                        ls.drop_first()[a],
                    ) != kr(rs[b]) by {
                    assert(ls.drop_first()[a] == ls[a + 1]);
                }
                lemma_disjoint_keys(ls.drop_first(), rs, kl, kr);
            },
            Ordering::Greater => {
                assert forall|a: int, b: int|
                    0 <= a < ls.len() && 0 <= b < rs.drop_first().len() implies kl(ls[a]) != kr(
                        rs.drop_first()[b],
                    ) by {
                    assert(rs.drop_first()[b] == rs[b + 1]);
                }
                lemma_disjoint_keys(ls, rs.drop_first(), kl, kr);
            },
            Ordering::Equal => {},
        }
    }
}

/// If both sides have the same length and the keys agree position by position, the join
/// pairs the two sides position by position: one pair per matching key, in input order.
pub proof fn lemma_aligned_keys<L, R, K: Ord>(
    ls: Seq<L>,
    rs: Seq<R>,
    kl: spec_fn(L) -> K,
    kr: spec_fn(R) -> K,
)
    requires
        is_key_order::<K>(),
        ls.len() == rs.len(),
        forall|n: int| 0 <= n < ls.len() ==> kl(ls[n]) == kr(rs[n]),
    ensures
        merge_join(ls, rs, kl, kr).len() == ls.len(),
        merge_join(ls, rs, kl, kr) == Seq::new(ls.len(), |n: int| (ls[n], rs[n])),
    decreases ls.len(),
{
    if ls.len() > 0 {
        assert(kl(ls[0]) == kr(rs[0]));
        assert(kl(ls[0]).cmp_spec(&kr(rs[0])) == Ordering::Equal);
        assert forall|n: int| 0 <= n < ls.drop_first().len() implies kl(ls.drop_first()[n]) == kr(
            rs.drop_first()[n],
        ) by {
            assert(kl(ls[n + 1]) == kr(rs[n + 1]));
        }
        lemma_aligned_keys(ls.drop_first(), rs.drop_first(), kl, kr);
        assert(merge_join(ls, rs, kl, kr) =~= Seq::new(ls.len(), |n: int| (ls[n], rs[n])));
    } else {
        assert(merge_join(ls, rs, kl, kr) =~= Seq::new(ls.len(), |n: int| (ls[n], rs[n])));
    }
}

/// Every pair of the join matches: its two elements have equal keys.
pub proof fn lemma_pairs_match<L, R, K: Ord>(
    ls: Seq<L>,
    rs: Seq<R>,
    kl: spec_fn(L) -> K,
    kr: spec_fn(R) -> K,
)
    requires
        is_key_order::<K>(),
    ensures
        forall|n: int|
            0 <= n < merge_join(ls, rs, kl, kr).len() ==> kl(#[trigger] merge_join(ls, rs, kl, kr)[n].0)
                == kr(merge_join(ls, rs, kl, kr)[n].1),
    decreases ls.len() + rs.len(),
{
    if ls.len() > 0 && rs.len() > 0 {
        match kl(ls[0]).cmp_spec(&kr(rs[0])) {
            Ordering::Less => {
                lemma_pairs_match(ls.drop_first(), rs, kl, kr);
                assert(merge_join(ls, rs, kl, kr) == merge_join(ls.drop_first(), rs, kl, kr));
            },
            Ordering::Greater => {
                lemma_pairs_match(ls, rs.drop_first(), kl, kr);
                assert(merge_join(ls, rs, kl, kr) == merge_join(ls, rs.drop_first(), kl, kr));
            },
            Ordering::Equal => {
                let rest = merge_join(ls.drop_first(), rs.drop_first(), kl, kr);
                lemma_pairs_match(ls.drop_first(), rs.drop_first(), kl, kr);
                assert forall|n: int| 0 <= n < merge_join(ls, rs, kl, kr).len() implies kl(
                    #[trigger] merge_join(ls, rs, kl, kr)[n].0,
                ) == kr(merge_join(ls, rs, kl, kr)[n].1) by {
                    if n > 0 {
                        assert(merge_join(ls, rs, kl, kr)[n] == rest[n - 1]);
                    } else {
                        assert(kl(ls[0]) == kr(rs[0]));
                        assert(merge_join(ls, rs, kl, kr)[0] == (ls[0], rs[0]));
                    }
                }
            },
        }
    }
}

/// If no left key lies below `b`, no key of the join lies below `b`.
proof fn lemma_keys_bounded_below<L, R, K: Ord>(
    ls: Seq<L>,
    rs: Seq<R>,
    kl: spec_fn(L) -> K,
    kr: spec_fn(R) -> K,
    b: K,
)
    requires
        forall|a: int| 0 <= a < ls.len() ==> b.cmp_spec(&kl(#[trigger] ls[a])) != Ordering::Greater,
    ensures
        forall|n: int|
            0 <= n < merge_join(ls, rs, kl, kr).len() ==> b.cmp_spec(
                &kl(#[trigger] merge_join(ls, rs, kl, kr)[n].0),
            ) != Ordering::Greater,
    decreases ls.len() + rs.len(),
{
    if ls.len() > 0 && rs.len() > 0 {
        assert forall|a: int| 0 <= a < ls.drop_first().len() implies b.cmp_spec(
            &kl(#[trigger] ls.drop_first()[a]),
        ) != Ordering::Greater by {
            assert(ls.drop_first()[a] == ls[a + 1]);
        }
        match kl(ls[0]).cmp_spec(&kr(rs[0])) {
            Ordering::Less => {
                lemma_keys_bounded_below(ls.drop_first(), rs, kl, kr, b);
                assert(merge_join(ls, rs, kl, kr) == merge_join(ls.drop_first(), rs, kl, kr));
            },
            Ordering::Greater => {
                lemma_keys_bounded_below(ls, rs.drop_first(), kl, kr, b);
                assert(merge_join(ls, rs, kl, kr) == merge_join(ls, rs.drop_first(), kl, kr));
            },
            Ordering::Equal => {
                let rest = merge_join(ls.drop_first(), rs.drop_first(), kl, kr);
                lemma_keys_bounded_below(ls.drop_first(), rs.drop_first(), kl, kr, b);
                assert forall|n: int| 0 <= n < merge_join(ls, rs, kl, kr).len() implies b.cmp_spec(
                    &kl(#[trigger] merge_join(ls, rs, kl, kr)[n].0),
                ) != Ordering::Greater by {
                    if n > 0 {
                        assert(merge_join(ls, rs, kl, kr)[n] == rest[n - 1]);
                    } else {
                        assert(merge_join(ls, rs, kl, kr)[0] == (ls[0], rs[0]));
                    }
                }
            },
        }
    }
}

/// If the left keys ascend, the keys of the join ascend too: pairs come out in input order.
pub proof fn lemma_keys_ascend<L, R, K: Ord>(
    ls: Seq<L>,
    rs: Seq<R>,
    kl: spec_fn(L) -> K,
    kr: spec_fn(R) -> K,
)
    requires
        forall|a: int, b: int|
            0 <= a < b < ls.len() ==> kl(#[trigger] ls[a]).cmp_spec(&kl(#[trigger] ls[b]))
                != Ordering::Greater,
    ensures
        forall|n: int, m: int|
            0 <= n < m < merge_join(ls, rs, kl, kr).len() ==> kl(
                #[trigger] merge_join(ls, rs, kl, kr)[n].0,
            ).cmp_spec(&kl(#[trigger] merge_join(ls, rs, kl, kr)[m].0)) != Ordering::Greater,
    decreases ls.len() + rs.len(),
{
    if ls.len() > 0 && rs.len() > 0 {
        assert forall|a: int, b: int| 0 <= a < b < ls.drop_first().len() implies kl(
            #[trigger] ls.drop_first()[a],
        ).cmp_spec(&kl(#[trigger] ls.drop_first()[b])) != Ordering::Greater by {
            assert(ls.drop_first()[a] == ls[a + 1]);
            assert(ls.drop_first()[b] == ls[b + 1]);
        }
        match kl(ls[0]).cmp_spec(&kr(rs[0])) {
            Ordering::Less => {
                lemma_keys_ascend(ls.drop_first(), rs, kl, kr);
                assert(merge_join(ls, rs, kl, kr) == merge_join(ls.drop_first(), rs, kl, kr));
            },
            Ordering::Greater => {
                lemma_keys_ascend(ls, rs.drop_first(), kl, kr);
                assert(merge_join(ls, rs, kl, kr) == merge_join(ls, rs.drop_first(), kl, kr));
            },
            Ordering::Equal => {
                let out = merge_join(ls, rs, kl, kr);
                let rest = merge_join(ls.drop_first(), rs.drop_first(), kl, kr);
                lemma_keys_ascend(ls.drop_first(), rs.drop_first(), kl, kr);
                assert forall|a: int| 0 <= a < ls.drop_first().len() implies kl(ls[0]).cmp_spec(
                    &kl(#[trigger] ls.drop_first()[a]),
                ) != Ordering::Greater by {
                    assert(ls.drop_first()[a] == ls[a + 1]);
                }
                lemma_keys_bounded_below(ls.drop_first(), rs.drop_first(), kl, kr, kl(ls[0]));
                assert forall|n: int, m: int| 0 <= n < m < out.len() implies kl(
                    #[trigger] out[n].0,
                ).cmp_spec(&kl(#[trigger] out[m].0)) != Ordering::Greater by {
                    assert(out[m] == rest[m - 1]);
                    if n > 0 {
                        assert(out[n] == rest[n - 1]);
                    } else {
                        assert(out[0] == (ls[0], rs[0]));
                    }
                }
            },
        }
    }
}

/// Push mode and pull mode yield the same pairs: a cursor freshly primed on `i` and `j`,
/// keyed by `ki` and `kj`, has pending exactly the sequence that `join_it` records when
/// run on the same sources and extractors.
pub proof fn lemma_push_matches_pull<I, J, KI, KJ, K>(
    c: JoinIt<I, J, KI, KJ>,
    i: I,
    j: J,
    ki: KI,
    kj: KJ,
    gl: spec_fn(I::Item) -> K,
    gr: spec_fn(J::Item) -> K,
) where
    I: Iterator,
    J: Iterator,
    I::Item: Copy,
    J::Item: Copy,
    KI: Fn(I::Item) -> K,
    KJ: Fn(J::Item) -> K,
    K: Ord,

    requires
        !c.is_done(),
        c.left() == i,
        c.right() == j,
        c.key_left() == ki,
        c.key_right() == kj,
        models(ki, gl),
        models(kj, gr),
    ensures
        c.pending(i.remaining(), j.remaining(), gl, gr) == merge_join(
            i.remaining(),
            j.remaining(),
            gl,
            gr,
        ),
{
}

} // verus!
