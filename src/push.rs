//! Push mode: the join drives both sources to the end and hands each match to a callback.

use vstd::prelude::*;
use vstd::std_specs::cmp::OrdSpec;
use vstd::std_specs::iter::IteratorSpec;
use crate::cursor::{is_source, JoinIt};
use crate::spec::{is_key_fn, merge_join, models};

verus! {

/// Calls `f` on each pair of the join of `i` and `j`, keyed by `ki` and `kj`, in order.
///
/// `f` need only accept the pairs of the join. The returned ghost sequence records the
/// calls made, in order.
pub fn join_it<I, J, K, KI, KJ, F>(i: I, j: J, ki: KI, kj: KJ, mut f: F) -> (emitted: Ghost<
    Seq<(I::Item, J::Item)>,
>) where
    I: Iterator,
    J: Iterator,
    I::Item: Copy,
    J::Item: Copy,
    KI: Fn(I::Item) -> K,
    KJ: Fn(J::Item) -> K,
    F: FnMut(I::Item, J::Item),
    K: Ord,

    requires
        is_source(i),
        is_source(j),
        is_key_fn(ki),
        is_key_fn(kj),
        K::obeys_cmp_spec(),
        forall|gl: spec_fn(I::Item) -> K, gr: spec_fn(J::Item) -> K, n: int|
            #![trigger models(ki, gl), models(kj, gr), merge_join(i.remaining(), j.remaining(), gl, gr)[n]]
            models(ki, gl) && models(kj, gr) && 0 <= n < merge_join(
                i.remaining(),
                j.remaining(),
                gl,
                gr,
            ).len() ==> call_requires(f, merge_join(i.remaining(), j.remaining(), gl, gr)[n]),
    ensures
        forall|gl: spec_fn(I::Item) -> K, gr: spec_fn(J::Item) -> K|
            #![trigger models(ki, gl), models(kj, gr)]
            models(ki, gl) && models(kj, gr) ==> emitted@ == merge_join(
                i.remaining(),
                j.remaining(),
                gl,
                gr,
            ),
{
    let ghost ls0 = i.remaining();
    let ghost rs0 = j.remaining();
    let ghost gl0 = choose|gl: spec_fn(I::Item) -> K| models(ki, gl);
    let ghost gr0 = choose|gr: spec_fn(J::Item) -> K| models(kj, gr);
    let mut c = JoinIt::new(i, j, ki, kj);
    let ghost mut seen: Seq<(I::Item, J::Item)> = Seq::empty();
    loop
        invariant
            c.wf(),
            c.key_left() == ki,
            c.key_right() == kj,
            models(ki, gl0),
            models(kj, gr0),
            seen.len() <= merge_join(ls0, rs0, gl0, gr0).len(),
            ls0 == i.remaining(),
            rs0 == j.remaining(),
            forall|gl: spec_fn(I::Item) -> K, gr: spec_fn(J::Item) -> K, n: int|
                #![trigger models(ki, gl), models(kj, gr), merge_join(ls0, rs0, gl, gr)[n]]
                models(ki, gl) && models(kj, gr) && 0 <= n < merge_join(ls0, rs0, gl, gr).len()
                    ==> call_requires(f, merge_join(ls0, rs0, gl, gr)[n]),
            forall|gl: spec_fn(I::Item) -> K, gr: spec_fn(J::Item) -> K|
                #![trigger models(ki, gl), models(kj, gr)]
                models(ki, gl) && models(kj, gr) ==> seen + c.pending(
                    c.left().remaining(),
                    c.right().remaining(),
                    gl,
                    gr,
                ) == merge_join(ls0, rs0, gl, gr),
        decreases c.measure(),
    {
        let ghost c0 = c;
        match c.next() {
            Some((v, w)) => {
                assert forall|gl: spec_fn(I::Item) -> K, gr: spec_fn(J::Item) -> K|
                    #![trigger models(ki, gl), models(kj, gr)]
                    models(ki, gl) && models(kj, gr) implies merge_join(ls0, rs0, gl, gr)[seen.len() as int] == (v, w)
                    && seen.len() < merge_join(ls0, rs0, gl, gr).len() by {
                    let p0 = c0.pending(c0.left().remaining(), c0.right().remaining(), gl, gr);
                    assert((seen + p0)[seen.len() as int] == p0[0]);
                }
                assert(models(ki, gl0) && models(kj, gr0));
                f(v, w);
                proof {
                    let s0 = seen;
                    seen = seen.push((v, w));
                    assert forall|gl: spec_fn(I::Item) -> K, gr: spec_fn(J::Item) -> K|
                        #![trigger models(ki, gl), models(kj, gr)]
                        models(ki, gl) && models(kj, gr) implies seen + c.pending(
                        c.left().remaining(),
                        c.right().remaining(),
                        gl,
                        gr,
                    ) == merge_join(ls0, rs0, gl, gr) by {
                        let p0 = c0.pending(c0.left().remaining(), c0.right().remaining(), gl, gr);
                        assert(seen + c.pending(c.left().remaining(), c.right().remaining(), gl, gr)
                            =~= s0 + p0);
                    }
                }
            },
            None => {
                assert forall|gl: spec_fn(I::Item) -> K, gr: spec_fn(J::Item) -> K|
                    #![trigger models(ki, gl), models(kj, gr)]
                    models(ki, gl) && models(kj, gr) implies seen == merge_join(ls0, rs0, gl, gr) by {
                    assert(seen + c.pending(c.left().remaining(), c.right().remaining(), gl, gr)
                        =~= seen);
                }
                return Ghost(seen);
            },
        }
    }
}

} // verus!
