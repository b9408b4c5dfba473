//! The merge-join cursor: the stepping rule, consumed one pair at a time.

use vstd::prelude::*;
use vstd::std_specs::cmp::OrdSpec;
use vstd::std_specs::iter::IteratorSpec;
use core::cmp::Ordering;
use crate::spec::{is_key_fn, merge_join, models};

verus! {

/// A source that obeys vstd's iterator laws and counts down towards its end.
pub open spec fn is_source<I: Iterator>(i: I) -> bool {
    &&& i.obeys_prophetic_iter_laws()
    &&& i.decrease() is Some
}

/// A join of two key-ordered sources, yielding the pairs of elements with equal keys.
pub struct JoinIt<I, J, KI, KJ> {
    i: I,
    j: J,
    ki: KI,
    kj: KJ,
    done: bool,
}

impl<I, J, KI, KJ, K> JoinIt<I, J, KI, KJ> where
    I: Iterator,
    J: Iterator,
    I::Item: Copy,
    J::Item: Copy,
    KI: Fn(I::Item) -> K,
    KJ: Fn(J::Item) -> K,
    K: Ord,
 {
    /// The cursor's sources and extractors are fit for the stepping rule.
    pub closed spec fn wf(&self) -> bool {
        &&& is_source(self.i)
        &&& is_source(self.j)
        &&& is_key_fn(self.ki)
        &&& is_key_fn(self.kj)
        &&& K::obeys_cmp_spec()
    }

    /// The left source as it stands.
    pub closed spec fn left(&self) -> I {
        self.i
    }

    /// The right source as it stands.
    pub closed spec fn right(&self) -> J {
        self.j
    }

    /// The left key extractor.
    pub closed spec fn key_left(&self) -> KI {
        self.ki
    }

    /// The right key extractor.
    pub closed spec fn key_right(&self) -> KJ {
        self.kj
    }

    /// The cursor has reached its terminal state: it yields nothing more.
    pub closed spec fn is_done(&self) -> bool {
        self.done
    }

    /// A bound on the number of pairs still to come, which each yielded pair lowers.
    pub closed spec fn measure(&self) -> nat {
        if self.done {
            0
        } else {
            self.i.decrease()->0 + self.j.decrease()->0 + 1
        }
    }

    /// The pairs that this cursor has still to yield, in order, when its sources have
    /// `ls` and `rs` left to produce and `gl`, `gr` describe its extractors.
    pub open spec fn pending(
        &self,
        ls: Seq<I::Item>,
        rs: Seq<J::Item>,
        gl: spec_fn(I::Item) -> K,
        gr: spec_fn(J::Item) -> K,
    ) -> Seq<(I::Item, J::Item)> {
        if self.is_done() {
            Seq::empty()
        } else {
            merge_join(ls, rs, gl, gr)
        }
    }

    /// Builds a join of `i` and `j`, keyed by `ki` and `kj`; nothing is pulled before the
    /// first call of `next`.
    pub fn new(i: I, j: J, ki: KI, kj: KJ) -> (r: Self)
        requires
            is_source(i),
            is_source(j),
            is_key_fn(ki),
            is_key_fn(kj),
            K::obeys_cmp_spec(),
        ensures
            r.wf(),
            !r.is_done(),
            r.left() == i,
            r.right() == j,
            r.key_left() == ki,
            r.key_right() == kj,
    {
        JoinIt { i, j, ki, kj, done: false }
    }

    /// Runs the stepping rule until a match or the end of either source.
    ///
    /// Each element is pulled from its source once, and its key is extracted once and kept
    /// beside it while it waits for the other side. Once it has returned `None` the cursor is done, and every later call returns `None`.
    pub fn next(&mut self) -> (r: Option<(I::Item, J::Item)>)
        requires
            old(self).wf(),
        ensures
            final(self).wf(),
            final(self).key_left() == old(self).key_left(),
            final(self).key_right() == old(self).key_right(),
            old(self).is_done() ==> r is None && *final(self) == *old(self),
            r is None ==> final(self).is_done(),
            r is Some ==> final(self).measure() < old(self).measure(),
            forall|gl: spec_fn(I::Item) -> K, gr: spec_fn(J::Item) -> K|
                #![trigger models(old(self).key_left(), gl), models(old(self).key_right(), gr)]
                models(old(self).key_left(), gl) && models(old(self).key_right(), gr) ==> {
                    let before = old(self).pending(
                        old(self).left().remaining(),
                        old(self).right().remaining(),
                        gl,
                        gr,
                    );
                    let after = final(self).pending(
                        final(self).left().remaining(),
                        final(self).right().remaining(),
                        gl,
                        gr,
                    );
                    if before.len() == 0 {
                        r is None && after.len() == 0
                    } else {
                        r == Some(before[0]) && after == before.drop_first()
                    }
                },
    {
        if self.done {
            return None;
        }
        let ghost ls0 = self.i.remaining();
        let ghost rs0 = self.j.remaining();
        let mut v = match self.i.next() {
            Some(v) => v,
            None => {
                self.done = true;
                return None;
            },
        };
        let mut kv = (self.ki)(v);
        let mut w = match self.j.next() {
            Some(w) => w,
            None => {
                assert forall|gl: spec_fn(I::Item) -> K, gr: spec_fn(J::Item) -> K|
                    #![trigger models(self.ki, gl), models(self.kj, gr)]
                    models(self.ki, gl) && models(self.kj, gr) implies merge_join(
                    ls0,
                    rs0,
                    gl,
                    gr,
                ).len() == 0 by {}
                self.done = true;
                return None;
            },
        };
        let mut kw = (self.kj)(w);
        proof {
            assert(ls0 =~= seq![v] + self.i.remaining());
            assert(rs0 =~= seq![w] + self.j.remaining());
        }
        loop
            invariant
                self.wf(),
                !self.done,
                !old(self).done,
                self.i.decrease()->0 < old(self).i.decrease()->0,
                self.j.decrease()->0 < old(self).j.decrease()->0,
                self.ki == old(self).ki,
                self.kj == old(self).kj,
                ls0 == old(self).i.remaining(),
                rs0 == old(self).j.remaining(),
                call_ensures(self.ki, (v,), kv),
                call_ensures(self.kj, (w,), kw),
                forall|gl: spec_fn(I::Item) -> K, gr: spec_fn(J::Item) -> K|
                    #![trigger models(self.ki, gl), models(self.kj, gr)]
                    models(self.ki, gl) && models(self.kj, gr) ==> merge_join(
                        seq![v] + self.i.remaining(),
                        seq![w] + self.j.remaining(),
                        gl,
                        gr,
                    ) == merge_join(ls0, rs0, gl, gr),
            decreases self.i.decrease()->0 + self.j.decrease()->0,
        {
            let ghost ls = seq![v] + self.i.remaining();
            let ghost rs = seq![w] + self.j.remaining();
            let ghost li = self.i.remaining();
            let ghost rj = self.j.remaining();
            assert(ls.drop_first() =~= li);
            assert(rs.drop_first() =~= rj);
            assert(ls[0] == v && rs[0] == w);
            let c = kv.cmp(&kw);
            assert forall|gl: spec_fn(I::Item) -> K, gr: spec_fn(J::Item) -> K|
                #![trigger models(self.ki, gl), models(self.kj, gr)]
                models(self.ki, gl) && models(self.kj, gr) implies gl(v).cmp_spec(&gr(w)) == c by {}
            match c {
                Ordering::Less => {
                    match self.i.next() {
                        Some(x) => {
                            v = x;
                            kv = (self.ki)(v);
                            proof {
                                assert(li =~= seq![v] + self.i.remaining());
                            }
                        },
                        None => {
                            assert forall|gl: spec_fn(I::Item) -> K, gr: spec_fn(J::Item) -> K|
                                #![trigger models(self.ki, gl), models(self.kj, gr)]
                                models(self.ki, gl) && models(self.kj, gr) implies merge_join(
                                ls0,
                                rs0,
                                gl,
                                gr,
                            ).len() == 0 by {
                                assert(merge_join(li, rs, gl, gr).len() == 0);
                            }
                            self.done = true;
                            return None;
                        },
                    }
                },
                Ordering::Greater => {
                    match self.j.next() {
                        Some(x) => {
                            w = x;
                            kw = (self.kj)(w);
                            proof {
                                assert(rj =~= seq![w] + self.j.remaining());
                            }
                        },
                        None => {
                            assert forall|gl: spec_fn(I::Item) -> K, gr: spec_fn(J::Item) -> K|
                                #![trigger models(self.ki, gl), models(self.kj, gr)]
                                models(self.ki, gl) && models(self.kj, gr) implies merge_join(
                                ls0,
                                rs0,
                                gl,
                                gr,
                            ).len() == 0 by {
                                assert(merge_join(ls, rj, gl, gr).len() == 0);
                            }
                            self.done = true;
                            return None;
                        },
                    }
                },
                Ordering::Equal => {
                    return Some((v, w));
                },
            }
        }
    }

    /// Pulls every remaining pair, in order.
    pub fn collect(self) -> (r: Vec<(I::Item, J::Item)>)
        requires
            self.wf(),
        ensures
            forall|gl: spec_fn(I::Item) -> K, gr: spec_fn(J::Item) -> K|
                #![trigger models(self.key_left(), gl), models(self.key_right(), gr)]
                models(self.key_left(), gl) && models(self.key_right(), gr) ==> r@ == self.pending(
                    self.left().remaining(),
                    self.right().remaining(),
                    gl,
                    gr,
                ),
    {
        let mut c = self;
        let mut out: Vec<(I::Item, J::Item)> = Vec::new();
        loop
            invariant
                c.wf(),
                c.ki == self.ki,
                c.kj == self.kj,
                forall|gl: spec_fn(I::Item) -> K, gr: spec_fn(J::Item) -> K|
                    #![trigger models(self.ki, gl), models(self.kj, gr)]
                    models(self.ki, gl) && models(self.kj, gr) ==> out@ + c.pending(
                        c.i.remaining(),
                        c.j.remaining(),
                        gl,
                        gr,
                    ) == self.pending(self.i.remaining(), self.j.remaining(), gl, gr),
            decreases c.measure(),
        {
            let ghost out0 = out@;
            let ghost c0 = c;
            match c.next() {
                Some(p) => {
                    out.push(p);
                    assert forall|gl: spec_fn(I::Item) -> K, gr: spec_fn(J::Item) -> K|
                        #![trigger models(self.ki, gl), models(self.kj, gr)]
                        models(self.ki, gl) && models(self.kj, gr) implies out@ + c.pending(
                        c.i.remaining(),
                        c.j.remaining(),
                        gl,
                        gr,
                    ) == self.pending(self.i.remaining(), self.j.remaining(), gl, gr) by {
                        assert(out@ + c.pending(c.i.remaining(), c.j.remaining(), gl, gr) =~= out0
                            + c0.pending(c0.i.remaining(), c0.j.remaining(), gl, gr));
                    }
                },
                None => {
                    return out;
                },
            }
        }
    }
}

/// Sources that can be merge-joined with another source.
pub trait Joinable: Iterator + Sized where Self::Item: Copy {
    /// Builds a join of `self` and `other`, keyed by `ki` and `kj`.
    fn join<J, KI, KJ, K>(self, other: J, ki: KI, kj: KJ) -> (r: JoinIt<Self, J, KI, KJ>) where
        J: Iterator,
        J::Item: Copy,
        KI: Fn(Self::Item) -> K,
        KJ: Fn(J::Item) -> K,
        K: Ord,

        requires
            is_source(self),
            is_source(other),
            is_key_fn(ki),
            is_key_fn(kj),
            K::obeys_cmp_spec(),
        ensures
            r.wf(),
            !r.is_done(),
            r.left() == self,
            r.right() == other,
            r.key_left() == ki,
            r.key_right() == kj,
    ;
}

impl<I: Iterator> Joinable for I where I::Item: Copy {
    fn join<J, KI, KJ, K>(self, other: J, ki: KI, kj: KJ) -> (r: JoinIt<I, J, KI, KJ>) where
        J: Iterator,
        J::Item: Copy,
        KI: Fn(I::Item) -> K,
        KJ: Fn(J::Item) -> K,
        K: Ord,
    {
        JoinIt::new(self, other, ki, kj)
    }
}

} // verus!
