//! The mathematical definition-use graph and what dead store extraction
//! computes on it.
use crate::bytecode::{Bytecode, CodeOffset};
use crate::livevar::LiveVarAnnotation;
use vstd::prelude::*;

verus! {

/// A definition-use relation over the code offsets of one function, with the
/// set of offsets currently known to be dead stores.
///
/// An edge `(a, b)` says that the value defined at `a` is used at `b`.
pub struct DefUse {
    pub edges: Set<(CodeOffset, CodeOffset)>,
    pub dead: Set<CodeOffset>,
}

impl DefUse {
    /// The graph without nodes.
    pub open spec fn empty() -> DefUse {
        DefUse { edges: Set::empty(), dead: Set::empty() }
    }

    /// The value defined at `a` is used at `b`.
    pub open spec fn has_edge(self, a: CodeOffset, b: CodeOffset) -> bool {
        self.edges.contains((a, b))
    }

    /// The offsets that use the value defined at `a`.
    pub open spec fn children(self, a: CodeOffset) -> Set<CodeOffset> {
        Set::new(|b: CodeOffset| self.has_edge(a, b))
    }

    /// The offsets whose definitions are used at `b`.
    pub open spec fn parents(self, b: CodeOffset) -> Set<CodeOffset> {
        Set::new(|a: CodeOffset| self.has_edge(a, b))
    }

    /// `a` defines a value that some offset uses.
    pub open spec fn is_observed(self, a: CodeOffset) -> bool {
        exists|b: CodeOffset| self.has_edge(a, b)
    }

    /// Every use follows the definition it reads.
    pub open spec fn forward(self) -> bool {
        forall|a: CodeOffset, b: CodeOffset| #[trigger] self.has_edge(a, b) ==> a < b
    }

    /// Every offset that uses the value defined at `p` is in `among`.
    pub open spec fn uses_within(self, p: CodeOffset, among: Set<CodeOffset>) -> bool {
        forall|c: CodeOffset| #[trigger] self.has_edge(p, c) ==> among.contains(c)
    }

    /// The graph after the definition at `offset` has been taken in.
    ///
    /// `live` holds the usages of the defined local after `offset`, or `None`
    /// if it is not live there. A definition that is not live, or live
    /// without any usage, is dead; so is one with `always_mark` set. Each
    /// usage becomes an edge in either case.
    pub open spec fn incorporate(
        self,
        offset: CodeOffset,
        live: Option<Set<CodeOffset>>,
        always_mark: bool,
    ) -> DefUse {
        match live {
            None => DefUse { edges: self.edges, dead: self.dead.insert(offset) },
            Some(usages) => DefUse {
                edges: Set::new(
                    |e: (CodeOffset, CodeOffset)|
                        self.edges.contains(e) || (e.0 == offset && usages.contains(e.1)),
                ),
                dead: if always_mark || usages.is_empty() {
                    self.dead.insert(offset)
                } else {
                    self.dead
                },
            },
        }
    }

    /// The graph of the restricted definitions among the first `k`
    /// instructions of `code`, under the annotation `live`.
    ///
    /// A definition has an edge to each recorded usage of the local it
    /// writes. It is dead if that local is not live after it, if it is live
    /// without usage, or if the definition is a self-assignment.
    pub open spec fn of_prefix(code: Seq<Bytecode>, live: LiveVarAnnotation, k: int) -> DefUse {
        DefUse {
            edges: Set::new(
                |e: (CodeOffset, CodeOffset)|
                    e.0 < k && e.0 < code.len() && match code[e.0 as int].definition() {
                        Some(dst) => live.uses(e.0, dst, e.1),
                        None => false,
                    },
            ),
            dead: Set::new(
                |o: CodeOffset|
                    o < k && o < code.len() && match code[o as int].definition() {
                        Some(dst) => code[o as int].is_self_assignment() || match live.live_after(
                            o,
                            dst,
                        ) {
                            Some(usages) => usages.is_empty(),
                            None => true,
                        },
                        None => false,
                    },
            ),
        }
    }

    /// The definition-use graph of a function with the instructions `code`
    /// and the live-variable annotation `live`.
    pub open spec fn of(code: Seq<Bytecode>, live: LiveVarAnnotation) -> DefUse {
        Self::of_prefix(code, live, code.len() as int)
    }

    /// Taking in the instruction at `k` extends the graph of the first `k`
    /// instructions to that of the first `k + 1`.
    pub proof fn lemma_of_prefix_step(code: Seq<Bytecode>, live: LiveVarAnnotation, k: int)
        requires
            0 <= k < code.len(),
            k < 0x10000,
        ensures
            Self::of_prefix(code, live, k + 1) == match code[k].definition() {
                Some(dst) => Self::of_prefix(code, live, k).incorporate(
                    k as CodeOffset,
                    live.live_after(k as CodeOffset, dst),
                    code[k].is_self_assignment(),
                ),
                None => Self::of_prefix(code, live, k),
            },
    {
        let before = Self::of_prefix(code, live, k);
        let after = Self::of_prefix(code, live, k + 1);
        let at = k as CodeOffset;
        match code[k].definition() {
            Some(dst) => {
                let step = before.incorporate(at, live.live_after(at, dst), code[k].is_self_assignment());
                assert(after.edges =~= step.edges);
                assert(after.dead =~= step.dead);
            },
            None => {
                assert(after.edges =~= before.edges);
                assert(after.dead =~= before.dead);
            },
        }
    }

    /// The edges that remain when `n` leaves the graph: those that do not
    /// touch `n`, and one from each parent of `n` to each child of `n`,
    /// since the value flowed through `n`.
    pub open spec fn bypass(self, n: CodeOffset) -> Set<(CodeOffset, CodeOffset)> {
        Set::new(
            |e: (CodeOffset, CodeOffset)|
                (self.edges.contains(e) && e.0 != n && e.1 != n) || (self.has_edge(e.0, n)
                    && self.has_edge(n, e.1)),
        )
    }

    /// The graph without the node `n`, before the parents of `n` are looked
    /// at again: `n` has left both the edges and the dead set.
    pub open spec fn bypassed(self, n: CodeOffset) -> DefUse {
        DefUse { edges: self.bypass(n), dead: self.dead.remove(n) }
    }

    /// One round of extraction: the dead node `n` leaves the graph, its
    /// parents are connected to its children, and each parent all of whose
    /// remaining uses are dead becomes dead itself.
    pub open spec fn remove(self, n: CodeOffset) -> DefUse {
        let apart = self.bypassed(n);
        DefUse {
            edges: apart.edges,
            dead: Set::new(
                |p: CodeOffset|
                    apart.dead.contains(p) || (self.has_edge(p, n) && apart.uses_within(
                        p,
                        apart.dead,
                    )),
            ),
        }
    }

    /// The offsets below `k` that extraction removes, visiting them from the
    /// last to the first: an offset that is dead when its turn comes is
    /// removed, and the rounds before it decide whether it is.
    pub open spec fn sweep(self, k: nat) -> Set<CodeOffset>
        decreases k,
    {
        if k == 0 {
            Set::empty()
        } else {
            let n = (k - 1) as CodeOffset;
            if self.dead.contains(n) {
                self.remove(n).sweep((k - 1) as nat).insert(n)
            } else {
                self.sweep((k - 1) as nat)
            }
        }
    }

    /// The offsets that extraction removes from this graph.
    pub open spec fn dead_stores(self) -> Set<CodeOffset> {
        self.sweep(0x10000)
    }

    /// The number of rounds that extraction takes for the offsets below `k`:
    /// one for each offset that is dead when its turn comes.
    pub open spec fn rounds(self, k: nat) -> nat
        decreases k,
    {
        if k == 0 {
            0
        } else {
            let n = (k - 1) as CodeOffset;
            if self.dead.contains(n) {
                1 + self.remove(n).rounds((k - 1) as nat)
            } else {
                self.rounds((k - 1) as nat)
            }
        }
    }

    /// The graph that extraction leaves when it has visited the offsets below `k`.
    pub open spec fn residue(self, k: nat) -> DefUse
        decreases k,
    {
        if k == 0 {
            self
        } else {
            let n = (k - 1) as CodeOffset;
            if self.dead.contains(n) {
                self.remove(n).residue((k - 1) as nat)
            } else {
                self.residue((k - 1) as nat)
            }
        }
    }

    /// Removing a node leaves every edge leading to a later offset.
    pub proof fn lemma_remove_forward(self, n: CodeOffset)
        requires
            self.forward(),
        ensures
            self.remove(n).forward(),
    {
        assert forall|a: CodeOffset, b: CodeOffset| #[trigger]
            self.remove(n).has_edge(a, b) implies a < b by {
            if self.edges.contains((a, b)) {
                assert(self.has_edge(a, b));
            } else {
                assert(self.has_edge(a, n) && self.has_edge(n, b));
            }
        }
    }

    /// Once the greatest dead node has been removed, every dead node lies
    /// below it: the rest did before, and a parent precedes its child.
    pub proof fn lemma_remove_lowers(self, n: CodeOffset)
        requires
            self.forward(),
            forall|m: CodeOffset| self.dead.contains(m) ==> m <= n,
        ensures
            forall|m: CodeOffset| self.remove(n).dead.contains(m) ==> m < n,
    {
        assert forall|m: CodeOffset| self.remove(n).dead.contains(m) implies m < n by {
            if !self.dead.remove(n).contains(m) {
                assert(self.has_edge(m, n));
            }
        }
    }

    /// The sweep finds nothing at or above a bound that every dead node
    /// lies below.
    pub proof fn lemma_sweep_above_dead(self, lo: nat, hi: nat)
        requires
            lo <= hi <= 0x10000,
            forall|m: CodeOffset| self.dead.contains(m) ==> m < lo,
        ensures
            self.sweep(hi) == self.sweep(lo),
        decreases hi,
    {
        if hi > lo {
            self.lemma_sweep_above_dead(lo, (hi - 1) as nat);
        }
    }
}

} // verus!
