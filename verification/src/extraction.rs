//! What holds of dead store extraction on every definition-use graph whose
//! edges lead forward.
use crate::bytecode::CodeOffset;
use crate::def_use::DefUse;
use vstd::prelude::*;
use vstd::set_lib::{lemma_int_range, lemma_len_subset, lemma_set_subset_finite, set_int_range};

verus! {

impl DefUse {
    /// `a` may be removed at all: it is dead, or it defines a value that is used.
    pub open spec fn is_candidate(self, a: CodeOffset) -> bool {
        self.dead.contains(a) || self.is_observed(a)
    }

    /// Every dead node lies below `k`.
    pub open spec fn dead_below(self, k: nat) -> bool {
        forall|m: CodeOffset| self.dead.contains(m) ==> m < k
    }

    /// A round of extraction makes no node a candidate that was none before.
    pub proof fn lemma_remove_candidates(self, n: CodeOffset, a: CodeOffset)
        requires
            self.remove(n).is_candidate(a),
        ensures
            self.is_candidate(a),
    {
        if !self.remove(n).dead.contains(a) {
            let b = choose|b: CodeOffset| self.remove(n).has_edge(a, b);
            if self.edges.contains((a, b)) {
                assert(self.has_edge(a, b));
            } else {
                assert(self.has_edge(a, n));
            }
        } else if !self.dead.contains(a) {
            assert(self.has_edge(a, n));
        }
    }

    /// A removed node has left the graph: it is no longer dead, and no edge
    /// leads to it or from it.
    pub proof fn lemma_removed_node_is_gone(self, n: CodeOffset)
        requires
            self.forward(),
        ensures
            !self.remove(n).dead.contains(n),
            forall|a: CodeOffset|
                !self.remove(n).has_edge(a, n) && !self.remove(n).has_edge(n, a),
    {
        if self.has_edge(n, n) {
            assert(n < n);
        }
    }

    /// Extraction removes candidates only, and below `k` only offsets below `k`.
    pub proof fn lemma_sweep_candidates(self, k: nat)
        requires
            k <= 0x10000,
        ensures
            forall|a: CodeOffset| #[trigger]
                self.sweep(k).contains(a) ==> self.is_candidate(a) && a < k,
        decreases k,
    {
        if k > 0 {
            let n = (k - 1) as CodeOffset;
            if self.dead.contains(n) {
                let next = self.remove(n);
                next.lemma_sweep_candidates((k - 1) as nat);
                assert forall|a: CodeOffset| #[trigger] self.sweep(k).contains(a) implies
                    self.is_candidate(a) && a < k by {
                    if a != n {
                        assert(next.sweep((k - 1) as nat).contains(a));
                        self.lemma_remove_candidates(n, a);
                    }
                }
            } else {
                self.lemma_sweep_candidates((k - 1) as nat);
                assert(self.sweep(k) == self.sweep((k - 1) as nat));
            }
        }
    }

    /// Extraction removes every node that is dead when it starts.
    pub proof fn lemma_dead_are_swept(self, k: nat)
        requires
            self.forward(),
            k <= 0x10000,
            self.dead_below(k),
        ensures
            forall|m: CodeOffset| self.dead.contains(m) ==> #[trigger] self.sweep(k).contains(m),
        decreases k,
    {
        if k > 0 {
            let n = (k - 1) as CodeOffset;
            if self.dead.contains(n) {
                let next = self.remove(n);
                self.lemma_remove_forward(n);
                self.lemma_remove_lowers(n);
                next.lemma_dead_are_swept((k - 1) as nat);
                assert forall|m: CodeOffset| self.dead.contains(m) implies #[trigger] self.sweep(
                    k,
                ).contains(m) by {
                    if m != n {
                        assert(next.dead.contains(m));
                        assert(next.sweep((k - 1) as nat).contains(m));
                    }
                }
            } else {
                self.lemma_dead_are_swept((k - 1) as nat);
                assert(self.sweep(k) == self.sweep((k - 1) as nat));
            }
        }
    }

    /// A node is removed only if it was dead from the start, or if it
    /// defines a value that is used and every node that uses it is removed
    /// as well.
    pub proof fn lemma_removed_is_dead_or_unobserved(self, k: nat)
        requires
            self.forward(),
            k <= 0x10000,
            self.dead_below(k),
        ensures
            forall|a: CodeOffset| #[trigger]
                self.sweep(k).contains(a) ==> self.dead.contains(a) || (self.is_observed(a)
                    && self.uses_within(a, self.sweep(k))),
        decreases k,
    {
        if k > 0 {
            let n = (k - 1) as CodeOffset;
            if self.dead.contains(n) {
                let next = self.remove(n);
                let later = next.sweep((k - 1) as nat);
                self.lemma_remove_forward(n);
                self.lemma_remove_lowers(n);
                next.lemma_removed_is_dead_or_unobserved((k - 1) as nat);
                next.lemma_dead_are_swept((k - 1) as nat);
                next.lemma_sweep_candidates((k - 1) as nat);
                assert forall|a: CodeOffset| #[trigger] self.sweep(k).contains(a) implies
                    self.dead.contains(a) || (self.is_observed(a) && self.uses_within(
                    a,
                    self.sweep(k),
                )) by {
                    if !self.dead.contains(a) {
                        assert(later.contains(a));
                        assert(a < n);
                        self.lemma_remove_candidates(n, a);
                        assert forall|c: CodeOffset| #[trigger] self.has_edge(a, c) implies
                            self.sweep(k).contains(c) by {
                            if c != n {
                                assert(next.has_edge(a, c));
                                if next.dead.contains(a) {
                                    assert(self.bypassed(n).has_edge(a, c));
                                    assert(next.dead.contains(c));
                                    assert(later.contains(c));
                                } else {
                                    assert(next.uses_within(a, later));
                                }
                            }
                        }
                    }
                }
            } else {
                self.lemma_removed_is_dead_or_unobserved((k - 1) as nat);
                assert(self.sweep(k) == self.sweep((k - 1) as nat));
            }
        }
    }

    /// The nodes that are dead or define a value that is used.
    pub open spec fn candidates(self) -> Set<CodeOffset> {
        Set::new(|a: CodeOffset| self.is_candidate(a))
    }

    /// Every node that is dead has dead uses only: no value flows through a
    /// dead node to a node that is not dead.
    pub open spec fn dead_feeds_dead(self) -> bool {
        forall|d: CodeOffset, c: CodeOffset|
            self.dead.contains(d) && #[trigger] self.has_edge(d, c) ==> self.dead.contains(c)
    }

    /// `removed` holds the dead nodes, and the nodes whose value is used
    /// and used by nodes in `removed` only, and no others.
    pub open spec fn closed_under_uses(self, removed: Set<CodeOffset>) -> bool {
        forall|a: CodeOffset|
            #[trigger] removed.contains(a) <==> self.dead.contains(a) || (self.is_observed(a)
                && self.uses_within(a, removed))
    }

    /// A set of code offsets is finite.
    pub proof fn lemma_offsets_finite(s: Set<CodeOffset>)
        ensures
            s.finite(),
    {
        let range = set_int_range(0, 0x10000);
        let all = range.map(|i: int| i as CodeOffset);
        lemma_int_range(0, 0x10000);
        range.lemma_map_finite(|i: int| i as CodeOffset);
        assert forall|o: CodeOffset| s.contains(o) implies all.contains(o) by {
            assert(range.contains(o as int));
        }
        lemma_set_subset_finite(all, s);
    }

    /// Each round of extraction removes an offset that no other round
    /// removes: there are as many rounds as removed offsets.
    pub proof fn lemma_rounds_count(self, k: nat)
        requires
            k <= 0x10000,
        ensures
            self.sweep(k).finite(),
            self.sweep(k).len() == self.rounds(k),
        decreases k,
    {
        if k > 0 {
            let n = (k - 1) as CodeOffset;
            if self.dead.contains(n) {
                let next = self.remove(n);
                next.lemma_rounds_count((k - 1) as nat);
                next.lemma_sweep_candidates((k - 1) as nat);
                assert(!next.sweep((k - 1) as nat).contains(n));
            } else {
                self.lemma_rounds_count((k - 1) as nat);
            }
        }
    }

    /// Extraction is over after at most as many rounds as there are
    /// candidates: nodes that are dead or define a value that is used.
    pub proof fn lemma_rounds_bounded(self)
        ensures
            self.candidates().finite(),
            self.rounds(0x10000) <= self.candidates().len(),
            self.rounds(0x10000) == self.dead_stores().len(),
    {
        Self::lemma_offsets_finite(self.candidates());
        self.lemma_rounds_count(0x10000);
        self.lemma_sweep_candidates(0x10000);
        lemma_len_subset(self.dead_stores(), self.candidates());
    }

    /// What extraction leaves has every edge leading forward and no dead node.
    pub proof fn lemma_residue_settled(self, k: nat)
        requires
            self.forward(),
            k <= 0x10000,
            self.dead_below(k),
        ensures
            self.residue(k).forward(),
            self.residue(k).dead == Set::<CodeOffset>::empty(),
        decreases k,
    {
        if k > 0 {
            let n = (k - 1) as CodeOffset;
            if self.dead.contains(n) {
                self.lemma_remove_forward(n);
                self.lemma_remove_lowers(n);
                self.remove(n).lemma_residue_settled((k - 1) as nat);
            } else {
                self.lemma_residue_settled((k - 1) as nat);
            }
        } else {
            assert(self.dead =~= Set::<CodeOffset>::empty());
        }
    }

    /// Whatever extraction leaves as a candidate was one from the start: a
    /// node with a use in the graph that is left defined a used value before.
    pub proof fn lemma_residue_candidates(self, k: nat, a: CodeOffset)
        requires
            k <= 0x10000,
            self.residue(k).is_candidate(a),
        ensures
            self.is_candidate(a),
        decreases k,
    {
        if k > 0 {
            let n = (k - 1) as CodeOffset;
            if self.dead.contains(n) {
                self.remove(n).lemma_residue_candidates((k - 1) as nat, a);
                self.lemma_remove_candidates(n, a);
            } else {
                self.lemma_residue_candidates((k - 1) as nat, a);
            }
        }
    }

    /// Extraction reaches a fixed point: from the graph that it leaves it
    /// removes nothing.
    pub proof fn lemma_extraction_is_idempotent(self)
        requires
            self.forward(),
        ensures
            self.residue(0x10000).dead_stores() == Set::<CodeOffset>::empty(),
    {
        self.lemma_residue_settled(0x10000);
        self.residue(0x10000).lemma_sweep_above_dead(0, 0x10000);
    }

    /// A round of extraction leaves dead nodes with dead uses only, if it
    /// found them so.
    pub proof fn lemma_remove_dead_feeds_dead(self, n: CodeOffset)
        requires
            self.forward(),
            self.dead_feeds_dead(),
            self.dead.contains(n),
        ensures
            self.remove(n).dead_feeds_dead(),
    {
        let next = self.remove(n);
        assert forall|d: CodeOffset, c: CodeOffset|
            next.dead.contains(d) && #[trigger] next.has_edge(d, c) implies next.dead.contains(
            c,
        ) by {
            assert(self.bypassed(n).has_edge(d, c));
            if self.dead.remove(n).contains(d) {
                if self.edges.contains((d, c)) {
                    assert(self.has_edge(d, c));
                } else {
                    assert(self.has_edge(n, c));
                }
            }
        }
    }

    /// Where no value flows through a dead node to a node that is not dead,
    /// extraction removes every node whose value is used by removed nodes
    /// only.
    pub proof fn lemma_unobserved_is_removed(self, k: nat)
        requires
            self.forward(),
            self.dead_feeds_dead(),
            k <= 0x10000,
            self.dead_below(k),
        ensures
            forall|a: CodeOffset|
                self.is_observed(a) && #[trigger] self.uses_within(a, self.sweep(k))
                    ==> self.sweep(k).contains(a),
        decreases k,
    {
        if k > 0 {
            let n = (k - 1) as CodeOffset;
            if self.dead.contains(n) {
                let next = self.remove(n);
                let later = next.sweep((k - 1) as nat);
                self.lemma_remove_forward(n);
                self.lemma_remove_lowers(n);
                self.lemma_remove_dead_feeds_dead(n);
                next.lemma_unobserved_is_removed((k - 1) as nat);
                next.lemma_dead_are_swept((k - 1) as nat);
                next.lemma_sweep_candidates((k - 1) as nat);
                self.lemma_dead_are_swept(k);
                assert forall|a: CodeOffset|
                    self.is_observed(a) && #[trigger] self.uses_within(
                        a,
                        self.sweep(k),
                    ) implies self.sweep(k).contains(a) by {
                    if a != n && !self.dead.contains(a) {
                        assert forall|c: CodeOffset| #[trigger] next.has_edge(a, c) implies
                            later.contains(c) by {
                            if self.edges.contains((a, c)) && c != n {
                                assert(self.has_edge(a, c));
                            } else {
                                assert(self.has_edge(n, c));
                                assert(next.dead.contains(c));
                            }
                        }
                        if next.is_observed(a) {
                            assert(next.uses_within(a, later));
                        } else {
                            let b = choose|b: CodeOffset| self.has_edge(a, b);
                            if b != n {
                                assert(next.has_edge(a, b));
                            }
                            assert forall|c: CodeOffset| #[trigger]
                                self.bypassed(n).has_edge(a, c) implies self.bypassed(
                                n,
                            ).dead.contains(c) by {
                                assert(next.has_edge(a, c));
                            }
                            assert(next.dead.contains(a));
                        }
                    }
                }
            } else {
                self.lemma_unobserved_is_removed((k - 1) as nat);
                assert(self.sweep(k) == self.sweep((k - 1) as nat));
            }
        } else {
            assert forall|a: CodeOffset|
                self.is_observed(a) && #[trigger] self.uses_within(
                    a,
                    self.sweep(k),
                ) implies self.sweep(k).contains(a) by {
                let b = choose|b: CodeOffset| self.has_edge(a, b);
                assert(self.sweep(k).contains(b));
            }
        }
    }

    /// Where no value flows through a dead node to a node that is not dead,
    /// the removed nodes are the dead nodes and the nodes whose value is
    /// used, and used by removed nodes only.
    pub proof fn lemma_dead_stores_closed(self)
        requires
            self.forward(),
            self.dead_feeds_dead(),
        ensures
            self.closed_under_uses(self.dead_stores()),
    {
        self.lemma_removed_is_dead_or_unobserved(0x10000);
        self.lemma_unobserved_is_removed(0x10000);
        self.lemma_dead_are_swept(0x10000);
    }

    /// Two sets that both hold the dead nodes and the nodes used by their
    /// own members only agree from `from` upwards, and so everywhere: in a
    /// graph whose edges lead forward there is one such set.
    pub proof fn lemma_closed_sets_agree(
        self,
        one: Set<CodeOffset>,
        other: Set<CodeOffset>,
        from: nat,
    )
        requires
            self.forward(),
            self.closed_under_uses(one),
            self.closed_under_uses(other),
            from <= 0x10000,
        ensures
            forall|a: CodeOffset| from <= a ==> (one.contains(a) <==> other.contains(a)),
        decreases 0x10000 - from,
    {
        if from < 0x10000 {
            self.lemma_closed_sets_agree(one, other, from + 1);
            let a = from as CodeOffset;
            assert(self.uses_within(a, one) <==> self.uses_within(a, other)) by {
                if self.uses_within(a, one) {
                    assert forall|c: CodeOffset| #[trigger] self.has_edge(a, c) implies
                        other.contains(c) by {
                        assert(one.contains(c));
                    }
                }
                if self.uses_within(a, other) {
                    assert forall|c: CodeOffset| #[trigger] self.has_edge(a, c) implies
                        one.contains(c) by {
                        assert(other.contains(c));
                    }
                }
            }
            assert(one.contains(a) <==> other.contains(a));
        }
    }

    /// Where no value flows through a dead node to a node that is not dead,
    /// extraction removes exactly the stores that nothing left in the code
    /// observes: the one set that holds the dead nodes and the nodes whose
    /// value is used by its own members only.
    pub proof fn lemma_dead_stores_characterized(self, removed: Set<CodeOffset>)
        requires
            self.forward(),
            self.dead_feeds_dead(),
            self.closed_under_uses(removed),
        ensures
            removed == self.dead_stores(),
    {
        self.lemma_dead_stores_closed();
        self.lemma_closed_sets_agree(removed, self.dead_stores(), 0);
        assert(removed =~= self.dead_stores());
    }
}

} // verus!
