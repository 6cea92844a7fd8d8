//! The definition-use graph that dead store elimination works on.
use crate::bytecode::{Bytecode, CodeOffset, TempIndex};
use crate::def_use::DefUse;
use crate::livevar::LiveVarAnnotation;
use std::collections::{BTreeMap, BTreeSet};
use vstd::prelude::*;
use vstd::std_specs::cmp::OrdSpec;

verus! {

broadcast use vstd::std_specs::btree::group_btree_axioms;

/// For each offset of some nodes, a set of neighbours.
pub type Adjacency = BTreeMap<CodeOffset, BTreeSet<CodeOffset>>;

/// The pairs `(key, member)` that an adjacency map holds.
pub open spec fn links(m: Map<CodeOffset, BTreeSet<CodeOffset>>) -> Set<(CodeOffset, CodeOffset)> {
    Set::new(|e: (CodeOffset, CodeOffset)| m.contains_key(e.0) && m[e.0]@.contains(e.1))
}

/// The pairs of an adjacency map, each one turned round: `(member, key)`.
pub open spec fn back_links(m: Map<CodeOffset, BTreeSet<CodeOffset>>) -> Set<
    (CodeOffset, CodeOffset),
> {
    Set::new(|e: (CodeOffset, CodeOffset)| links(m).contains((e.1, e.0)))
}

/// Adds `to` to the neighbours of `from`.
pub fn link(m: &mut Adjacency, from: CodeOffset, to: CodeOffset)
    ensures
        links(final(m)@) == links(old(m)@).insert((from, to)),
{
    let mut set = match m.remove(&from) {
        Some(set) => set,
        None => BTreeSet::new(),
    };
    set.insert(to);
    m.insert(from, set);
    assert(links(m@) =~= links(old(m)@).insert((from, to)));
}

/// Takes `to` out of the neighbours of `from`.
pub fn unlink(m: &mut Adjacency, from: CodeOffset, to: CodeOffset)
    ensures
        links(final(m)@) == links(old(m)@).remove((from, to)),
{
    match m.remove(&from) {
        Some(mut set) => {
            set.remove(&to);
            m.insert(from, set);
        },
        None => {},
    }
    assert(links(m@) =~= links(old(m)@).remove((from, to)));
}

/// Removes the entry of `key` and returns its neighbours, none if it had no entry.
pub fn take(m: &mut Adjacency, key: CodeOffset) -> (set: BTreeSet<CodeOffset>)
    ensures
        set@ == Set::new(|b: CodeOffset| links(old(m)@).contains((key, b))),
        links(final(m)@) == Set::new(
            |e: (CodeOffset, CodeOffset)| links(old(m)@).contains(e) && e.0 != key,
        ),
{
    let set = match m.remove(&key) {
        Some(set) => set,
        None => BTreeSet::new(),
    };
    assert(set@ =~= Set::new(|b: CodeOffset| links(old(m)@).contains((key, b))));
    assert(links(m@) =~= Set::new(
        |e: (CodeOffset, CodeOffset)| links(old(m)@).contains(e) && e.0 != key,
    ));
    set
}

/// A set of offsets is walked from the least to the greatest.
proof fn lemma_iteration_ascends(order: Seq<&CodeOffset>)
    requires
        vstd::std_specs::btree::increasing_seq(order),
    ensures
        forall|i: int, j: int|
            0 <= i < j < order.len() ==> *#[trigger] order[i] < *#[trigger] order[j],
{
    broadcast use vstd::laws_cmp::group_laws_cmp;

    vstd::std_specs::btree::axiom_increasing_seq_meaning(order);
    assert forall|i: int, j: int| 0 <= i < j < order.len() implies *#[trigger] order[i]
        < *#[trigger] order[j] by {
        assert(OrdSpec::cmp_spec(&order[i], &order[j]) is Less);
    }
}

/// `BTreeSet::pop_last`: takes the greatest element out of the set and
/// returns it; leaves an empty set as it is and returns `None`.
#[verifier::external_body]
fn pop_last(set: &mut BTreeSet<CodeOffset>) -> (last: Option<CodeOffset>)
    ensures
        match last {
            Some(n) => old(set)@.contains(n) && final(set)@ == old(set)@.remove(n) && forall|
                m: CodeOffset,
            |
                old(set)@.contains(m) ==> m <= n,
            None => old(set)@ == Set::<CodeOffset>::empty() && final(set)@ == old(set)@,
        },
{
    set.pop_last()
}

/// A definition-use graph, where
/// - each node is a code offset, a definition or a use of a local or both;
/// - a forward edge (`children`) `a -> b` says that the definition at `a` is
///   used at `b`, and each has its backward edge (`parents`) `a <- b`;
/// - the nodes known to be dead stores are marked `dead`.
///
/// Only `Assign` and `Load` instructions enter the graph as definitions: they
/// write a local and do nothing else, so one whose value nothing observes can
/// be removed.
pub struct DefUseGraph {
    pub children: Adjacency,
    pub parents: Adjacency,
    pub dead: BTreeSet<CodeOffset>,
}

impl View for DefUseGraph {
    type V = DefUse;

    open spec fn view(&self) -> DefUse {
        DefUse { edges: links(self.children@), dead: self.dead@ }
    }
}

impl DefUseGraph {
    /// Each forward edge has its backward edge, and the other way round.
    pub open spec fn linked(&self) -> bool {
        links(self.children@) == back_links(self.parents@)
    }

    /// The two adjacency maps hold the same edges, and every edge leads to a
    /// later offset.
    pub open spec fn wf(&self) -> bool {
        &&& self.linked()
        &&& self@.forward()
    }

    /// Disconnect `node` from its parents and return the set of parents.
    pub fn disconnect_from_parents(&mut self, node: CodeOffset) -> (parents: BTreeSet<CodeOffset>)
        requires
            old(self).linked(),
        ensures
            final(self).linked(),
            parents@ == old(self)@.parents(node),
            final(self)@.dead == old(self)@.dead,
            final(self)@.edges == Set::new(
                |e: (CodeOffset, CodeOffset)| old(self)@.edges.contains(e) && e.1 != node,
            ),
    {
        let parents = take(&mut self.parents, node);
        assert(parents@ =~= old(self)@.parents(node));
        let ghost mut done: Set<CodeOffset> = Set::empty();
        for parent in it: parents.iter()
            invariant
                it.seq().unref().to_set() == parents@,
                forall|i: int| 0 <= i < it.index() ==> done.contains(*#[trigger] it.seq()[i]),
                forall|p: CodeOffset| done.contains(p) ==> parents@.contains(p),
                parents@ == old(self)@.parents(node),
                self.dead == old(self).dead,
                back_links(self.parents@) == Set::new(
                    |e: (CodeOffset, CodeOffset)| old(self)@.edges.contains(e) && e.1 != node,
                ),
                links(self.children@) == Set::new(
                    |e: (CodeOffset, CodeOffset)|
                        old(self)@.edges.contains(e) && !(e.1 == node && done.contains(e.0)),
                ),
        {
            assert(it.seq().unref()[it.index() as int] == *parent);
            assert(it.seq().unref().to_set().contains(*parent));
            unlink(&mut self.children, *parent, node);
            proof {
                done = done.insert(*parent);
            }
            assert(links(self.children@) =~= Set::new(
                |e: (CodeOffset, CodeOffset)|
                    old(self)@.edges.contains(e) && !(e.1 == node && done.contains(e.0)),
            ));
        }
        assert(done =~= parents@);
        assert(links(self.children@) =~= back_links(self.parents@));
        parents
    }

    /// Disconnect `node` from its children and return the set of children.
    pub fn disconnect_from_children(&mut self, node: CodeOffset) -> (children: BTreeSet<
        CodeOffset,
    >)
        requires
            old(self).linked(),
        ensures
            final(self).linked(),
            children@ == old(self)@.children(node),
            final(self)@.dead == old(self)@.dead,
            final(self)@.edges == Set::new(
                |e: (CodeOffset, CodeOffset)| old(self)@.edges.contains(e) && e.0 != node,
            ),
    {
        let children = take(&mut self.children, node);
        assert(children@ =~= old(self)@.children(node));
        let ghost mut done: Set<CodeOffset> = Set::empty();
        for child in it: children.iter()
            invariant
                it.seq().unref().to_set() == children@,
                forall|i: int| 0 <= i < it.index() ==> done.contains(*#[trigger] it.seq()[i]),
                forall|c: CodeOffset| done.contains(c) ==> children@.contains(c),
                children@ == old(self)@.children(node),
                self.dead == old(self).dead,
                links(self.children@) == Set::new(
                    |e: (CodeOffset, CodeOffset)| old(self)@.edges.contains(e) && e.0 != node,
                ),
                back_links(self.parents@) == Set::new(
                    |e: (CodeOffset, CodeOffset)|
                        old(self)@.edges.contains(e) && !(e.0 == node && done.contains(e.1)),
                ),
        {
            assert(it.seq().unref()[it.index() as int] == *child);
            assert(it.seq().unref().to_set().contains(*child));
            let ghost before = self.parents@;
            unlink(&mut self.parents, *child, node);
            proof {
                done = done.insert(*child);
                assert forall|e: (CodeOffset, CodeOffset)| #[trigger]
                    back_links(self.parents@).contains(e) <==> back_links(before).contains(e)
                        && !(e.0 == node && e.1 == *child) by {
                    assert(links(self.parents@).contains((e.1, e.0)) <==> links(before).contains(
                        (e.1, e.0),
                    ) && (e.1, e.0) != (*child, node));
                }
            }
            assert(back_links(self.parents@) =~= Set::new(
                |e: (CodeOffset, CodeOffset)|
                    old(self)@.edges.contains(e) && !(e.0 == node && done.contains(e.1)),
            ));
        }
        assert(done =~= children@);
        assert(links(self.children@) =~= back_links(self.parents@));
        children
    }

    /// Adds an edge from `parent` to each of `children`.
    pub fn connect(&mut self, parent: CodeOffset, children: &BTreeSet<CodeOffset>)
        requires
            old(self).linked(),
        ensures
            final(self).linked(),
            final(self)@.dead == old(self)@.dead,
            final(self)@.edges == Set::new(
                |e: (CodeOffset, CodeOffset)|
                    old(self)@.edges.contains(e) || (e.0 == parent && children@.contains(e.1)),
            ),
    {
        let ghost mut done: Set<CodeOffset> = Set::empty();
        assert(self@.edges =~= Set::new(
            |e: (CodeOffset, CodeOffset)|
                old(self)@.edges.contains(e) || (e.0 == parent && done.contains(e.1)),
        ));
        for child in it: children.iter()
            invariant
                it.seq().unref().to_set() == children@,
                forall|i: int| 0 <= i < it.index() ==> done.contains(*#[trigger] it.seq()[i]),
                forall|c: CodeOffset| done.contains(c) ==> children@.contains(c),
                self.linked(),
                self.dead == old(self).dead,
                self@.edges == Set::new(
                    |e: (CodeOffset, CodeOffset)|
                        old(self)@.edges.contains(e) || (e.0 == parent && done.contains(e.1)),
                ),
        {
            assert(it.seq().unref()[it.index() as int] == *child);
            assert(it.seq().unref().to_set().contains(*child));
            link(&mut self.children, parent, *child);
            link(&mut self.parents, *child, parent);
            proof {
                done = done.insert(*child);
            }
            assert(self@.edges =~= Set::new(
                |e: (CodeOffset, CodeOffset)|
                    old(self)@.edges.contains(e) || (e.0 == parent && done.contains(e.1)),
            ));
            assert(links(self.children@) =~= back_links(self.parents@));
        }
        assert(done =~= children@);
    }

    /// Check if a `parent` node is now dead, and mark it as such if it is.
    /// A parent is dead if all the offsets that use its value are dead.
    pub fn re_evaluate_death(&mut self, parent: CodeOffset)
        ensures
            final(self).children == old(self).children,
            final(self).parents == old(self).parents,
            final(self)@.dead == if old(self)@.uses_within(parent, old(self)@.dead) {
                old(self)@.dead.insert(parent)
            } else {
                old(self)@.dead
            },
    {
        let mut all_dead = true;
        match self.children.get(&parent) {
            Some(children) => {
                let ghost mut seen: Set<CodeOffset> = Set::empty();
                for child in it: children.iter()
                    invariant
                        it.seq().unref().to_set() == children@,
                        forall|i: int|
                            0 <= i < it.index() ==> seen.contains(*#[trigger] it.seq()[i]),
                        forall|c: CodeOffset| seen.contains(c) ==> children@.contains(c),
                        all_dead <==> forall|c: CodeOffset|
                            seen.contains(c) ==> self.dead@.contains(c),
                        *self == *old(self),
                {
                    assert(it.seq().unref()[it.index() as int] == *child);
                    assert(it.seq().unref().to_set().contains(*child));
                    let ghost before = seen;
                    proof {
                        seen = seen.insert(*child);
                    }
                    let ghost was_dead = all_dead;
                    if !self.dead.contains(child) {
                        all_dead = false;
                    }
                    proof {
                        if !self.dead@.contains(*child) {
                            assert(seen.contains(*child) && !self.dead@.contains(*child));
                        } else if was_dead {
                            assert forall|c: CodeOffset|
                                seen.contains(c) implies self.dead@.contains(c) by {
                                if c != *child {
                                    assert(before.contains(c));
                                }
                            }
                        } else {
                            let c = choose|c: CodeOffset|
                                before.contains(c) && !self.dead@.contains(c);
                            assert(seen.contains(c) && !self.dead@.contains(c));
                        }
                    }
                }
                assert(seen =~= children@);
                assert(all_dead <==> self@.uses_within(parent, self@.dead)) by {
                    if all_dead {
                        assert forall|c: CodeOffset| #[trigger]
                            self@.has_edge(parent, c) implies self@.dead.contains(c) by {
                            assert(children@.contains(c));
                        }
                    } else {
                        let c = choose|c: CodeOffset| seen.contains(c) && !self.dead@.contains(c);
                        assert(self@.has_edge(parent, c));
                    }
                }
            },
            None => {
                assert(self@.uses_within(parent, self@.dead));
            },
        }
        if all_dead {
            self.dead.insert(parent);
        }
    }

    /// Remove one dead node, the one at the greatest offset, from the graph, if
    /// there is one: its parents are connected to its children, and a parent
    /// that is left with dead uses only is marked dead.
    pub fn remove_a_dead_node(&mut self) -> (removed: Option<CodeOffset>)
        requires
            old(self).wf(),
        ensures
            final(self).wf(),
            match removed {
                Some(node) => {
                    &&& old(self)@.dead.contains(node)
                    &&& forall|m: CodeOffset| old(self)@.dead.contains(m) ==> m <= node
                    &&& final(self)@ == old(self)@.remove(node)
                },
                None => old(self)@.dead == Set::<CodeOffset>::empty() && final(self)@ == old(
                    self,
                )@,
            },
    {
        match pop_last(&mut self.dead) {
            Some(node) => {
                let ghost rest = self.dead@;
                let parents = self.disconnect_from_parents(node);
                let children = self.disconnect_from_children(node);
                let ghost apart = self@.edges;
                // Reconnect all parents to all children.
                let ghost mut done: Set<CodeOffset> = Set::empty();
                assert(self@.edges =~= Set::new(
                    |e: (CodeOffset, CodeOffset)|
                        apart.contains(e) || (done.contains(e.0) && children@.contains(e.1)),
                ));
                for parent in it: parents.iter()
                    invariant
                        it.seq().unref().to_set() == parents@,
                        forall|i: int|
                            0 <= i < it.index() ==> done.contains(*#[trigger] it.seq()[i]),
                        forall|p: CodeOffset| done.contains(p) ==> parents@.contains(p),
                        self.linked(),
                        self.dead@ == rest,
                        self@.edges == Set::new(
                            |e: (CodeOffset, CodeOffset)|
                                apart.contains(e) || (done.contains(e.0) && children@.contains(
                                    e.1,
                                )),
                        ),
                {
                    assert(it.seq().unref()[it.index() as int] == *parent);
                    assert(it.seq().unref().to_set().contains(*parent));
                    self.connect(*parent, &children);
                    proof {
                        done = done.insert(*parent);
                    }
                    assert(self@.edges =~= Set::new(
                        |e: (CodeOffset, CodeOffset)|
                            apart.contains(e) || (done.contains(e.0) && children@.contains(e.1)),
                    ));
                }
                assert(done =~= parents@);
                assert(self@.edges =~= old(self)@.bypass(node)) by {
                    assert forall|e: (CodeOffset, CodeOffset)|
                        old(self)@.bypass(node).contains(e) implies self@.edges.contains(e) by {
                        if old(self)@.has_edge(e.0, node) && old(self)@.has_edge(node, e.1) {
                            assert(old(self)@.parents(node).contains(e.0));
                            assert(node < e.1);
                        }
                    }
                    assert forall|e: (CodeOffset, CodeOffset)|
                        self@.edges.contains(e) implies old(self)@.bypass(node).contains(e) by {
                        if !apart.contains(e) {
                            assert(old(self)@.parents(node).contains(e.0));
                        }
                    }
                }
                proof {
                    old(self)@.lemma_remove_forward(node);
                }
                // Parents are the only ones who could become dead (if `node` was their last child).
                let ghost after = self@;
                assert(after.forward()) by {
                    assert forall|a: CodeOffset, b: CodeOffset| #[trigger]
                        after.has_edge(a, b) implies a < b by {
                        assert(old(self)@.remove(node).has_edge(a, b));
                    }
                }
                let ghost mut seen: Set<CodeOffset> = Set::empty();
                for parent in it: parents.iter()
                    invariant
                        it.seq().unref().to_set() == parents@,
                        forall|i: int|
                            0 <= i < it.index() ==> seen.contains(*#[trigger] it.seq()[i]),
                        forall|p: CodeOffset| seen.contains(p) ==> parents@.contains(p),
                        vstd::std_specs::btree::increasing_seq(it.seq()),
                        forall|p: CodeOffset, j: int|
                            #![trigger seen.contains(p), it.seq()[j]]
                            seen.contains(p) && it.index() <= j < it.seq().len() ==> p
                                < *it.seq()[j],
                        self.linked(),
                        after.forward(),
                        self@.edges == after.edges,
                        self.dead@ == Set::new(
                            |p: CodeOffset|
                                rest.contains(p) || (seen.contains(p) && after.uses_within(
                                    p,
                                    rest,
                                )),
                        ),
                {
                    assert(it.seq().unref()[it.index() as int] == *parent);
                    assert(it.seq().unref().to_set().contains(*parent));
                    let ghost before = self@;
                    proof {
                        lemma_iteration_ascends(it.seq());
                    }
                    assert(before.uses_within(*parent, before.dead) <==> after.uses_within(
                        *parent,
                        rest,
                    )) by {
                        if before.uses_within(*parent, before.dead) {
                            assert forall|c: CodeOffset| #[trigger]
                                after.has_edge(*parent, c) implies rest.contains(c) by {
                                assert(before.has_edge(*parent, c));
                                assert(*parent < c);
                                if seen.contains(c) {
                                    assert(c < *it.seq()[it.index() as int]);
                                }
                            }
                        }
                        if after.uses_within(*parent, rest) {
                            assert forall|c: CodeOffset| #[trigger]
                                before.has_edge(*parent, c) implies before.dead.contains(c) by {
                                assert(after.has_edge(*parent, c));
                            }
                        }
                    }
                    self.re_evaluate_death(*parent);
                    proof {
                        seen = seen.insert(*parent);
                    }
                    assert(self.dead@ =~= Set::new(
                        |p: CodeOffset|
                            rest.contains(p) || (seen.contains(p) && after.uses_within(p, rest)),
                    ));
                }
                assert(seen =~= parents@);
                assert(after == old(self)@.bypassed(node));
                assert(self.dead@ =~= old(self)@.remove(node).dead) by {
                    assert forall|p: CodeOffset| parents@.contains(p) <==> old(self)@.has_edge(
                        p,
                        node,
                    ) by {}
                }
                Some(node)
            },
            None => None,
        }
    }

    /// Obtain the set of dead stores, i.e., code offsets which can be removed safely.
    pub fn dead_stores(self) -> (dead: BTreeSet<CodeOffset>)
        requires
            self.wf(),
        ensures
            dead@ == self@.dead_stores(),
    {
        let mut graph = self;
        let mut dead: BTreeSet<CodeOffset> = BTreeSet::new();
        let ghost mut bound: nat = 0x10000;
        assert(dead@.union(graph@.sweep(bound)) =~= self@.dead_stores());
        loop
            invariant
                graph.wf(),
                bound <= 0x10000,
                forall|m: CodeOffset| graph@.dead.contains(m) ==> m < bound,
                dead@.union(graph@.sweep(bound)) == self@.dead_stores(),
            ensures
                dead@ == self@.dead_stores(),
            decreases bound,
        {
            let ghost before = graph@;
            match graph.remove_a_dead_node() {
                Some(offset) => {
                    proof {
                        before.lemma_sweep_above_dead((offset + 1) as nat, bound);
                        before.lemma_remove_lowers(offset);
                        assert(before.sweep((offset + 1) as nat) == before.remove(offset).sweep(
                            offset as nat,
                        ).insert(offset));
                        assert(dead@.insert(offset).union(graph@.sweep(offset as nat)) =~= dead@.union(
                            before.sweep(bound),
                        ));
                        bound = offset as nat;
                    }
                    dead.insert(offset);
                },
                None => {
                    proof {
                        before.lemma_sweep_above_dead(0, bound);
                        assert(dead@.union(Set::<CodeOffset>::empty()) =~= dead@);
                    }
                    break ;
                },
            }
        }
        dead
    }

    /// Incorporate a definition `def` at `offset` into the graph, using the `live_vars` annotation.
    /// If `always_mark` is true, the definition is marked as dead regardless of its liveness.
    pub fn incorporate_definition(
        &mut self,
        def: TempIndex,
        offset: CodeOffset,
        live_vars: &LiveVarAnnotation,
        always_mark: bool,
    )
        requires
            old(self).wf(),
            live_vars.covers(offset),
            forall|usage: CodeOffset| live_vars.uses(offset, def, usage) ==> offset < usage,
        ensures
            final(self).wf(),
            final(self)@ == old(self)@.incorporate(
                offset,
                live_vars.live_after(offset, def),
                always_mark,
            ),
    {
        let live_after = live_vars.get_info_at(offset).after.get(&def);
        match live_after {
            Some(live) => {
                let usages = live.usage_offsets();
                if always_mark || usages.is_empty() {
                    self.dead.insert(offset);
                }
                self.connect(offset, usages);
                proof {
                    let expected = old(self)@.incorporate(
                        offset,
                        live_vars.live_after(offset, def),
                        always_mark,
                    );
                    assert(self@.edges =~= expected.edges);
                    assert forall|a: CodeOffset, b: CodeOffset| #[trigger]
                        self@.has_edge(a, b) implies a < b by {
                        if !old(self)@.has_edge(a, b) {
                            assert(live_vars.uses(offset, def, b));
                        }
                    }
                }
            },
            None => {
                self.dead.insert(offset);
                assert forall|a: CodeOffset, b: CodeOffset| #[trigger]
                    self@.has_edge(a, b) implies a < b by {
                    assert(old(self)@.has_edge(a, b));
                }
            },
        }
    }

    /// Populate an empty graph from the (restricted) definitions and uses in `code`.
    pub fn populate_from(&mut self, code: &Vec<Bytecode>, live_vars: &LiveVarAnnotation)
        requires
            old(self).wf(),
            old(self)@ == DefUse::empty(),
            Self::buildable(code@, *live_vars),
        ensures
            final(self).wf(),
            final(self)@ == DefUse::of(code@, *live_vars),
    {
        let mut offset: usize = 0;
        assert(self@.edges =~= DefUse::of_prefix(code@, *live_vars, 0).edges);
        assert(self@.dead =~= DefUse::of_prefix(code@, *live_vars, 0).dead);
        while offset < code.len()
            invariant
                offset <= code.len(),
                Self::buildable(code@, *live_vars),
                self.wf(),
                self@ == DefUse::of_prefix(code@, *live_vars, offset as int),
            decreases code.len() - offset,
        {
            proof {
                DefUse::lemma_of_prefix_step(code@, *live_vars, offset as int);
            }
            let at = offset as CodeOffset;
            match code[offset] {
                Bytecode::Assign(dst, src) => {
                    proof {
                        Self::lemma_buildable_at(code@, *live_vars, at);
                    }
                    // self-assignment is always a dead store
                    self.incorporate_definition(dst, at, live_vars, dst == src);
                },
                Bytecode::Load(dst, _) => {
                    proof {
                        Self::lemma_buildable_at(code@, *live_vars, at);
                    }
                    self.incorporate_definition(dst, at, live_vars, false);
                },
                Bytecode::Other(_) => {},
            }
            offset = offset + 1;
        }
    }

    /// What construction asks of a function: its offsets fit in a
    /// `CodeOffset`, each restricted definition is annotated, and each
    /// usage recorded for one follows it.
    pub open spec fn buildable(code: Seq<Bytecode>, live_vars: LiveVarAnnotation) -> bool {
        &&& code.len() <= 0x10000
        &&& forall|offset: CodeOffset|
            offset < code.len() && #[trigger] code[offset as int].is_restricted_definition()
                ==> live_vars.covers(offset)
        &&& DefUse::of(code, live_vars).forward()
    }

    /// At a restricted definition of a buildable function the annotation has
    /// an entry, and the usages it records for the definition follow it.
    pub proof fn lemma_buildable_at(code: Seq<Bytecode>, live_vars: LiveVarAnnotation, at: CodeOffset)
        requires
            Self::buildable(code, live_vars),
            at < code.len(),
            code[at as int].is_restricted_definition(),
        ensures
            live_vars.covers(at),
            forall|usage: CodeOffset|
                live_vars.uses(at, code[at as int].definition().unwrap(), usage) ==> at < usage,
    {
        let dst = code[at as int].definition().unwrap();
        assert forall|usage: CodeOffset| live_vars.uses(at, dst, usage) implies at < usage by {
            assert(DefUse::of(code, live_vars).has_edge(at, usage));
        }
    }

    /// Create a new `DefUseGraph` from the function's `code` and its live-variable annotation.
    pub fn new(code: &Vec<Bytecode>, live_vars: &LiveVarAnnotation) -> (graph: DefUseGraph)
        requires
            Self::buildable(code@, *live_vars),
        ensures
            graph.wf(),
            graph@ == DefUse::of(code@, *live_vars),
    {
        let mut this = DefUseGraph {
            children: BTreeMap::new(),
            parents: BTreeMap::new(),
            dead: BTreeSet::new(),
        };
        assert(links(this.children@) =~= back_links(this.parents@));
        assert(this@.edges =~= DefUse::empty().edges);
        this.populate_from(code, live_vars);
        this
    }

    /// Whether every offset in `usages` lies after `at`.
    pub fn all_after(usages: &BTreeSet<CodeOffset>, at: CodeOffset) -> (ok: bool)
        ensures
            ok == forall|usage: CodeOffset| usages@.contains(usage) ==> at < usage,
    {
        let mut ok = true;
        let ghost mut seen: Set<CodeOffset> = Set::empty();
        for usage in it: usages.iter()
            invariant
                it.seq().unref().to_set() == usages@,
                forall|i: int| 0 <= i < it.index() ==> seen.contains(*#[trigger] it.seq()[i]),
                forall|u: CodeOffset| seen.contains(u) ==> usages@.contains(u),
                ok == forall|u: CodeOffset| seen.contains(u) ==> at < u,
        {
            assert(it.seq().unref()[it.index() as int] == *usage);
            assert(it.seq().unref().to_set().contains(*usage));
            let ghost before = seen;
            let ghost was_ok = ok;
            proof {
                seen = seen.insert(*usage);
            }
            if *usage <= at {
                ok = false;
            }
            proof {
                if *usage <= at {
                    assert(seen.contains(*usage) && !(at < *usage));
                } else if was_ok {
                    assert forall|u: CodeOffset| seen.contains(u) implies at < u by {
                        if u != *usage {
                            assert(before.contains(u));
                        }
                    }
                } else {
                    let u = choose|u: CodeOffset| before.contains(u) && !(at < u);
                    assert(seen.contains(u) && !(at < u));
                }
            }
        }
        assert(seen =~= usages@);
        ok
    }

    /// Whether a graph can be built from `code` and `live_vars`: whether the
    /// offsets fit in a `CodeOffset`, each restricted definition is
    /// annotated, and each usage recorded for one follows it.
    pub fn check_buildable(code: &Vec<Bytecode>, live_vars: &LiveVarAnnotation) -> (ok: bool)
        ensures
            ok == Self::buildable(code@, *live_vars),
    {
        if code.len() > 0x10000 {
            return false;
        }
        let mut offset: usize = 0;
        while offset < code.len()
            invariant
                offset <= code.len() <= 0x10000,
                forall|o: CodeOffset|
                    o < offset && #[trigger] code@[o as int].is_restricted_definition()
                        ==> live_vars.covers(o),
                DefUse::of_prefix(code@, *live_vars, offset as int).forward(),
            decreases code.len() - offset,
        {
            let at = offset as CodeOffset;
            let ghost whole = DefUse::of(code@, *live_vars);
            let ghost before = DefUse::of_prefix(code@, *live_vars, offset as int);
            let ghost after = DefUse::of_prefix(code@, *live_vars, offset + 1);
            match code[offset].dest() {
                Some(dst) => {
                    if !live_vars.infos.contains_key(&at) {
                        assert(code@[at as int].is_restricted_definition());
                        return false;
                    }
                    match live_vars.get_info_at(at).after.get(&dst) {
                        Some(live) => {
                            if !Self::all_after(live.usage_offsets(), at) {
                                proof {
                                    let usage = choose|usage: CodeOffset|
                                        live.usages@.contains(usage) && !(at < usage);
                                    assert(live_vars.uses(at, dst, usage));
                                    assert(whole.has_edge(at, usage));
                                }
                                return false;
                            }
                        },
                        None => {},
                    }
                    assert forall|a: CodeOffset, b: CodeOffset| #[trigger]
                        after.has_edge(a, b) implies a < b by {
                        if a < offset {
                            assert(before.has_edge(a, b));
                        } else {
                            assert(live_vars.uses(at, dst, b));
                        }
                    }
                },
                None => {
                    assert forall|a: CodeOffset, b: CodeOffset| #[trigger]
                        after.has_edge(a, b) implies a < b by {
                        assert(before.has_edge(a, b));
                    }
                },
            }
            offset = offset + 1;
        }
        true
    }
}

} // verus!
