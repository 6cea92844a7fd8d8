//! The dead store elimination transformation.
//!
//! Given the live variables of a function and all their usages at each
//! program point, the transformation removes the dead stores: assignments and
//! loads to locals that are not live afterwards, or are read only by stores
//! that are dead themselves. It also removes self-assignments `x = x`.
//!
//! The live-variable annotation has to be there when the pass runs. On exit
//! no annotation is left on the function, since the code offsets have moved.
use crate::bytecode::{Bytecode, CodeOffset, TempIndex};
use crate::def_use::DefUse;
use crate::def_use_graph::DefUseGraph;
use crate::function_target::FunctionData;
use crate::livevar::LiveVarAnnotation;
use std::collections::BTreeSet;
use vstd::prelude::*;

verus! {

broadcast use vstd::std_specs::btree::group_btree_axioms;

/// A processor which performs dead store elimination transformation.
pub struct DeadStoreElimination {}

impl DeadStoreElimination {
    /// The instructions of `code` whose offsets are not in `dead`, in their order.
    pub open spec fn kept(code: Seq<Bytecode>, dead: Set<CodeOffset>) -> Seq<Bytecode>
        decreases code.len(),
    {
        if code.len() == 0 {
            Seq::empty()
        } else {
            let before = Self::kept(code.drop_last(), dead);
            if dead.contains((code.len() - 1) as CodeOffset) {
                before
            } else {
                before.push(code.last())
            }
        }
    }

    /// The offsets that the transformation removes from `code` under the
    /// annotation `live_vars`.
    pub open spec fn dead_offsets(code: Seq<Bytecode>, live_vars: LiveVarAnnotation) -> Set<
        CodeOffset,
    > {
        DefUse::of(code, live_vars).dead_stores()
    }

    /// The code that the transformation makes of `code` under the annotation `live_vars`.
    pub open spec fn eliminated(code: Seq<Bytecode>, live_vars: LiveVarAnnotation) -> Seq<
        Bytecode,
    > {
        Self::kept(code, Self::dead_offsets(code, live_vars))
    }

    /// The function carries a live-variable annotation from which its
    /// definition-use graph can be built.
    pub open spec fn applicable(data: FunctionData) -> bool {
        match data.annotations.live_vars {
            Some(live_vars) => DefUseGraph::buildable(data.code@, live_vars),
            None => false,
        }
    }

    /// Transforms the `code` of a function by removing the instructions corresponding to
    /// the code offsets contained in `dead_stores`.
    ///
    /// Returns the transformed code.
    pub fn transform(code: &Vec<Bytecode>, dead_stores: &BTreeSet<CodeOffset>) -> (new_code: Vec<
        Bytecode,
    >)
        requires
            code.len() <= 0x10000,
        ensures
            new_code@ == Self::kept(code@, dead_stores@),
    {
        let mut new_code: Vec<Bytecode> = Vec::new();
        let mut offset: usize = 0;
        while offset < code.len()
            invariant
                offset <= code.len() <= 0x10000,
                new_code@ == Self::kept(code@.take(offset as int), dead_stores@),
            decreases code.len() - offset,
        {
            proof {
                let next = code@.take(offset + 1);
                assert(next.drop_last() == code@.take(offset as int));
                assert(next.last() == code@[offset as int]);
            }
            let at = offset as CodeOffset;
            if !dead_stores.contains(&at) {
                new_code.push(code[offset]);
            }
            offset = offset + 1;
        }
        assert(code@.take(code.len() as int) == code@);
        new_code
    }

    /// Runs the transformation on one function.
    ///
    /// A native function has no body and is returned as it came. Any other
    /// comes back with its dead stores removed and without annotations.
    pub fn process(&self, is_native: bool, data: FunctionData) -> (result: FunctionData)
        requires
            !is_native ==> Self::applicable(data),
        ensures
            is_native ==> result == data,
            !is_native ==> result.annotations.is_cleared() && result.code@ == Self::eliminated(
                data.code@,
                data.annotations.live_vars.unwrap(),
            ),
    {
        if is_native {
            return data;
        }
        let mut data = data;
        let live_vars = data.annotations.get_live_vars().unwrap();
        let def_use_graph = DefUseGraph::new(&data.code, live_vars);
        let dead_stores = def_use_graph.dead_stores();
        let new_code = Self::transform(&data.code, &dead_stores);
        // The code emitter leaves unused locals out, so the locals are not pruned here.
        data.code = new_code;
        // Annotations may no longer be valid after this transformation because code offsets have changed.
        // So remove them.
        data.annotations.clear();
        data
    }

    /// The name under which the pipeline knows this pass.
    pub fn name(&self) -> (name: String)
        ensures
            name@ == "DeadStoreElimination"@,
    {
        "DeadStoreElimination".to_owned()
    }

    /// The offsets of the restricted definitions of `code`.
    pub open spec fn definitions(code: Seq<Bytecode>) -> Set<CodeOffset> {
        Set::new(
            |offset: CodeOffset|
                offset < code.len() && code[offset as int].is_restricted_definition(),
        )
    }

    /// Tells the instructions that are no restricted definitions.
    pub open spec fn is_other() -> spec_fn(Bytecode) -> bool {
        |instruction: Bytecode| !instruction.is_restricted_definition()
    }

    /// The usages that the annotation records for the definition at
    /// `offset`; none if the instruction there is no restricted definition.
    pub open spec fn is_used_at(
        code: Seq<Bytecode>,
        live_vars: LiveVarAnnotation,
        offset: CodeOffset,
        usage: CodeOffset,
    ) -> bool {
        DefUse::of(code, live_vars).has_edge(offset, usage)
    }

    /// The definition at `offset` is dead by itself: the local it writes is
    /// not live after it or has no usage, or it is a self-assignment.
    pub open spec fn is_dead_by_itself(
        code: Seq<Bytecode>,
        live_vars: LiveVarAnnotation,
        offset: CodeOffset,
    ) -> bool {
        DefUse::of(code, live_vars).dead.contains(offset)
    }

    /// Only restricted definitions are removed: every removed offset is
    /// that of an `Assign` or a `Load` of the function.
    pub proof fn lemma_removes_restricted_definitions_only(
        code: Seq<Bytecode>,
        live_vars: LiveVarAnnotation,
    )
        ensures
            Self::dead_offsets(code, live_vars).subset_of(Self::definitions(code)),
    {
        let graph = DefUse::of(code, live_vars);
        graph.lemma_sweep_candidates(0x10000);
        assert forall|offset: CodeOffset|
            Self::dead_offsets(code, live_vars).contains(offset) implies Self::definitions(
            code,
        ).contains(offset) by {
            assert(graph.is_candidate(offset));
            if !graph.dead.contains(offset) {
                let usage = choose|usage: CodeOffset| graph.has_edge(offset, usage);
                assert(graph.has_edge(offset, usage));
            }
        }
    }

    /// Removing restricted definitions leaves the other instructions as
    /// they are, each one and in their order.
    pub proof fn lemma_kept_keeps_others(code: Seq<Bytecode>, dead: Set<CodeOffset>)
        requires
            code.len() <= 0x10000,
            forall|offset: CodeOffset|
                dead.contains(offset) && offset < code.len() ==> code[offset as int].is_restricted_definition(),
        ensures
            Self::kept(code, dead).filter(Self::is_other()) == code.filter(Self::is_other()),
        decreases code.len(),
    {
        reveal(Seq::filter);
        if code.len() > 0 {
            let front = code.drop_last();
            Self::lemma_kept_keeps_others(front, dead);
            Self::kept(front, dead).lemma_filter_push(code.last(), Self::is_other());
            if dead.contains((code.len() - 1) as CodeOffset) {
                assert(code[code.len() - 1].is_restricted_definition());
            }
        }
    }

    /// No instruction other than an `Assign` or a `Load` is removed: the
    /// transformed code holds the other instructions of the function, each
    /// one and in their order.
    pub proof fn lemma_other_instructions_stay(code: Seq<Bytecode>, live_vars: LiveVarAnnotation)
        requires
            code.len() <= 0x10000,
        ensures
            Self::eliminated(code, live_vars).filter(Self::is_other()) == code.filter(
                Self::is_other(),
            ),
    {
        Self::lemma_removes_restricted_definitions_only(code, live_vars);
        Self::lemma_kept_keeps_others(code, Self::dead_offsets(code, live_vars));
    }

    /// A store is removed only if it is dead by itself, or if the value it
    /// writes has usages and each of them is at a removed offset too: what
    /// stays in the code reads no value of a removed store, but for the
    /// value that a removed self-assignment hands on.
    pub proof fn lemma_removed_stores_are_unobserved(
        code: Seq<Bytecode>,
        live_vars: LiveVarAnnotation,
    )
        requires
            DefUse::of(code, live_vars).forward(),
        ensures
            forall|offset: CodeOffset| #[trigger]
                Self::dead_offsets(code, live_vars).contains(offset) ==> Self::is_dead_by_itself(
                    code,
                    live_vars,
                    offset,
                ) || ((exists|usage: CodeOffset| Self::is_used_at(code, live_vars, offset, usage))
                    && forall|usage: CodeOffset| #[trigger]
                    Self::is_used_at(code, live_vars, offset, usage) ==> Self::dead_offsets(
                        code,
                        live_vars,
                    ).contains(usage)),
    {
        let graph = DefUse::of(code, live_vars);
        graph.lemma_removed_is_dead_or_unobserved(0x10000);
        assert forall|offset: CodeOffset| #[trigger]
            Self::dead_offsets(code, live_vars).contains(offset) && !Self::is_dead_by_itself(
                code,
                live_vars,
                offset,
            ) implies (exists|usage: CodeOffset| Self::is_used_at(code, live_vars, offset, usage))
            && forall|usage: CodeOffset| #[trigger]
            Self::is_used_at(code, live_vars, offset, usage) ==> Self::dead_offsets(
                code,
                live_vars,
            ).contains(usage) by {
            assert(graph.sweep(0x10000).contains(offset));
            assert(graph.is_observed(offset) && graph.uses_within(offset, graph.sweep(0x10000)));
            let usage = choose|usage: CodeOffset| graph.has_edge(offset, usage);
            assert(Self::is_used_at(code, live_vars, offset, usage));
            assert forall|usage: CodeOffset| #[trigger]
                Self::is_used_at(code, live_vars, offset, usage) implies Self::dead_offsets(
                code,
                live_vars,
            ).contains(usage) by {
                assert(graph.has_edge(offset, usage));
            }
        }
    }

    /// Where no self-assignment hands its value on to an instruction that
    /// stays, the removed offsets are exactly the stores that nothing left
    /// in the code observes: `removed` is that set if it holds the stores
    /// that are dead by themselves and the stores whose value is used at
    /// offsets in `removed` only, and no others.
    pub proof fn lemma_dead_offsets_characterized(
        code: Seq<Bytecode>,
        live_vars: LiveVarAnnotation,
        removed: Set<CodeOffset>,
    )
        requires
            DefUse::of(code, live_vars).forward(),
            DefUse::of(code, live_vars).dead_feeds_dead(),
            DefUse::of(code, live_vars).closed_under_uses(removed),
        ensures
            removed == Self::dead_offsets(code, live_vars),
    {
        DefUse::of(code, live_vars).lemma_dead_stores_characterized(removed);
    }

    /// The extraction takes at most as many rounds as the function has
    /// restricted definitions: one round for each offset it removes.
    pub proof fn lemma_rounds_bounded_by_definitions(
        code: Seq<Bytecode>,
        live_vars: LiveVarAnnotation,
    )
        ensures
            Self::definitions(code).finite(),
            DefUse::of(code, live_vars).rounds(0x10000) == Self::dead_offsets(
                code,
                live_vars,
            ).len(),
            DefUse::of(code, live_vars).rounds(0x10000) <= Self::definitions(code).len(),
    {
        let graph = DefUse::of(code, live_vars);
        graph.lemma_rounds_bounded();
        DefUse::lemma_offsets_finite(Self::definitions(code));
        Self::lemma_removes_restricted_definitions_only(code, live_vars);
        vstd::set_lib::lemma_len_subset(
            Self::dead_offsets(code, live_vars),
            Self::definitions(code),
        );
    }

    /// Code from which no offset is removed stays as it is.
    pub proof fn lemma_kept_all(code: Seq<Bytecode>)
        ensures
            Self::kept(code, Set::empty()) == code,
        decreases code.len(),
    {
        if code.len() > 0 {
            Self::lemma_kept_all(code.drop_last());
            assert(code.drop_last().push(code.last()) == code);
        }
    }

    /// The transformation is at its fixed point on a function none of
    /// whose stores is dead by itself: it returns the code as it came.
    /// The graph that an extraction leaves is of that kind
    /// (`DefUse::lemma_extraction_is_idempotent`).
    pub proof fn lemma_fixed_point(code: Seq<Bytecode>, live_vars: LiveVarAnnotation)
        requires
            forall|offset: CodeOffset| !Self::is_dead_by_itself(code, live_vars, offset),
        ensures
            Self::dead_offsets(code, live_vars) == Set::<CodeOffset>::empty(),
            Self::eliminated(code, live_vars) == code,
    {
        let graph = DefUse::of(code, live_vars);
        assert forall|offset: CodeOffset| !graph.dead.contains(offset) by {
            assert(!Self::is_dead_by_itself(code, live_vars, offset));
        }
        graph.lemma_sweep_above_dead(0, 0x10000);
        Self::lemma_kept_all(code);
    }

    /// The outcome depends on what the input says and on nothing else: two
    /// annotations that record the same usages for every offset and local
    /// give the same removed offsets and the same code.
    pub proof fn lemma_deterministic(
        code: Seq<Bytecode>,
        live_vars: LiveVarAnnotation,
        other_live_vars: LiveVarAnnotation,
    )
        requires
            forall|offset: CodeOffset, local: TempIndex|
                live_vars.live_after(offset, local) == other_live_vars.live_after(offset, local),
        ensures
            Self::dead_offsets(code, live_vars) == Self::dead_offsets(code, other_live_vars),
            Self::eliminated(code, live_vars) == Self::eliminated(code, other_live_vars),
    {
        let one = DefUse::of(code, live_vars);
        let other = DefUse::of(code, other_live_vars);
        assert(one.edges =~= other.edges);
        assert(one.dead =~= other.dead);
    }
}

} // verus!
