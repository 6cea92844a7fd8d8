use dead_store::bytecode::{Bytecode, CodeOffset, TempIndex};
use dead_store::dead_store_elimination::DeadStoreElimination;
use dead_store::def_use_graph::DefUseGraph;
use dead_store::function_target::{Annotations, FunctionData};
use dead_store::livevar::LiveVarAnnotation;
use std::collections::BTreeSet;

/// An annotation that covers the offsets `0..len` and records the given
/// `(offset, local, usages)` entries.
fn annotation(len: CodeOffset, live: &[(CodeOffset, TempIndex, Vec<CodeOffset>)]) -> LiveVarAnnotation {
    let mut annotation = LiveVarAnnotation::new();
    for offset in 0..len {
        annotation.cover(offset);
    }
    for (offset, local, usages) in live {
        annotation.set_live_after(*offset, *local, usages);
    }
    annotation
}

fn function(code: Vec<Bytecode>, live: &[(CodeOffset, TempIndex, Vec<CodeOffset>)]) -> FunctionData {
    let len = code.len() as CodeOffset;
    let mut data = FunctionData::new(code);
    data.annotations.set_live_vars(annotation(len, live));
    data
}

fn removed(code: &Vec<Bytecode>, live: &[(CodeOffset, TempIndex, Vec<CodeOffset>)]) -> Vec<CodeOffset> {
    let annotation = annotation(code.len() as CodeOffset, live);
    DefUseGraph::new(code, &annotation).dead_stores().into_iter().collect()
}

const RETURN: Bytecode = Bytecode::Other(0);
const USE_T0: Bytecode = Bytecode::Other(100);
const USE_T1: Bytecode = Bytecode::Other(101);

#[test]
fn trivially_dead_load_is_removed() {
    let code = vec![Bytecode::Load(0, 7), RETURN];
    assert_eq!(removed(&code, &[]), vec![0]);
    let result = DeadStoreElimination {}.process(false, function(code, &[]));
    assert_eq!(result.code, vec![RETURN]);
    assert!(result.annotations.is_empty());
}

#[test]
fn self_assignment_is_removed_and_its_source_kept() {
    let code = vec![Bytecode::Load(0, 1), Bytecode::Assign(0, 0), USE_T0];
    let live = [(0, 0, vec![1]), (1, 0, vec![2])];
    assert_eq!(removed(&code, &live), vec![1]);
    let result = DeadStoreElimination {}.process(false, function(code, &live));
    assert_eq!(result.code, vec![Bytecode::Load(0, 1), USE_T0]);
}

#[test]
fn self_assignment_is_removed_when_the_load_is_read_past_it() {
    // The annotation may also record the later read at the load itself.
    let code = vec![Bytecode::Load(0, 1), Bytecode::Assign(0, 0), USE_T0];
    let live = [(0, 0, vec![1, 2]), (1, 0, vec![2])];
    assert_eq!(removed(&code, &live), vec![1]);
}

#[test]
fn transitive_chain_is_removed_whole() {
    let code = vec![Bytecode::Load(0, 5), Bytecode::Assign(1, 0), Bytecode::Assign(2, 1), RETURN];
    let live = [(0, 0, vec![1]), (1, 1, vec![2])];
    assert_eq!(removed(&code, &live), vec![0, 1, 2]);
    let result = DeadStoreElimination {}.process(false, function(code, &live));
    assert_eq!(result.code, vec![RETURN]);
    assert!(result.annotations.is_empty());
}

#[test]
fn diamond_with_one_live_leaf_loses_the_dead_leaf_only() {
    let code = vec![
        Bytecode::Load(0, 9),
        Bytecode::Assign(1, 0),
        Bytecode::Assign(2, 0),
        USE_T1,
        RETURN,
    ];
    let live = [(0, 0, vec![1, 2]), (1, 1, vec![3])];
    assert_eq!(removed(&code, &live), vec![2]);

    // The graph after the one round: 0 still feeds 1, and 1 feeds 3.
    let mut graph = DefUseGraph::new(&code, &annotation(5, &live));
    assert_eq!(graph.remove_a_dead_node(), Some(2));
    assert_eq!(graph.children.get(&0), Some(&BTreeSet::from([1])));
    assert_eq!(graph.children.get(&1), Some(&BTreeSet::from([3])));
    assert_eq!(graph.parents.get(&1), Some(&BTreeSet::from([0])));
    assert_eq!(graph.parents.get(&3), Some(&BTreeSet::from([1])));
    assert!(graph.parents.get(&2).is_none());
    assert!(graph.dead.is_empty());
    assert_eq!(graph.remove_a_dead_node(), None);

    let result = DeadStoreElimination {}.process(false, function(code, &live));
    assert_eq!(
        result.code,
        vec![Bytecode::Load(0, 9), Bytecode::Assign(1, 0), USE_T1, RETURN]
    );
}

#[test]
fn native_function_is_returned_unchanged() {
    let mut data = FunctionData::new(Vec::new());
    data.annotations.attach(17);
    let result = DeadStoreElimination {}.process(true, data);
    assert!(result.code.is_empty());
    assert!(!result.annotations.is_empty());
    assert_eq!(result.annotations.others, vec![17]);
    assert!(result.annotations.live_vars.is_none());

    // Native with an annotation: it stays where it is.
    let code = vec![Bytecode::Load(0, 7), RETURN];
    let result = DeadStoreElimination {}.process(true, function(code.clone(), &[]));
    assert_eq!(result.code, code);
    assert!(result.annotations.live_vars.is_some());
}

#[test]
fn function_without_dead_stores_keeps_its_code_and_loses_its_annotations() {
    let code = vec![Bytecode::Load(0, 3), Bytecode::Assign(1, 0), USE_T1, RETURN];
    let live = [(0, 0, vec![1]), (1, 1, vec![2])];
    assert_eq!(removed(&code, &live), Vec::<CodeOffset>::new());
    let mut data = function(code.clone(), &live);
    data.annotations.attach(4);
    assert!(!data.annotations.is_empty());
    let result = DeadStoreElimination {}.process(false, data);
    assert_eq!(result.code, code);
    assert!(result.annotations.is_empty());
    assert!(result.annotations.live_vars.is_none());
    assert!(result.annotations.others.is_empty());
}

#[test]
fn definition_that_is_live_without_usage_is_dead() {
    let code = vec![Bytecode::Load(0, 3), RETURN];
    let live = [(0, 0, vec![])];
    assert_eq!(removed(&code, &live), vec![0]);
}

#[test]
fn other_instructions_are_never_removed() {
    // Nothing reads what the instruction at 1 may write, and it stays.
    let code = vec![Bytecode::Load(0, 3), Bytecode::Other(55), RETURN];
    assert_eq!(removed(&code, &[]), vec![0]);
    let result = DeadStoreElimination {}.process(false, function(code, &[]));
    assert_eq!(result.code, vec![Bytecode::Other(55), RETURN]);
}

#[test]
fn parent_with_a_live_use_left_is_kept() {
    // 0 feeds the dead store at 1 and the use at 2.
    let code = vec![Bytecode::Load(0, 3), Bytecode::Assign(1, 0), USE_T0, RETURN];
    let live = [(0, 0, vec![1, 2])];
    assert_eq!(removed(&code, &live), vec![1]);
}

#[test]
fn value_flowing_through_a_self_assignment_keeps_its_source() {
    // 0 feeds the self-assignment at 1, whose value the use at 3 reads;
    // the copy at 2 of the self-assigned value is dead.
    let code = vec![
        Bytecode::Load(0, 1),
        Bytecode::Assign(0, 0),
        Bytecode::Assign(1, 0),
        USE_T0,
    ];
    let live = [(0, 0, vec![1]), (1, 0, vec![2, 3])];
    assert_eq!(removed(&code, &live), vec![1, 2]);
    let result = DeadStoreElimination {}.process(false, function(code, &live));
    assert_eq!(result.code, vec![Bytecode::Load(0, 1), USE_T0]);
}

#[test]
fn extraction_emits_the_greatest_dead_offset_first() {
    let code = vec![Bytecode::Load(0, 1), Bytecode::Load(1, 2), Bytecode::Load(2, 3), RETURN];
    let mut graph = DefUseGraph::new(&code, &annotation(4, &[]));
    assert_eq!(graph.dead, BTreeSet::from([0, 1, 2]));
    assert_eq!(graph.remove_a_dead_node(), Some(2));
    assert_eq!(graph.remove_a_dead_node(), Some(1));
    assert_eq!(graph.remove_a_dead_node(), Some(0));
    assert_eq!(graph.remove_a_dead_node(), None);
}

#[test]
fn extraction_of_a_chain_takes_one_round_per_definition() {
    let code = vec![Bytecode::Load(0, 5), Bytecode::Assign(1, 0), Bytecode::Assign(2, 1), RETURN];
    let live = [(0, 0, vec![1]), (1, 1, vec![2])];
    let mut graph = DefUseGraph::new(&code, &annotation(4, &live));
    let mut rounds = 0;
    while graph.remove_a_dead_node().is_some() {
        rounds += 1;
    }
    assert_eq!(rounds, 3);
}

#[test]
fn second_run_on_the_output_changes_nothing() {
    let code = vec![Bytecode::Load(0, 5), Bytecode::Assign(1, 0), Bytecode::Assign(2, 0), USE_T1, RETURN];
    let live = [(0, 0, vec![1, 2]), (1, 1, vec![3])];
    let first = DeadStoreElimination {}.process(false, function(code, &live));
    assert_eq!(first.code, vec![Bytecode::Load(0, 5), Bytecode::Assign(1, 0), USE_T1, RETURN]);
    // Liveness of the output, computed anew: 0 is read at 1, 1 at 2.
    let again = [(0, 0, vec![1]), (1, 1, vec![2])];
    let second = DeadStoreElimination {}.process(false, function(first.code.clone(), &again));
    assert_eq!(second.code, first.code);
}

#[test]
fn two_runs_on_the_same_input_agree() {
    let code = vec![
        Bytecode::Load(0, 9),
        Bytecode::Assign(1, 0),
        Bytecode::Assign(2, 0),
        Bytecode::Assign(3, 3),
        USE_T1,
        RETURN,
    ];
    let live = [(0, 0, vec![1, 2]), (1, 1, vec![4])];
    let one = DeadStoreElimination {}.process(false, function(code.clone(), &live));
    let two = DeadStoreElimination {}.process(false, function(code, &live));
    assert_eq!(one.code, two.code);
    assert_eq!(one.code, vec![Bytecode::Load(0, 9), Bytecode::Assign(1, 0), USE_T1, RETURN]);
}

#[test]
fn transform_drops_exactly_the_given_offsets() {
    let code = vec![Bytecode::Other(1), Bytecode::Other(2), Bytecode::Other(3), Bytecode::Other(4)];
    let kept = DeadStoreElimination::transform(&code, &BTreeSet::from([0, 2, 9]));
    assert_eq!(kept, vec![Bytecode::Other(2), Bytecode::Other(4)]);
    assert_eq!(DeadStoreElimination::transform(&code, &BTreeSet::new()), code);
}

#[test]
fn pass_has_its_stable_name() {
    assert_eq!(DeadStoreElimination {}.name(), "DeadStoreElimination");
}

#[test]
fn instruction_classifier_tells_definitions_apart() {
    assert_eq!(Bytecode::Assign(3, 4).dest(), Some(3));
    assert_eq!(Bytecode::Load(5, 0).dest(), Some(5));
    assert_eq!(Bytecode::Other(5).dest(), None);
    assert!(Bytecode::Assign(3, 3).is_self_assign());
    assert!(!Bytecode::Assign(3, 4).is_self_assign());
    assert!(!Bytecode::Load(3, 3).is_self_assign());
}

#[test]
fn annotation_records_and_replaces_usages() {
    let mut live = LiveVarAnnotation::new();
    live.set_live_after(4, 1, &vec![9, 7, 9]);
    assert_eq!(
        live.get_info_at(4).after.get(&1).unwrap().usage_offsets(),
        &BTreeSet::from([7, 9])
    );
    live.set_live_after(4, 1, &vec![8]);
    live.set_live_after(4, 2, &vec![]);
    live.cover(4);
    live.cover(5);
    assert_eq!(live.get_info_at(4).after.get(&1).unwrap().usage_offsets(), &BTreeSet::from([8]));
    assert!(live.get_info_at(4).after.get(&2).unwrap().usage_offsets().is_empty());
    assert!(live.get_info_at(5).after.is_empty());
    let bundle = Annotations::new();
    assert!(bundle.is_empty());
    assert!(bundle.get_live_vars().is_none());
}
