use openinfer::control_flow::{branch_target, build_async_blocks, str_lt, BranchError, SchedulePlan, SchedulerError};
use openinfer::dtype::DType;
use openinfer::frames::{BlockNodes, Followup, FrameError, FrameStack, LoopFrame, NodeEffect, StepAction};
use openinfer::runtime::{ValueError, YieldSnapshot};
use openinfer::tensor::TensorValue;

fn run(name: &StepAction) -> Option<(String, usize)> {
    match name {
        StepAction::Run { block_name, node } => Some((block_name.clone(), *node)),
        _ => None,
    }
}

fn blocks() -> Vec<BlockNodes> {
    vec![
        BlockNodes { name: "entry".to_string(), nodes: vec![0, 1] },
        BlockNodes { name: "then".to_string(), nodes: vec![5, 6] },
    ]
}

#[test]
fn block_frame_runs_nodes_in_order_then_finishes() {
    let mut s = FrameStack::for_block("entry".to_string(), vec![3, 1, 4]);
    let a = s.next_action();
    assert_eq!(run(&a), Some(("entry".to_string(), 3)));
    assert_eq!(run(&s.next_action()), Some(("entry".to_string(), 1)));
    assert_eq!(run(&s.next_action()), Some(("entry".to_string(), 4)));
    assert!(matches!(s.next_action(), StepAction::Finished));
    assert_eq!(s.depth(), 0);
    assert!(matches!(s.next_action(), StepAction::Finished));
}

#[test]
fn loop_frame_runs_body_once_per_index_then_clears() {
    let mut s = FrameStack::for_block("entry".to_string(), vec![9]);
    assert_eq!(run(&s.next_action()), Some(("entry".to_string(), 9)));
    let lf = LoopFrame { index: "i".to_string(), current: 0, end: 2, body: vec![7, 8] };
    let f = s.apply_effect("entry", NodeEffect::PushLoop(lf), Some("entry"), &blocks());
    match f {
        Ok(Followup::SetLoopVar(name, v)) => {
            assert_eq!(name, "i");
            assert_eq!(v, 0);
        }
        _ => panic!("expected the loop index to be set"),
    }
    let mut seen = Vec::new();
    loop {
        let a = s.next_action();
        match a {
            StepAction::Finished => break,
            StepAction::Run { block_name, node } => seen.push(format!("run {} {}", block_name, node)),
            StepAction::SetLoopVar(n, v) => seen.push(format!("set {} {}", n, v)),
            StepAction::ClearLoopVar(n) => seen.push(format!("clear {}", n)),
        }
    }
    assert_eq!(
        seen,
        vec![
            "run entry 7", "run entry 8", "set i 1", "run entry 7", "run entry 8", "set i 2", "clear i"
        ]
    );
}

#[test]
fn loop_starting_at_its_end_runs_nothing() {
    let mut s = FrameStack::for_block("entry".to_string(), vec![]);
    let lf = LoopFrame { index: "k".to_string(), current: 5, end: 5, body: vec![1] };
    let _ = s.apply_effect("entry", NodeEffect::PushLoop(lf), None, &blocks());
    match s.next_action() {
        StepAction::ClearLoopVar(n) => assert_eq!(n, "k"),
        _ => panic!("expected the index to be cleared"),
    }
    assert!(matches!(s.next_action(), StepAction::Finished));
}

#[test]
fn branch_pushes_target_block_and_unknown_target_fails() {
    let mut s = FrameStack::for_block("entry".to_string(), vec![0, 1]);
    let _ = s.next_action();
    let r = s.apply_effect("entry", NodeEffect::PushBlock("then".to_string()), Some("entry"), &blocks());
    assert!(matches!(r, Ok(Followup::Nothing)));
    assert_eq!(s.depth(), 2);
    assert_eq!(run(&s.next_action()), Some(("then".to_string(), 5)));
    let r = s.apply_effect("then", NodeEffect::PushBlock("nowhere".to_string()), Some("entry"), &blocks());
    match r {
        Err(FrameError::UnknownBranchTarget(n)) => assert_eq!(n, "nowhere"),
        _ => panic!("expected an unknown target"),
    }
    assert_eq!(s.depth(), 2);
}

#[test]
fn return_pops_and_yield_outside_entry_ends_block() {
    let mut s = FrameStack::for_block("entry".to_string(), vec![0, 1]);
    let _ = s.next_action();
    let _ = s.apply_effect("entry", NodeEffect::PushBlock("then".to_string()), Some("entry"), &blocks());
    let _ = s.next_action();
    let r = s.apply_effect("then", NodeEffect::Yield(YieldSnapshot { vars: vec![] }), Some("entry"), &blocks());
    assert!(matches!(r, Ok(Followup::Nothing)));
    assert_eq!(s.depth(), 1);
    let r = s.apply_effect("entry", NodeEffect::Return, Some("entry"), &blocks());
    assert!(matches!(r, Ok(Followup::Nothing)));
    assert_eq!(s.depth(), 0);
}

#[test]
fn yield_and_await_at_entry_go_to_scheduler() {
    let mut s = FrameStack::for_block("entry".to_string(), vec![0]);
    let _ = s.next_action();
    let r = s.apply_effect("entry", NodeEffect::Yield(YieldSnapshot { vars: vec![] }), Some("entry"), &blocks());
    assert!(matches!(r, Ok(Followup::ForwardYield(_))));
    assert_eq!(s.depth(), 1);
    let r = s.apply_effect("entry", NodeEffect::Await(vec!["x".to_string()]), Some("entry"), &blocks());
    match r {
        Ok(Followup::ForwardAwait(v)) => assert_eq!(v, vec!["x".to_string()]),
        _ => panic!("expected the await to be forwarded"),
    }
    let r = s.apply_effect("entry", NodeEffect::Await(vec!["x".to_string()]), None, &blocks());
    assert!(matches!(r, Ok(Followup::Nothing)));
    let r = s.apply_effect("entry", NodeEffect::Continue, Some("entry"), &blocks());
    assert!(matches!(r, Ok(Followup::Nothing)));
    assert_eq!(s.depth(), 1);
}

fn scalar(dtype: DType, bits: u64) -> TensorValue {
    TensorValue::new(dtype, vec![1], vec![bits]).unwrap()
}

#[test]
fn branch_target_follows_condition() {
    assert_eq!(branch_target(None, "a", None), Ok("a".to_string()));
    let t = scalar(DType::Bool, 1);
    let f = scalar(DType::I32, 0);
    assert_eq!(branch_target(Some(&t), "a", Some("b")), Ok("a".to_string()));
    assert_eq!(branch_target(Some(&f), "a", Some("b")), Ok("b".to_string()));
    assert_eq!(branch_target(Some(&f), "a", None), Err(BranchError::MissingElse));
    let two = TensorValue::new(DType::I32, vec![2], vec![1, 1]).unwrap();
    assert_eq!(branch_target(Some(&two), "a", Some("b")), Err(BranchError::Condition(ValueError::NotScalar)));
}

#[test]
fn async_blocks_sorted_without_entry_and_branch_targets() {
    let names = vec!["zeta".to_string(), "entry".to_string(), "alpha".to_string(), "then".to_string(), "mid".to_string()];
    let targets = vec!["then".to_string()];
    assert_eq!(build_async_blocks(&names, &targets, "entry"), vec!["alpha".to_string(), "mid".to_string(), "zeta".to_string()]);
    assert!(build_async_blocks(&[], &[], "entry").is_empty());
}

#[test]
fn string_order_is_lexicographic() {
    assert!(str_lt("ab", "b"));
    assert!(str_lt("a", "ab"));
    assert!(!str_lt("b", "ab"));
    assert!(!str_lt("same", "same"));
}

#[test]
fn yield_needs_await_between() {
    let mut p = SchedulePlan::new(vec!["a".to_string(), "b".to_string()]);
    assert_eq!(p.on_yield(), Ok(2));
    assert_eq!(p.on_yield(), Err(SchedulerError::AwaitRequired));
    assert_eq!(p.on_await(), 2);
    assert_eq!(p.on_await(), 0);
    assert_eq!(p.on_yield(), Ok(2));
    let mut empty = SchedulePlan::new(vec![]);
    assert_eq!(empty.on_yield(), Ok(0));
    assert_eq!(empty.on_yield(), Ok(0));
}
