use egg_herbie::fold::ConstantFold;
use egg_herbie::session::{
    iteration_checkpoint, select_variants, Context, Extracted, IterData, LookupError, Shape,
    StopReason,
};

fn iteration(best: &str, cost: u64, nodes: u64, applied: Vec<(&str, u64)>) -> IterData {
    IterData {
        extracted: vec![Extracted { best: best.to_string(), cost }],
        nodes,
        classes: nodes,
        applied: applied.into_iter().map(|(n, c)| (n.to_string(), c)).collect(),
    }
}

fn ran_session(stop: StopReason) -> Context {
    let mut c = Context::new();
    assert_eq!(c.seed(4), 5);
    let mut a = ConstantFold::default();
    assert!(c.begin_run(&mut a, true, vec!["r".to_string()]));
    assert!(c.finish_run(
        stop,
        vec![
            iteration("(+ 1 1)", 3, 10, vec![("r", 2)]),
            iteration("2", 1, 12, vec![("r", 1), ("s", 9)]),
            iteration("2", 1, 13, vec![]),
            iteration("2", 1, 14, vec![("s", 1), ("r", 4)]),
        ],
    ));
    c
}

#[test]
fn fresh_session_has_not_run() {
    let c = Context::new();
    assert_eq!(c.stop_code(), 4);
    assert_eq!(c.size(), 0);
    assert!(c.roots.is_empty());
    assert_eq!(c.find_extracted(&vec![], 0, false, 0).err(), Some(LookupError::NoIterations));
}

#[test]
fn seed_returns_one_based_id() {
    let mut c = Context::new();
    assert_eq!(c.seed(0), 1);
    assert_eq!(c.roots, vec![0]);
}

#[test]
fn stop_codes() {
    assert_eq!(ran_session(StopReason::Saturated).stop_code(), 0);
    assert_eq!(ran_session(StopReason::IterationLimit).stop_code(), 1);
    assert_eq!(ran_session(StopReason::NodeLimit).stop_code(), 2);
    assert_eq!(ran_session(StopReason::Other).stop_code(), 3);
}

#[test]
fn second_run_changes_nothing() {
    let mut c = ran_session(StopReason::Saturated);
    let mut a = ConstantFold::default();
    assert!(!c.begin_run(&mut a, false, vec![]));
    assert!(a.constant_fold);
    assert_eq!(c.rules, vec!["r".to_string()]);
    assert!(!c.finish_run(StopReason::Other, vec![]));
    assert_eq!(c.iterations.len(), 4);
    assert_eq!(c.stop_code(), 0);
}

#[test]
fn begin_run_installs_rules_and_folding_switch() {
    let mut c = Context::new();
    c.seed(1);
    let mut a = ConstantFold::default();
    assert!(c.begin_run(&mut a, false, vec!["x".to_string(), "y".to_string()]));
    assert!(!a.constant_fold);
    assert_eq!(c.rules.len(), 2);
}

#[test]
fn lookup_clamps_to_history() {
    let c = ran_session(StopReason::Saturated);
    assert_eq!(c.sound_iteration(false, 0), 0);
    assert_eq!(c.sound_iteration(false, 99), 3);
    assert_eq!(c.sound_iteration(true, 99), 1);
    assert_eq!(c.sound_iteration(true, 0), 0);
    let e = c.find_extracted(&vec![7], 7, false, 99).unwrap();
    assert_eq!((e.best.as_str(), e.cost), ("2", 1));
    let e = c.find_extracted(&vec![7], 7, false, 0).unwrap();
    assert_eq!((e.best.as_str(), e.cost), ("(+ 1 1)", 3));
}

#[test]
fn lookup_of_unknown_class_is_an_internal_error() {
    let c = ran_session(StopReason::Saturated);
    assert_eq!(c.find_extracted(&vec![7], 8, false, 1).err(), Some(LookupError::MissingExtraction));
}

#[test]
fn cost_does_not_grow_over_iterations() {
    let c = ran_session(StopReason::Saturated);
    let costs: Vec<u64> =
        (0..6).map(|i| c.find_extracted(&vec![4], 4, false, i).unwrap().cost).collect();
    assert!(costs.windows(2).all(|w| w[1] <= w[0]));
}

#[test]
fn times_applied_sums_iterations() {
    let c = ran_session(StopReason::Saturated);
    assert_eq!(c.times_applied(&"r".to_string()), 7);
    assert_eq!(c.times_applied(&"s".to_string()), 10);
    assert_eq!(c.times_applied(&"t".to_string()), 0);
}

#[test]
fn size_is_last_node_count() {
    assert_eq!(ran_session(StopReason::Saturated).size(), 14);
}

#[test]
fn unsound_run_stops() {
    let mut a = ConstantFold::default();
    assert!(iteration_checkpoint(&a));
    a.unsound = true;
    assert!(!iteration_checkpoint(&a));
}

fn shape(op: &str, arity: usize) -> Shape {
    Shape { op: op.to_string(), arity }
}

#[test]
fn variants_skip_same_top_level_shape() {
    let orig = shape("+", 3);
    let shapes = vec![shape("+", 3), shape("*", 3), shape("2", 0), shape("+", 2), shape("+", 3)];
    assert_eq!(select_variants(&orig, &shapes), vec![1, 2, 3]);
    assert!(select_variants(&orig, &vec![]).is_empty());
}
