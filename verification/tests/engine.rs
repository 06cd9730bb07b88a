//! Tests of the lazy memoized executor: at-most-once execution, dependency
//! ordering, idempotent cache hits, and the fetch/compile/main scenario.

use erbauer::concat::ConcatTasks;
use erbauer::engine::Engine;
use erbauer::registry::Registry;

fn declare(reg: &mut Registry, name: &str, deps: Vec<usize>) -> usize {
    reg.declare(name.to_string(), deps).expect("declaration should succeed")
}

fn concat_tasks(suffixes: Vec<&str>) -> ConcatTasks {
    ConcatTasks { suffixes: suffixes.into_iter().map(|s| s.to_string()).collect() }
}

#[test]
fn resolve_runs_body_exactly_once() {
    let mut reg = Registry::new();
    let a = declare(&mut reg, "a", vec![]);
    let mut engine = Engine::new(reg, concat_tasks(vec!["va"]));
    engine.resolve(a);
    engine.resolve(a);
    engine.resolve(a);
    assert_eq!(engine.log, vec![a]);
    assert_eq!(engine.get(a), "va");
}

#[test]
fn dependencies_resolve_in_declared_order_before_dependent() {
    let mut reg = Registry::new();
    let d = declare(&mut reg, "d", vec![]);
    let a = declare(&mut reg, "a", vec![d]);
    let b = declare(&mut reg, "b", vec![d]);
    let c = declare(&mut reg, "c", vec![d]);
    let t = declare(&mut reg, "t", vec![a, b, c]);
    let mut engine = Engine::new(reg, concat_tasks(vec!["D", "A", "B", "C", "T"]));
    engine.resolve(t);
    // The shared dependency runs exactly once, every dependency runs before
    // the dependent, and the direct dependencies run in declared order.
    assert_eq!(engine.log, vec![d, a, b, c, t]);
    assert_eq!(engine.get(t), "DADBDCT");
}

#[test]
fn repeated_resolution_is_side_effect_free_and_stable() {
    let mut reg = Registry::new();
    let a = declare(&mut reg, "a", vec![]);
    let b = declare(&mut reg, "b", vec![a]);
    let mut engine = Engine::new(reg, concat_tasks(vec!["x", "y"]));
    engine.resolve(b);
    let first = engine.get(b).clone();
    let log_after_first = engine.log.clone();
    engine.resolve(b);
    engine.resolve(a);
    assert_eq!(engine.log, log_after_first);
    assert_eq!(*engine.get(b), first);
    assert_eq!(first, "xy");
}

#[test]
fn duplicate_dependency_entries_fetch_the_same_singleton() {
    let mut reg = Registry::new();
    let a = declare(&mut reg, "a", vec![]);
    let t = declare(&mut reg, "t", vec![a, a]);
    let mut engine = Engine::new(reg, concat_tasks(vec!["x", "!"]));
    engine.resolve(t);
    assert_eq!(engine.log, vec![a, t]);
    assert_eq!(engine.get(t), "xx!");
}

#[test]
fn unresolved_tasks_stay_unresolved() {
    let mut reg = Registry::new();
    let a = declare(&mut reg, "a", vec![]);
    let b = declare(&mut reg, "b", vec![]);
    let mut engine = Engine::new(reg, concat_tasks(vec!["x", "y"]));
    assert!(!engine.is_resolved(a));
    assert!(!engine.is_resolved(b));
    assert!(engine.log.is_empty());
    engine.resolve(a);
    assert!(engine.is_resolved(a));
    assert!(!engine.is_resolved(b));
    assert_eq!(engine.log, vec![a]);
}

#[test]
fn scenario_fetch_compile_main() {
    let mut reg = Registry::new();
    let fetch = declare(&mut reg, "Fetch", vec![]);
    let compile = declare(&mut reg, "Compile", vec![fetch]);
    let main_task = declare(&mut reg, "main", vec![compile]);
    let mut engine = Engine::new(reg, concat_tasks(vec!["data", "-compiled", ""]));
    let r = erbauer::dispatch::dispatch(&mut engine, None);
    assert_eq!(r, Ok(main_task));
    // main's dependency value, the one it would print:
    assert_eq!(engine.get(compile), "data-compiled");
    assert_eq!(engine.get(main_task), "data-compiled");
    // Fetch's body executed exactly once.
    assert_eq!(engine.log.iter().filter(|&&x| x == fetch).count(), 1);
    assert_eq!(engine.log, vec![fetch, compile, main_task]);
}
