//! Tests of the dispatcher: the default task, case-insensitive matching,
//! and the unrecognized-command diagnostic.

use erbauer::concat::ConcatTasks;
use erbauer::dispatch::dispatch;
use erbauer::engine::Engine;
use erbauer::registry::Registry;

fn build_main_engine() -> (Engine<String, ConcatTasks>, usize, usize) {
    let mut reg = Registry::new();
    let build = reg.declare("build".to_string(), vec![]).unwrap();
    let main_task = reg.declare("main".to_string(), vec![build]).unwrap();
    let tasks = ConcatTasks { suffixes: vec!["built".to_string(), "+run".to_string()] };
    (Engine::new(reg, tasks), build, main_task)
}

#[test]
fn no_argument_behaves_as_main() {
    let (mut by_default, _, main_task) = build_main_engine();
    let (mut by_name, _, _) = build_main_engine();
    let r1 = dispatch(&mut by_default, None);
    let r2 = dispatch(&mut by_name, Some("main".to_string()));
    assert_eq!(r1, Ok(main_task));
    assert_eq!(r1, r2);
    assert_eq!(by_default.log, by_name.log);
    assert_eq!(by_default.get(main_task), by_name.get(main_task));
    assert_eq!(by_default.get(main_task), "built+run");
}

#[test]
fn dispatch_matches_case_insensitively() {
    for token in ["Build", "build", "BUILD", "bUiLd"] {
        let (mut engine, build, _) = build_main_engine();
        let r = dispatch(&mut engine, Some(token.to_string()));
        assert_eq!(r, Ok(build));
        assert!(engine.is_resolved(build));
        assert_eq!(engine.get(build), "built");
        assert_eq!(engine.log, vec![build]);
    }
}

#[test]
fn unrecognized_command_reports_the_token_and_runs_nothing() {
    let (mut engine, build, main_task) = build_main_engine();
    let r = dispatch(&mut engine, Some("frobnicate".to_string()));
    assert_eq!(r, Err("Command \"frobnicate\" not recognized".to_string()));
    assert!(engine.log.is_empty());
    assert!(!engine.is_resolved(build));
    assert!(!engine.is_resolved(main_task));
}

#[test]
fn missing_main_is_reported_under_the_default_token() {
    let reg = Registry::new();
    assert!(!reg.has_main());
    let mut engine = Engine::new(reg, ConcatTasks { suffixes: vec![] });
    let r = dispatch(&mut engine, None);
    assert_eq!(r, Err("Command \"main\" not recognized".to_string()));
}

#[test]
fn dispatch_hits_the_cache_on_a_second_invocation() {
    let (mut engine, _, main_task) = build_main_engine();
    assert_eq!(dispatch(&mut engine, None), Ok(main_task));
    let log_after_first = engine.log.clone();
    assert_eq!(dispatch(&mut engine, Some("MAIN".to_string())), Ok(main_task));
    assert_eq!(engine.log, log_after_first);
}
