//! The dispatcher: translates a single command-line token into a task
//! resolution, or reports an unrecognized command.
//!
//! The token is the first invocation argument; in its absence the literal
//! task name `main` is used. The token selects, case-insensitively, the
//! first-declared task whose identifier matches it; an unrecognized token
//! resolves nothing and yields a diagnostic naming it.

use vstd::prelude::*;
use vstd::string::StringExecFns;

use crate::engine::{Engine, Task};

verus! {

/// The command token a dispatch works with: the given argument, or the
/// literal task name `main` when none was given.
pub open spec fn token_of(arg: Option<String>) -> Seq<char> {
    match arg {
        Some(s) => s@,
        None => "main"@,
    }
}

/// Dispatcher default: invoking with no argument works with exactly the
/// token that invoking with `main` works with, so the two behave
/// identically.
pub proof fn lemma_default_is_main(s: String)
    requires
        s@ == "main"@,
    ensures
        token_of(None) == token_of(Some(s)),
{
}

/// The diagnostic reported for an unrecognized command token, naming the
/// token.
pub open spec fn diagnostic(token: Seq<char>) -> Seq<char> {
    "Command \""@ + token + "\" not recognized"@
}

fn diagnostic_message(token: &str) -> (r: String)
    ensures
        r@ == diagnostic(token@),
{
    let mut m = String::from_str("Command \"");
    m.append(token);
    m.append("\" not recognized");
    m
}

/// Dispatches one invocation: resolves the task that the command token —
/// `arg`, or `main` in its absence — selects case-insensitively, and returns
/// its handle; the triggered side effect chain of first-time body executions
/// is the dispatch's purpose, and the result slots keep what it produced.
/// When no declared task matches the token, no body runs, the executor is
/// left untouched, and the diagnostic naming the token is returned; the
/// caller reports it and exits unsuccessfully.
pub fn dispatch<V: View, B: Task<V>>(engine: &mut Engine<V, B>, arg: Option<String>) -> (r:
    Result<usize, String>)
    requires
        old(engine).wf(),
    ensures
        final(engine).wf(),
        final(engine).registry == old(engine).registry,
        final(engine).tasks == old(engine).tasks,
        match r {
            Ok(id) => {
                &&& old(engine).registry.selected(token_of(arg)) == Some(id as int)
                &&& final(engine).resolved(id as int)
                &&& forall|i: int|
                    0 <= i < old(engine).task_count() && old(engine).resolved(i)
                        ==> final(engine).cache@[i] == old(engine).cache@[i]
                &&& old(engine).hist().len() <= final(engine).hist().len()
                &&& forall|p: int|
                    0 <= p < old(engine).hist().len() ==> final(engine).hist()[p] == old(
                        engine,
                    ).hist()[p]
            },
            Err(msg) => {
                &&& old(engine).registry.selected(token_of(arg)) is None
                &&& *final(engine) == *old(engine)
                &&& msg@ == diagnostic(token_of(arg))
            },
        },
{
    let token: String = match arg {
        Some(s) => s,
        None => String::from_str("main"),
    };
    match engine.registry.find_case_insensitive(token.as_str()) {
        Some(id) => {
            engine.resolve(id);
            Ok(id)
        },
        None => Err(diagnostic_message(token.as_str())),
    }
}

} // verus!
