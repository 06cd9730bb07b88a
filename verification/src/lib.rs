//! A minimal in-process task orchestration runtime.
//!
//! A program declares a set of named tasks, each of which lazily computes a
//! value at most once per process, and tasks may depend on other tasks whose
//! results are resolved and handed to the dependent task's body before it
//! runs. A dispatcher maps a command-line token, case-insensitively, to the
//! resolution of one task, defaulting to a task named `main`.
//!
//! The pieces: [`registry`] holds the static task graph (identifiers and
//! dependency lists, acyclic by construction), [`engine`] resolves tasks
//! lazily with memoization, and [`dispatch`] translates a command token into
//! a resolution or a diagnostic. [`casing`] supplies the ASCII case folding
//! that the dispatcher matches identifiers with.

pub mod casing;
pub mod concat;
pub mod dispatch;
pub mod engine;
pub mod registry;
