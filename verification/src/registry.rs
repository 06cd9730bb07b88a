//! The task registry: every task's process-wide identity and static
//! declaration (identifier and ordered dependency list), independent of
//! whether the task is ever resolved.
//!
//! A task is declared with handles of already-declared tasks as its
//! dependencies, so every dependency edge points to a strictly smaller task
//! index and the dependency graph is acyclic by construction. A task cannot
//! name itself or a later task as a dependency; such a graph, which the
//! runtime would not survive, is simply not representable.

use vstd::prelude::*;

use crate::casing::{eq_exact, eq_ignore_case, lower};

verus! {

/// Why a declaration was refused. Declarations fail at definition time,
/// before any resolution; the registry is never left changed by a refusal.
#[derive(Clone, Copy, Debug, PartialEq, Eq, Structural)]
pub enum DeclareError {
    /// A task with the same identifier (compared exactly, case-sensitively)
    /// is already declared.
    DuplicateName,
    /// A dependency handle does not refer to an already-declared task.
    UnknownDependency,
}

/// The whole dependency graph is well formed: every dependency of task `i`
/// is a task declared before `i`.
pub open spec fn graph_wf(g: Seq<Seq<int>>) -> bool {
    forall|i: int, j: int|
        0 <= i < g.len() && 0 <= j < g[i].len() ==> 0 <= #[trigger] g[i][j] < i
}

/// The static task graph, fixed before any dispatch: task `i` has
/// identifier `names[i]` and depends, in declared order, on the tasks whose
/// handles stand in `deps[i]`. The same handle may appear twice in one list;
/// resolution then just fetches the same memoized result twice.
pub struct Registry {
    pub names: Vec<String>,
    pub deps: Vec<Vec<usize>>,
}

/// The task, if any, that a command token selects: the first-declared task
/// whose identifier equals the token after ASCII case folding, found by
/// scanning the identifiers from position `i` upward.
pub open spec fn first_match(names: Seq<Seq<char>>, token: Seq<char>, i: int) -> Option<int>
    decreases names.len() - i,
{
    if i < 0 || i >= names.len() {
        None
    } else if lower(names[i]) == lower(token) {
        Some(i)
    } else {
        first_match(names, token, i + 1)
    }
}

impl Registry {
    /// The declared identifiers, as character sequences.
    pub open spec fn names_view(self) -> Seq<Seq<char>> {
        self.names@.map_values(|s: String| s@)
    }

    /// The declared dependency lists, as mathematical sequences of task
    /// indices.
    pub open spec fn graph(self) -> Seq<Seq<int>> {
        self.deps@.map_values(|row: Vec<usize>| row@.map_values(|d: usize| d as int))
    }

    /// How many tasks are declared.
    pub open spec fn task_count(self) -> int {
        self.names@.len() as int
    }

    /// The task a command token selects, case-insensitively.
    pub open spec fn selected(self, token: Seq<char>) -> Option<int> {
        first_match(self.names_view(), token, 0)
    }

    /// Registry invariant: one dependency list per task, every dependency
    /// edge points to an earlier-declared task, and identifiers are unique.
    pub open spec fn wf(self) -> bool {
        &&& self.deps@.len() == self.names@.len()
        &&& graph_wf(self.graph())
        &&& forall|i: int, j: int|
            0 <= i < j < self.names@.len() ==> self.names_view()[i] != self.names_view()[j]
    }

    /// An empty registry, ready for declarations.
    pub fn new() -> (r: Registry)
        ensures
            r.wf(),
            r.task_count() == 0,
    {
        Registry { names: Vec::new(), deps: Vec::new() }
    }

    /// Registers a task under `name`, depending in order on the
    /// already-declared tasks whose handles stand in `deps`, and returns the
    /// new task's handle. Fails, leaving the registry unchanged, when the
    /// identifier collides with a declared one or a handle is unknown; the
    /// registration itself executes no task body.
    pub fn declare(&mut self, name: String, deps: Vec<usize>) -> (r: Result<
        usize,
        DeclareError,
    >)
        requires
            old(self).wf(),
        ensures
            final(self).wf(),
            match r {
                Ok(id) => {
                    &&& id as int == old(self).task_count()
                    &&& final(self).names@ == old(self).names@.push(name)
                    &&& final(self).deps@ == old(self).deps@.push(deps)
                    &&& forall|j: int|
                        0 <= j < old(self).task_count() ==> old(self).names_view()[j] != name@
                    &&& forall|j: int|
                        0 <= j < deps@.len() ==> 0 <= #[trigger] deps@[j] < old(self).task_count()
                },
                Err(e) => {
                    &&& *final(self) == *old(self)
                    &&& (e == DeclareError::DuplicateName <==> exists|j: int|
                        0 <= j < old(self).task_count() && old(self).names_view()[j] == name@)
                    &&& (e == DeclareError::UnknownDependency ==> exists|j: int|
                        0 <= j < deps@.len() && #[trigger] deps@[j] >= old(self).task_count())
                },
            },
    {
        let ghost init = *self;
        let n = self.names.len();
        let mut i: usize = 0;
        while i < n
            invariant
                *self == init,
                init.wf(),
                n == self.names@.len(),
                forall|j: int| 0 <= j < i ==> self.names_view()[j] != name@,
            decreases n - i,
        {
            if eq_exact(self.names[i].as_str(), name.as_str()) {
                proof {
                    assert(self.names_view()[i as int] == name@);
                }
                return Err(DeclareError::DuplicateName);
            }
            i = i + 1;
        }
        let mut k: usize = 0;
        while k < deps.len()
            invariant
                *self == init,
                init.wf(),
                n == self.names@.len(),
                forall|j: int| 0 <= j < self.task_count() ==> self.names_view()[j] != name@,
                forall|j: int| 0 <= j < k ==> #[trigger] deps@[j] < n,
            decreases deps@.len() - k,
        {
            if deps[k] >= n {
                return Err(DeclareError::UnknownDependency);
            }
            k = k + 1;
        }
        proof {
            let g0 = self.graph();
            let nv0 = self.names_view();
            assert(self.names@.push(name).map_values(|s: String| s@) =~= nv0.push(name@));
            assert(self.deps@.push(deps).map_values(|row: Vec<usize>| row@.map_values(|d: usize| d as int))
                =~= g0.push(deps@.map_values(|d: usize| d as int)));
        }
        self.names.push(name);
        self.deps.push(deps);
        Ok(n)
    }

    /// Exact, case-sensitive lookup of a task handle by identifier, as the
    /// executor uses when wiring dependencies.
    pub fn lookup(&self, name: &str) -> (r: Option<usize>)
        ensures
            match r {
                Some(i) => (i as int) < self.task_count() && self.names_view()[i as int]
                    == name@,
                None => forall|j: int|
                    0 <= j < self.task_count() ==> self.names_view()[j] != name@,
            },
    {
        let n = self.names.len();
        let mut i: usize = 0;
        while i < n
            invariant
                n == self.names@.len(),
                forall|j: int| 0 <= j < i ==> self.names_view()[j] != name@,
            decreases n - i,
        {
            if eq_exact(self.names[i].as_str(), name) {
                proof {
                    assert(self.names_view()[i as int] == name@);
                }
                return Some(i);
            }
            i = i + 1;
        }
        None
    }

    /// Case-insensitive lookup by display name, as the dispatcher uses:
    /// returns the first-declared task whose identifier equals `token` after
    /// case folding.
    pub fn find_case_insensitive(&self, token: &str) -> (r: Option<usize>)
        ensures
            match r {
                Some(i) => (i as int) < self.task_count() && self.selected(token@) == Some(
                    i as int,
                ),
                None => self.selected(token@) is None,
            },
    {
        let n = self.names.len();
        let mut i: usize = 0;
        while i < n
            invariant
                n == self.names@.len(),
                self.selected(token@) == first_match(self.names_view(), token@, i as int),
            decreases n - i,
        {
            if eq_ignore_case(self.names[i].as_str(), token) {
                proof {
                    assert(self.names_view()[i as int] == self.names[i as int]@);
                }
                return Some(i);
            }
            i = i + 1;
        }
        None
    }

    /// Whether a task that the default command `main` selects is declared;
    /// its absence is a configuration error to be reported before any
    /// dispatch.
    pub fn has_main(&self) -> (r: bool)
        ensures
            r == (self.selected("main"@) is Some),
    {
        self.find_case_insensitive("main").is_some()
    }
}

/// Case-insensitivity of selection: two command tokens that agree after
/// case folding select the same task, whatever the registry holds.
pub proof fn lemma_selection_case_insensitive(reg: Registry, t1: Seq<char>, t2: Seq<char>)
    requires
        lower(t1) == lower(t2),
    ensures
        reg.selected(t1) == reg.selected(t2),
{
    lemma_first_match_token(reg.names_view(), t1, t2, 0);
}

proof fn lemma_first_match_token(names: Seq<Seq<char>>, t1: Seq<char>, t2: Seq<char>, i: int)
    requires
        lower(t1) == lower(t2),
    ensures
        first_match(names, t1, i) == first_match(names, t2, i),
    decreases names.len() - i,
{
    if 0 <= i < names.len() {
        lemma_first_match_token(names, t1, t2, i + 1);
    }
}

} // verus!
