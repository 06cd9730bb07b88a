//! The lazy memoized executor: produces a task's result on demand, computing
//! it at most once, after first materializing every declared dependency.
//!
//! Each task owns one single-assignment result slot. A slot passes from
//! empty to occupied at most once over the life of the executor — on the
//! task's first resolution — and the occupied value, always exactly the
//! task's mathematical value [`eval`], is shared by reference with every
//! consumer and never replaced. The executor keeps a history of the order in
//! which bodies ran: each task appears in it at most once, and always after
//! all of its dependencies.

use vstd::pervasive::arbitrary;
use vstd::prelude::*;

use crate::registry::{graph_wf, Registry};

verus! {

/// The views of a sequence of borrowed values, in order.
pub open spec fn views_of<V: View>(s: Seq<&V>) -> Seq<V::V> {
    s.map_values(|p: &V| p@)
}

/// The task bodies: what each declared task computes, as a pure function of
/// the task and its materialized dependency results. One implementation
/// supplies the bodies of all tasks; bodies are deterministic in their
/// dependencies, which is what lets a result be computed once and shared.
pub trait Task<V: View> {
    /// What the body of task `task` produces from the given dependency
    /// results (their views, in declared order).
    spec fn body(&self, task: int, deps: Seq<V::V>) -> V::V;

    /// Executes the body of task `task` once, on references to its
    /// dependencies' results in declared order.
    fn run(&self, task: usize, deps: Vec<&V>) -> (r: V)
        ensures
            r@ == self.body(task as int, views_of(deps@)),
    ;
}

/// The value task `t` evaluates to: its body applied to the values its
/// dependencies evaluate to, in declared order. This is the mathematical
/// meaning of a task; the executor's result slots only ever hold these
/// values. Meaningful when the graph is well formed and `t` in range.
pub open spec fn eval<V: View, B: Task<V>>(tasks: B, g: Seq<Seq<int>>, t: int) -> V::V
    decreases t, 1int, 0int,
{
    tasks.body(t, eval_deps(tasks, g, g[t], t))
}

/// The values the dependencies listed in `ds` evaluate to, in order; every
/// entry of `ds` is expected to lie below `bound`, the dependent task.
pub open spec fn eval_deps<V: View, B: Task<V>>(
    tasks: B,
    g: Seq<Seq<int>>,
    ds: Seq<int>,
    bound: int,
) -> Seq<V::V>
    decreases bound, 0int, ds.len(),
{
    if ds.len() == 0 {
        Seq::empty()
    } else {
        eval_deps(tasks, g, ds.drop_last(), bound).push(
            if 0 <= ds.last() < bound {
                eval(tasks, g, ds.last())
            } else {
                arbitrary()
            },
        )
    }
}

/// The dependency values are exactly the evaluations of the listed tasks,
/// elementwise and in order.
pub proof fn lemma_eval_deps<V: View, B: Task<V>>(
    tasks: B,
    g: Seq<Seq<int>>,
    ds: Seq<int>,
    bound: int,
)
    requires
        forall|j: int| 0 <= j < ds.len() ==> 0 <= #[trigger] ds[j] < bound,
    ensures
        eval_deps(tasks, g, ds, bound).len() == ds.len(),
        forall|j: int|
            0 <= j < ds.len() ==> #[trigger] eval_deps(tasks, g, ds, bound)[j] == eval(
                tasks,
                g,
                ds[j],
            ),
    decreases ds.len(),
{
    if ds.len() > 0 {
        lemma_eval_deps(tasks, g, ds.drop_last(), bound);
    }
}

/// The lazy memoized executor: the declared graph, the task bodies, and one
/// single-assignment result slot per task, all results living as long as the
/// executor and shared by reference.
pub struct Engine<V: View, B: Task<V>> {
    pub registry: Registry,
    pub tasks: B,
    pub cache: Vec<Option<V>>,
    /// The order in which task bodies have executed, earliest first.
    pub log: Vec<usize>,
}

impl<V: View, B: Task<V>> Engine<V, B> {
    /// How many tasks the graph declares.
    pub open spec fn task_count(self) -> int {
        self.registry.task_count()
    }

    /// How many dependencies task `t` declares.
    pub open spec fn dep_len(self, t: int) -> int {
        self.registry.graph()[t].len() as int
    }

    /// Task `t`'s `j`-th declared dependency.
    pub open spec fn dep(self, t: int, j: int) -> int {
        self.registry.graph()[t][j]
    }

    /// Whether task `t`'s result slot is occupied.
    pub open spec fn resolved(self, t: int) -> bool {
        self.cache@[t] is Some
    }

    /// The value task `t` must resolve to.
    pub open spec fn value_of(self, t: int) -> V::V {
        eval(self.tasks, self.registry.graph(), t)
    }

    /// The execution history as a mathematical sequence of task indices.
    pub open spec fn hist(self) -> Seq<int> {
        self.log@.map_values(|x: usize| x as int)
    }

    /// Some earlier history entry than `p` names task `d`.
    pub open spec fn ran_before(self, p: int, d: int) -> bool {
        exists|q: int| 0 <= q < p && self.hist()[q] == d
    }

    /// Executor invariant. Beyond well-formedness of the graph: an occupied
    /// slot holds exactly the task's value; a task is resolved only with all
    /// its dependencies resolved; the history names each executed task
    /// exactly once — a slot is written at most once — names exactly the
    /// resolved tasks, and names every dependency of a task before the task.
    pub open spec fn wf(self) -> bool {
        &&& self.registry.wf()
        &&& self.cache@.len() == self.task_count()
        &&& forall|i: int|
            0 <= i < self.task_count() && #[trigger] self.resolved(i)
                ==> self.cache@[i].unwrap()@ == self.value_of(i)
        &&& forall|i: int, j: int|
            0 <= i < self.task_count() && 0 <= j < self.dep_len(i) && self.resolved(i)
                ==> self.resolved(#[trigger] self.dep(i, j))
        &&& forall|p: int| 0 <= p < self.hist().len() ==> 0 <= #[trigger] self.hist()[p]
            < self.task_count()
        &&& forall|p: int, q: int|
            0 <= p < q < self.hist().len() ==> self.hist()[p] != self.hist()[q]
        &&& forall|i: int|
            0 <= i < self.task_count() ==> (#[trigger] self.resolved(i) <==> self.hist().contains(
                i,
            ))
        &&& forall|p: int, j: int|
            0 <= p < self.hist().len() && 0 <= j < self.dep_len(self.hist()[p]) ==> self.ran_before(
                p,
                #[trigger] self.dep(self.hist()[p], j),
            )
    }

    /// An executor over `registry`'s graph with every result slot empty: no
    /// body has run yet.
    pub fn new(registry: Registry, tasks: B) -> (r: Engine<V, B>)
        requires
            registry.wf(),
        ensures
            r.wf(),
            r.registry == registry,
            r.tasks == tasks,
            forall|i: int| 0 <= i < r.task_count() ==> !r.resolved(i),
            r.hist() == Seq::<int>::empty(),
    {
        let n = registry.names.len();
        let mut cache: Vec<Option<V>> = Vec::new();
        let mut i: usize = 0;
        while i < n
            invariant
                i <= n,
                cache@.len() == i,
                forall|x: int| 0 <= x < i ==> cache@[x] is None,
            decreases n - i,
        {
            cache.push(None);
            i = i + 1;
        }
        let r = Engine { registry, tasks, cache, log: Vec::new() };
        proof {
            assert(r.hist() =~= Seq::<int>::empty());
        }
        r
    }

    /// Resolves task `t`. A hit on an occupied slot changes nothing at all;
    /// otherwise every declared dependency is resolved first, in declared
    /// order, then the body executes exactly once on their results and the
    /// slot is occupied with the produced value — which is always the task's
    /// mathematical value, so every resolution of `t` yields the same
    /// result. Occupied slots are never written again, and tasks declared
    /// after `t` are left untouched.
    pub fn resolve(&mut self, t: usize)
        requires
            old(self).wf(),
            (t as int) < old(self).task_count(),
        ensures
            final(self).wf(),
            final(self).registry == old(self).registry,
            final(self).tasks == old(self).tasks,
            final(self).resolved(t as int),
            forall|i: int|
                0 <= i < old(self).task_count() && old(self).resolved(i)
                    ==> final(self).cache@[i] == old(self).cache@[i],
            forall|i: int|
                (t as int) < i < old(self).task_count()
                    ==> final(self).cache@[i] == old(self).cache@[i],
            old(self).hist().len() <= final(self).hist().len(),
            forall|p: int|
                0 <= p < old(self).hist().len() ==> final(self).hist()[p] == old(self).hist()[p],
            old(self).resolved(t as int) ==> *final(self) == *old(self),
        decreases t,
    {
        if self.cache[t].is_some() {
            return ;
        }
        let ghost pre = *self;
        let k = self.registry.deps[t].len();
        proof {
            assert(self.registry.graph()[t as int] == self.registry.deps@[t as int]@.map_values(
                |d: usize| d as int,
            ));
        }
        let mut i: usize = 0;
        while i < k
            invariant
                self.wf(),
                self.registry == pre.registry,
                self.tasks == pre.tasks,
                pre.wf(),
                !pre.resolved(t as int),
                (t as int) < pre.task_count(),
                self.task_count() == pre.task_count(),
                i <= k,
                k == pre.dep_len(t as int),
                forall|x: int|
                    0 <= x < pre.task_count() && pre.resolved(x) ==> self.cache@[x]
                        == pre.cache@[x],
                forall|x: int|
                    t as int <= x < pre.task_count() ==> self.cache@[x] == pre.cache@[x],
                pre.hist().len() <= self.hist().len(),
                forall|p: int| 0 <= p < pre.hist().len() ==> self.hist()[p] == pre.hist()[p],
                forall|j: int| 0 <= j < i ==> self.resolved(#[trigger] self.dep(t as int, j)),
            decreases k - i,
        {
            let d = self.registry.deps[t][i];
            proof {
                assert(self.registry.graph()[t as int]
                    == self.registry.deps@[t as int]@.map_values(|x: usize| x as int));
                assert(d as int == self.dep(t as int, i as int));
                assert(0 <= self.dep(t as int, i as int) < t as int);
            }
            let ghost mid = *self;
            self.resolve(d);
            proof {
                assert forall|x: int|
                    0 <= x < pre.task_count() && pre.resolved(x) implies self.cache@[x]
                    == pre.cache@[x] by {
                    assert(mid.cache@[x] == pre.cache@[x]);
                    assert(mid.resolved(x));
                }
                assert forall|x: int| t as int <= x < pre.task_count() implies self.cache@[x]
                    == pre.cache@[x] by {
                    assert(mid.cache@[x] == pre.cache@[x]);
                    assert((d as int) < x);
                }
                assert forall|p: int| 0 <= p < pre.hist().len() implies self.hist()[p]
                    == pre.hist()[p] by {
                    assert(mid.hist()[p] == pre.hist()[p]);
                }
                assert forall|j: int| 0 <= j < i + 1 implies self.resolved(
                    #[trigger] self.dep(t as int, j),
                ) by {
                    if j < i {
                        assert(mid.resolved(mid.dep(t as int, j)));
                        assert(0 <= mid.dep(t as int, j) < t as int);
                    }
                }
            }
            i = i + 1;
        }
        let ghost base = *self;
        let mut vals: Vec<&V> = Vec::new();
        let mut j: usize = 0;
        while j < k
            invariant
                *self == base,
                base.wf(),
                self.wf(),
                (t as int) < self.task_count(),
                k == self.dep_len(t as int),
                j <= k,
                vals@.len() == j,
                forall|x: int| 0 <= x < k ==> self.resolved(#[trigger] self.dep(t as int, x)),
                forall|x: int|
                    0 <= x < j ==> (#[trigger] vals@[x])@ == self.value_of(self.dep(t as int, x)),
            decreases k - j,
        {
            let d = self.registry.deps[t][j];
            proof {
                assert(self.registry.graph()[t as int]
                    == self.registry.deps@[t as int]@.map_values(|x: usize| x as int));
                assert(d as int == self.dep(t as int, j as int));
                assert(self.resolved(d as int));
            }
            let v: &V = self.cache[d].as_ref().unwrap();
            vals.push(v);
            j = j + 1;
        }
        let ghost vals_snapshot = vals@;
        let r = self.tasks.run(t, vals);
        proof {
            let g = self.registry.graph();
            let s2 = eval_deps(self.tasks, g, g[t as int], t as int);
            assert forall|j: int| 0 <= j < g[t as int].len() implies 0 <= #[trigger] g[t as int][j]
                < t as int by {}
            lemma_eval_deps(self.tasks, g, g[t as int], t as int);
            assert forall|x: int| 0 <= x < k implies views_of(vals_snapshot)[x] == s2[x] by {
                assert(views_of(vals_snapshot)[x] == vals_snapshot[x]@);
                assert(vals_snapshot[x]@ == self.value_of(self.dep(t as int, x)));
                assert(s2[x] == eval(self.tasks, g, g[t as int][x]));
            }
            assert(views_of(vals_snapshot) =~= s2);
            assert(r@ == self.value_of(t as int));
        }
        self.cache.set(t, Some(r));
        self.log.push(t);
        proof {
            assert(self.hist() =~= base.hist().push(t as int));
            lemma_after_store(pre, base, *self, t as int);
        }
    }

    /// The memoized result of a resolved task, shared by reference: always
    /// the task's mathematical value.
    pub fn get(&self, t: usize) -> (r: &V)
        requires
            self.wf(),
            (t as int) < self.task_count(),
            self.resolved(t as int),
        ensures
            r@ == self.value_of(t as int),
    {
        self.cache[t].as_ref().unwrap()
    }

    /// Whether task `t`'s result slot is occupied.
    pub fn is_resolved(&self, t: usize) -> (r: bool)
        requires
            self.wf(),
            (t as int) < self.task_count(),
        ensures
            r == self.resolved(t as int),
    {
        self.cache[t].is_some()
    }
}

/// Occupying the empty slot of a task whose dependencies are all resolved,
/// with the task's own value, and recording the execution, preserves the
/// executor invariant.
proof fn lemma_after_store<V: View, B: Task<V>>(
    pre: Engine<V, B>,
    base: Engine<V, B>,
    post: Engine<V, B>,
    t: int,
)
    requires
        base.wf(),
        0 <= t < base.task_count(),
        !base.resolved(t),
        forall|x: int| 0 <= x < base.dep_len(t) ==> base.resolved(#[trigger] base.dep(t, x)),
        post.registry == base.registry,
        post.tasks == base.tasks,
        post.cache@ == base.cache@.update(t, post.cache@[t]),
        post.resolved(t),
        post.cache@[t].unwrap()@ == post.value_of(t),
        post.hist() == base.hist().push(t),
        pre.wf(),
        base.registry == pre.registry,
        base.tasks == pre.tasks,
        forall|x: int|
            0 <= x < pre.task_count() && pre.resolved(x) ==> base.cache@[x] == pre.cache@[x],
        forall|x: int| t < x < pre.task_count() ==> base.cache@[x] == pre.cache@[x],
        pre.hist().len() <= base.hist().len(),
        forall|p: int| 0 <= p < pre.hist().len() ==> base.hist()[p] == pre.hist()[p],
    ensures
        post.wf(),
        post.resolved(t),
        forall|x: int|
            0 <= x < pre.task_count() && pre.resolved(x) ==> post.cache@[x] == pre.cache@[x],
        forall|x: int| t < x < pre.task_count() ==> post.cache@[x] == pre.cache@[x],
        pre.hist().len() <= post.hist().len(),
        forall|p: int| 0 <= p < pre.hist().len() ==> post.hist()[p] == pre.hist()[p],
{
    let n = base.task_count();
    assert(post.cache@.len() == base.cache@.len());
    assert(!base.hist().contains(t));
    assert forall|i: int| 0 <= i < n && #[trigger] post.resolved(i) implies post.cache@[
        i
    ].unwrap()@ == post.value_of(i) by {
        if i != t {
            assert(post.cache@[i] == base.cache@[i]);
            assert(base.resolved(i));
            assert(post.value_of(i) == base.value_of(i));
        }
    }
    assert forall|i: int, j: int|
        0 <= i < n && 0 <= j < post.dep_len(i) && post.resolved(i) implies post.resolved(
        #[trigger] post.dep(i, j),
    ) by {
        if i != t {
            assert(base.resolved(i));
            assert(base.resolved(base.dep(i, j)));
            assert(base.cache@[base.dep(i, j)] is Some);
            if base.dep(i, j) != t {
                assert(post.cache@[base.dep(i, j)] == base.cache@[base.dep(i, j)]);
            }
        } else {
            assert(base.resolved(base.dep(t, j)));
            if base.dep(t, j) != t {
                assert(post.cache@[base.dep(t, j)] == base.cache@[base.dep(t, j)]);
            }
        }
    }
    assert forall|p: int| 0 <= p < post.hist().len() implies 0 <= #[trigger] post.hist()[p]
        < n by {
        if p < base.hist().len() {
            assert(post.hist()[p] == base.hist()[p]);
        }
    }
    assert forall|p: int, q: int|
        0 <= p < q < post.hist().len() implies post.hist()[p] != post.hist()[q] by {
        if q < base.hist().len() {
        } else {
            assert(post.hist()[q] == t);
            assert(post.hist()[p] == base.hist()[p]);
            if base.hist()[p] == t {
                assert(base.hist().contains(t));
            }
        }
    }
    assert forall|i: int| 0 <= i < n implies (#[trigger] post.resolved(i)
        <==> post.hist().contains(i)) by {
        if i == t {
            assert(post.hist()[base.hist().len() as int] == t);
            assert(post.hist().contains(t));
        } else {
            if base.resolved(i) {
                assert(base.hist().contains(i));
                let q = choose|q: int| 0 <= q < base.hist().len() && base.hist()[q] == i;
                assert(post.hist()[q] == i);
                assert(post.hist().contains(i));
            }
            if post.hist().contains(i) {
                let q = choose|q: int| 0 <= q < post.hist().len() && post.hist()[q] == i;
                assert(q < base.hist().len());
                assert(base.hist().contains(i));
                assert(base.resolved(i));
            }
            assert(post.resolved(i) == base.resolved(i));
        }
    }
    assert forall|p: int, j: int|
        0 <= p < post.hist().len() && 0 <= j < post.dep_len(post.hist()[p]) implies post.ran_before(
        p,
        #[trigger] post.dep(post.hist()[p], j),
    ) by {
        if p < base.hist().len() {
            assert(base.ran_before(p, base.dep(base.hist()[p], j)));
            let q = choose|q: int|
                0 <= q < p && base.hist()[q] == base.dep(base.hist()[p], j);
            assert(post.hist()[q] == base.dep(base.hist()[p], j));
        } else {
            assert(post.hist()[p] == t);
            let d = base.dep(t, j);
            assert(base.resolved(d));
            assert(base.hist().contains(d));
            let q = choose|q: int| 0 <= q < base.hist().len() && base.hist()[q] == d;
            assert(post.hist()[q] == d);
        }
    }
}

/// At-most-once execution: the history of body executions names no task
/// twice — resolving a task any number of times runs its body at most once.
pub proof fn lemma_at_most_once<V: View, B: Task<V>>(e: Engine<V, B>, p: int, q: int)
    requires
        e.wf(),
        0 <= p < q < e.hist().len(),
    ensures
        e.hist()[p] != e.hist()[q],
{
}

/// Dependency ordering: every declared dependency of a task whose body ran
/// had itself run earlier in the history — all dependencies are fully
/// materialized before a dependent body executes.
pub proof fn lemma_dependencies_run_first<V: View, B: Task<V>>(e: Engine<V, B>, p: int, j: int)
    requires
        e.wf(),
        0 <= p < e.hist().len(),
        0 <= j < e.dep_len(e.hist()[p]),
    ensures
        exists|q: int| 0 <= q < p && e.hist()[q] == e.dep(e.hist()[p], j),
{
    assert(e.ran_before(p, e.dep(e.hist()[p], j)));
}

} // verus!
