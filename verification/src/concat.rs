//! A ready-made body provider for string-valued tasks: each task produces
//! its dependencies' results concatenated in declared order, followed by a
//! fixed string of its own. Enough to wire simple produce-and-refine
//! pipelines, and a worked example of implementing [`Task`].

use vstd::prelude::*;
use vstd::string::StringExecFns;

use crate::engine::{views_of, Task};

verus! {

/// The concatenation of the given strings, in order.
pub open spec fn concat_all(parts: Seq<Seq<char>>) -> Seq<char>
    decreases parts.len(),
{
    if parts.len() == 0 {
        Seq::empty()
    } else {
        concat_all(parts.drop_last()) + parts.last()
    }
}

/// Task bodies for string-valued tasks: the body of task `t` produces its
/// dependency results concatenated in declared order, followed by
/// `suffixes[t]` — or by nothing, for a task the suffix list does not reach.
pub struct ConcatTasks {
    pub suffixes: Vec<String>,
}

impl Task<String> for ConcatTasks {
    open spec fn body(&self, task: int, deps: Seq<Seq<char>>) -> Seq<char> {
        concat_all(deps) + if 0 <= task < self.suffixes@.len() {
            self.suffixes@[task]@
        } else {
            Seq::empty()
        }
    }

    fn run(&self, task: usize, deps: Vec<&String>) -> (r: String) {
        let n = deps.len();
        let mut s = String::new();
        let mut i: usize = 0;
        while i < n
            invariant
                n == deps@.len(),
                i <= n,
                s@ == concat_all(views_of(deps@).subrange(0, i as int)),
            decreases n - i,
        {
            let dv: &String = deps[i];
            s.append(dv.as_str());
            proof {
                let vs = views_of(deps@);
                assert(vs.subrange(0, i as int + 1).drop_last() =~= vs.subrange(0, i as int));
                assert(vs.subrange(0, i as int + 1).last() == vs[i as int]);
                assert(vs[i as int] == deps@[i as int]@);
            }
            i = i + 1;
        }
        proof {
            assert(views_of(deps@).subrange(0, deps@.len() as int) =~= views_of(deps@));
        }
        if task < self.suffixes.len() {
            let suf: &String = &self.suffixes[task];
            s.append(suf.as_str());
        } else {
            proof {
                assert(concat_all(views_of(deps@)) + Seq::<char>::empty() =~= concat_all(
                    views_of(deps@),
                ));
            }
        }
        s
    }
}

} // verus!
