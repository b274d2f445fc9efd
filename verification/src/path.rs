//! Dotted paths: finding the setting that a path leads to.

use vstd::prelude::*;
use crate::chars::{all_in, from_chars, lemma_run_end_bounds, scan_run, to_chars, CharClass};
use crate::config::{Config, Payload};
use crate::model::segment_end;
use crate::number::read_nat;

verus! {

/// A segment ends at the first `.`: all before it is no `.`.
pub proof fn lemma_segment_end(path: Seq<char>, i: int)
    requires
        0 <= i <= path.len(),
    ensures
        i <= segment_end(path, i) <= path.len(),
        forall|k: int| i <= k < segment_end(path, i) ==> #[trigger] path[k] != '.',
        segment_end(path, i) < path.len() ==> path[segment_end(path, i)] == '.',
    decreases path.len() - i,
{
    if i < path.len() && path[i] != '.' {
        lemma_segment_end(path, i + 1);
    }
}

/// Finds where the path segment that starts at `i` ends.
pub fn scan_segment(path: &Vec<char>, i: usize) -> (j: usize)
    requires
        i <= path.len(),
    ensures
        j == segment_end(path@, i as int),
        i <= j <= path.len(),
{
    let mut j: usize = i;
    while j < path.len() && path[j] != '.'
        invariant
            i <= j <= path.len(),
            segment_end(path@, i as int) == segment_end(path@, j as int),
        decreases path.len() - j,
    {
        j += 1;
    }
    j
}

impl Config {
    /// The member of the setting `p` that is called `name`.
    pub(crate) fn find_member(&self, p: usize, name: &String) -> (r: Option<usize>)
        requires
            self.wf(),
            self@.live(p as int),
        ensures
            r == self@.find_named(self@.nodes[p as int].children, name@, 0),
    {
        let kids = self.children_at(p);
        let mut k: usize = 0;
        while k < kids.len()
            invariant
                self.wf(),
                self@.live(p as int),
                kids@ == self@.nodes[p as int].children,
                k <= kids.len(),
                self@.find_named(kids@, name@, 0) == self@.find_named(kids@, name@, k as int),
            decreases kids.len() - k,
        {
            let c = kids[k];
            assert(self@.node_wf(p as int));
            assert(self@.child_ok(p as int, kids@[k as int]));
            match self.name_at(c) {
                Some(n) => {
                    if *n == *name {
                        return Some(c);
                    }
                },
                None => {},
            }
            k += 1;
        }
        None
    }

    /// The child of `i` that the segment `path[at..end]` selects.
    pub(crate) fn step(&self, i: usize, path: &Vec<char>, at: usize, end: usize) -> (r: Option<
        usize,
    >)
        requires
            self.wf(),
            self@.live(i as int),
            at <= end <= path.len(),
            end == segment_end(path@, at as int),
        ensures
            r == self@.step(i as int, path@.subrange(at as int, end as int)),
            r matches Some(c) ==> self@.live(c as int),
    {
        let ghost seg = path@.subrange(at as int, end as int);
        if end == at {
            return None;
        }
        assert(self@.node_wf(i as int));
        match self.payload_at(i) {
            Payload::Group => {
                let name = from_chars(path, at, end);
                let r = self.find_member(i, &name);
                proof {
                    let kids = self@.nodes[i as int].children;
                    assert forall|k: int| 0 <= k < kids.len() implies #[trigger] kids[k]
                        < self@.nodes.len() by {
                        assert(self@.child_ok(i as int, kids[k]));
                    }
                    self@.lemma_find_named(kids, name@, 0);
                    if r is Some {
                        let k = choose|k: int| 0 <= k < kids.len() && kids[k] == r.unwrap();
                        assert(self@.child_ok(i as int, kids[k]));
                    }
                }
                r
            },
            Payload::Array | Payload::List => {
                let j = scan_run(path, at, CharClass::Digit);
                proof {
                    lemma_run_end_bounds(path@, at as int, CharClass::Digit);
                    lemma_segment_end(path@, at as int);
                    if j >= end {
                        assert(j == end) by {
                            if j > end {
                                assert(CharClass::Digit.holds(path@[end as int]));
                            }
                        }
                        assert forall|k: int| 0 <= k < seg.len() implies CharClass::Digit.holds(
                            #[trigger] seg[k],
                        ) by {
                            assert(seg[k] == path@[at + k]);
                        }
                    } else {
                        assert(seg[j - at] == path@[j as int]);
                        assert(!all_in(seg, CharClass::Digit));
                    }
                }
                if j < end {
                    return None;
                }
                let kids = self.children_at(i);
                let count = kids.len();
                match read_nat(path, at, end, 10) {
                    Some(v) => {
                        if v < count as u64 {
                            let c = kids[v as usize];
                            assert(self@.child_ok(i as int, kids@[v as int]));
                            Some(c)
                        } else {
                            None
                        }
                    },
                    None => None,
                }
            },
            Payload::Scalar(_) => None,
        }
    }

    /// The setting that the dotted `path` leads to from the setting at
    /// `start`. Nothing is changed.
    pub fn resolve(&self, start: usize, path: &str) -> (r: Option<usize>)
        requires
            self.wf(),
        ensures
            r == self@.resolve(start as int, path@),
            r matches Some(c) ==> self@.live(c as int),
    {
        if self.validate(Some(start)).is_err() {
            return None;
        }
        let p = to_chars(path);
        if p.len() == 0 {
            return Some(start);
        }
        let mut cur: usize = start;
        let mut at: usize = 0;
        loop
            invariant
                self.wf(),
                self@.live(start as int),
                self@.live(cur as int),
                0 <= at < p.len(),
                p@ == path@,
                self@.walk(cur as int, p@, at as int) == self@.walk(start as int, p@, 0),
            decreases p.len() - at,
        {
            let end = scan_segment(&p, at);
            match self.step(cur, &p, at, end) {
                None => {
                    return None;
                },
                Some(c) => {
                    if end >= p.len() {
                        return Some(c);
                    } else if end + 1 >= p.len() {
                        return None;
                    } else {
                        cur = c;
                        at = end + 1;
                    }
                },
            }
        }
    }
}

} // verus!
