//! One tick of the scene scanner.
//!
//! `plan_tick` turns the nodes added since the last tick into jobs: one per
//! mesh-bearing descendant of each marked node, grouped by node. A
//! `TickScan` then walks the jobs while the caller builds each shape: a
//! built shape is attached to its descendant, and a failed build is reported
//! once against its marked node, whose remaining jobs are skipped. Shapes
//! already attached stay attached, and the other nodes are still processed.
use vstd::prelude::*;
use crate::marker::{lower_of, marked, MarkerSet};
use crate::scene::{descendant, owns_mesh, SceneGraph};

verus! {

/// A node added to the scene since the last tick, with its name.
#[derive(Debug)]
pub struct NamedNode {
    pub entity: usize,
    pub name: String,
}

/// One shape to build: for the marked node at `batch_pos` in the tick's
/// batch (the node `node`), the mesh of its descendant `target`.
#[derive(Clone, Copy, Debug, PartialEq, Eq, Structural)]
pub struct Job {
    pub batch_pos: usize,
    pub node: usize,
    pub target: usize,
}

/// What the caller is to do after a build.
#[derive(Clone, Copy, Debug, PartialEq, Eq, Structural)]
pub enum Action {
    /// Attach the shape just built to this descendant.
    Attach { target: usize },
    /// Report that a collider could not be created for this marked node.
    Fail { node: usize },
}

/// The node at `p` in the batch is marked.
pub open spec fn marked_at(batch: Seq<NamedNode>, markers: Seq<Seq<char>>, p: int) -> bool {
    0 <= p < batch.len() && marked(markers, lower_of(batch[p].name@))
}

/// `j` is a job the batch calls for: its node is marked and its target is a
/// mesh-bearing descendant of that node.
pub open spec fn wanted(batch: Seq<NamedNode>, markers: Seq<Seq<char>>, g: &SceneGraph, j: Job) -> bool {
    &&& marked_at(batch, markers, j.batch_pos as int)
    &&& j.node == batch[j.batch_pos as int].entity
    &&& descendant(g, j.node, j.target)
    &&& owns_mesh(g, j.target)
}

/// The jobs of one tick: exactly the wanted ones, each once, grouped by
/// batch position in batch order.
pub fn plan_tick(batch: &Vec<NamedNode>, markers: &MarkerSet, g: &SceneGraph) -> (r: Vec<Job>)
    ensures
        forall|k: int| 0 <= k < r@.len() ==> wanted(batch@, markers@, g, #[trigger] r@[k]),
        forall|j: Job| wanted(batch@, markers@, g, j) ==> #[trigger] r@.contains(j),
        forall|k1: int, k2: int|
            0 <= k1 <= k2 < r@.len() ==> (#[trigger] r@[k1]).batch_pos <= (#[trigger] r@[k2]).batch_pos,
        r@.no_duplicates(),
{
    let mut r: Vec<Job> = Vec::new();
    let mut p: usize = 0;
    while p < batch.len()
        invariant
            p <= batch@.len(),
            forall|k: int| 0 <= k < r@.len() ==> wanted(batch@, markers@, g, #[trigger] r@[k]),
            forall|k: int| 0 <= k < r@.len() ==> (#[trigger] r@[k]).batch_pos < p,
            forall|j: Job| wanted(batch@, markers@, g, j) && j.batch_pos < p ==> #[trigger] r@.contains(j),
            forall|k1: int, k2: int|
                0 <= k1 <= k2 < r@.len() ==> (#[trigger] r@[k1]).batch_pos <= (#[trigger] r@[k2]).batch_pos,
            r@.no_duplicates(),
        decreases batch@.len() - p,
    {
        let node = &batch[p];
        if markers.matches(node.name.as_str()) {
            let entity: usize = node.entity;
            let targets = g.mesh_descendants(entity);
            let ghost start = r@;
            let mut t: usize = 0;
            while t < targets.len()
                invariant
                    p < batch@.len(),
                    node == batch@[p as int],
                    marked_at(batch@, markers@, p as int),
                    t <= targets@.len(),
                    targets@.no_duplicates(),
                    forall|e: usize| targets@.contains(e) ==> descendant(g, node.entity, e) && owns_mesh(g, e),
                    r@.len() == start.len() + t,
                    forall|k: int| 0 <= k < start.len() ==> #[trigger] r@[k] == start[k],
                    forall|k: int| 0 <= k < t ==> #[trigger] r@[start.len() + k] == (Job { batch_pos: p, node: node.entity, target: targets@[k] }),
                    forall|k: int| 0 <= k < start.len() ==> (#[trigger] start[k]).batch_pos < p,
                    start.no_duplicates(),
                    forall|k: int| 0 <= k < start.len() ==> wanted(batch@, markers@, g, #[trigger] start[k]),
                decreases targets@.len() - t,
            {
                let e = targets[t];
                proof {
                    assert(targets@.contains(e));
                }
                r.push(Job { batch_pos: p, node: node.entity, target: e });
                t = t + 1;
            }
            assert forall|k: int| 0 <= k < r@.len() implies wanted(batch@, markers@, g, #[trigger] r@[k]) by {
                if k >= start.len() {
                    let i = k - start.len();
                    assert(r@[start.len() + i] == r@[k]);
                    assert(targets@.contains(targets@[i]));
                }
            }
            assert forall|k: int| 0 <= k < r@.len() implies (#[trigger] r@[k]).batch_pos < p + 1 by {
                if k >= start.len() {
                    assert(r@[start.len() + (k - start.len())] == r@[k]);
                }
            }
            assert forall|k1: int, k2: int| 0 <= k1 <= k2 < r@.len() implies (#[trigger] r@[k1]).batch_pos
                <= (#[trigger] r@[k2]).batch_pos by {
                if k2 >= start.len() {
                    assert(r@[start.len() + (k2 - start.len())] == r@[k2]);
                }
                if k1 >= start.len() {
                    assert(r@[start.len() + (k1 - start.len())] == r@[k1]);
                }
            }
            assert forall|k1: int, k2: int| 0 <= k1 < r@.len() && 0 <= k2 < r@.len() && k1 != k2 implies r@[k1]
                != r@[k2] by {
                if k1 >= start.len() {
                    assert(r@[start.len() + (k1 - start.len())] == r@[k1]);
                }
                if k2 >= start.len() {
                    assert(r@[start.len() + (k2 - start.len())] == r@[k2]);
                }
            }
            assert forall|j: Job| wanted(batch@, markers@, g, j) && j.batch_pos < p + 1 implies #[trigger] r@.contains(j) by {
                if j.batch_pos < p {
                    assert(start.contains(j));
                    let w = choose|w: int| 0 <= w < start.len() && start[w] == j;
                    assert(r@[w] == j);
                } else {
                    assert(targets@.contains(j.target));
                    let i = choose|i: int| 0 <= i < targets@.len() && targets@[i] == j.target;
                    assert(r@[start.len() + i] == j);
                }
            }
        }
        p = p + 1;
    }
    r
}

/// The progress of one tick through its jobs.
#[derive(Debug)]
pub struct TickScan {
    jobs: Vec<Job>,
    cursor: usize,
}

impl TickScan {
    /// The jobs of the tick.
    pub closed spec fn jobs(&self) -> Seq<Job> {
        self.jobs@
    }

    /// The position of the next job to run.
    pub closed spec fn cursor(&self) -> int {
        self.cursor as int
    }

    /// The cursor stays within the jobs.
    pub closed spec fn wf(&self) -> bool {
        self.cursor <= self.jobs@.len()
    }

    /// Starts a tick at its first job.
    pub fn new(jobs: Vec<Job>) -> (r: TickScan)
        ensures
            r.wf(),
            r.jobs() == jobs@,
            r.cursor() == 0,
    {
        TickScan { jobs, cursor: 0 }
    }

    /// The job whose shape is to be built next, or `None` when the tick is done.
    pub fn next_job(&self) -> (r: Option<Job>)
        requires
            self.wf(),
        ensures
            r == (if self.cursor() < self.jobs().len() {
                Some(self.jobs()[self.cursor()])
            } else {
                None
            }),
    {
        if self.cursor < self.jobs.len() {
            Some(self.jobs[self.cursor])
        } else {
            None
        }
    }

    /// Records whether the shape of the current job was built, and says what
    /// to do about it. A built shape is attached to the job's target and the
    /// tick moves to the next job. A failed build is reported against the
    /// job's marked node, and the tick moves past that node's other jobs.
    /// Once the tick is done, nothing changes and `None` comes back.
    pub fn report(&mut self, built: bool) -> (r: Option<Action>)
        requires
            old(self).wf(),
        ensures
            final(self).wf(),
            final(self).jobs() == old(self).jobs(),
            old(self).cursor() == old(self).jobs().len() ==> r is None && final(self).cursor() == old(self).cursor(),
            old(self).cursor() < old(self).jobs().len() && built ==> r == Some(
                Action::Attach { target: old(self).jobs()[old(self).cursor()].target },
            ) && final(self).cursor() == old(self).cursor() + 1,
            old(self).cursor() < old(self).jobs().len() && !built ==> {
                let c = old(self).cursor();
                let js = old(self).jobs();
                &&& r == Some(Action::Fail { node: js[c].node })
                &&& c < final(self).cursor() <= js.len()
                &&& forall|i: int| c < i < final(self).cursor() ==> #[trigger] js[i].batch_pos == js[c].batch_pos
                &&& final(self).cursor() < js.len() ==> js[final(self).cursor()].batch_pos != js[c].batch_pos
            },
    {
        if self.cursor >= self.jobs.len() {
            return None;
        }
        let c: usize = self.cursor;
        let current = self.jobs[c];
        if built {
            self.cursor = c + 1;
            return Some(Action::Attach { target: current.target });
        }
        let mut next: usize = c + 1;
        while next < self.jobs.len() && self.jobs[next].batch_pos == current.batch_pos
            invariant
                c < next <= self.jobs@.len(),
                current == self.jobs@[c as int],
                forall|i: int| c < i < next ==> #[trigger] self.jobs@[i].batch_pos == current.batch_pos,
            decreases self.jobs@.len() - next,
        {
            next = next + 1;
        }
        self.cursor = next;
        Some(Action::Fail { node: current.node })
    }
}

} // verus!
