//! A read-only view of the scene graph: which nodes are children of which,
//! and which nodes own a mesh. Nodes are numbered from zero; a child entry
//! that names no node of the graph is ignored.
use vstd::prelude::*;

verus! {

/// The parent-child relation of a scene and the nodes that carry a mesh.
#[derive(Debug)]
pub struct SceneGraph {
    /// `children[p]` lists the children of node `p`, in order.
    pub children: Vec<Vec<usize>>,
    /// `has_mesh[e]` tells whether node `e` owns a mesh reference.
    pub has_mesh: Vec<bool>,
}

/// The number of nodes of the graph.
pub open spec fn node_count(g: &SceneGraph) -> nat {
    g.children@.len()
}

/// `c` is listed as a child of `p`, and both are nodes of the graph.
pub open spec fn edge(g: &SceneGraph, p: usize, c: usize) -> bool {
    &&& p < node_count(g)
    &&& c < node_count(g)
    &&& g.children@[p as int]@.contains(c)
}

/// Node `e` owns a mesh reference.
pub open spec fn owns_mesh(g: &SceneGraph, e: usize) -> bool {
    e < g.has_mesh@.len() && g.has_mesh@[e as int]
}

/// `path` runs from its first node to its last along child edges.
pub open spec fn is_path(g: &SceneGraph, path: Seq<usize>) -> bool {
    forall|k: int| 0 <= k < path.len() - 1 ==> edge(g, #[trigger] path[k], path[k + 1])
}

/// `e` lies below `root`: a path of at least one edge leads from `root` to `e`.
#[verifier::opaque]
pub open spec fn descendant(g: &SceneGraph, root: usize, e: usize) -> bool {
    exists|path: Seq<usize>|
        #![trigger is_path(g, path), path.last()]
        path.len() >= 2 && path[0] == root && path.last() == e && is_path(g, path)
}

/// The number of entries still `false`.
pub open spec fn unvisited(v: Seq<bool>) -> nat
    decreases v.len(),
{
    if v.len() == 0 {
        0
    } else {
        unvisited(v.drop_last()) + if v.last() {
            0nat
        } else {
            1nat
        }
    }
}

/// Setting one `false` entry to `true` leaves one fewer unvisited entry.
proof fn lemma_unvisited_update(v: Seq<bool>, i: int)
    requires
        0 <= i < v.len(),
        !v[i],
    ensures
        unvisited(v.update(i, true)) + 1 == unvisited(v),
    decreases v.len(),
{
    let w = v.update(i, true);
    if i == v.len() - 1 {
        assert(w.drop_last() =~= v.drop_last());
    } else {
        assert(w.drop_last() =~= v.drop_last().update(i, true));
        lemma_unvisited_update(v.drop_last(), i);
    }
}

/// A descendant reached by one more edge is a descendant too.
proof fn lemma_extend(g: &SceneGraph, root: usize, e: usize, c: usize)
    requires
        descendant(g, root, e),
        edge(g, e, c),
    ensures
        descendant(g, root, c),
{
    reveal(descendant);
    let path = choose|path: Seq<usize>|
        #![trigger is_path(g, path), path.last()]
        path.len() >= 2 && path[0] == root && path.last() == e && is_path(g, path);
    let longer = path.push(c);
    assert forall|k: int| 0 <= k < longer.len() - 1 implies edge(
        g,
        #[trigger] longer[k],
        longer[k + 1],
    ) by {
        if k < path.len() - 1 {
            assert(longer[k] == path[k] && longer[k + 1] == path[k + 1]);
        } else {
            assert(longer[k] == e && longer[k + 1] == c);
        }
    }
    assert(is_path(g, longer));
    assert(longer.last() == c);
}

/// A child is a descendant.
proof fn lemma_child(g: &SceneGraph, root: usize, c: usize)
    requires
        edge(g, root, c),
    ensures
        descendant(g, root, c),
{
    reveal(descendant);
    let path = seq![root, c];
    assert(is_path(g, path));
    assert(path.last() == c);
}

/// A set of nodes that holds the children of `root` and of each of its own
/// members holds every descendant of `root`.
proof fn lemma_closed_holds_descendants(g: &SceneGraph, root: usize, seen: Seq<bool>, path: Seq<usize>)
    requires
        seen.len() == node_count(g),
        forall|c: usize| edge(g, root, c) ==> seen[c as int],
        forall|p: usize, c: usize| p < seen.len() && seen[p as int] && edge(g, p, c) ==> seen[c as int],
        path.len() >= 2,
        path[0] == root,
        is_path(g, path),
    ensures
        seen[path.last() as int],
    decreases path.len(),
{
    assert(edge(g, path[path.len() - 2], path[path.len() - 1]));
    if path.len() > 2 {
        let shorter = path.drop_last();
        assert(is_path(g, shorter)) by {
            assert forall|k: int| 0 <= k < shorter.len() - 1 implies edge(
                g,
                #[trigger] shorter[k],
                shorter[k + 1],
            ) by {
                assert(edge(g, path[k], path[k + 1]));
            }
        }
        lemma_closed_holds_descendants(g, root, seen, shorter);
    }
}

impl SceneGraph {
    /// Pushes the children of `e` that are nodes of the graph onto `stack`.
    fn push_children(&self, e: usize, stack: &mut Vec<usize>)
        requires
            e < node_count(self),
        ensures
            final(stack)@.len() >= old(stack)@.len(),
            forall|q: int| 0 <= q < old(stack)@.len() ==> #[trigger] final(stack)@[q] == old(stack)@[q],
            forall|q: int| old(stack)@.len() <= q < final(stack)@.len() ==> edge(self, e, #[trigger] final(stack)@[q]),
            forall|c: usize| edge(self, e, c) ==> final(stack)@.contains(c),
    {
        let n: usize = self.children.len();
        let kids = &self.children[e];
        let ghost start = stack@;
        let mut j: usize = 0;
        while j < kids.len()
            invariant
                n == node_count(self),
                e < n,
                kids == self.children@[e as int],
                j <= kids@.len(),
                stack@.len() >= start.len(),
                forall|q: int| 0 <= q < start.len() ==> #[trigger] stack@[q] == start[q],
                forall|q: int| start.len() <= q < stack@.len() ==> edge(self, e, #[trigger] stack@[q]),
                forall|q: int| 0 <= q < j && kids@[q] < n ==> stack@.contains(#[trigger] kids@[q]),
            decreases kids@.len() - j,
        {
            let c = kids[j];
            if c < n {
                let ghost before = stack@;
                proof {
                    assert(kids@[j as int] == c);
                }
                stack.push(c);
                assert forall|q: int| 0 <= q < j + 1 && kids@[q] < n implies stack@.contains(#[trigger] kids@[q]) by {
                    if q < j {
                        let w = choose|w: int| 0 <= w < before.len() && before[w] == kids@[q];
                        assert(stack@[w] == kids@[q]);
                    } else {
                        assert(stack@[before.len() as int] == c);
                    }
                }
            }
            j = j + 1;
        }
        assert forall|c: usize| edge(self, e, c) implies stack@.contains(c) by {
            let q = choose|q: int| 0 <= q < kids@.len() && kids@[q] == c;
        }
    }

    /// The bookkeeping of the search below `root`: `seen` marks the nodes
    /// visited, `stack` the nodes waiting, `out` the visited nodes that own a
    /// mesh. Every node visited or waiting is a descendant, and every child
    /// of `root` or of a visited node is visited or waiting.
    #[verifier::opaque]
    spec fn search_inv(&self, root: usize, seen: Seq<bool>, stack: Seq<usize>, out: Seq<usize>) -> bool {
        let n = node_count(self);
        &&& seen.len() == n
        &&& forall|q: int| 0 <= q < stack.len() ==> descendant(self, root, #[trigger] stack[q]) && stack[q] < n
        &&& forall|e: usize| e < n && #[trigger] seen[e as int] ==> descendant(self, root, e)
        &&& forall|c: usize| edge(self, root, c) ==> seen[c as int] || stack.contains(c)
        &&& forall|p: usize, c: usize| p < n && seen[p as int] && #[trigger] edge(self, p, c) ==> seen[c as int] || stack.contains(c)
        &&& forall|e: usize| #[trigger] out.contains(e) <==> e < n && seen[e as int] && owns_mesh(self, e)
        &&& out.no_duplicates()
    }

    /// Takes one node off the stack and, unless it was seen already, visits it.
    #[verifier::rlimit(40)]
    fn step(&self, root: Ghost<usize>, seen: &mut Vec<bool>, stack: &mut Vec<usize>, out: &mut Vec<usize>)
        requires
            self.search_inv(root@, old(seen)@, old(stack)@, old(out)@),
            old(stack)@.len() > 0,
        ensures
            self.search_inv(root@, final(seen)@, final(stack)@, final(out)@),
            unvisited(final(seen)@) < unvisited(old(seen)@) || (unvisited(final(seen)@) == unvisited(old(seen)@)
                && final(stack)@.len() < old(stack)@.len()),
    {
        reveal(SceneGraph::search_inv);
        let ghost root = root@;
        let n: usize = self.children.len();
        let ghost before = stack@;
        let e = stack.pop().unwrap();
        assert forall|x: usize| before.contains(x) implies x == e || stack@.contains(x) by {
            let w = choose|w: int| 0 <= w < before.len() && before[w] == x;
            if w < stack@.len() {
                assert(stack@[w] == x);
            }
        }
        assert(before[before.len() - 1] == e);
        if !seen[e] {
            proof {
                lemma_unvisited_update(seen@, e as int);
            }
            let ghost seen0 = old(seen)@;
            seen.set(e, true);
            let ghost out0 = out@;
            assert(!out0.contains(e));
            if e < self.has_mesh.len() && self.has_mesh[e] {
                out.push(e);
            }
            assert forall|x: usize| #[trigger] out@.contains(x) <==> x < n && seen@[x as int] && owns_mesh(self, x) by {
                if out@.contains(x) {
                    let w = choose|w: int| 0 <= w < out@.len() && out@[w] == x;
                    if w < out0.len() {
                        assert(out0[w] == x);
                        assert(out0.contains(x));
                        assert(seen0[x as int]);
                        assert(x < n && seen@[x as int] && owns_mesh(self, x));
                    } else {
                        assert(x == e);
                        assert(x < n && seen@[x as int] && owns_mesh(self, x));
                    }
                }
                if x < n && seen@[x as int] && owns_mesh(self, x) {
                    if x == e {
                        assert(out@[out0.len() as int] == e);
                    } else {
                        assert(seen0[x as int]);
                        assert(out0.contains(x));
                        let w = choose|w: int| 0 <= w < out0.len() && out0[w] == x;
                        assert(out@[w] == x);
                    }
                }
            }
            let ghost mid = stack@;
            self.push_children(e, stack);
            assert forall|x: usize| mid.contains(x) implies stack@.contains(x) by {
                let w = choose|w: int| 0 <= w < mid.len() && mid[w] == x;
                assert(stack@[w] == x);
            }
            assert forall|q: int| 0 <= q < stack@.len() implies descendant(self, root, #[trigger] stack@[q]) && stack@[q] < n by {
                if q >= mid.len() {
                    lemma_extend(self, root, e, stack@[q]);
                } else {
                    assert(stack@[q] == mid[q]);
                    assert(before[q] == mid[q]);
                }
            }
        } else {
            assert forall|q: int| 0 <= q < stack@.len() implies descendant(self, root, #[trigger] stack@[q]) && stack@[q] < n by {
                assert(before[q] == stack@[q]);
            }
        }
    }

    /// Every descendant of `root`, at any depth, that owns a mesh, each once.
    pub fn mesh_descendants(&self, root: usize) -> (r: Vec<usize>)
        ensures
            forall|e: usize| #[trigger] r@.contains(e) ==> descendant(self, root, e) && owns_mesh(self, e),
            forall|e: usize| descendant(self, root, e) && owns_mesh(self, e) ==> r@.contains(e),
            r@.no_duplicates(),
    {
        let n: usize = self.children.len();
        let mut seen: Vec<bool> = Vec::new();
        let mut k: usize = 0;
        while k < n
            invariant
                k <= n,
                seen@.len() == k,
                forall|j: int| 0 <= j < k ==> !seen@[j],
            decreases n - k,
        {
            seen.push(false);
            k = k + 1;
        }
        let mut stack: Vec<usize> = Vec::new();
        if root < n {
            self.push_children(root, &mut stack);
            assert forall|q: int| 0 <= q < stack@.len() implies descendant(self, root, #[trigger] stack@[q]) by {
                lemma_child(self, root, stack@[q]);
            }
        }
        let mut out: Vec<usize> = Vec::new();
        proof {
            reveal(SceneGraph::search_inv);
        }
        while stack.len() > 0
            invariant
                self.search_inv(root, seen@, stack@, out@),
            decreases unvisited(seen@), stack@.len(),
        {
            self.step(Ghost(root), &mut seen, &mut stack, &mut out);
        }
        proof {
            reveal(SceneGraph::search_inv);
        }
        assert forall|e: usize| descendant(self, root, e) && owns_mesh(self, e) implies out@.contains(e) by {
            reveal(descendant);
            let path = choose|path: Seq<usize>|
                #![trigger is_path(self, path), path.last()]
                path.len() >= 2 && path[0] == root && path.last() == e && is_path(self, path);
            lemma_closed_holds_descendants(self, root, seen@, path);
            assert(edge(self, path[path.len() - 2], path[path.len() - 1]));
        }
        out
    }
}

} // verus!
