use mesh_colliders::geometry::{extract_geometry, Indices, MeshData, Positions};
use mesh_colliders::marker::MarkerSet;
use mesh_colliders::scanner::{plan_tick, Action, Job, NamedNode, TickScan};
use mesh_colliders::scene::SceneGraph;

fn collider_markers() -> MarkerSet {
    MarkerSet::new(&vec!["[collider]".to_string()])
}

fn named(entity: usize, name: &str) -> NamedNode {
    NamedNode { entity, name: name.to_string() }
}

fn sorted(mut v: Vec<usize>) -> Vec<usize> {
    v.sort();
    v
}

fn tetrahedron(indexed: bool) -> MeshData {
    let flat: Vec<u32> = [0.0f32, 0.0, 0.0, 1.0, 0.0, 0.0, 0.0, 1.0, 0.0, 0.0, 0.0, 1.0]
        .iter()
        .map(|f| f.to_bits())
        .collect();
    MeshData {
        positions: Some(Positions::Flat(flat)),
        indices: if indexed {
            Some(Indices::U32(vec![0, 2, 1, 0, 1, 3, 0, 3, 2, 1, 2, 3]))
        } else {
            None
        },
    }
}

/// Node 0 "Rock_[Collider]" has child 1, which has the mesh-bearing child 2.
fn rock_scene() -> SceneGraph {
    SceneGraph { children: vec![vec![1], vec![2], vec![]], has_mesh: vec![false, false, true] }
}

#[test]
fn descendants_at_any_depth() {
    let g = SceneGraph {
        children: vec![vec![1, 2], vec![3], vec![], vec![4], vec![]],
        has_mesh: vec![true, true, false, false, true],
    };
    assert_eq!(sorted(g.mesh_descendants(0)), vec![1, 4]);
    assert_eq!(sorted(g.mesh_descendants(3)), vec![4]);
    assert!(g.mesh_descendants(4).is_empty());
}

#[test]
fn descendants_ignore_unknown_nodes_and_cycles() {
    let g = SceneGraph {
        children: vec![vec![1, 9], vec![2], vec![1, 0]],
        has_mesh: vec![true, true, true],
    };
    assert_eq!(sorted(g.mesh_descendants(0)), vec![0, 1, 2]);
    assert!(g.mesh_descendants(7).is_empty());
}

#[test]
fn shared_child_listed_once() {
    let g = SceneGraph {
        children: vec![vec![1, 2], vec![3], vec![3], vec![]],
        has_mesh: vec![false, false, false, true],
    };
    assert_eq!(g.mesh_descendants(0), vec![3]);
}

#[test]
fn marked_node_with_valid_mesh_gets_collider() {
    let g = rock_scene();
    let batch = vec![named(0, "Rock_[Collider]"), named(1, "Rock_Mesh"), named(2, "Rock_Mesh.001")];
    let jobs = plan_tick(&batch, &collider_markers(), &g);
    assert_eq!(jobs, vec![Job { batch_pos: 0, node: 0, target: 2 }]);
    let mut scan = TickScan::new(jobs);
    let job = scan.next_job().expect("one job");
    let built = extract_geometry(&tetrahedron(true)).is_some();
    assert_eq!(scan.report(built), Some(Action::Attach { target: job.target }));
    assert_eq!(scan.next_job(), None);
    assert_eq!(scan.report(true), None);
}

#[test]
fn marked_node_with_unindexed_mesh_reports_one_failure() {
    let g = rock_scene();
    let batch = vec![named(0, "Rock_[Collider]")];
    let mut scan = TickScan::new(plan_tick(&batch, &collider_markers(), &g));
    let mut actions = Vec::new();
    while scan.next_job().is_some() {
        let built = extract_geometry(&tetrahedron(false)).is_some();
        actions.push(scan.report(built).expect("an action"));
    }
    assert_eq!(actions, vec![Action::Fail { node: 0 }]);
}

#[test]
fn failure_skips_the_rest_of_its_node_only() {
    let g = SceneGraph {
        children: vec![vec![1, 2], vec![], vec![], vec![4], vec![]],
        has_mesh: vec![false, true, true, false, true],
    };
    let batch = vec![named(0, "a [collider]"), named(3, "B [COLLIDER]")];
    let jobs = plan_tick(&batch, &collider_markers(), &g);
    assert_eq!(jobs.len(), 3);
    assert_eq!(jobs[2], Job { batch_pos: 1, node: 3, target: 4 });
    let mut scan = TickScan::new(jobs);
    assert_eq!(scan.report(false), Some(Action::Fail { node: 0 }));
    assert_eq!(scan.next_job(), Some(Job { batch_pos: 1, node: 3, target: 4 }));
    assert_eq!(scan.report(true), Some(Action::Attach { target: 4 }));
    assert_eq!(scan.next_job(), None);
}

#[test]
fn partial_attachment_is_kept() {
    let g = SceneGraph {
        children: vec![vec![1, 2], vec![], vec![]],
        has_mesh: vec![false, true, true],
    };
    let batch = vec![named(0, "Rock_[Collider]")];
    let jobs = plan_tick(&batch, &collider_markers(), &g);
    assert_eq!(jobs.len(), 2);
    let mut scan = TickScan::new(jobs.clone());
    assert_eq!(scan.report(true), Some(Action::Attach { target: jobs[0].target }));
    assert_eq!(scan.report(false), Some(Action::Fail { node: 0 }));
    assert_eq!(scan.next_job(), None);
}

#[test]
fn unmarked_nodes_give_no_jobs() {
    let g = rock_scene();
    let batch = vec![named(0, "Rock"), named(1, "Collider")];
    assert!(plan_tick(&batch, &collider_markers(), &g).is_empty());
}
