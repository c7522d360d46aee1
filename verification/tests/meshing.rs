//! Greedy meshing, the budgeted mesh scheduler, and load
//! prioritization.

use voxelcore::block::Block;
use voxelcore::chunk::{pad_linearize, Chunk};
use voxelcore::load_area::{col_dist, range_around, LoadOrders, PlayerArea, RenderDistance};
use voxelcore::mesh_scheduler::{
    ChunkMeshingState, MeshScheduler, MeshingStage, MeshVertex, MAX_MESHING_MS,
};
use voxelcore::mesher::{mesh, mesh_face, Quad};
use voxelcore::pos::{BlockPos, ChunkPos, ColPos, Realm};
use voxelcore::world::VoxelWorld;
use voxelcore::{CHUNKP_S3, CHUNK_S1};

fn bp(x: i32, y: i32, z: i32) -> BlockPos {
    BlockPos { x, y, z, realm: Realm::Overworld }
}

fn cp(x: i32, y: i32, z: i32) -> ChunkPos {
    ChunkPos { x, y, z, realm: Realm::Overworld }
}

fn full_grid(v: u16) -> Vec<u16> {
    let mut vox = vec![0u16; CHUNKP_S3];
    for x in 0..CHUNK_S1 {
        for y in 0..CHUNK_S1 {
            for z in 0..CHUNK_S1 {
                vox[pad_linearize(x, y, z)] = v;
            }
        }
    }
    vox
}

#[test]
fn full_chunk_meshes_one_quad_per_face() {
    let vox = full_grid(1);
    let trans: Vec<u16> = Vec::new();
    let faces = mesh(&vox, &trans);
    assert_eq!(faces.len(), 6);
    for (f, quads) in faces.iter().enumerate() {
        assert_eq!(quads.len(), 1, "face {}", f);
        let q = quads[0];
        assert_eq!((q.row, q.col), (0, 0));
        assert_eq!((q.width, q.height), (CHUNK_S1, CHUNK_S1));
        assert_eq!(q.v_type, 1);
        let boundary = if f == 0 || f == 2 || f == 4 { CHUNK_S1 - 1 } else { 0 };
        assert_eq!(q.layer, boundary, "face {}", f);
    }
}

#[test]
fn single_voxel_meshes_six_unit_quads() {
    let mut vox = vec![0u16; CHUNKP_S3];
    vox[pad_linearize(5, 6, 7)] = 2;
    let trans: Vec<u16> = Vec::new();
    let faces = mesh(&vox, &trans);
    for (f, quads) in faces.iter().enumerate() {
        assert_eq!(quads.len(), 1, "face {}", f);
        assert_eq!((quads[0].width, quads[0].height), (1, 1));
        assert_eq!(quads[0].v_type, 2);
    }
}

#[test]
fn greedy_runs_stop_at_type_changes() {
    let mut vox = vec![0u16; CHUNKP_S3];
    // a 1x3 strip with a different type in the middle
    vox[pad_linearize(0, 0, 0)] = 1;
    vox[pad_linearize(0, 0, 1)] = 2;
    vox[pad_linearize(0, 0, 2)] = 1;
    let trans: Vec<u16> = Vec::new();
    let up = mesh_face(&vox, &trans, 0);
    assert_eq!(up.len(), 3);
    let total: usize = up.iter().map(|q| q.width * q.height).sum();
    assert_eq!(total, 3);
}

#[test]
fn transparent_neighbors_of_other_types_expose_faces() {
    let mut vox = vec![0u16; CHUNKP_S3];
    vox[pad_linearize(3, 3, 3)] = 1;
    vox[pad_linearize(3, 4, 3)] = 2;
    // without transparency, the up face of the lower voxel is hidden
    let faces = mesh_face(&vox, &Vec::new(), 0);
    let covers_lower = faces.iter().any(|q| q.layer == 3 && q.row == 3 && q.col == 3);
    assert!(!covers_lower);
    // with type 2 transparent, it shows
    let faces = mesh_face(&vox, &vec![2u16], 0);
    let covers_lower = faces.iter().any(|q| q.layer == 3 && q.row == 3 && q.col == 3);
    assert!(covers_lower);
}

fn full_chunk() -> Chunk {
    let mut c = Chunk::new();
    for x in 0..CHUNK_S1 {
        for y in 0..CHUNK_S1 {
            for z in 0..CHUNK_S1 {
                c.set((x, y, z), Block::Stone);
            }
        }
    }
    c
}

#[test]
fn budget_bounds_one_invocation_and_repetition_completes() {
    let chunk = full_chunk();
    let mut state = ChunkMeshingState::new();
    // a zero budget stops after the first unit of work
    let done = state.step(&chunk, 0);
    assert!(!done);
    assert!(!matches!(state.stage, MeshingStage::Complete));
    let mut rounds = 1usize;
    while !state.step(&chunk, 0) {
        rounds += 1;
        assert!(rounds < 1_000_000, "scheduler failed to converge");
    }
    assert!(matches!(state.stage, MeshingStage::Complete));
    assert!(rounds > 1);
    assert!(!state.is_empty);
    assert!(state.all_positions.len() > 0);
    assert_eq!(state.all_indices.len() % 6, 0);
}

#[test]
fn generous_budget_completes_in_one_invocation() {
    let chunk = full_chunk();
    let mut state = ChunkMeshingState::new();
    let done = state.step(&chunk, 60_000);
    assert!(done);
    // six faces of one quad each: 36 indices over the cube's 8 shared corners
    assert_eq!(state.all_indices.len(), 36);
    assert_eq!(state.all_positions.len(), 8);
    assert_eq!(state.all_normals.len(), 8);
    assert_eq!(state.all_colors.len(), 8);
    assert!(state.all_indices.iter().all(|&i| i < state.all_positions.len()));
    assert!(u64::from(MAX_MESHING_MS) > 0);
}

#[test]
fn empty_chunk_mesh_is_flagged_empty() {
    let chunk = Chunk::new();
    let mut state = ChunkMeshingState::new();
    assert!(state.step(&chunk, 60_000));
    assert!(state.is_empty);
    assert_eq!(state.all_positions.len(), 0);
}

#[test]
fn scheduler_skips_clean_chunks() {
    let mut w = VoxelWorld::new();
    w.set_block(bp(1, 1, 1), Block::Stone);
    let mut sched = MeshScheduler::new();
    // a dirty chunk starts a job
    assert!(sched.try_start(&w, cp(0, 0, 0)));
    sched.abandon();
    // mark the chunk clean: the scheduler then does nothing at all
    {
        let mut entry = w.chunks.get_mut(&cp(0, 0, 0)).unwrap();
        entry.changed = false;
    }
    let before_stage = sched.state.stage;
    let before_positions = sched.state.all_positions.len();
    assert!(!sched.try_start(&w, cp(0, 0, 0)));
    assert!(sched.in_progress.is_none());
    assert_eq!(sched.state.stage, before_stage);
    assert_eq!(sched.state.all_positions.len(), before_positions);
    // an absent chunk starts nothing either
    assert!(!sched.try_start(&w, cp(9, 9, 9)));
}

#[test]
fn scheduler_commits_and_clears_dirty_flag() {
    let mut w = VoxelWorld::new();
    w.set_block(bp(1, 1, 1), Block::Stone);
    let target = cp(0, 0, 0);
    let mut sched = MeshScheduler::new();
    let picked = MeshScheduler::pop_closest_change(&w, cp(0, 0, 0)).expect("a dirty chunk");
    assert_eq!(picked.1, 0);
    assert!(sched.try_start(&w, target));
    let chunk = w.chunks.get(&target).unwrap().chunk.clone();
    while !sched.state.step(&chunk, 50) {}
    let committed = sched.commit(&mut w);
    assert_eq!(committed, Some(target));
    assert!(!w.chunks.get(&target).unwrap().changed);
    assert!(sched.in_progress.is_none());
}

#[test]
fn pop_closest_change_prefers_near_chunks() {
    let mut w = VoxelWorld::new();
    w.set_block(bp(30, 30, 30), Block::Stone);  // chunk (0,0,0)
    w.set_block(bp(30 + 5 * 62, 30, 30), Block::Stone);  // chunk (5,0,0)
    let (q, d) = MeshScheduler::pop_closest_change(&w, cp(5, 0, 0)).unwrap();
    assert_eq!(q, cp(5, 0, 0));
    assert_eq!(d, 0);
    let (q, d) = MeshScheduler::pop_closest_change(&w, cp(-2, 0, 0)).unwrap();
    assert_eq!(q, cp(0, 0, 0));
    assert_eq!(d, 2);
}

#[test]
fn vertices_share_quantized_positions() {
    let a = MeshVertex { x: 1, y: 2, z: 3 };
    let b = MeshVertex { x: 1, y: 2, z: 3 };
    assert_eq!(a, b);
    let q = Quad { layer: 0, row: 0, col: 0, width: 2, height: 1, v_type: 1 };
    assert!(q.width == 2 && q.height == 1);
}

#[test]
fn range_around_is_inclusive() {
    assert_eq!(range_around(5, 2), vec![3, 4, 5, 6, 7]);
    assert_eq!(range_around(0, 0), vec![0]);
}

#[test]
fn load_orders_pop_nearest_first() {
    let c0 = ColPos { x: 0, z: 0, realm: Realm::Overworld };
    let near = ColPos { x: 1, z: 0, realm: Realm::Overworld };
    let far = ColPos { x: 7, z: 2, realm: Realm::Overworld };
    let mut orders = LoadOrders::new();
    assert!(orders.pop_closest().is_none());
    orders.queue_generate(far, col_dist(c0, far));
    orders.queue_generate(near, col_dist(c0, near));
    let (col, d) = orders.pop_closest().unwrap();
    assert_eq!((col, d), (near, 1));
    let (col, d) = orders.pop_closest().unwrap();
    assert_eq!((col, d), (far, 7));
    assert!(orders.pop_closest().is_none());
}

#[test]
fn area_change_queues_new_and_stale_columns() {
    let center = ColPos { x: 0, z: 0, realm: Realm::Overworld };
    let moved = ColPos { x: 3, z: 0, realm: Realm::Overworld };
    let old_area = PlayerArea::new(center, 1);
    let new_area = PlayerArea::new(moved, 1);
    let mut orders = LoadOrders::new();
    orders.update_area(old_area, new_area);
    // column (4,0) is newly desired at distance 1
    let gen: Vec<(ColPos, u64)> = orders.to_generate.clone();
    assert!(gen.contains(&(ColPos { x: 4, z: 0, realm: Realm::Overworld }, 1)));
    // column (-1,0) fell out of range
    assert!(orders.to_unload.contains(&ColPos { x: -1, z: 0, realm: Realm::Overworld }));
    // columns still inside both areas are in neither queue
    assert!(!orders.to_unload.contains(&ColPos { x: 2, z: 0, realm: Realm::Overworld }));
}

#[test]
fn player_area_contains_its_square() {
    let center = ColPos { x: 0, z: 0, realm: Realm::Overworld };
    let rd = RenderDistance { dist: 2 };
    let area = PlayerArea::new(center, rd.dist);
    assert!(area.contains(ColPos { x: 2, z: -2, realm: Realm::Overworld }));
    assert!(!area.contains(ColPos { x: 3, z: 0, realm: Realm::Overworld }));
}
