use tinyrender::Canvas;
use tinyrender::wire::FP_ONE;
use tinyrender::wire::MeshError;
use tinyrender::wire::draw_triangle;
use tinyrender::wire::draw_wireframe;
use tinyrender::wire::project_vertex;

fn buffer_of(c: &Canvas) -> Vec<u32> {
    c.data().clone()
}

#[test]
fn projection_maps_model_square_onto_screen() {
    // the triangle (-1,-1), (1,-1), (0,1) on a 100 x 100 logical screen
    assert_eq!(project_vertex(-FP_ONE, -FP_ONE, 100, 100), (0, 99));
    assert_eq!(project_vertex(FP_ONE, -FP_ONE, 100, 100), (99, 99));
    assert_eq!(project_vertex(0, FP_ONE, 100, 100), (50, 0));
    // the center of model space lands on the center of the screen
    assert_eq!(project_vertex(0, 0, 100, 100), (50, 50));
}

#[test]
fn projection_clamps_out_of_range_vertices() {
    assert_eq!(project_vertex(3 * FP_ONE, -3 * FP_ONE, 100, 100), (99, 99));
    assert_eq!(project_vertex(-3 * FP_ONE, 3 * FP_ONE, 100, 100), (0, 0));
    assert_eq!(project_vertex(i32::MAX, i32::MIN, 64, 64), (63, 63));
    assert_eq!(project_vertex(i32::MIN, i32::MAX, 64, 64), (0, 0));
}

#[test]
fn projected_triangle_draws_within_bounds() {
    let mut c = Canvas::new(100, 100, 0);
    let p0 = project_vertex(-FP_ONE, -FP_ONE, 100, 100);
    let p1 = project_vertex(FP_ONE, -FP_ONE, 100, 100);
    let p2 = project_vertex(0, FP_ONE, 100, 100);
    draw_triangle(&mut c, p0, p1, p2, 1, 255, 255, 255);
    // the bottom edge runs along the last row
    for x in 0..100usize {
        assert_eq!(c.get(x, 99), 0x00ff_ffff);
    }
    // the apex is plotted
    assert_eq!(c.get(50, 0), 0x00ff_ffff);
}

#[test]
fn drawing_twice_leaves_buffer_identical() {
    let mut c = Canvas::new(64, 64, 0);
    let p0 = (3, 5);
    let p1 = (60, 20);
    let p2 = (31, 63);
    draw_triangle(&mut c, p0, p1, p2, 1, 128, 64, 32);
    let once = buffer_of(&c);
    draw_triangle(&mut c, p0, p1, p2, 1, 128, 64, 32);
    assert_eq!(buffer_of(&c), once);
}

#[test]
fn wireframe_draws_mesh_triangle() {
    let positions: Vec<i32> = vec![
        -FP_ONE, -FP_ONE, 0, //
        FP_ONE, -FP_ONE, 0, //
        0, FP_ONE, 0,
    ];
    let indices: Vec<u32> = vec![0, 1, 2];
    let mut via_mesh = Canvas::new(100, 100, 0);
    let res = draw_wireframe(&mut via_mesh, &positions, &indices, 100, 100, 1, 255, 255, 255);
    assert_eq!(res, Ok(()));

    let mut via_triangle = Canvas::new(100, 100, 0);
    let p0 = project_vertex(-FP_ONE, -FP_ONE, 100, 100);
    let p1 = project_vertex(FP_ONE, -FP_ONE, 100, 100);
    let p2 = project_vertex(0, FP_ONE, 100, 100);
    draw_triangle(&mut via_triangle, p0, p1, p2, 1, 255, 255, 255);
    assert_eq!(buffer_of(&via_mesh), buffer_of(&via_triangle));
}

#[test]
fn wireframe_rejects_partial_faces() {
    let positions: Vec<i32> = vec![0, 0, 0, FP_ONE, 0, 0];
    let indices: Vec<u32> = vec![0, 1, 0, 1];
    let mut c = Canvas::new(32, 32, 5);
    let res = draw_wireframe(&mut c, &positions, &indices, 32, 32, 1, 255, 255, 255);
    assert_eq!(res, Err(MeshError::FaceListNotTriples));
    // nothing was drawn
    assert!(buffer_of(&c).iter().all(|&p| p == 5));
}

#[test]
fn wireframe_rejects_missing_vertex() {
    let positions: Vec<i32> = vec![0, 0, 0, FP_ONE, 0, 0];
    let indices: Vec<u32> = vec![0, 1, 7];
    let mut c = Canvas::new(32, 32, 5);
    let res = draw_wireframe(&mut c, &positions, &indices, 32, 32, 1, 255, 255, 255);
    assert_eq!(res, Err(MeshError::VertexIndexOutOfRange));
    assert!(buffer_of(&c).iter().all(|&p| p == 5));
}

#[test]
fn empty_mesh_draws_nothing() {
    let positions: Vec<i32> = Vec::new();
    let indices: Vec<u32> = Vec::new();
    let mut c = Canvas::new(16, 16, 9);
    let res = draw_wireframe(&mut c, &positions, &indices, 16, 16, 1, 1, 2, 3);
    assert_eq!(res, Ok(()));
    assert!(buffer_of(&c).iter().all(|&p| p == 9));
}

#[test]
fn random_meshes_never_escape_the_buffer() {
    // a small linear-congruential generator for reproducible fuzzing
    let mut state: u64 = 0x2545_f491_4f6c_dd1d;
    let mut next = move || {
        state = state.wrapping_mul(6364136223846793005).wrapping_add(1442695040888963407);
        (state >> 33) as u32
    };
    for round in 0..40 {
        let scale: i32 = 1 + (round % 3);
        let lw: u32 = 48;
        let lh: u32 = 36;
        let stride = (lw as usize) * (scale as usize);
        let height = (lh as usize) * (scale as usize);
        let n_vertices = 3 + (next() % 6) as usize;
        let mut positions: Vec<i32> = Vec::new();
        for _ in 0..n_vertices {
            // arbitrary coordinates, far outside [-1, 1] included
            positions.push(next() as i32);
            positions.push(next() as i32);
            positions.push(next() as i32);
        }
        let n_faces = 1 + (next() % 4) as usize;
        let mut indices: Vec<u32> = Vec::new();
        for _ in 0..n_faces {
            indices.push(next() % n_vertices as u32);
            indices.push(next() % n_vertices as u32);
            indices.push(next() % n_vertices as u32);
        }
        let mut c = Canvas::new(stride, height, 0);
        let res = draw_wireframe(&mut c, &positions, &indices, lw, lh, scale, 255, 255, 255);
        assert_eq!(res, Ok(()));
        // every canvas read stays well-defined; the verified library could
        // not have written outside its stride * height cells
        assert_eq!(c.data().len(), stride * height);
    }
}
