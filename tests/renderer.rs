use zesty_engine2::math_utils::vector::Vector2;
use zesty_engine2::object::Face;
use zesty_engine2::renderer::{
    Color, RenderType, Renderer, RendererError, ScreenMesh, MAX_TRIANGLE_COORD, VERTEX_COLOR,
};

const TEST_BUFFER_WIDTH: usize = 100;
const TEST_BUFFER_HEIGHT: usize = 50;
const TEST_BUFFER_SIZE: usize = TEST_BUFFER_WIDTH * TEST_BUFFER_HEIGHT;

fn init_renderer_and_buffer() -> (Renderer, [u32; TEST_BUFFER_SIZE]) {
    let mut renderer = Renderer::new();
    let buffer = [0_u32; TEST_BUFFER_SIZE];
    renderer.update_buffer_size(TEST_BUFFER_WIDTH, TEST_BUFFER_HEIGHT);

    (renderer, buffer)
}

fn lit(buffer: &[u32], width: usize) -> Vec<(usize, usize, u32)> {
    buffer
        .iter()
        .enumerate()
        .filter(|(_, v)| **v != 0)
        .map(|(i, v)| (i % width, i / width, *v))
        .collect()
}

#[test]
fn test_draw_pixel() {
    // Offset 9010 lies past the 5000 entries of a 100x50 frame, so the
    // buffer here is long enough to hold it; the row width is still 100.
    let (renderer, _) = init_renderer_and_buffer();
    let mut buffer = vec![0_u32; TEST_BUFFER_WIDTH * 100];
    renderer.draw_pixel(&mut buffer, Vector2::new([10, 90]), Color::WHITE).unwrap();

    let mut correct_buffer = vec![0_u32; TEST_BUFFER_WIDTH * 100];
    correct_buffer[9010] = Color::WHITE.u32_color();

    assert_eq!(buffer, correct_buffer);
}

#[test]
fn draw_pixel_past_frame_end_is_reported() {
    let (renderer, mut buffer) = init_renderer_and_buffer();
    let result = renderer.draw_pixel(&mut buffer, Vector2::new([10, 90]), Color::WHITE);

    assert_eq!(result, Err(RendererError::OutOfBounds(Vector2::new([10, 90]))));
    assert!(buffer.iter().all(|v| *v == 0));
}

#[test]
fn test_draw_pixel_out_of_bounds() {
    let (renderer, mut buffer) = init_renderer_and_buffer();
    let result = renderer.draw_pixel(&mut buffer, Vector2::new([100, 100]), Color::WHITE);

    assert_eq!(result, Err(RendererError::OutOfBounds(Vector2::new([100, 100]))))
}

#[test]
fn draw_pixel_last_entry() {
    let (renderer, mut buffer) = init_renderer_and_buffer();
    renderer.draw_pixel(&mut buffer, Vector2::new([99, 49]), Color::RED).unwrap();
    assert_eq!(buffer[4999], 0x00ff_0000);
    assert_eq!(lit(&buffer, TEST_BUFFER_WIDTH).len(), 1);
}

#[test]
fn draw_pixel_huge_coordinates_are_reported() {
    let (renderer, mut buffer) = init_renderer_and_buffer();
    let result = renderer.draw_pixel(&mut buffer, Vector2::new([usize::MAX, usize::MAX]), Color::RED);
    assert_eq!(
        result,
        Err(RendererError::OutOfBounds(Vector2::new([usize::MAX, usize::MAX])))
    );
}

#[test]
fn test_draw_vertex() {
    let (renderer, mut buffer) = init_renderer_and_buffer();
    renderer.draw_vertex(&mut buffer, Vector2::new([20, 20])).unwrap();

    // manually draw the vertex
    let mut correct_buffer = [0_u32; TEST_BUFFER_SIZE];
    for x in 14..=26 {
        for y in 14..=26 {
            renderer.draw_pixel(&mut correct_buffer, Vector2::new([x, y]), VERTEX_COLOR).unwrap();
        }
    }

    assert_eq!(buffer, correct_buffer);
}

#[test]
fn draw_vertex_is_cut_at_the_corner() {
    let (renderer, mut buffer) = init_renderer_and_buffer();
    renderer.draw_vertex(&mut buffer, Vector2::new([2, 3])).unwrap();

    let pixels = lit(&buffer, TEST_BUFFER_WIDTH);
    assert_eq!(pixels.len(), 169);
    assert!(pixels.iter().all(|(x, y, _)| *x <= 12 && *y <= 12));
}

#[test]
fn draw_vertex_reports_first_pixel_outside() {
    let (renderer, mut buffer) = init_renderer_and_buffer();
    let result = renderer.draw_vertex(&mut buffer, Vector2::new([50, 45]));

    // Columns are filled top to bottom, so row 50 of the first column is the
    // first pixel past the buffer's end.
    assert_eq!(result, Err(RendererError::OutOfBounds(Vector2::new([44, 50]))));
    let pixels = lit(&buffer, TEST_BUFFER_WIDTH);
    assert_eq!(pixels.len(), 11);
    assert!(pixels.iter().all(|(x, y, _)| *x == 44 && (39..=49).contains(y)));
}

#[test]
fn bresenham_single_point_draws_one_pixel() {
    let (renderer, mut buffer) = init_renderer_and_buffer();
    renderer.bresenham_line(Color::WHITE, &mut buffer, 7, 8, 7, 8).unwrap();

    assert_eq!(lit(&buffer, TEST_BUFFER_WIDTH), vec![(7, 8, 0x00ff_ffff)]);
}

#[test]
fn bresenham_level_line_draws_five_pixels() {
    let (renderer, mut buffer) = init_renderer_and_buffer();
    renderer.bresenham_line(Color::WHITE, &mut buffer, 0, 0, 4, 0).unwrap();

    let pixels: Vec<(usize, usize)> =
        lit(&buffer, TEST_BUFFER_WIDTH).iter().map(|(x, y, _)| (*x, *y)).collect();
    assert_eq!(pixels, vec![(0, 0), (1, 0), (2, 0), (3, 0), (4, 0)]);
}

#[test]
fn bresenham_steep_line_one_pixel_per_row() {
    let (renderer, mut buffer) = init_renderer_and_buffer();
    renderer.bresenham_line(Color::GREEN, &mut buffer, 3, 10, 1, 0).unwrap();

    let pixels = lit(&buffer, TEST_BUFFER_WIDTH);
    assert_eq!(pixels.len(), 11);
    for y in 0..=10 {
        assert_eq!(pixels.iter().filter(|(_, py, _)| *py == y).count(), 1);
    }
    assert!(pixels.contains(&(3, 10, 0x0000_ff00)));
    assert!(pixels.contains(&(1, 0, 0x0000_ff00)));
}

#[test]
fn bresenham_diagonal() {
    let (renderer, mut buffer) = init_renderer_and_buffer();
    renderer.bresenham_line(Color::BLUE, &mut buffer, 4, 0, 0, 4).unwrap();

    let pixels: Vec<(usize, usize)> =
        lit(&buffer, TEST_BUFFER_WIDTH).iter().map(|(x, y, _)| (*x, *y)).collect();
    assert_eq!(pixels, vec![(4, 0), (3, 1), (2, 2), (1, 3), (0, 4)]);
}

#[test]
fn bresenham_negative_start_is_reported() {
    let (renderer, mut buffer) = init_renderer_and_buffer();
    let result = renderer.bresenham_line(Color::WHITE, &mut buffer, -2, 0, 3, 0);

    assert_eq!(
        result,
        Err(RendererError::OutOfBounds(Vector2::new([(-2_isize) as usize, 0])))
    );
    assert!(buffer.iter().all(|v| *v == 0));
}

#[test]
fn triangle_facing_away_draws_nothing() {
    let (renderer, mut buffer) = init_renderer_and_buffer();
    renderer
        .draw_triangles(&mut buffer, vec![(10, 10), (20, 10), (10, 20)], Color::WHITE)
        .unwrap();

    assert!(buffer.iter().all(|v| *v == 0));
}

#[test]
fn flipped_triangle_fills_its_inside() {
    let (renderer, mut buffer) = init_renderer_and_buffer();
    renderer
        .draw_triangles(&mut buffer, vec![(10, 10), (10, 20), (20, 10)], Color::WHITE)
        .unwrap();

    let pixels = lit(&buffer, TEST_BUFFER_WIDTH);
    assert_eq!(pixels.len(), 66);
    assert!(pixels.contains(&(10, 10, 0x00ff_ffff)));
    assert!(pixels
        .iter()
        .all(|(x, y, _)| *x >= 10 && *y >= 10 && x + y <= 30));
}

#[test]
fn triangle_partly_outside_is_reported() {
    let (renderer, mut buffer) = init_renderer_and_buffer();
    let result = renderer.draw_triangles(&mut buffer, vec![(0, 45), (0, 55), (10, 45)], Color::WHITE);

    assert_eq!(result, Err(RendererError::OutOfBounds(Vector2::new([0, 50]))));
    let pixels = lit(&buffer, TEST_BUFFER_WIDTH);
    assert_eq!(pixels.len(), 5);
}

#[test]
fn triangle_bound_is_accepted() {
    let (renderer, mut buffer) = init_renderer_and_buffer();
    let far = MAX_TRIANGLE_COORD as isize;
    let result = renderer.draw_triangles(&mut buffer, vec![(0, 0), (0, far), (far, 0)], Color::WHITE);
    assert_eq!(result, Err(RendererError::OutOfBounds(Vector2::new([0, 50]))));
}

#[test]
fn color_from_rgb_packs_channels() {
    assert_eq!(Color::from_rgb(0x12, 0x34, 0x56).u32_color(), 0x0012_3456);
    assert_eq!(Color::from_rgb(255, 255, 255).u32_color(), Color::WHITE.u32_color());
    assert_eq!(Color::from_rgb(0, 0, 0).u32_color(), Color::BLACK.u32_color());
}

#[test]
fn palette_values() {
    assert_eq!(Color::RED.u32_color(), 0x00ff_0000);
    assert_eq!(Color::GREEN.u32_color(), 0x0000_ff00);
    assert_eq!(Color::BLUE.u32_color(), 0x0000_00ff);
    assert_eq!(Color::YELLOW.u32_color(), 0x00ff_ff00);
    assert_eq!(Color::CYAN.u32_color(), 0x0000_ffff);
    assert_eq!(Color::MAGENTA.u32_color(), 0x00ff_00ff);
}

#[test]
fn renderer_size() {
    let (mut renderer, _) = init_renderer_and_buffer();
    assert_eq!(renderer.buffer_width(), 100);
    assert_eq!(renderer.buffer_height(), 50);
    renderer.update_buffer_size(3, 4);
    assert_eq!(renderer.buffer_width(), 3);
    assert_eq!(renderer.buffer_height(), 4);
    assert_eq!(Renderer::new().buffer_width(), 0);
}

#[test]
fn usize_vector_to_isize_keeps_small_values() {
    let (renderer, _) = init_renderer_and_buffer();
    let v = renderer.usize_vector_to_isize(Vector2::new([3, 70]));
    assert_eq!(v, Vector2::new([3_isize, 70]));
    let w = renderer.usize_vector_to_isize(Vector2::new([usize::MAX, 1]));
    assert_eq!(w, Vector2::new([-1_isize, 1]));
}

fn square_mesh() -> ScreenMesh {
    let faces: Vec<Face> = vec![[0, 1, 2], [0, 2, 1], [1, 3, 2]];
    ScreenMesh {
        vertices: vec![
            Vector2::new([10, 10]),
            Vector2::new([10, 20]),
            Vector2::new([20, 10]),
            Vector2::new([20, 20]),
        ],
        faces,
        facing_away: vec![false, true, false],
    }
}

#[test]
fn render_vertex_mode_draws_markers() {
    let (renderer, mut buffer) = init_renderer_and_buffer();
    let mesh = ScreenMesh {
        vertices: vec![Vector2::new([20, 20]), Vector2::new([60, 30])],
        faces: vec![],
        facing_away: vec![],
    };
    renderer.render(&mut buffer, &mesh, RenderType::Vertex).unwrap();

    let pixels = lit(&buffer, TEST_BUFFER_WIDTH);
    assert_eq!(pixels.len(), 2 * 169);
    assert!(pixels.contains(&(14, 14, 0x00ff_ffff)));
    assert!(pixels.contains(&(66, 36, 0x00ff_ffff)));
}

#[test]
fn render_edge_mode_draws_outline() {
    let (renderer, mut buffer) = init_renderer_and_buffer();
    let mesh = ScreenMesh {
        vertices: vec![Vector2::new([0, 0]), Vector2::new([4, 0]), Vector2::new([0, 4])],
        faces: vec![[0, 1, 2]],
        facing_away: vec![false],
    };
    renderer.render(&mut buffer, &mesh, RenderType::Edge).unwrap();

    let mut pixels: Vec<(usize, usize)> =
        lit(&buffer, TEST_BUFFER_WIDTH).iter().map(|(x, y, _)| (*x, *y)).collect();
    pixels.sort();
    assert_eq!(
        pixels,
        vec![
            (0, 0),
            (0, 1),
            (0, 2),
            (0, 3),
            (0, 4),
            (1, 0),
            (1, 3),
            (2, 0),
            (2, 2),
            (3, 0),
            (3, 1),
            (4, 0)
        ]
    );
}

#[test]
fn render_face_mode_skips_culled_faces_and_cycles_colors() {
    let (renderer, mut buffer) = init_renderer_and_buffer();
    renderer.render(&mut buffer, &square_mesh(), RenderType::Face).unwrap();

    // First drawn face is white, the second drawn one red.
    assert_eq!(buffer[10 + 10 * 100], Color::WHITE.u32_color());
    assert_eq!(buffer[20 + 20 * 100], Color::RED.u32_color());
    assert!(buffer.iter().all(|v| *v == 0 || *v == 0x00ff_ffff || *v == 0x00ff_0000));
}

#[test]
fn render_face_mode_all_culled_draws_nothing() {
    let (renderer, mut buffer) = init_renderer_and_buffer();
    let mut mesh = square_mesh();
    mesh.facing_away = vec![true, true, true];
    renderer.render(&mut buffer, &mesh, RenderType::Face).unwrap();
    assert!(buffer.iter().all(|v| *v == 0));
}

#[test]
fn render_edge_mode_reports_lines_leaving_the_buffer() {
    let (renderer, mut buffer) = init_renderer_and_buffer();
    let mesh = ScreenMesh {
        vertices: vec![Vector2::new([0, 48]), Vector2::new([0, 52]), Vector2::new([3, 48])],
        faces: vec![[0, 1, 2]],
        facing_away: vec![false],
    };
    let result = renderer.render(&mut buffer, &mesh, RenderType::Edge);
    assert_eq!(result, Err(RendererError::OutOfBounds(Vector2::new([0, 50]))));
    assert_eq!(lit(&buffer, TEST_BUFFER_WIDTH).len(), 2);
}
