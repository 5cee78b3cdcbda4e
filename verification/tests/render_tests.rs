use dd3::render3d::cube::{corner, unit_cube_corners, unit_cube_faces, FaceId};
use dd3::render3d::cylinder::DEFAULT_SIDES;
use dd3::render3d::framebuffer::Framebuffer;
use dd3::render3d::raster::{resolve_supersampled, SS};
use dd3::render3d::stack::{stack_layer_count, MAX_LAYERS};
use ratatui::style::Color;

const RED: Color = Color::Red;
const BLUE: Color = Color::Blue;

#[test]
fn fresh_framebuffer_is_all_none() {
    let fb = Framebuffer::new(4, 4);
    assert_eq!(fb.width(), 4);
    assert_eq!(fb.height(), 4);
    for y in 0..4 {
        for x in 0..4 {
            assert_eq!(fb.get(x, y), None, "pixel ({x},{y}) should start unlit");
        }
    }
    assert_eq!(fb.lit_pixels().len(), 0);
}

#[test]
fn set_get_roundtrips() {
    let mut fb = Framebuffer::new(8, 6);
    fb.set(3, 2, RED);
    assert_eq!(fb.get(3, 2), Some(RED));
    assert_eq!(fb.get(2, 2), None);
    assert_eq!(fb.get(3, 1), None);
}

#[test]
fn set_overwrites_existing_pixel() {
    let mut fb = Framebuffer::new(4, 4);
    fb.set(1, 1, RED);
    fb.set(1, 1, BLUE);
    assert_eq!(fb.get(1, 1), Some(BLUE));
}

#[test]
fn out_of_bounds_set_does_not_panic() {
    let mut fb = Framebuffer::new(4, 4);
    fb.set(100, 100, RED);
    fb.set(4, 0, RED);
    fb.set(0, 4, RED);
    assert_eq!(fb.lit_pixels().len(), 0, "no pixel should have been lit");
    assert_eq!(fb.get(100, 100), None);
}

#[test]
fn clear_resets_all_pixels() {
    let mut fb = Framebuffer::new(4, 4);
    fb.set(0, 0, RED);
    fb.set(3, 3, BLUE);
    assert_eq!(fb.lit_pixels().len(), 2);
    fb.clear();
    assert_eq!(fb.lit_pixels().len(), 0);
    assert_eq!(fb.get(0, 0), None);
}

#[test]
fn lit_pixels_reports_coords_and_color() {
    let mut fb = Framebuffer::new(5, 5);
    fb.set(2, 1, RED);
    fb.set(4, 3, BLUE);
    let mut lit = fb.lit_pixels();
    lit.sort_by_key(|&(x, y, _)| (y, x));
    assert_eq!(lit, vec![(2, 1, RED), (4, 3, BLUE)]);
}

#[test]
fn lit_pixels_come_in_row_major_order() {
    let mut fb = Framebuffer::new(3, 2);
    fb.set(2, 1, BLUE);
    fb.set(1, 0, RED);
    fb.set(usize::MAX, 0, RED);
    assert_eq!(fb.lit_pixels(), vec![(1, 0, RED), (2, 1, BLUE)]);
}

#[test]
fn zero_sized_framebuffer_ignores_writes() {
    let mut fb = Framebuffer::new(0, 5);
    fb.set(0, 0, RED);
    assert_eq!(fb.get(0, 0), None);
    assert!(fb.lit_pixels().is_empty());
}

#[test]
fn cube_has_8_vertices_and_6_faces() {
    assert_eq!(unit_cube_corners().len(), 8);
    assert_eq!(unit_cube_faces().len(), 6);
}

#[test]
fn all_vertices_are_unit_cube_corners() {
    for (i, v) in unit_cube_corners().iter().enumerate() {
        assert_eq!(*v, corner(i));
        assert!(v.0.abs() == 1 && v.1.abs() == 1 && v.2.abs() == 1, "{v:?}");
    }
    assert_eq!(corner(0), (-1, -1, -1));
    assert_eq!(corner(7), (1, 1, 1));
    assert_eq!(corner(5), (1, -1, 1));
}

#[test]
fn normals_are_unit_and_axis_aligned() {
    for f in unit_cube_faces() {
        let (x, y, z) = f.normal;
        assert_eq!(x * x + y * y + z * z, 1, "{:?}", f.id);
    }
}

#[test]
fn normals_point_outward() {
    let cs = unit_cube_corners();
    for f in unit_cube_faces() {
        let n = f.normal;
        let sum: i32 = f
            .indices
            .iter()
            .map(|&i| {
                let c = cs[i];
                c.0 as i32 * n.0 as i32 + c.1 as i32 * n.1 as i32 + c.2 as i32 * n.2 as i32
            })
            .sum();
        assert_eq!(sum, 4, "face {:?}", f.id);
    }
}

#[test]
fn face_winding_is_ccw_from_outside() {
    let cs = unit_cube_corners();
    for f in unit_cube_faces() {
        let [a, b, c, _d] = f.indices;
        let v = |i: usize| (cs[i].0 as i32, cs[i].1 as i32, cs[i].2 as i32);
        let (v0, v1, v2) = (v(a), v(b), v(c));
        let e1 = (v1.0 - v0.0, v1.1 - v0.1, v1.2 - v0.2);
        let e2 = (v2.0 - v0.0, v2.1 - v0.1, v2.2 - v0.2);
        let cross = (e1.1 * e2.2 - e1.2 * e2.1, e1.2 * e2.0 - e1.0 * e2.2, e1.0 * e2.1 - e1.1 * e2.0);
        let n = f.normal;
        let d = cross.0 * n.0 as i32 + cross.1 * n.1 as i32 + cross.2 * n.2 as i32;
        assert!(d > 0, "winding disagrees with normal for {:?}", f.id);
    }
}

#[test]
fn face_ids_are_in_render_order() {
    let ids: Vec<FaceId> = unit_cube_faces().iter().map(|f| f.id).collect();
    assert_eq!(
        ids,
        vec![FaceId::Front, FaceId::Back, FaceId::Right, FaceId::Left, FaceId::Top, FaceId::Bottom]
    );
}

#[test]
fn default_sides_is_octagon() {
    assert_eq!(DEFAULT_SIDES, 8);
}

#[test]
fn constants_match_plan() {
    assert_eq!(MAX_LAYERS, 8);
}

#[test]
fn image_stack_caps_at_max_layers() {
    assert_eq!(stack_layer_count(0), 0);
    assert_eq!(stack_layer_count(3), 3);
    assert_eq!(stack_layer_count(8), 8);
    assert_eq!(stack_layer_count(30), MAX_LAYERS);
}

const GREEN: Color = Color::Green;

fn fill_block(hi: &mut Framebuffer, bx: usize, by: usize, colors: &[Option<Color>]) {
    for (k, c) in colors.iter().enumerate() {
        if let Some(c) = c {
            hi.set(bx * SS + k % SS, by * SS + k / SS, *c);
        }
    }
}

#[test]
fn resolve_supersampled_majority_and_mode() {
    let mut hi = Framebuffer::new(2 * SS, 2 * SS);
    let r = Some(RED);
    let b = Some(BLUE);
    let g = Some(GREEN);
    // Fully covered red block.
    fill_block(&mut hi, 0, 0, &[r, r, r, r, r, r, r, r, r]);
    // Only four of nine lit: below the majority threshold.
    fill_block(&mut hi, 1, 0, &[b, b, b, b, None, None, None, None, None]);
    // Red and blue tie at two each: the later of the tied colors wins.
    fill_block(&mut hi, 0, 1, &[r, b, r, b, g, None, None, None, None]);
    // Blue majority.
    fill_block(&mut hi, 1, 1, &[r, b, b, None, b, None, b, None, None]);
    let fb = resolve_supersampled(&hi, 2, 2);
    assert_eq!(fb.width(), 2);
    assert_eq!(fb.height(), 2);
    assert_eq!(fb.get(0, 0), Some(RED));
    assert_eq!(fb.get(1, 0), None);
    assert_eq!(fb.get(0, 1), Some(BLUE));
    assert_eq!(fb.get(1, 1), Some(BLUE));
}

#[test]
fn resolve_supersampled_of_empty_is_empty() {
    let hi = Framebuffer::new(4 * SS, 3 * SS);
    let fb = resolve_supersampled(&hi, 4, 3);
    assert!(fb.lit_pixels().is_empty());
}
