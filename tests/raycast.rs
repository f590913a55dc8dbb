use retro3d::grid::{GridMap, Rgb};
use retro3d::maze::RIGHT_WALL;
use retro3d::raycast::{cast_ray, Ray, CELL};
use retro3d::render::{cast, projected_half_height, Tile};

const STEP: f64 = 0.01;

fn fixed(v: f64) -> i64 {
    (v * CELL as f64).round() as i64
}

fn fan(heading: f64, fov: f64, columns: usize) -> Vec<(i64, i64)> {
    (0..columns)
        .map(|i| {
            let angle = heading - fov / 2.0 + fov * i as f64 / columns as f64;
            (fixed(angle.cos() * STEP), fixed(angle.sin() * STEP))
        })
        .collect()
}

#[test]
fn empty_map_gives_no_hits() {
    let m = GridMap::new(16, 16);
    let steps = fan(0.3, std::f64::consts::PI / 3.0, 512);
    let hits = cast(&m, fixed(8.0), fixed(8.0), &steps, 2000);
    assert_eq!(hits.len(), 512);
    for (i, h) in hits.iter().enumerate() {
        assert_eq!(h.column, i);
        assert_eq!(h.id, 0);
        assert_eq!(h.steps, 2000);
        assert_eq!(h.color, Rgb::white());
    }
}

#[test]
fn ray_leaving_the_map_misses() {
    let m = GridMap::new(4, 4);
    let ray = Ray { x: fixed(1.5), y: fixed(1.5), dx: -fixed(STEP), dy: 0 };
    assert_eq!(cast_ray(&m, ray, 2000), None);
    let outside = Ray { x: -1, y: 0, dx: 0, dy: 0 };
    assert_eq!(cast_ray(&m, outside, 10), None);
    assert_eq!(cast_ray(&m, ray, 0), None);
}

#[test]
fn hit_is_within_one_step_of_the_wall() {
    let mut m = GridMap::new(16, 16);
    let id = m.assign_color(Rgb { r: 7, g: 7, b: 7 });
    m.paint(12, 8, id);
    let ray = Ray { x: fixed(8.5), y: fixed(8.5), dx: fixed(STEP), dy: 0 };
    let (k, hit) = cast_ray(&m, ray, 2000).unwrap();
    assert_eq!(hit, id);
    let d = 12 * CELL - ray.x;
    let travelled = k as i64 * ray.dx;
    assert!(d <= travelled && travelled < d + ray.dx);
    assert_eq!(k, 351);
}

#[test]
fn viewer_inside_a_wall_hits_at_once() {
    let mut m = GridMap::new(3, 3);
    let id = m.assign_color(Rgb { r: 1, g: 1, b: 1 });
    m.paint(1, 1, id);
    let ray = Ray { x: fixed(1.5), y: fixed(1.5), dx: 100, dy: 100 };
    assert_eq!(cast_ray(&m, ray, 10), Some((0, id)));
    assert_eq!(projected_half_height(51200, 0), 51200);
}

#[test]
fn centre_column_hits_the_east_wall() {
    let right = Rgb { r: 40, g: 50, b: 60 };
    let m = GridMap::bordered(
        16,
        16,
        Rgb { r: 1, g: 0, b: 0 },
        Rgb { r: 2, g: 0, b: 0 },
        Rgb { r: 3, g: 0, b: 0 },
        right,
    );
    let steps = fan(0.0, std::f64::consts::PI / 3.0, 512);
    let hits = cast(&m, fixed(8.0), fixed(8.0), &steps, 2000);
    let centre = hits[256];
    assert_eq!(centre.column, 256);
    assert_eq!(centre.id, RIGHT_WALL);
    assert_eq!(centre.color, right);
    let distance = centre.steps as f64 * STEP;
    assert!((distance - 7.0).abs() <= 0.02, "distance {}", distance);
    for h in hits.iter() {
        assert_ne!(h.id, 0);
    }
    for w in hits.windows(2) {
        assert!(w[0].column < w[1].column);
    }
}

#[test]
fn half_height_formula() {
    assert_eq!(projected_half_height(51200, 700), 73);
    assert_eq!(projected_half_height(51200, 1), 51200);
    assert_eq!(projected_half_height(51200, 2000), 25);
    assert_eq!(projected_half_height(0, 5), 0);
}

#[test]
fn world_columns_follow_the_hits() {
    let m = GridMap::bordered(
        16,
        16,
        Rgb { r: 1, g: 0, b: 0 },
        Rgb { r: 2, g: 0, b: 0 },
        Rgb { r: 3, g: 0, b: 0 },
        Rgb { r: 4, g: 0, b: 0 },
    );
    let steps = fan(0.0, std::f64::consts::PI / 3.0, 64);
    let hits = cast(&m, fixed(8.0), fixed(8.0), &steps, 2000);
    let cols = m.render_world(fixed(8.0), fixed(8.0), &steps, 2000, 51200);
    assert_eq!(cols.len(), 64);
    for (c, h) in cols.iter().zip(hits.iter()) {
        assert_eq!(c.column, h.column);
        assert_eq!(c.color, h.color);
        assert_eq!(c.half_height, 51200 / h.steps.max(1));
    }
    assert_eq!(cols[32].half_height, 51200 / 701);
}

#[test]
fn top_down_tiles() {
    let mut m = GridMap::new(4, 2);
    let c = Rgb { r: 5, g: 6, b: 7 };
    let id = m.assign_color(c);
    m.paint(3, 1, id);
    let tiles = m.render_map(512);
    assert_eq!(tiles.len(), 8);
    assert_eq!(tiles[0], Tile { x: 0, y: 0, w: 128, h: 256, color: Rgb::white() });
    assert_eq!(tiles[3 + 1 * 4], Tile { x: 384, y: 256, w: 128, h: 256, color: c });
    assert_eq!(tiles[1 + 1 * 4], Tile { x: 128, y: 256, w: 128, h: 256, color: Rgb::white() });
}
