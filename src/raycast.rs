use vstd::prelude::*;

use crate::grid::{GridMap, MapError, MapView, Rgb};

verus! {

/// Fixed-point units per cell: a coordinate `p` lies in cell `p / (CELL as int)`.
pub const CELL: i64 = 65536;

/// A ray in fixed point: it starts at `(x, y)` and each step moves it by
/// `(dx, dy)`.
#[derive(Clone, Copy, Debug, PartialEq, Eq, Structural)]
pub struct Ray {
    pub x: i64,
    pub y: i64,
    pub dx: i64,
    pub dy: i64,
}

/// Where the ray is after `k` steps.
pub open spec fn sample(ray: Ray, k: int) -> (int, int) {
    (ray.x + k * ray.dx, ray.y + k * ray.dy)
}

/// The id of the cell under the fixed-point point `p`, or `None` where `p` lies
/// outside the map.
pub open spec fn cell_under(m: MapView, p: (int, int)) -> Option<usize> {
    if 0 <= p.0 < m.width * (CELL as int) && 0 <= p.1 < m.height * (CELL as int) {
        Some(m.cell(p.0 / (CELL as int), p.1 / (CELL as int)))
    } else {
        None
    }
}

/// The first wall met by the ray from step `k` on, before step `max_steps`, as
/// its step and id. The ray misses once a sample falls outside the map.
pub open spec fn walk(m: MapView, ray: Ray, k: int, max_steps: int) -> Option<(int, usize)>
    decreases max_steps - k,
{
    if k >= max_steps {
        None
    } else {
        match cell_under(m, sample(ray, k)) {
            None => None,
            Some(id) => if id == 0 {
                walk(m, ray, k + 1, max_steps)
            } else {
                Some((k, id))
            },
        }
    }
}

/// A hit that the walk reports lies at a later step, before the limit, on a
/// non-empty cell that has a colour.
pub proof fn lemma_walk_hit(m: MapView, ray: Ray, k: int, max_steps: int)
    requires
        m.wf(),
        walk(m, ray, k, max_steps) is Some,
    ensures
        ({
            let (j, id) = walk(m, ray, k, max_steps)->0;
            &&& k <= j < max_steps
            &&& id != 0
            &&& cell_under(m, sample(ray, j)) == Some(id)
            &&& (id as int) < m.palette.len()
        }),
    decreases max_steps - k,
{
    let s = sample(ray, k);
    if cell_under(m, s) == Some(0usize) {
        lemma_walk_hit(m, ray, k + 1, max_steps);
    } else {
        lemma_cell_in_range(m, s.0, s.1);
    }
}

proof fn lemma_cell_in_range(m: MapView, px: int, py: int)
    requires
        m.wf(),
        0 <= px < m.width * (CELL as int),
        0 <= py < m.height * (CELL as int),
    ensures
        m.in_bounds(px / (CELL as int), py / (CELL as int)),
        0 <= m.index(px / (CELL as int), py / (CELL as int)) < m.cells.len(),
        (m.cell(px / (CELL as int), py / (CELL as int)) as int) < m.palette.len(),
{
    assert(px / (CELL as int) < m.width) by (nonlinear_arith)
        requires
            0 <= px < m.width * (CELL as int),
    ;
    assert(py / (CELL as int) < m.height) by (nonlinear_arith)
        requires
            0 <= py < m.height * (CELL as int),
    ;
    crate::grid::lemma_index_in_range(m, px / (CELL as int), py / (CELL as int));
}

/// Whatever the direction, a hit at step `k` means that every earlier sample
/// lay in an empty cell inside the map and sample `k` lies in the wall: the
/// ray crossed into the wall during its last step, so the reported distance
/// `k` steps exceeds the distance to the crossing by less than one step.
pub proof fn lemma_hit_in_last_step(m: MapView, ray: Ray, max_steps: int)
    requires
        m.wf(),
        walk(m, ray, 0, max_steps) is Some,
    ensures
        ({
            let (k, id) = walk(m, ray, 0, max_steps)->0;
            &&& 0 <= k < max_steps
            &&& id != 0
            &&& cell_under(m, sample(ray, k)) == Some(id)
            &&& forall|j: int| 0 <= j < k ==> #[trigger] cell_under(m, sample(ray, j)) == Some(0usize)
        }),
{
    lemma_walk_hit(m, ray, 0, max_steps);
    lemma_walk_empty_before(m, ray, 0, max_steps);
}

proof fn lemma_walk_empty_before(m: MapView, ray: Ray, k: int, max_steps: int)
    requires
        walk(m, ray, k, max_steps) is Some,
    ensures
        ({
            let (hit_step, id) = walk(m, ray, k, max_steps)->0;
            forall|j: int| k <= j < hit_step ==> #[trigger] cell_under(m, sample(ray, j)) == Some(0usize)
        }),
    decreases max_steps - k,
{
    if cell_under(m, sample(ray, k)) == Some(0usize) {
        lemma_walk_empty_before(m, ray, k + 1, max_steps);
    }
}

/// On a map whose cells are all empty, no ray hits anything.
pub proof fn lemma_empty_map_misses(m: MapView, ray: Ray, k: int, max_steps: int)
    requires
        m.wf(),
        forall|i: int| 0 <= i < m.cells.len() ==> #[trigger] m.cells[i] == 0,
    ensures
        walk(m, ray, k, max_steps) is None,
    decreases max_steps - k,
{
    if k < max_steps {
        let s = sample(ray, k);
        if cell_under(m, s) is Some {
            lemma_cell_in_range(m, s.0, s.1);
            lemma_empty_map_misses(m, ray, k + 1, max_steps);
        }
    }
}

/// A ray heading east (`dx` positive and at most one cell, `dy` zero) from a
/// point inside the map, whose row is empty from its start up to the wall in
/// column `wx`, hits that wall at a step `k` whose travelled distance `k * dx`
/// is within one step of the distance `wx * CELL - ray.x` to the wall's face,
/// provided that distance plus one step fits in `max_steps` steps.
pub proof fn lemma_east_ray_hits_within_one_step(m: MapView, ray: Ray, wx: int, max_steps: int)
    requires
        m.wf(),
        ray.dy == 0,
        0 < ray.dx <= CELL,
        0 <= ray.x < wx * (CELL as int),
        0 <= ray.y < m.height * (CELL as int),
        wx < m.width,
        m.cell(wx, ray.y as int / (CELL as int)) != 0,
        forall|cx: int|
            ray.x as int / (CELL as int) <= cx < wx ==> #[trigger] m.cell(cx, ray.y as int / (CELL as int)) == 0,
        wx * (CELL as int) - ray.x + ray.dx <= max_steps * ray.dx,
    ensures
        ({
            let d = wx * (CELL as int) - ray.x;
            let r = walk(m, ray, 0, max_steps);
            let (k, id) = r->0;
            &&& r is Some
            &&& id == m.cell(wx, ray.y as int / (CELL as int))
            &&& d <= k * ray.dx < d + ray.dx
        }),
{
    lemma_east_walk(m, ray, wx, 0, max_steps);
}

proof fn lemma_east_walk(m: MapView, ray: Ray, wx: int, j: int, max_steps: int)
    requires
        m.wf(),
        ray.dy == 0,
        0 < ray.dx <= CELL,
        0 <= ray.x < wx * (CELL as int),
        0 <= ray.y < m.height * (CELL as int),
        wx < m.width,
        m.cell(wx, ray.y as int / (CELL as int)) != 0,
        forall|cx: int|
            ray.x as int / (CELL as int) <= cx < wx ==> #[trigger] m.cell(cx, ray.y as int / (CELL as int)) == 0,
        wx * (CELL as int) - ray.x + ray.dx <= max_steps * ray.dx,
        0 <= j,
        j * ray.dx < wx * (CELL as int) - ray.x + ray.dx,
    ensures
        ({
            let d = wx * (CELL as int) - ray.x;
            let r = walk(m, ray, j, max_steps);
            let (k, id) = r->0;
            &&& r is Some
            &&& id == m.cell(wx, ray.y as int / (CELL as int))
            &&& d <= k * ray.dx < d + ray.dx
        }),
    decreases max_steps - j,
{
    let c = CELL as int;
    let d = wx * c - ray.x;
    let px = ray.x + j * ray.dx;
    assert(j < max_steps) by (nonlinear_arith)
        requires
            j * ray.dx < d + ray.dx,
            d + ray.dx <= max_steps * ray.dx,
            ray.dx > 0,
    ;
    assert(j * ray.dy == 0);
    assert(sample(ray, j) == (px, ray.y as int));
    assert(0 <= j * ray.dx) by (nonlinear_arith)
        requires
            0 <= j,
            0 < ray.dx,
    ;
    assert(wx * c + c <= m.width * c) by (nonlinear_arith)
        requires
            wx < m.width,
            c > 0,
    ;
    lemma_cell_in_range(m, px, ray.y as int);
    if j * ray.dx >= d {
        assert(px / c == wx) by (nonlinear_arith)
            requires
                wx * c <= px < wx * c + c,
                c > 0,
        ;
    } else {
        assert(ray.x as int / c <= px / c < wx) by (nonlinear_arith)
            requires
                0 <= ray.x <= px < wx * c,
                c > 0,
        ;
        assert((j + 1) * ray.dx == j * ray.dx + ray.dx) by (nonlinear_arith);
        lemma_east_walk(m, ray, wx, j + 1, max_steps);
    }
}

/// Walks `ray` through `map` for at most `max_steps` steps and returns the
/// step and id of the first non-empty cell under it, or `None` when it leaves
/// the map or runs out of steps first.
pub fn cast_ray(map: &GridMap, ray: Ray, max_steps: u32) -> (r: Option<(u32, usize)>)
    requires
        map.wf(),
    ensures
        walk(map@, ray, 0, max_steps as int) == match r {
            Some((k, id)) => Some((k as int, id)),
            None => None,
        },
{
    let w = map.width();
    let h = map.height();
    let mut k: u32 = 0;
    while k < max_steps
        invariant
            map.wf(),
            w == map@.width,
            h == map@.height,
            k <= max_steps,
            walk(map@, ray, 0, max_steps as int) == walk(map@, ray, k as int, max_steps as int),
        decreases max_steps - k,
    {
        proof {
            assert(-0x8000_0000_0000_0000 * 0x1_0000_0000 <= (k as int) * (ray.dx as int) <= 0x8000_0000_0000_0000 * 0x1_0000_0000) by (nonlinear_arith)
                requires
                    0 <= k < 0x1_0000_0000,
                    -0x8000_0000_0000_0000 <= ray.dx < 0x8000_0000_0000_0000,
            ;
            assert(-0x8000_0000_0000_0000 * 0x1_0000_0000 <= (k as int) * (ray.dy as int) <= 0x8000_0000_0000_0000 * 0x1_0000_0000) by (nonlinear_arith)
                requires
                    0 <= k < 0x1_0000_0000,
                    -0x8000_0000_0000_0000 <= ray.dy < 0x8000_0000_0000_0000,
            ;
        }
        let px: i128 = ray.x as i128 + (k as i128) * (ray.dx as i128);
        let py: i128 = ray.y as i128 + (k as i128) * (ray.dy as i128);
        let ghost s = sample(ray, k as int);
        assert(s == (px as int, py as int));
        if px < 0 || py < 0 || px >= (w as i128) * 65536 || py >= (h as i128) * 65536 {
            return None;
        }
        proof {
            lemma_cell_in_range(map@, px as int, py as int);
        }
        let cx: u32 = ((px as u64) / 65536) as u32;
        let cy: u32 = ((py as u64) / 65536) as u32;
        match map.cell_at(cx, cy) {
            Ok(id) => {
                if id != 0 {
                    return Some((k, id));
                }
            },
            Err(_) => {
                return None;
            },
        }
        k = k + 1;
    }
    None
}

} // verus!
