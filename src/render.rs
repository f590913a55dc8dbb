use vstd::prelude::*;

use crate::grid::{lemma_index_in_range, lemma_index_injective, GridMap, MapView, Rgb};
use crate::raycast::{cast_ray, lemma_walk_hit, walk, Ray};

verus! {

/// What the ray of one screen column met: the step of the hit and the cell id
/// and colour there; a ray that met nothing reports the step limit, id 0 and
/// white.
#[derive(Clone, Copy, Debug, PartialEq, Eq, Structural)]
pub struct ColumnHit {
    pub column: usize,
    pub steps: u32,
    pub id: usize,
    pub color: Rgb,
}

pub open spec fn column_hit(m: MapView, ray: Ray, max_steps: u32, column: int) -> ColumnHit {
    match walk(m, ray, 0, max_steps as int) {
        Some((k, id)) => ColumnHit { column: column as usize, steps: k as u32, id, color: m.palette[id as int] },
        None => ColumnHit { column: column as usize, steps: max_steps, id: 0, color: Rgb::white() },
    }
}

/// The ray from `(x, y)` that moves by `step` at each step.
pub open spec fn ray_from(x: i64, y: i64, step: (i64, i64)) -> Ray {
    Ray { x, y, dx: step.0, dy: step.1 }
}

/// Casts one ray per column from `(x, y)`, column `i` moving by `steps[i]` at
/// each step, and reports the columns in order.
pub fn cast(map: &GridMap, x: i64, y: i64, steps: &Vec<(i64, i64)>, max_steps: u32) -> (r: Vec<
    ColumnHit,
>)
    requires
        map.wf(),
    ensures
        r@.len() == steps@.len(),
        forall|i: int|
            0 <= i < r@.len() ==> #[trigger] r@[i] == column_hit(
                map@,
                ray_from(x, y, steps@[i]),
                max_steps,
                i,
            ),
{
    let mut r: Vec<ColumnHit> = Vec::new();
    let mut i: usize = 0;
    while i < steps.len()
        invariant
            map.wf(),
            i <= steps@.len(),
            r@.len() == i,
            forall|j: int|
                0 <= j < i ==> #[trigger] r@[j] == column_hit(
                    map@,
                    ray_from(x, y, steps@[j]),
                    max_steps,
                    j,
                ),
        decreases steps@.len() - i,
    {
        let (dx, dy) = steps[i];
        let ray = Ray { x, y, dx, dy };
        let hit = match cast_ray(map, ray, max_steps) {
            Some((k, id)) => {
                proof {
                    lemma_walk_hit(map@, ray, 0, max_steps as int);
                }
                let color = match map.color_for(id) {
                    Ok(c) => c,
                    Err(_) => Rgb::white(),
                };
                ColumnHit { column: i, steps: k, id, color }
            },
            None => ColumnHit { column: i, steps: max_steps, id: 0, color: Rgb::white() },
        };
        r.push(hit);
        i = i + 1;
    }
    r
}

/// Half the height on screen of a wall `steps` steps away: `scale / steps`,
/// with a distance of 0 counted as 1.
pub fn projected_half_height(scale: u32, steps: u32) -> (r: u32)
    ensures
        r == scale / if steps == 0 {
            1
        } else {
            steps
        },
{
    if steps == 0 {
        scale
    } else {
        scale / steps
    }
}

/// One screen column of the first-person view: the half height of its wall
/// and the wall's colour.
#[derive(Clone, Copy, Debug, PartialEq, Eq, Structural)]
pub struct WallColumn {
    pub column: usize,
    pub half_height: u32,
    pub color: Rgb,
}

/// A filled rectangle of the top-down view.
#[derive(Clone, Copy, Debug, PartialEq, Eq, Structural)]
pub struct Tile {
    pub x: u32,
    pub y: u32,
    pub w: u32,
    pub h: u32,
    pub color: Rgb,
}

/// The tile of cell `(cx, cy)` in a top-down view `side` pixels square: cells
/// are `side / width` by `side / height` pixels, laid out in grid order.
pub open spec fn tile_of(m: MapView, side: u32, cx: int, cy: int) -> Tile {
    Tile {
        x: (cx * (side as int / m.width as int)) as u32,
        y: (cy * (side as int / m.height as int)) as u32,
        w: (side as int / m.width as int) as u32,
        h: (side as int / m.height as int) as u32,
        color: m.palette[m.cell(cx, cy) as int],
    }
}

impl GridMap {
    /// The top-down view: one tile per cell, at the cell's own index.
    pub fn render_map(&self, side: u32) -> (r: Vec<Tile>)
        requires
            self.wf(),
        ensures
            r@.len() == self@.cells.len(),
            forall|cx: int, cy: int|
                self@.in_bounds(cx, cy) ==> r@[self@.index(cx, cy)] == #[trigger] tile_of(
                    self@,
                    side,
                    cx,
                    cy,
                ),
    {
        let w = self.width();
        let h = self.height();
        let tw = side / w;
        let th = side / h;
        let n = self.cell_count();
        let mut r: Vec<Tile> = Vec::new();
        let mut i: usize = 0;
        let mut cx: u32 = 0;
        let mut cy: u32 = 0;
        while i < n
            invariant
                self.wf(),
                w == self@.width,
                h == self@.height,
                tw == side / w,
                th == side / h,
                n == self@.cells.len(),
                r@.len() == i,
                i <= n,
                cx < w,
                i == self@.index(cx as int, cy as int),
                i < n ==> cy < h,
                forall|a: int, b: int|
                    self@.in_bounds(a, b) && self@.index(a, b) < i ==> r@[self@.index(a, b)]
                        == #[trigger] tile_of(self@, side, a, b),
            decreases n - i,
        {
            proof {
                lemma_index_in_range(self@, cx as int, cy as int);
                assert(cx * tw <= side && cy * th <= side) by (nonlinear_arith)
                    requires
                        cx < w,
                        cy < h,
                        tw == side / w,
                        th == side / h,
                        w > 0,
                        h > 0,
                ;
            }
            let id = match self.cell_at(cx, cy) {
                Ok(id) => id,
                Err(_) => 0,
            };
            let color = match self.color_for(id) {
                Ok(c) => c,
                Err(_) => Rgb::white(),
            };
            let ghost old_r = r@;
            r.push(Tile { x: cx * tw, y: cy * th, w: tw, h: th, color });
            proof {
                assert forall|a: int, b: int|
                    self@.in_bounds(a, b) && self@.index(a, b) < i + 1 implies r@[self@.index(a, b)]
                        == #[trigger] tile_of(self@, side, a, b) by {
                    lemma_index_injective(self@, a, b, cx as int, cy as int);
                    if self@.index(a, b) < i {
                        assert(r@[self@.index(a, b)] == old_r[self@.index(a, b)]);
                    }
                }
            }
            i = i + 1;
            if cx + 1 == w {
                assert(i == (cy as int + 1) * (w as int)) by (nonlinear_arith)
                    requires
                        i == cx + 1 + cy * w,
                        cx + 1 == w,
                ;
                cx = 0;
                cy = cy + 1;
                proof {
                    assert(i < n ==> cy < h) by (nonlinear_arith)
                        requires
                            i == (cy as int) * (w as int),
                            n == w * h,
                            w > 0,
                    ;
                }
            } else {
                cx = cx + 1;
            }
        }
        proof {
            assert forall|a: int, b: int| self@.in_bounds(a, b) implies r@[self@.index(a, b)]
                == #[trigger] tile_of(self@, side, a, b) by {
                lemma_index_in_range(self@, a, b);
            }
        }
        r
    }

    /// The first-person view from `(x, y)`: for each column, the hit of `cast`
    /// turned into a half height by `projected_half_height` with `scale`.
    pub fn render_world(&self, x: i64, y: i64, steps: &Vec<(i64, i64)>, max_steps: u32, scale: u32) -> (r:
        Vec<WallColumn>)
        requires
            self.wf(),
        ensures
            r@.len() == steps@.len(),
            forall|i: int|
                0 <= i < r@.len() ==> #[trigger] r@[i] == ({
                    let hit = column_hit(self@, ray_from(x, y, steps@[i]), max_steps, i);
                    WallColumn {
                        column: i as usize,
                        half_height: scale / if hit.steps == 0 {
                            1
                        } else {
                            hit.steps
                        },
                        color: hit.color,
                    }
                }),
    {
        let hits = cast(self, x, y, steps, max_steps);
        let mut r: Vec<WallColumn> = Vec::new();
        let mut i: usize = 0;
        while i < hits.len()
            invariant
                i <= hits@.len(),
                hits@.len() == steps@.len(),
                r@.len() == i,
                forall|j: int|
                    0 <= j < hits@.len() ==> #[trigger] hits@[j] == column_hit(
                        self@,
                        ray_from(x, y, steps@[j]),
                        max_steps,
                        j,
                    ),
                forall|j: int|
                    0 <= j < i ==> #[trigger] r@[j] == ({
                        let hit = column_hit(self@, ray_from(x, y, steps@[j]), max_steps, j);
                        WallColumn {
                            column: j as usize,
                            half_height: scale / if hit.steps == 0 {
                                1
                            } else {
                                hit.steps
                            },
                            color: hit.color,
                        }
                    }),
            decreases hits@.len() - i,
        {
            let hit = hits[i];
            let half_height = projected_half_height(scale, hit.steps);
            r.push(WallColumn { column: i, half_height, color: hit.color });
            i = i + 1;
        }
        r
    }
}

} // verus!
