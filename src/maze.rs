use vstd::prelude::*;

use crate::grid::{lemma_index_in_range, GridMap, MapView, Rgb};
use crate::source::ThreadRandom;

verus! {

/// Regions at this recursion depth are not split any further.
pub const MAX_DEPTH: u32 = 4;

/// The most splits that a region at `depth` can give rise to: one for the
/// region itself and as many again for each of its two halves.
pub open spec fn max_splits(depth: int) -> int
    decreases MAX_DEPTH - depth,
{
    if depth >= MAX_DEPTH {
        0
    } else {
        1 + 2 * max_splits(depth + 1)
    }
}

proof fn lemma_max_splits_nonneg(depth: int)
    ensures
        max_splits(depth) >= 0,
    decreases MAX_DEPTH - depth,
{
    if depth < MAX_DEPTH {
        lemma_max_splits_nonneg(depth + 1);
    }
}

/// However the splits fall, a region from depth 0 on is split at most 15
/// times: one split, then two regions at each of the further levels up to
/// `MAX_DEPTH`.
pub proof fn lemma_split_bound(depth: int)
    requires
        0 <= depth,
    ensures
        0 <= max_splits(depth) <= max_splits(0),
        max_splits(0) == 15,
    decreases MAX_DEPTH - depth,
{
    assert(max_splits(4) == 0);
    assert(max_splits(3) == 1);
    assert(max_splits(2) == 3);
    assert(max_splits(1) == 7);
    assert(max_splits(0) == 15);
    lemma_max_splits_nonneg(depth);
}

/// `after` comes from `before` by painting freshly coloured walls inside the
/// rectangle `[x, x + w) x [y, y + h)`: same dimensions, the old palette kept as
/// a prefix, and each cell either unchanged or, inside the rectangle, set to an
/// id that `before` had not assigned yet.
pub open spec fn carved_within(before: MapView, after: MapView, x: int, y: int, w: int, h: int) -> bool {
    &&& after.width == before.width
    &&& after.height == before.height
    &&& before.palette.is_prefix_of(after.palette)
    &&& forall|cx: int, cy: int|
        #![trigger after.cell(cx, cy)]
        before.in_bounds(cx, cy) ==> after.cell(cx, cy) == before.cell(cx, cy) || (x <= cx < x + w
            && y <= cy < y + h && after.cell(cx, cy) >= before.palette.len())
}

proof fn lemma_carved_trans(
    a: MapView,
    b: MapView,
    c: MapView,
    x: int,
    y: int,
    w: int,
    h: int,
    x1: int,
    y1: int,
    w1: int,
    h1: int,
)
    requires
        carved_within(a, b, x, y, w, h),
        carved_within(b, c, x1, y1, w1, h1),
        x <= x1,
        x1 + w1 <= x + w,
        y <= y1,
        y1 + h1 <= y + h,
    ensures
        carved_within(a, c, x, y, w, h),
{
    assert forall|cx: int, cy: int| a.in_bounds(cx, cy) implies #[trigger] c.cell(cx, cy) == a.cell(
        cx,
        cy,
    ) || (x <= cx < x + w && y <= cy < y + h && c.cell(cx, cy) >= a.palette.len()) by {
        assert(b.cell(cx, cy) == a.cell(cx, cy) || (x <= cx < x + w && y <= cy < y + h && b.cell(
            cx,
            cy,
        ) >= a.palette.len()));
    }
}

/// The id of the wall along the top row.
pub const TOP_WALL: usize = 1;

/// The id of the wall along the bottom row.
pub const BOTTOM_WALL: usize = 2;

/// The id of the wall along the left column.
pub const LEFT_WALL: usize = 3;

/// The id of the wall along the right column.
pub const RIGHT_WALL: usize = 4;

/// The id of cell `(x, y)` in a `w` by `h` map with walls around it: the walls
/// are painted top, bottom, left, right, so at a corner the later one wins.
pub open spec fn border_id(w: int, h: int, x: int, y: int) -> usize {
    if x == w - 1 {
        RIGHT_WALL
    } else if x == 0 {
        LEFT_WALL
    } else if y == h - 1 {
        BOTTOM_WALL
    } else if y == 0 {
        TOP_WALL
    } else {
        0
    }
}

pub open spec fn on_border(w: int, h: int, x: int, y: int) -> bool {
    x == 0 || y == 0 || x == w - 1 || y == h - 1
}

/// Whether a region of `width` by `height` at `depth` is split: it is below
/// `MAX_DEPTH`, both sides are longer than 3, and the side that is split is
/// longer than 4, so that a line at least 2 cells from either end exists.
pub open spec fn splits(width: int, height: int, depth: int) -> bool {
    &&& width > 3
    &&& height > 3
    &&& depth < MAX_DEPTH
    &&& !(width <= height && height <= 4)
}

/// The wall that splitting `[x, x + w) x [y, y + h)` leaves in `after`: when
/// the region is wider than high, a column `s` at least 2 cells from either
/// side whose top cell holds the first id that `before` had not assigned and
/// whose cells in the region are all walls; otherwise such a row.
pub open spec fn split_wall(before: MapView, after: MapView, x: int, y: int, w: int, h: int) -> bool {
    if w > h {
        exists|s: int|
            #![trigger after.cell(s, y)]
            x + 2 <= s < x + w - 2 && after.cell(s, y) == before.palette.len() && forall|cy: int|
                y <= cy < y + h ==> #[trigger] after.cell(s, cy) != 0
    } else {
        exists|s: int|
            #![trigger after.cell(x, s)]
            y + 2 <= s < y + h - 2 && after.cell(x, s) == before.palette.len() && forall|cx: int|
                x <= cx < x + w ==> #[trigger] after.cell(cx, s) != 0
    }
}

/// Where the maze generator gets its random choices from.
pub trait SplitSource {
    /// A position in `[lo, hi)`.
    fn pick(&mut self, lo: u32, hi: u32) -> (r: u32)
        requires
            lo < hi,
        ensures
            lo <= r < hi,
    ;

    /// A colour for a new wall.
    fn color(&mut self) -> Rgb;
}

impl GridMap {
    /// One split of the region `[x, x + width) x [y, y + height)`: gives
    /// `color` the next id and paints a wall of it along column `at` across
    /// the region when it is wider than high, else along row `at`. Returns the
    /// wall's id.
    pub fn split_region(&mut self, x: u32, y: u32, width: u32, height: u32, at: u32, color: Rgb) -> (id:
        usize)
        requires
            old(self).wf(),
            x + width <= old(self)@.width,
            y + height <= old(self)@.height,
            old(self)@.palette.len() < usize::MAX,
            width > height ==> x <= at < x + width,
            width <= height ==> y <= at < y + height,
        ensures
            final(self).wf(),
            id == old(self)@.palette.len(),
            final(self)@.palette == old(self)@.palette.push(color),
            final(self)@.width == old(self)@.width,
            final(self)@.height == old(self)@.height,
            forall|cx: int, cy: int|
                #![trigger final(self)@.cell(cx, cy)]
                old(self)@.in_bounds(cx, cy) ==> final(self)@.cell(cx, cy) == if (width > height && cx
                    == at && y <= cy < y + height) || (width <= height && cy == at && x <= cx < x
                    + width) {
                    id
                } else {
                    old(self)@.cell(cx, cy)
                },
    {
        let id = self.assign_color(color);
        if width > height {
            self.paint_column(at, y, height, id);
        } else {
            self.paint_row(x, at, width, id);
        }
        id
    }
    /// Recursively splits the rectangle `[x, x + width) x [y, y + height)` with
    /// walls, each split painted in a colour of its own, taking the choices from
    /// `rng`.
    ///
    /// A region stops being split at depth `MAX_DEPTH`, or when a side is 3 or
    /// shorter. Otherwise it is split across its longer side (across the rows
    /// when the sides are equal) at a line at least 2 cells from either end; a
    /// region whose longer side is 4 has no such line and is left as it is. The
    /// two parts are split in turn at `depth + 1`, the part before the line
    /// first; the part after it includes the line.
    pub fn recursive_maze_with<R: SplitSource>(
        &mut self,
        rng: &mut R,
        x: u32,
        y: u32,
        width: u32,
        height: u32,
        depth: u32,
    )
        requires
            old(self).wf(),
            x + width <= old(self)@.width,
            y + height <= old(self)@.height,
            old(self)@.palette.len() + max_splits(depth as int) <= usize::MAX,
        ensures
            final(self).wf(),
            carved_within(old(self)@, final(self)@, x as int, y as int, width as int, height as int),
            final(self)@.palette.len() <= old(self)@.palette.len() + max_splits(depth as int),
            !splits(width as int, height as int, depth as int) ==> final(self)@ == old(self)@,
            splits(width as int, height as int, depth as int) ==> final(self)@.palette.len()
                > old(self)@.palette.len(),
            splits(width as int, height as int, depth as int) ==> split_wall(
                old(self)@,
                final(self)@,
                x as int,
                y as int,
                width as int,
                height as int,
            ),
            width > 0 && height > 0 ==> final(self)@.cell(x as int, y as int) == old(self)@.cell(
                x as int,
                y as int,
            ),
        decreases MAX_DEPTH - depth,
    {
        proof {
            lemma_max_splits_nonneg(depth as int);
            lemma_max_splits_nonneg(depth + 1);
        }
        if width <= 3 || height <= 3 || depth >= MAX_DEPTH {
            assert(carved_within(old(self)@, self@, x as int, y as int, width as int, height as int));
            return ;
        }
        if width <= height && height <= 4 {
            assert(carved_within(old(self)@, self@, x as int, y as int, width as int, height as int));
            return ;
        }
        let ghost start = self@;
        let c = rng.color();
        let s = if width > height {
            rng.pick(x + 2, x + width - 2)
        } else {
            rng.pick(y + 2, y + height - 2)
        };
        let id = self.split_region(x, y, width, height, s, c);
        let ghost walled = self@;
        assert(carved_within(start, walled, x as int, y as int, width as int, height as int)) by {
            assert forall|cx: int, cy: int| start.in_bounds(cx, cy) implies #[trigger] walled.cell(
                cx,
                cy,
            ) == start.cell(cx, cy) || (x <= cx < x + width && y <= cy < y + height && walled.cell(
                cx,
                cy,
            ) >= start.palette.len()) by {}
        }
        if width > height {
            self.recursive_maze_with(rng, x, y, s - x, height, depth + 1);
            let ghost first = self@;
            proof {
                lemma_carved_trans(start, walled, first, x as int, y as int, width as int, height as int,
                    x as int, y as int, (s - x) as int, height as int);
            }
            self.recursive_maze_with(rng, s, y, x + width - s, height, depth + 1);
            proof {
                lemma_carved_trans(start, first, self@, x as int, y as int, width as int, height as int,
                    s as int, y as int, (x + width - s) as int, height as int);
                let fin = self@;
                assert(walled.cell(x as int, y as int) == start.cell(x as int, y as int));
                assert(fin.cell(x as int, y as int) == first.cell(x as int, y as int));
                assert(first.cell(s as int, y as int) == walled.cell(s as int, y as int));
                assert forall|cy: int| y <= cy < y + height implies #[trigger] fin.cell(s as int, cy)
                    != 0 by {
                    assert(first.cell(s as int, cy) == walled.cell(s as int, cy));
                }
                assert(fin.cell(s as int, y as int) == start.palette.len());
                assert(split_wall(start, fin, x as int, y as int, width as int, height as int));
            }
        } else {
            self.recursive_maze_with(rng, x, y, width, s - y, depth + 1);
            let ghost first = self@;
            proof {
                lemma_carved_trans(start, walled, first, x as int, y as int, width as int, height as int,
                    x as int, y as int, width as int, (s - y) as int);
            }
            self.recursive_maze_with(rng, x, s, width, y + height - s, depth + 1);
            proof {
                lemma_carved_trans(start, first, self@, x as int, y as int, width as int, height as int,
                    x as int, s as int, width as int, (y + height - s) as int);
                let fin = self@;
                assert(walled.cell(x as int, y as int) == start.cell(x as int, y as int));
                assert(fin.cell(x as int, y as int) == first.cell(x as int, y as int));
                assert(first.cell(x as int, s as int) == walled.cell(x as int, s as int));
                assert forall|cx: int| x <= cx < x + width implies #[trigger] fin.cell(cx, s as int)
                    != 0 by {
                    assert(first.cell(cx, s as int) == walled.cell(cx, s as int));
                }
                assert(fin.cell(x as int, s as int) == start.palette.len());
                assert(split_wall(start, fin, x as int, y as int, width as int, height as int));
            }
        }
    }

    /// `recursive_maze_with` on the thread-local random generator.
    pub fn recursive_maze(&mut self, x: u32, y: u32, width: u32, height: u32, depth: u32)
        requires
            old(self).wf(),
            x + width <= old(self)@.width,
            y + height <= old(self)@.height,
            old(self)@.palette.len() + max_splits(depth as int) <= usize::MAX,
        ensures
            final(self).wf(),
            carved_within(old(self)@, final(self)@, x as int, y as int, width as int, height as int),
            final(self)@.palette.len() <= old(self)@.palette.len() + max_splits(depth as int),
            !splits(width as int, height as int, depth as int) ==> final(self)@ == old(self)@,
            splits(width as int, height as int, depth as int) ==> final(self)@.palette.len()
                > old(self)@.palette.len(),
            splits(width as int, height as int, depth as int) ==> split_wall(
                old(self)@,
                final(self)@,
                x as int,
                y as int,
                width as int,
                height as int,
            ),
            width > 0 && height > 0 ==> final(self)@.cell(x as int, y as int) == old(self)@.cell(
                x as int,
                y as int,
            ),
    {
        let mut rng = ThreadRandom;
        self.recursive_maze_with(&mut rng, x, y, width, height, depth);
    }

    /// A map with a wall along each edge, and nothing inside. The walls have ids
    /// `TOP_WALL`, `BOTTOM_WALL`, `LEFT_WALL` and `RIGHT_WALL`, with the given
    /// colours.
    pub fn bordered(width: u32, height: u32, top: Rgb, bottom: Rgb, left: Rgb, right: Rgb) -> (m:
        GridMap)
        requires
            width > 0,
            height > 0,
            width * height <= usize::MAX,
        ensures
            m.wf(),
            m@.width == width,
            m@.height == height,
            m@.palette == seq![Rgb::white(), top, bottom, left, right],
            forall|cx: int, cy: int|
                m@.in_bounds(cx, cy) ==> #[trigger] m@.cell(cx, cy) == border_id(
                    width as int,
                    height as int,
                    cx,
                    cy,
                ),
    {
        let mut m = GridMap::new(width, height);
        let ghost blank = m@;
        let t = m.assign_color(top);
        let b = m.assign_color(bottom);
        let l = m.assign_color(left);
        let r = m.assign_color(right);
        assert(m@.palette =~= seq![Rgb::white(), top, bottom, left, right]);
        let ghost colored = m@;
        assert forall|cx: int, cy: int| colored.in_bounds(cx, cy) implies #[trigger] colored.cell(cx, cy)
            == 0 by {
            lemma_index_in_range(blank, cx, cy);
        }
        m.paint_row(0, 0, width, t);
        m.paint_row(0, height - 1, width, b);
        m.paint_column(0, 0, height, l);
        m.paint_column(width - 1, 0, height, r);
        m
    }

    /// `new_with_walls` taking its colours and maze choices from `rng`: the
    /// walls of `bordered`, in the first four colours drawn, then a maze carved
    /// into the cells inside them.
    pub fn new_with_walls_from<R: SplitSource>(rng: &mut R, width: u32, height: u32) -> (m: GridMap)
        requires
            width > 0,
            height > 0,
            width * height <= usize::MAX,
        ensures
            m.wf(),
            m@.width == width,
            m@.height == height,
            5 <= m@.palette.len() <= 5 + max_splits(0),
            forall|cx: int, cy: int|
                m@.in_bounds(cx, cy) && on_border(width as int, height as int, cx, cy)
                    ==> #[trigger] m@.cell(cx, cy) == border_id(width as int, height as int, cx, cy),
            forall|cx: int, cy: int|
                m@.in_bounds(cx, cy) && !on_border(width as int, height as int, cx, cy) ==> (
                #[trigger] m@.cell(cx, cy) == 0 || m@.cell(cx, cy) >= 5),
            splits(width - 2, height - 2, 0) ==> m@.palette.len() >= 6 && exists|cx: int, cy: int|
                #![trigger m@.cell(cx, cy)]
                1 <= cx < width - 1 && 1 <= cy < height - 1 && m@.cell(cx, cy) != 0,
    {
        let top = rng.color();
        let bottom = rng.color();
        let left = rng.color();
        let right = rng.color();
        let mut m = GridMap::bordered(width, height, top, bottom, left, right);
        proof {
            lemma_split_bound(0);
        }
        if width > 2 && height > 2 {
            let ghost walled = m@;
            m.recursive_maze_with(rng, 1, 1, width - 2, height - 2, 0);
            proof {
                if splits(width - 2, height - 2, 0) {
                    let done = m@;
                    if width - 2 > height - 2 {
                        let sx = choose|sx: int|
                            #![trigger done.cell(sx, 1)]
                            3 <= sx < 1 + (width - 2) - 2 && done.cell(sx, 1) == walled.palette.len() && forall|
                                cy: int,
                            | 1 <= cy < 1 + (height - 2) ==> #[trigger] done.cell(sx, cy) != 0;
                        assert(done.cell(sx, 1) != 0);
                    } else {
                        let sy = choose|sy: int|
                            #![trigger done.cell(1, sy)]
                            3 <= sy < 1 + (height - 2) - 2 && done.cell(1, sy) == walled.palette.len() && forall|
                                cx: int,
                            | 1 <= cx < 1 + (width - 2) ==> #[trigger] done.cell(cx, sy) != 0;
                        assert(done.cell(1, sy) != 0);
                    }
                }
            }
            assert forall|cx: int, cy: int| m@.in_bounds(cx, cy) implies #[trigger] m@.cell(cx, cy)
                == walled.cell(cx, cy) || (!on_border(width as int, height as int, cx, cy) && m@.cell(
                cx,
                cy,
            ) >= 5) by {
                assert(walled.cell(cx, cy) == border_id(width as int, height as int, cx, cy));
            }
        }
        m
    }

    /// A map with a wall along each edge and a maze inside, from the
    /// thread-local random generator.
    pub fn new_with_walls(width: u32, height: u32) -> (m: GridMap)
        requires
            width > 0,
            height > 0,
            width * height <= usize::MAX,
        ensures
            m.wf(),
            m@.width == width,
            m@.height == height,
            5 <= m@.palette.len() <= 5 + max_splits(0),
            forall|cx: int, cy: int|
                m@.in_bounds(cx, cy) && on_border(width as int, height as int, cx, cy)
                    ==> #[trigger] m@.cell(cx, cy) == border_id(width as int, height as int, cx, cy),
            forall|cx: int, cy: int|
                m@.in_bounds(cx, cy) && !on_border(width as int, height as int, cx, cy) ==> (
                #[trigger] m@.cell(cx, cy) == 0 || m@.cell(cx, cy) >= 5),
            splits(width - 2, height - 2, 0) ==> m@.palette.len() >= 6 && exists|cx: int, cy: int|
                #![trigger m@.cell(cx, cy)]
                1 <= cx < width - 1 && 1 <= cy < height - 1 && m@.cell(cx, cy) != 0,
    {
        let mut rng = ThreadRandom;
        GridMap::new_with_walls_from(&mut rng, width, height)
    }
}

} // verus!
