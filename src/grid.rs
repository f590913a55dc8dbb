use vstd::prelude::*;

verus! {

/// A colour with 8-bit red, green and blue channels.
#[derive(Clone, Copy, Debug, PartialEq, Eq, Structural)]
pub struct Rgb {
    pub r: u8,
    pub g: u8,
    pub b: u8,
}

impl Rgb {
    pub open spec fn white_spec() -> Rgb {
        Rgb { r: 255, g: 255, b: 255 }
    }

    /// White, the colour of empty cells (id 0) and of rays that hit nothing.
    #[verifier::when_used_as_spec(white_spec)]
    pub fn white() -> (c: Rgb)
        ensures
            c == Rgb::white_spec(),
    {
        Rgb { r: 255, g: 255, b: 255 }
    }
}

/// Why a lookup in the map failed.
#[derive(Clone, Copy, Debug, PartialEq, Eq, Structural)]
pub enum MapError {
    OutOfBounds,
    UnknownCellId,
}

/// The abstract content of a map.
pub struct MapView {
    pub width: nat,
    pub height: nat,
    /// Row-major cell ids: the cell at `(x, y)` is at index `x + y * width`.
    pub cells: Seq<usize>,
    /// The colour of id `i` is `palette[i]`.
    pub palette: Seq<Rgb>,
}

impl MapView {
    pub open spec fn in_bounds(self, x: int, y: int) -> bool {
        0 <= x < self.width && 0 <= y < self.height
    }

    pub open spec fn index(self, x: int, y: int) -> int {
        x + y * self.width
    }

    pub open spec fn cell(self, x: int, y: int) -> usize {
        self.cells[self.index(x, y)]
    }

    /// Positive dimensions, one id per cell, white as the colour of id 0, and a
    /// palette entry for every id that occurs in a cell.
    pub open spec fn wf(self) -> bool {
        &&& self.width > 0
        &&& self.height > 0
        &&& self.cells.len() == self.width * self.height
        &&& self.palette.len() > 0
        &&& self.palette[0] == Rgb::white()
        &&& forall|i: int| 0 <= i < self.cells.len() ==> (#[trigger] self.cells[i] as int) < self.palette.len()
    }

    /// This map with the cell at `(x, y)` set to `id`.
    pub open spec fn painted(self, x: int, y: int, id: usize) -> MapView {
        MapView { cells: self.cells.update(self.index(x, y), id), ..self }
    }

    /// This map with one more palette entry.
    pub open spec fn with_color(self, c: Rgb) -> MapView {
        MapView { palette: self.palette.push(c), ..self }
    }
}

pub proof fn lemma_index_in_range(m: MapView, x: int, y: int)
    requires
        m.cells.len() == m.width * m.height,
        m.in_bounds(x, y),
    ensures
        0 <= y * m.width <= m.index(x, y) < m.cells.len(),
{
    assert(0 <= y * m.width && x + y * m.width < m.width * m.height) by (nonlinear_arith)
        requires
            0 <= x < m.width,
            0 <= y < m.height,
    ;
}

pub proof fn lemma_index_injective(m: MapView, x1: int, y1: int, x2: int, y2: int)
    requires
        m.in_bounds(x1, y1),
        m.in_bounds(x2, y2),
    ensures
        m.index(x1, y1) == m.index(x2, y2) <==> (x1 == x2 && y1 == y2),
{
    if y1 < y2 {
        assert(x1 + y1 * m.width < x2 + y2 * m.width) by (nonlinear_arith)
            requires
                0 <= x1 < m.width,
                0 <= x2,
                y1 < y2,
        ;
    } else if y2 < y1 {
        assert(x2 + y2 * m.width < x1 + y1 * m.width) by (nonlinear_arith)
            requires
                0 <= x2 < m.width,
                0 <= x1,
                y2 < y1,
        ;
    }
}

/// Reading a cell after painting one: the painted cell holds the new id, every
/// other cell keeps its id, and the palette invariant still holds when the id
/// has a colour.
pub proof fn lemma_painted_cell(m: MapView, x: int, y: int, id: usize, cx: int, cy: int)
    requires
        m.wf(),
        m.in_bounds(x, y),
        m.in_bounds(cx, cy),
        id < m.palette.len(),
    ensures
        m.painted(x, y, id).wf(),
        m.painted(x, y, id).cell(cx, cy) == if cx == x && cy == y {
            id
        } else {
            m.cell(cx, cy)
        },
{
    lemma_index_in_range(m, x, y);
    lemma_index_in_range(m, cx, cy);
    lemma_index_injective(m, x, y, cx, cy);
    let p = m.painted(x, y, id);
    assert forall|i: int| 0 <= i < p.cells.len() implies (#[trigger] p.cells[i] as int) < p.palette.len() by {
        if i != m.index(x, y) {
            assert(p.cells[i] == m.cells[i]);
        }
    }
}

/// A colour once assigned stays: where one palette extends another, as each
/// method that changes a map ensures of the palette before and after, an id
/// of the first has the same colour in both.
pub proof fn lemma_color_kept(before: MapView, after: MapView, id: int)
    requires
        before.palette.is_prefix_of(after.palette),
        0 <= id < before.palette.len(),
    ensures
        after.palette[id] == before.palette[id],
{
}

/// A grid of cell ids with a palette of colours.
pub struct GridMap {
    data: Vec<usize>,
    palette: Vec<Rgb>,
    width: u32,
    height: u32,
}

impl View for GridMap {
    type V = MapView;

    closed spec fn view(&self) -> MapView {
        MapView {
            width: self.width as nat,
            height: self.height as nat,
            cells: self.data@,
            palette: self.palette@,
        }
    }
}

impl GridMap {
    pub open spec fn wf(&self) -> bool {
        &&& self@.wf()
        &&& self@.width <= u32::MAX
        &&& self@.height <= u32::MAX
    }

    /// A map of `width` by `height` empty cells, whose palette holds white alone.
    pub fn new(width: u32, height: u32) -> (m: GridMap)
        requires
            width > 0,
            height > 0,
            width * height <= usize::MAX,
        ensures
            m.wf(),
            m@.width == width,
            m@.height == height,
            m@.cells == Seq::new((width * height) as nat, |i: int| 0usize),
            m@.palette == seq![Rgb::white()],
    {
        let n: usize = (width as usize) * (height as usize);
        let data: Vec<usize> = vec![0usize; n];
        let palette: Vec<Rgb> = vec![Rgb::white()];
        let m = GridMap { data, palette, width, height };
        assert(m@.cells =~= Seq::new((width * height) as nat, |i: int| 0usize));
        m
    }

    pub fn width(&self) -> (r: u32)
        ensures
            r == self@.width,
    {
        self.width
    }

    pub fn height(&self) -> (r: u32)
        ensures
            r == self@.height,
    {
        self.height
    }

    /// The number of cells, `width * height`.
    pub fn cell_count(&self) -> (r: usize)
        ensures
            r == self@.cells.len(),
    {
        self.data.len()
    }

    /// The number of palette entries, which is also the next id to be assigned.
    pub fn palette_len(&self) -> (r: usize)
        ensures
            r == self@.palette.len(),
    {
        self.palette.len()
    }

    /// The id of the cell at `(x, y)`.
    pub fn cell_at(&self, x: u32, y: u32) -> (r: Result<usize, MapError>)
        requires
            self.wf(),
        ensures
            self@.in_bounds(x as int, y as int) <==> r is Ok,
            r is Ok ==> r == Ok::<usize, MapError>(self@.cell(x as int, y as int)),
            r is Err ==> r == Err::<usize, MapError>(MapError::OutOfBounds),
    {
        if x < self.width && y < self.height {
            proof {
                assert(self@.width == self.width as nat);
                assert(self@.cells.len() == self.data.len());
                lemma_index_in_range(self@, x as int, y as int);
            }
            let i: usize = x as usize + (y as usize) * (self.width as usize);
            Ok(self.data[i])
        } else {
            Err(MapError::OutOfBounds)
        }
    }

    /// The colour of `id`.
    pub fn color_for(&self, id: usize) -> (r: Result<Rgb, MapError>)
        ensures
            (id < self@.palette.len()) <==> r is Ok,
            r is Ok ==> r == Ok::<Rgb, MapError>(self@.palette[id as int]),
            r is Err ==> r == Err::<Rgb, MapError>(MapError::UnknownCellId),
    {
        if id < self.palette.len() {
            Ok(self.palette[id])
        } else {
            Err(MapError::UnknownCellId)
        }
    }

    /// Sets the cell at `(x, y)` to `id`, which must already have a colour.
    pub fn paint(&mut self, x: u32, y: u32, id: usize)
        requires
            old(self).wf(),
            old(self)@.in_bounds(x as int, y as int),
            id < old(self)@.palette.len(),
        ensures
            final(self).wf(),
            final(self)@ == old(self)@.painted(x as int, y as int, id),
    {
        proof {
            assert(self@.width == self.width as nat);
            assert(self@.cells.len() == self.data.len());
            lemma_index_in_range(self@, x as int, y as int);
        }
        let i: usize = x as usize + (y as usize) * (self.width as usize);
        self.data.set(i, id);
    }

    /// Adds `color` to the palette and returns its id, the palette's former size.
    pub fn assign_color(&mut self, color: Rgb) -> (id: usize)
        requires
            old(self).wf(),
            old(self)@.palette.len() < usize::MAX,
        ensures
            final(self).wf(),
            id == old(self)@.palette.len(),
            final(self)@ == old(self)@.with_color(color),
    {
        let id = self.palette.len();
        self.palette.push(color);
        id
    }

    /// Sets the cells `(x, y0)` to `(x, y0 + len - 1)` to `id`.
    pub fn paint_column(&mut self, x: u32, y0: u32, len: u32, id: usize)
        requires
            old(self).wf(),
            x < old(self)@.width,
            y0 + len <= old(self)@.height,
            id < old(self)@.palette.len(),
        ensures
            final(self).wf(),
            final(self)@.width == old(self)@.width,
            final(self)@.height == old(self)@.height,
            final(self)@.palette == old(self)@.palette,
            forall|cx: int, cy: int|
                #![trigger final(self)@.cell(cx, cy)]
                old(self)@.in_bounds(cx, cy) ==> final(self)@.cell(cx, cy) == if cx == x && y0 <= cy
                    < y0 + len {
                    id
                } else {
                    old(self)@.cell(cx, cy)
                },
    {
        let ghost start = self@;
        let mut i: u32 = 0;
        while i < len
            invariant
                i <= len,
                self.wf(),
                x < start.width,
                y0 + len <= start.height,
                id < start.palette.len(),
                self@.width == start.width,
                self@.height == start.height,
                self@.palette == start.palette,
                forall|cx: int, cy: int|
                    #![trigger self@.cell(cx, cy)]
                    start.in_bounds(cx, cy) ==> self@.cell(cx, cy) == if cx == x && y0 <= cy < y0
                        + i {
                        id
                    } else {
                        start.cell(cx, cy)
                    },
            decreases len - i,
        {
            let ghost before = self@;
            self.paint(x, y0 + i, id);
            proof {
                assert forall|cx: int, cy: int| start.in_bounds(cx, cy) implies #[trigger] self@.cell(cx, cy)
                    == if cx == x && y0 <= cy < y0 + i + 1 {
                    id
                } else {
                    start.cell(cx, cy)
                } by {
                    lemma_painted_cell(before, x as int, (y0 + i) as int, id, cx, cy);
                    assert(before.cell(cx, cy) == if cx == x && y0 <= cy < y0 + i {
                        id
                    } else {
                        start.cell(cx, cy)
                    });
                }
            }
            i = i + 1;
        }
    }

    /// Sets the cells `(x0, y)` to `(x0 + len - 1, y)` to `id`.
    pub fn paint_row(&mut self, x0: u32, y: u32, len: u32, id: usize)
        requires
            old(self).wf(),
            x0 + len <= old(self)@.width,
            y < old(self)@.height,
            id < old(self)@.palette.len(),
        ensures
            final(self).wf(),
            final(self)@.width == old(self)@.width,
            final(self)@.height == old(self)@.height,
            final(self)@.palette == old(self)@.palette,
            forall|cx: int, cy: int|
                #![trigger final(self)@.cell(cx, cy)]
                old(self)@.in_bounds(cx, cy) ==> final(self)@.cell(cx, cy) == if cy == y && x0 <= cx
                    < x0 + len {
                    id
                } else {
                    old(self)@.cell(cx, cy)
                },
    {
        let ghost start = self@;
        let mut i: u32 = 0;
        while i < len
            invariant
                i <= len,
                self.wf(),
                x0 + len <= start.width,
                y < start.height,
                id < start.palette.len(),
                self@.width == start.width,
                self@.height == start.height,
                self@.palette == start.palette,
                forall|cx: int, cy: int|
                    #![trigger self@.cell(cx, cy)]
                    start.in_bounds(cx, cy) ==> self@.cell(cx, cy) == if cy == y && x0 <= cx < x0
                        + i {
                        id
                    } else {
                        start.cell(cx, cy)
                    },
            decreases len - i,
        {
            let ghost before = self@;
            self.paint(x0 + i, y, id);
            proof {
                assert forall|cx: int, cy: int| start.in_bounds(cx, cy) implies #[trigger] self@.cell(cx, cy)
                    == if cy == y && x0 <= cx < x0 + i + 1 {
                    id
                } else {
                    start.cell(cx, cy)
                } by {
                    lemma_painted_cell(before, (x0 + i) as int, y as int, id, cx, cy);
                    assert(before.cell(cx, cy) == if cy == y && x0 <= cx < x0 + i {
                        id
                    } else {
                        start.cell(cx, cy)
                    });
                }
            }
            i = i + 1;
        }
    }
}

} // verus!
