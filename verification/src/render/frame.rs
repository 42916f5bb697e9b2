use vstd::prelude::*;
use super::cell::{
    cell_rgb, cell_red, cell_green, cell_blue, cell_char, color_escape, csi, cursor_to, unpack_cell,
    push_color, push_cursor_to,
};

verus! {

// ---------------------------------------------------------------------------
// Frames
// ---------------------------------------------------------------------------

/// The cell a cleared frame holds: a space, coloured black.
pub open spec fn blank_cell() -> u32 {
    32
}

/// The bytes that draw cell `k` of a frame: the colour escape of the cell when its colour
/// differs from that of the cell before it in row-major order (the first cell always
/// has one), then the cell's character.
pub open spec fn cell_bytes(cells: Seq<u32>, k: int) -> Seq<u8> {
    let c = cells[k];
    let color = if k == 0 || cell_rgb(c) != cell_rgb(cells[k - 1]) {
        color_escape(cell_red(c), cell_green(c), cell_blue(c))
    } else {
        Seq::<u8>::empty()
    };
    color.push(cell_char(c))
}

/// The bytes that draw the first `x` cells of row `y`.
pub open spec fn row_bytes(cells: Seq<u32>, width: nat, y: nat, x: nat) -> Seq<u8>
    decreases x,
{
    if x == 0 {
        Seq::<u8>::empty()
    } else {
        row_bytes(cells, width, y, (x - 1) as nat) + cell_bytes(cells, y * width + x - 1)
    }
}

/// The bytes that draw the first `y` rows, each row ended by a newline.
pub open spec fn rows_bytes(cells: Seq<u32>, width: nat, y: nat) -> Seq<u8>
    decreases y,
{
    if y == 0 {
        Seq::<u8>::empty()
    } else {
        rows_bytes(cells, width, (y - 1) as nat) + row_bytes(cells, width, (y - 1) as nat, width).push(
            10u8,
        )
    }
}

/// Whether two cells have the same red, green and blue.
pub open spec fn same_colour(a: u32, b: u32) -> bool {
    cell_red(a) == cell_red(b) && cell_green(a) == cell_green(b) && cell_blue(a) == cell_blue(b)
}

/// Two cells have the same colour part exactly when their red, green and blue agree.
pub proof fn lemma_rgb_is_colour(a: u32, b: u32)
    ensures
        (cell_rgb(a) == cell_rgb(b)) == same_colour(a, b),
{
    assert((a / 0x100 == b / 0x100) == (a / 0x100_0000 == b / 0x100_0000 && (a / 0x1_0000) % 0x100
        == (b / 0x1_0000) % 0x100 && (a / 0x100) % 0x100 == (b / 0x100) % 0x100)) by (bit_vector);
}

/// The colour in effect when a cell's character is drawn is the cell's own: its
/// character comes right after an escape of its own red, green and blue, except when
/// the cell before it has the same red, green and blue, in which case the character
/// follows that cell's character directly.
pub proof fn lemma_cell_colour_in_effect(cells: Seq<u32>, k: int)
    requires
        0 <= k < cells.len(),
    ensures
        ({
            let c = cells[k];
            let own = color_escape(cell_red(c), cell_green(c), cell_blue(c)).push(cell_char(c));
            &&& (k == 0 || !same_colour(c, cells[k - 1])) ==> cell_bytes(cells, k) == own
            &&& (k > 0 && same_colour(c, cells[k - 1])) ==> cell_bytes(cells, k) == seq![cell_char(c)]
        }),
{
    if k > 0 {
        lemma_rgb_is_colour(cells[k], cells[k - 1]);
    }
    let c = cells[k];
    assert(Seq::<u8>::empty().push(cell_char(c)) =~= seq![cell_char(c)]);
}

/// The bytes that draw a whole frame: cursor home (ESC `[H`), the rows, then the
/// attribute reset (ESC `[0m`).
pub open spec fn frame_bytes(cells: Seq<u32>, width: nat, height: nat) -> Seq<u8> {
    csi().push(72u8) + rows_bytes(cells, width, height) + csi() + seq![48u8, 109u8]
}

/// What a frame buffer holds: its size and its cells in row-major order.
pub struct FrameView {
    pub width: nat,
    pub height: nat,
    pub cells: Seq<u32>,
}

/// The character cells of the terminal screen, one `u32` per cell (see [`make_cell`]),
/// in row-major order.
pub struct FrameBuffer {
    cells: Vec<u32>,
    width: usize,
    height: usize,
}

impl View for FrameBuffer {
    type V = FrameView;

    closed spec fn view(&self) -> FrameView {
        FrameView { width: self.width as nat, height: self.height as nat, cells: self.cells@ }
    }
}

/// Proves that `y * width + x` lies inside a `width` by `height` grid.
proof fn lemma_grid_index(x: int, y: int, width: int, height: int)
    requires
        0 <= x < width,
        0 <= y < height,
    ensures
        0 <= y * width + x < width * height,
        y * width + x + 1 <= width * height,
{
    assert(y * width + x < width * height) by (nonlinear_arith)
        requires
            0 <= x < width,
            0 <= y < height,
    ;
    assert(0 <= y * width) by (nonlinear_arith)
        requires
            0 <= y,
            0 <= width,
    ;
}

impl FrameBuffer {
    #[verifier::type_invariant]
    spec fn inv(self) -> bool {
        self.cells.len() == self.width * self.height
    }

    /// Moves the contents out, leaving an empty frame behind.
    fn take(&mut self) -> (taken: Self)
        ensures
            taken@ == old(self)@,
            taken.cells@.len() == taken.width * taken.height,
    {
        proof {
            use_type_invariant(&*self);
        }
        let mut taken = FrameBuffer { cells: Vec::new(), width: 0, height: 0 };
        std::mem::swap(self, &mut taken);
        taken
    }

    /// A blank frame of `width` by `height` cells.
    pub fn new(width: u16, height: u16) -> (fb: Self)
        ensures
            fb@.width == width,
            fb@.height == height,
            fb@.cells == Seq::new(width as nat * height as nat, |i: int| blank_cell()),
    {
        assert(width as nat * height as nat <= u32::MAX) by (nonlinear_arith)
            requires
                width <= u16::MAX,
                height <= u16::MAX,
        ;
        let n: usize = width as usize * height as usize;
        let mut cells: Vec<u32> = Vec::new();
        let mut i: usize = 0;
        while i < n
            invariant
                i <= n,
                cells@ == Seq::new(i as nat, |j: int| blank_cell()),
            decreases n - i,
        {
            cells.push(32u32);
            i = i + 1;
            assert(cells@ =~= Seq::new(i as nat, |j: int| blank_cell()));
        }
        FrameBuffer { cells, width: width as usize, height: height as usize }
    }

    /// The number of columns.
    pub fn width(&self) -> (w: usize)
        ensures
            w == self@.width,
    {
        self.width
    }

    /// The number of rows.
    pub fn height(&self) -> (h: usize)
        ensures
            h == self@.height,
    {
        self.height
    }

    /// The cells, in row-major order.
    pub fn cells(&self) -> (cells: &Vec<u32>)
        ensures
            cells@ == self@.cells,
            cells@.len() == self@.width * self@.height,
    {
        proof {
            use_type_invariant(self);
        }
        &self.cells
    }

    /// Replaces the frame by a blank one of the given size.
    pub fn resize(&mut self, width: u16, height: u16)
        ensures
            final(self)@.width == width,
            final(self)@.height == height,
            final(self)@.cells == Seq::new(width as nat * height as nat, |i: int| blank_cell()),
    {
        *self = FrameBuffer::new(width, height);
    }

    /// Blanks every cell.
    pub fn clear(&mut self)
        ensures
            final(self)@.width == old(self)@.width,
            final(self)@.height == old(self)@.height,
            final(self)@.cells == Seq::new(old(self)@.cells.len(), |i: int| blank_cell()),
    {
        proof {
            use_type_invariant(&*self);
        }
        let FrameBuffer { mut cells, width, height } = self.take();
        let n = cells.len();
        let mut i: usize = 0;
        while i < n
            invariant
                i <= n,
                cells@.len() == n,
                forall|j: int| 0 <= j < i ==> cells@[j] == blank_cell(),
            decreases n - i,
        {
            cells.set(i, 32u32);
            i = i + 1;
        }
        assert(cells@ =~= Seq::new(n as nat, |i: int| blank_cell()));
        *self = FrameBuffer { cells, width, height };
    }

    /// The cell in column `x` of row `y`.
    pub fn get(&self, x: usize, y: usize) -> (cell: u32)
        requires
            x < self@.width,
            y < self@.height,
        ensures
            cell == self@.cells[y * self@.width + x],
    {
        proof {
            use_type_invariant(self);
            lemma_grid_index(x as int, y as int, self.width as int, self.height as int);
        }
        self.cells[y * self.width + x]
    }

    /// Writes `cell` into column `x` of row `y`.
    pub fn set(&mut self, x: usize, y: usize, cell: u32)
        requires
            x < old(self)@.width,
            y < old(self)@.height,
        ensures
            final(self)@.width == old(self)@.width,
            final(self)@.height == old(self)@.height,
            final(self)@.cells == old(self)@.cells.update(y * old(self)@.width + x, cell),
    {
        proof {
            use_type_invariant(&*self);
            lemma_grid_index(x as int, y as int, self.width as int, self.height as int);
        }
        let FrameBuffer { mut cells, width, height } = self.take();
        cells.set(y * width + x, cell);
        *self = FrameBuffer { cells, width, height };
    }

    /// The bytes that draw this frame on the terminal: cursor home, every row
    /// followed by a newline, a colour escape wherever the colour changes, and a final
    /// attribute reset.
    pub fn encode(&self) -> (out: Vec<u8>)
        ensures
            out@ == frame_bytes(self@.cells, self@.width, self@.height),
    {
        proof {
            use_type_invariant(self);
        }
        let w = self.width;
        let h = self.height;
        let ghost cells = self.cells@;
        let n = self.cells.len();
        let mut out: Vec<u8> = Vec::new();
        out.push(0x1Bu8);
        out.push(91u8);
        out.push(72u8);
        assert(out@ =~= csi().push(72u8));
        let mut last_rgb: u32 = u32::MAX;
        let mut idx: usize = 0;
        let mut y: usize = 0;
        while y < h
            invariant
                w == self.width,
                h == self.height,
                cells == self.cells@,
                cells.len() == w * h,
                n == w * h,
                y <= h,
                idx == y * w,
                out@ == csi().push(72u8) + rows_bytes(cells, w as nat, y as nat),
                idx == 0 ==> last_rgb == u32::MAX,
                idx > 0 ==> last_rgb == cell_rgb(cells[idx - 1]),
            decreases h - y,
        {
            let ghost row_start = out@;
            let mut x: usize = 0;
            while x < w
                invariant
                    w == self.width,
                    h == self.height,
                    cells == self.cells@,
                    cells.len() == w * h,
                    n == w * h,
                    y < h,
                    x <= w,
                    idx == y * w + x,
                    out@ == row_start + row_bytes(cells, w as nat, y as nat, x as nat),
                    idx == 0 ==> last_rgb == u32::MAX,
                    idx > 0 ==> last_rgb == cell_rgb(cells[idx - 1]),
                decreases w - x,
            {
                proof {
                    lemma_grid_index(x as int, y as int, w as int, h as int);
                }
                let cell = self.cells[idx];
                let rgb = cell >> 8u32;
                assert(cell >> 8u32 == cell / 0x100) by (bit_vector);
                assert(cell / 0x100 < u32::MAX) by (bit_vector);
                let ghost before = out@;
                if rgb != last_rgb {
                    let (r, g, b, _ch) = unpack_cell(cell);
                    push_color(&mut out, r, g, b);
                    last_rgb = rgb;
                }
                out.push(cell as u8);
                assert(cell as u8 == cell % 0x100) by (bit_vector);
                assert(out@ =~= before + cell_bytes(cells, idx as int));
                idx = idx + 1;
                x = x + 1;
                assert(row_bytes(cells, w as nat, y as nat, x as nat) == row_bytes(
                    cells,
                    w as nat,
                    y as nat,
                    (x - 1) as nat,
                ) + cell_bytes(cells, y * w + x - 1));
                assert(out@ =~= row_start + row_bytes(cells, w as nat, y as nat, x as nat));
            }
            out.push(10u8);
            y = y + 1;
            assert(idx == y * w) by (nonlinear_arith)
                requires
                    idx == (y - 1) * w + w,
            ;
            assert(out@ =~= csi().push(72u8) + rows_bytes(cells, w as nat, y as nat));
        }
        out.push(0x1Bu8);
        out.push(91u8);
        out.push(48u8);
        out.push(109u8);
        assert(out@ =~= frame_bytes(cells, w as nat, h as nat));
        out
    }
}


// ---------------------------------------------------------------------------
// Incremental frames
// ---------------------------------------------------------------------------

/// The bytes that redraw cell `k` (column `x` of row `y`) when it differs from the frame
/// on screen: a cursor move when the cell before it in the row was not redrawn (or it
/// starts the row), a colour escape after a move or when its colour differs from the
/// cell before it, then its character. An unchanged cell gives no bytes.
pub open spec fn diff_cell_bytes(cells: Seq<u32>, prev: Seq<u32>, k: int, y: nat, x: nat) -> Seq<
    u8,
> {
    if cells[k] == prev[k] {
        Seq::<u8>::empty()
    } else {
        let c = cells[k];
        let moved = x == 0 || cells[k - 1] == prev[k - 1];
        let mv = if moved {
            cursor_to(y + 1, x + 1)
        } else {
            Seq::<u8>::empty()
        };
        let color = if moved || cell_rgb(c) != cell_rgb(cells[k - 1]) {
            color_escape(cell_red(c), cell_green(c), cell_blue(c))
        } else {
            Seq::<u8>::empty()
        };
        (mv + color).push(cell_char(c))
    }
}

/// The redraw bytes of the first `x` cells of row `y`.
pub open spec fn diff_row_bytes(cells: Seq<u32>, prev: Seq<u32>, width: nat, y: nat, x: nat) -> Seq<
    u8,
>
    decreases x,
{
    if x == 0 {
        Seq::<u8>::empty()
    } else {
        diff_row_bytes(cells, prev, width, y, (x - 1) as nat) + diff_cell_bytes(
            cells,
            prev,
            y * width + x - 1,
            y,
            (x - 1) as nat,
        )
    }
}

/// The redraw bytes of the first `y` rows.
pub open spec fn diff_rows_bytes(cells: Seq<u32>, prev: Seq<u32>, width: nat, y: nat) -> Seq<u8>
    decreases y,
{
    if y == 0 {
        Seq::<u8>::empty()
    } else {
        diff_rows_bytes(cells, prev, width, (y - 1) as nat) + diff_row_bytes(
            cells,
            prev,
            width,
            (y - 1) as nat,
            width,
        )
    }
}

/// The bytes that turn the frame `prev` on screen into the frame `cells`: the redraw
/// bytes of every changed cell, then an attribute reset (ESC `[0m`) when anything
/// was redrawn. Nothing at all when the frames are equal.
pub open spec fn frame_diff_bytes(cells: Seq<u32>, prev: Seq<u32>, width: nat, height: nat) -> Seq<
    u8,
> {
    let body = diff_rows_bytes(cells, prev, width, height);
    if body.len() == 0 {
        body
    } else {
        body + csi() + seq![48u8, 109u8]
    }
}

/// The colour in effect when a redrawn cell's character is written is the cell's own:
/// after a cursor move the cell's colour escape always follows; without a move, the
/// escape is left out only when the cell redrawn just before it has the same red,
/// green and blue. An unchanged cell gives no bytes.
pub proof fn lemma_diff_cell_colour_in_effect(cells: Seq<u32>, prev: Seq<u32>, k: int, y: nat, x: nat)
    requires
        0 <= k < cells.len(),
        prev.len() == cells.len(),
        x > 0 ==> k >= 1,
    ensures
        cells[k] == prev[k] ==> diff_cell_bytes(cells, prev, k, y, x) == Seq::<u8>::empty(),
        ({
            let c = cells[k];
            let own = color_escape(cell_red(c), cell_green(c), cell_blue(c)).push(cell_char(c));
            let moved = x == 0 || cells[k - 1] == prev[k - 1];
            let b = diff_cell_bytes(cells, prev, k, y, x);
            &&& (cells[k] != prev[k] && moved) ==> b == cursor_to(y + 1, x + 1) + own
            &&& (cells[k] != prev[k] && !moved && !same_colour(c, cells[k - 1])) ==> b == own
            &&& (cells[k] != prev[k] && !moved && same_colour(c, cells[k - 1])) ==> b == seq![cell_char(c)]
        }),
{
    if k > 0 {
        lemma_rgb_is_colour(cells[k], cells[k - 1]);
    }
    let c = cells[k];
    let own = color_escape(cell_red(c), cell_green(c), cell_blue(c)).push(cell_char(c));
    assert((cursor_to(y + 1, x + 1) + color_escape(cell_red(c), cell_green(c), cell_blue(c))).push(cell_char(c)) =~= cursor_to(y + 1, x + 1) + own);
    assert((Seq::<u8>::empty() + color_escape(cell_red(c), cell_green(c), cell_blue(c))).push(cell_char(c)) =~= own);
    assert((Seq::<u8>::empty() + Seq::<u8>::empty()).push(cell_char(c)) =~= seq![cell_char(c)]);
}

/// Redrawing a frame over itself gives no bytes: after the frame on screen is brought
/// up to date, an unchanged frame costs nothing to draw.
pub proof fn lemma_diff_of_same_frame_is_empty(cells: Seq<u32>, width: nat, height: nat)
    ensures
        frame_diff_bytes(cells, cells, width, height) == Seq::<u8>::empty(),
{
    lemma_diff_rows_same(cells, width, height);
}

proof fn lemma_diff_rows_same(cells: Seq<u32>, width: nat, y: nat)
    ensures
        diff_rows_bytes(cells, cells, width, y) == Seq::<u8>::empty(),
    decreases y,
{
    if y > 0 {
        lemma_diff_rows_same(cells, width, (y - 1) as nat);
        lemma_diff_row_same(cells, width, (y - 1) as nat, width);
        assert(diff_rows_bytes(cells, cells, width, y) =~= Seq::<u8>::empty());
    }
}

proof fn lemma_diff_row_same(cells: Seq<u32>, width: nat, y: nat, x: nat)
    ensures
        diff_row_bytes(cells, cells, width, y, x) == Seq::<u8>::empty(),
    decreases x,
{
    if x > 0 {
        lemma_diff_row_same(cells, width, y, (x - 1) as nat);
        assert(diff_row_bytes(cells, cells, width, y, x) =~= Seq::<u8>::empty());
    }
}

impl FrameBuffer {
    /// The bytes that turn `prev`, the frame now on screen, into this frame, redrawing
    /// only the cells that changed (see [`frame_diff_bytes`]).
    pub fn encode_diff(&self, prev: &FrameBuffer) -> (out: Vec<u8>)
        requires
            prev@.cells.len() == self@.cells.len(),
        ensures
            out@ == frame_diff_bytes(self@.cells, prev@.cells, self@.width, self@.height),
    {
        proof {
            use_type_invariant(self);
            use_type_invariant(prev);
        }
        let w = self.width;
        let h = self.height;
        let ghost cells = self.cells@;
        let ghost old_cells = prev.cells@;
        let n = self.cells.len();
        let mut out: Vec<u8> = Vec::new();
        let mut last_rgb: u32 = u32::MAX;
        let mut cursor_row: usize = usize::MAX;
        let mut cursor_col: usize = usize::MAX;
        let mut idx: usize = 0;
        let mut y: usize = 0;
        while y < h
            invariant
                w == self.width,
                h == self.height,
                cells == self.cells@,
                old_cells == prev.cells@,
                cells.len() == w * h,
                old_cells.len() == cells.len(),
                n == w * h,
                y <= h,
                idx == y * w,
                out@ == diff_rows_bytes(cells, old_cells, w as nat, y as nat),
                cursor_row != y,
            decreases h - y,
        {
            let ghost row_start = out@;
            let mut x: usize = 0;
            while x < w
                invariant
                    w == self.width,
                    h == self.height,
                    cells == self.cells@,
                    old_cells == prev.cells@,
                    cells.len() == w * h,
                    old_cells.len() == cells.len(),
                    n == w * h,
                    y < h,
                    x <= w,
                    idx == y * w + x,
                    out@ == row_start + diff_row_bytes(cells, old_cells, w as nat, y as nat, x as nat),
                    x == 0 ==> cursor_row != y,
                    x > 0 && cells[idx - 1] != old_cells[idx - 1] ==> cursor_row == y && cursor_col
                        == x && last_rgb == cell_rgb(cells[idx - 1]),
                    x > 0 && cells[idx - 1] == old_cells[idx - 1] ==> cursor_col == usize::MAX,
                decreases w - x,
            {
                proof {
                    lemma_grid_index(x as int, y as int, w as int, h as int);
                }
                let cell = self.cells[idx];
                let ghost before = out@;
                if cell == prev.cells[idx] {
                    cursor_col = usize::MAX;
                } else {
                    let moved = cursor_row != y || cursor_col != x;
                    if moved {
                        push_cursor_to(&mut out, y + 1, x + 1);
                        cursor_row = y;
                        cursor_col = x;
                        last_rgb = u32::MAX;
                    }
                    let rgb = cell >> 8u32;
                    assert(cell >> 8u32 == cell / 0x100) by (bit_vector);
                    assert(cell / 0x100 < u32::MAX) by (bit_vector);
                    if rgb != last_rgb {
                        let (r, g, b, _ch) = unpack_cell(cell);
                        push_color(&mut out, r, g, b);
                        last_rgb = rgb;
                    }
                    out.push(cell as u8);
                    assert(cell as u8 == cell % 0x100) by (bit_vector);
                    cursor_col = cursor_col + 1;
                }
                assert(out@ =~= before + diff_cell_bytes(
                    cells,
                    old_cells,
                    idx as int,
                    y as nat,
                    x as nat,
                ));
                idx = idx + 1;
                x = x + 1;
                assert(out@ =~= row_start + diff_row_bytes(
                    cells,
                    old_cells,
                    w as nat,
                    y as nat,
                    x as nat,
                ));
            }
            cursor_row = y;
            y = y + 1;
            assert(idx == y * w) by (nonlinear_arith)
                requires
                    idx == (y - 1) * w + w,
            ;
            assert(out@ =~= diff_rows_bytes(cells, old_cells, w as nat, y as nat));
        }
        if out.len() > 0 {
            out.push(0x1Bu8);
            out.push(91u8);
            out.push(48u8);
            out.push(109u8);
        }
        assert(out@ =~= frame_diff_bytes(cells, old_cells, w as nat, h as nat));
        out
    }

    /// Makes this frame a copy of `other`, which has as many cells.
    pub fn copy_from(&mut self, other: &FrameBuffer)
        requires
            other@.cells.len() == old(self)@.cells.len(),
        ensures
            final(self)@.width == old(self)@.width,
            final(self)@.height == old(self)@.height,
            final(self)@.cells == other@.cells,
    {
        let FrameBuffer { mut cells, width, height } = self.take();
        let n = cells.len();
        let mut i: usize = 0;
        while i < n
            invariant
                i <= n,
                cells@.len() == n,
                other@.cells.len() == n,
                forall|j: int| 0 <= j < i ==> cells@[j] == other@.cells[j],
            decreases n - i,
        {
            let c = other.cells[i];
            cells.set(i, c);
            i = i + 1;
        }
        assert(cells@ =~= other@.cells);
        *self = FrameBuffer { cells, width, height };
    }
}



} // verus!
