//! Panel geometry: presets, rectangles and the split of a frame's body into
//! header/body areas for every panel.
use vstd::prelude::*;

verus! {

/// Height of a panel header in logical pixels (96 dpi); scaled before use.
pub const HEADER_H: i32 = 28;

/// Height of the frame toolbar in logical pixels (96 dpi); scaled before use.
pub const TOOLBAR_H: i32 = 32;

/// `v` fits in an `i32`.
pub open spec fn fits_i32(v: int) -> bool {
    i32::MIN <= v <= i32::MAX
}

/// Integer division rounding toward zero, as Rust's `/` does on signed integers.
pub open spec fn trunc_div(a: int, b: int) -> int {
    if (a >= 0) == (b > 0) || a == 0 {
        if b > 0 { a / b } else { (-a) / (-b) }
    } else {
        if b > 0 { -((-a) / b) } else { -(a / (-b)) }
    }
}

pub open spec fn min_int(a: int, b: int) -> int {
    if a <= b { a } else { b }
}

pub open spec fn max_int(a: int, b: int) -> int {
    if a >= b { a } else { b }
}

/// How a frame's body is divided into panels.
#[derive(Clone, Copy, PartialEq, Eq, Debug, Structural)]
pub enum Preset {
    Grid2x2,
    Cols2,
    Rows2,
}

impl Preset {
    /// Number of panel columns.
    pub open spec fn columns(self) -> int {
        match self {
            Preset::Grid2x2 => 2,
            Preset::Cols2 => 2,
            Preset::Rows2 => 1,
        }
    }

    /// Number of panel rows.
    pub open spec fn rows(self) -> int {
        match self {
            Preset::Grid2x2 => 2,
            Preset::Cols2 => 1,
            Preset::Rows2 => 2,
        }
    }

    /// Number of panels of the preset.
    pub open spec fn panels(self) -> int {
        match self {
            Preset::Grid2x2 => 4,
            Preset::Cols2 => 2,
            Preset::Rows2 => 2,
        }
    }

    /// The text of the preset's toolbar button.
    pub open spec fn label_text(self) -> Seq<char> {
        match self {
            Preset::Grid2x2 => "4分割"@,
            Preset::Cols2 => "縦2分割"@,
            Preset::Rows2 => "横2分割"@,
        }
    }

    pub fn panel_count(self) -> (n: usize)
        ensures
            n == self.panels(),
    {
        match self {
            Preset::Grid2x2 => 4,
            Preset::Cols2 | Preset::Rows2 => 2,
        }
    }

    pub fn label(self) -> (s: &'static str)
        ensures
            s@ == self.label_text(),
    {
        match self {
            Preset::Grid2x2 => "4分割",
            Preset::Cols2 => "縦2分割",
            Preset::Rows2 => "横2分割",
        }
    }

    /// (columns, rows) of the preset's grid.
    fn grid(self) -> (g: (usize, usize))
        ensures
            g.0 == self.columns(),
            g.1 == self.rows(),
    {
        match self {
            Preset::Grid2x2 => (2, 2),
            Preset::Cols2 => (2, 1),
            Preset::Rows2 => (1, 2),
        }
    }
}

/// A preset's panel count is its number of columns times its number of rows.
pub proof fn lemma_panels_are_grid_cells(p: Preset)
    ensures
        p.panels() == p.columns() * p.rows(),
        1 <= p.columns() <= 2,
        1 <= p.rows() <= 2,
{
}

/// An axis-aligned rectangle in pixels: origin (`x`, `y`), width `w`, height `h`.
#[derive(Clone, Copy, PartialEq, Eq, Debug, Default, Structural)]
pub struct Rect {
    pub x: i32,
    pub y: i32,
    pub w: i32,
    pub h: i32,
}

impl Rect {
    /// The point lies in the half-open area `[x, x + w) x [y, y + h)`.
    pub open spec fn holds(self, px: int, py: int) -> bool {
        &&& self.x <= px < self.x + self.w
        &&& self.y <= py < self.y + self.h
    }

    /// Half-open containment test. The right and bottom edges are computed
    /// exactly, so the test is correct even where `x + w` leaves the `i32` range.
    pub fn contains(&self, px: i32, py: i32) -> (b: bool)
        ensures
            b == self.holds(px as int, py as int),
    {
        let right = self.x as i64 + self.w as i64;
        let bottom = self.y as i64 + self.h as i64;
        px >= self.x && (px as i64) < right && py >= self.y && (py as i64) < bottom
    }
}

/// One panel: its header strip and the body below it.
#[derive(Clone, Copy, PartialEq, Eq, Debug, Structural)]
pub struct PanelArea {
    pub header: Rect,
    pub body: Rect,
}

/// Start of cell `i` when `len` is split into `n` cells from `start`.
pub open spec fn axis_start(start: int, len: int, n: int, i: int) -> int {
    start + trunc_div(len, n) * i
}

/// Length of cell `i`: every cell gets `len / n`, the last one also the remainder.
pub open spec fn axis_len(len: int, n: int, i: int) -> int {
    if i == n - 1 {
        len - trunc_div(len, n) * (n - 1)
    } else {
        trunc_div(len, n)
    }
}

/// The split of `len` into `n` cells computes without leaving the `i32` range.
pub open spec fn axis_defined(start: int, len: int, n: int) -> bool {
    &&& n >= 1
    &&& forall|i: int|
        0 <= i < n ==> fits_i32(#[trigger] (trunc_div(len, n) * i)) && fits_i32(
            axis_start(start, len, n, i),
        )
    &&& fits_i32(trunc_div(len, n) * (n - 1))
    &&& fits_i32(axis_len(len, n, n - 1))
}

/// The cell of panel `k` (row-major) before the header is cut off.
pub open spec fn cell_of(preset: Preset, area: Rect, k: int) -> Rect {
    let c = k % preset.columns();
    let r = k / preset.columns();
    Rect {
        x: axis_start(area.x as int, area.w as int, preset.columns(), c) as i32,
        y: axis_start(area.y as int, area.h as int, preset.rows(), r) as i32,
        w: axis_len(area.w as int, preset.columns(), c) as i32,
        h: axis_len(area.h as int, preset.rows(), r) as i32,
    }
}

/// Header height of a cell: the header height, clipped to the cell.
pub open spec fn header_height(cell: Rect, header_h: i32) -> int {
    min_int(header_h as int, cell.h as int)
}

/// A cell split into a header of height `min(header_h, h)` and the body below it,
/// whose height is never negative.
pub open spec fn split_cell(cell: Rect, header_h: i32) -> PanelArea {
    let hh = header_height(cell, header_h);
    PanelArea {
        header: Rect { x: cell.x, y: cell.y, w: cell.w, h: hh as i32 },
        body: Rect {
            x: cell.x,
            y: (cell.y + hh) as i32,
            w: cell.w,
            h: max_int(cell.h - hh, 0) as i32,
        },
    }
}

/// Panel `k` of the layout.
pub open spec fn panel_at(preset: Preset, area: Rect, header_h: i32, k: int) -> PanelArea {
    split_cell(cell_of(preset, area, k), header_h)
}

/// The computation of all panels stays in the `i32` range.
pub open spec fn layout_defined(preset: Preset, area: Rect, header_h: i32) -> bool {
    &&& axis_defined(area.x as int, area.w as int, preset.columns())
    &&& axis_defined(area.y as int, area.h as int, preset.rows())
    &&& forall|k: int|
        0 <= k < preset.panels() ==> {
            let cell = #[trigger] cell_of(preset, area, k);
            &&& fits_i32(cell.y + header_height(cell, header_h))
            &&& fits_i32(cell.h - header_height(cell, header_h))
        }
}

/// `n` equal cells along an axis; the remainder of the division goes to the last cell.
fn split_axis(start: i32, len: i32, n: i32) -> (cells: Vec<(i32, i32)>)
    requires
        axis_defined(start as int, len as int, n as int),
    ensures
        cells@.len() == n,
        forall|i: int|
            0 <= i < n ==> (#[trigger] cells@[i]).0 == axis_start(start as int, len as int, n as int, i)
                && cells@[i].1 == axis_len(len as int, n as int, i),
{
    let base = len / n;
    assert(base == trunc_div(len as int, n as int));
    let mut cells: Vec<(i32, i32)> = Vec::new();
    let mut i: i32 = 0;
    while i < n
        invariant
            0 <= i <= n,
            base == trunc_div(len as int, n as int),
            axis_defined(start as int, len as int, n as int),
            cells@.len() == i,
            forall|j: int|
                0 <= j < i ==> (#[trigger] cells@[j]).0 == axis_start(start as int, len as int, n as int, j)
                    && cells@[j].1 == axis_len(len as int, n as int, j),
        decreases n - i,
    {
        assert(fits_i32(trunc_div(len as int, n as int) * (i as int)));
        assert(fits_i32(axis_start(start as int, len as int, n as int, i as int)));
        let s = start + base * i;
        let l = if i == n - 1 {
            len - base * (n - 1)
        } else {
            base
        };
        cells.push((s, l));
        i = i + 1;
    }
    cells
}

/// The header and body areas of every panel of `preset` in `area`, row-major
/// (left to right, then top to bottom). `header_h` is the header height in pixels.
pub fn panel_areas(preset: Preset, area: Rect, header_h: i32) -> (panels: Vec<PanelArea>)
    requires
        layout_defined(preset, area, header_h),
    ensures
        panels@.len() == preset.panels(),
        forall|k: int|
            0 <= k < preset.panels() ==> #[trigger] panels@[k] == panel_at(preset, area, header_h, k),
{
    proof {
        lemma_panels_are_grid_cells(preset);
    }
    let (cols, rows) = preset.grid();
    let xs = split_axis(area.x, area.w, cols as i32);
    let ys = split_axis(area.y, area.h, rows as i32);
    let total = cols * rows;
    let mut panels: Vec<PanelArea> = Vec::new();
    let mut k: usize = 0;
    while k < total
        invariant
            total == preset.panels(),
            cols == preset.columns(),
            rows == preset.rows(),
            1 <= cols <= 2,
            1 <= rows <= 2,
            total == cols * rows,
            k <= total,
            layout_defined(preset, area, header_h),
            xs@.len() == cols,
            ys@.len() == rows,
            forall|i: int|
                0 <= i < cols ==> (#[trigger] xs@[i]).0 == axis_start(area.x as int, area.w as int, cols as int, i)
                    && xs@[i].1 == axis_len(area.w as int, cols as int, i),
            forall|i: int|
                0 <= i < rows ==> (#[trigger] ys@[i]).0 == axis_start(area.y as int, area.h as int, rows as int, i)
                    && ys@[i].1 == axis_len(area.h as int, rows as int, i),
            panels@.len() == k,
            forall|j: int| 0 <= j < k ==> #[trigger] panels@[j] == panel_at(preset, area, header_h, j),
        decreases total - k,
    {
        let c = k % cols;
        let r = k / cols;
        assert(r < rows) by (nonlinear_arith)
            requires
                r == k / cols,
                k < cols * rows,
                1 <= cols,
        ;
        let (x, w) = xs[c];
        let (y, h) = ys[r];
        let cell = Rect { x, y, w, h };
        assert(cell == cell_of(preset, area, k as int));
        let ghost kk = k as int;
        assert(fits_i32(cell.y + header_height(cell, header_h))) by {
            assert(cell_of(preset, area, kk) == cell);
        }
        let hh = if header_h < cell.h {
            header_h
        } else {
            cell.h
        };
        let rest = cell.h - hh;
        let body_h = if rest > 0 {
            rest
        } else {
            0
        };
        let p = PanelArea {
            header: Rect { x: cell.x, y: cell.y, w: cell.w, h: hh },
            body: Rect { x: cell.x, y: cell.y + hh, w: cell.w, h: body_h },
        };
        assert(p == panel_at(preset, area, header_h, k as int));
        panels.push(p);
        k = k + 1;
    }
    panels
}

/// Splitting an axis tiles it: each cell ends where the next one starts and the
/// last cell ends at `start + len`. Every cell but the last has length `len / n`.
pub proof fn lemma_axis_tiles(start: int, len: int, n: int, i: int)
    requires
        n >= 1,
        0 <= i < n,
    ensures
        i < n - 1 ==> axis_start(start, len, n, i) + axis_len(len, n, i) == axis_start(
            start,
            len,
            n,
            i + 1,
        ),
        i == n - 1 ==> axis_start(start, len, n, i) + axis_len(len, n, i) == start + len,
        i < n - 1 ==> axis_len(len, n, i) == trunc_div(len, n),
        axis_start(start, len, n, 0) == start,
{
    let b = trunc_div(len, n);
    assert(b * (i + 1) == b * i + b) by (nonlinear_arith);
    assert(b * 0 == 0);
}

/// Within a panel, the header sits on top of the body. With a non-negative
/// header height and cell height, header and body together fill the cell exactly;
/// a cell lower than the header gets a body of height zero.
pub proof fn lemma_panel_stacks(cell: Rect, header_h: i32)
    requires
        header_h >= 0,
        cell.h >= 0,
        fits_i32(cell.y + header_height(cell, header_h)),
    ensures
        split_cell(cell, header_h).header.y == cell.y,
        split_cell(cell, header_h).body.y == cell.y + split_cell(cell, header_h).header.h,
        split_cell(cell, header_h).header.h + split_cell(cell, header_h).body.h == cell.h,
        cell.h <= header_h ==> split_cell(cell, header_h).body.h == 0,
        split_cell(cell, header_h).header.x == cell.x && split_cell(cell, header_h).body.x == cell.x,
        split_cell(cell, header_h).header.w == cell.w && split_cell(cell, header_h).body.w == cell.w,
{
}

/// Whether a value computed in `i64` fits in an `i32`.
pub(crate) fn fits(v: i64) -> (b: bool)
    ensures
        b == fits_i32(v as int),
{
    v >= i32::MIN as i64 && v <= i32::MAX as i64
}

/// Whether splitting `len` into `n` (1 or 2) cells computes within `i32`.
fn axis_computable(start: i32, len: i32, n: i32) -> (b: bool)
    requires
        1 <= n <= 2,
    ensures
        b == axis_defined(start as int, len as int, n as int),
{
    let base = len / n;
    assert(base == trunc_div(len as int, n as int));
    let b64 = base as i64;
    let bl: i64 = if n == 2 {
        b64
    } else {
        0
    };
    assert(bl == trunc_div(len as int, n as int) * (n - 1)) by {
        if n == 2 {
            assert(trunc_div(len as int, n as int) * (n - 1) == trunc_div(len as int, n as int) * 1);
        } else {
            assert(trunc_div(len as int, n as int) * (n - 1) == trunc_div(len as int, n as int) * 0);
        }
    }
    let ok = fits(bl) && fits(len as i64 - bl) && fits(start as i64) && fits(start as i64 + bl);
    proof {
        let b = trunc_div(len as int, n as int);
        assert(b * 0 == 0);
        if ok {
            assert forall|i: int| 0 <= i < n implies fits_i32(#[trigger] (b * i)) && fits_i32(
                axis_start(start as int, len as int, n as int, i),
            ) by {
                assert(i == 0 || i == n - 1);
            }
        }
        if axis_defined(start as int, len as int, n as int) {
            assert(fits_i32(b * (n - 1)));
            assert(fits_i32(axis_start(start as int, len as int, n as int, n - 1)));
        }
    }
    ok
}

/// Whether [`panel_areas`] computes within the `i32` range for these arguments
/// (its precondition).
pub fn layout_computable(preset: Preset, area: Rect, header_h: i32) -> (b: bool)
    ensures
        b == layout_defined(preset, area, header_h),
{
    proof {
        lemma_panels_are_grid_cells(preset);
    }
    let (cols, rows) = preset.grid();
    if !axis_computable(area.x, area.w, cols as i32) || !axis_computable(area.y, area.h, rows as i32) {
        return false;
    }
    let xs = split_axis(area.x, area.w, cols as i32);
    let ys = split_axis(area.y, area.h, rows as i32);
    let total = cols * rows;
    let mut k: usize = 0;
    while k < total
        invariant
            total == preset.panels(),
            cols == preset.columns(),
            rows == preset.rows(),
            1 <= cols <= 2,
            1 <= rows <= 2,
            total == cols * rows,
            k <= total,
            axis_defined(area.x as int, area.w as int, preset.columns()),
            axis_defined(area.y as int, area.h as int, preset.rows()),
            xs@.len() == cols,
            ys@.len() == rows,
            forall|i: int|
                0 <= i < cols ==> (#[trigger] xs@[i]).0 == axis_start(area.x as int, area.w as int, cols as int, i)
                    && xs@[i].1 == axis_len(area.w as int, cols as int, i),
            forall|i: int|
                0 <= i < rows ==> (#[trigger] ys@[i]).0 == axis_start(area.y as int, area.h as int, rows as int, i)
                    && ys@[i].1 == axis_len(area.h as int, rows as int, i),
            forall|j: int|
                0 <= j < k ==> {
                    let cell = #[trigger] cell_of(preset, area, j);
                    &&& fits_i32(cell.y + header_height(cell, header_h))
                    &&& fits_i32(cell.h - header_height(cell, header_h))
                },
        decreases total - k,
    {
        let c = k % cols;
        let r = k / cols;
        assert(r < rows) by (nonlinear_arith)
            requires
                r == k / cols,
                k < cols * rows,
                1 <= cols,
        ;
        let (x, w) = xs[c];
        let (y, h) = ys[r];
        let cell = Rect { x, y, w, h };
        assert(cell == cell_of(preset, area, k as int));
        let hh = if header_h < cell.h {
            header_h
        } else {
            cell.h
        };
        if !fits(cell.y as i64 + hh as i64) || !fits(cell.h as i64 - hh as i64) {
            return false;
        }
        k = k + 1;
    }
    true
}

} // verus!
