//! Images side by side: how many columns a grid has, and where each image lies in it.
use vstd::prelude::*;

use super::links::near16;
use crate::app::content::{image_key, source_key};
use crate::model::{images_view, Image, SpecImage};

verus! {

// --- Columns ----------------------------------------------------------------------

/// The most columns that a pane of a width takes for `n` images.
pub open spec fn most_columns(n: nat, width: u16) -> nat {
    let fits: nat = if width >= 90 {
        3
    } else if width >= 40 {
        2
    } else {
        1
    };
    if n == 0 {
        1
    } else if n < fits {
        n
    } else {
        fits
    }
}

/// How many images the last row has.
pub open spec fn last_fill(n: nat, cols: nat) -> nat {
    if n % cols == 0 {
        cols
    } else {
        n % cols
    }
}

/// The number of columns, among those that fit, whose last row is fullest; of two, the
/// larger.
pub open spec fn is_balanced(n: nat, width: u16, cols: nat) -> bool {
    &&& 1 <= cols <= most_columns(n, width)
    &&& forall|c: nat|
        1 <= c <= most_columns(n, width) ==> {
            ||| #[trigger] last_fill(n, c) < last_fill(n, cols)
            ||| last_fill(n, c) == last_fill(n, cols) && c <= cols
        }
}

/// The number of columns of a grid of `n` images: rows as even as they can be.
pub fn grid_cols(n: usize, width: u16) -> (r: usize)
    ensures
        is_balanced(n as nat, width, r as nat),
{
    let fits: usize = if width >= 90 {
        3
    } else if width >= 40 {
        2
    } else {
        1
    };
    let most: usize = if n == 0 {
        1
    } else if n < fits {
        n
    } else {
        fits
    };
    let mut best: usize = 1;
    let mut c: usize = 2;
    assert(n % 1 == 0) by (nonlinear_arith);
    assert(last_fill(n as nat, 1) == 1);
    while c <= most
        invariant
            1 <= best < c <= most + 1,
            most <= 3,
            most == most_columns(n as nat, width),
            forall|k: nat|
                1 <= k < c ==> {
                    ||| #[trigger] last_fill(n as nat, k) < last_fill(n as nat, best as nat)
                    ||| last_fill(n as nat, k) == last_fill(n as nat, best as nat) && k <= best
                },
        decreases most + 1 - c,
    {
        if fill_of(n, c) >= fill_of(n, best) {
            best = c;
        }
        c = c + 1;
    }
    best
}

fn fill_of(n: usize, cols: usize) -> (r: usize)
    requires
        cols > 0,
    ensures
        r == last_fill(n as nat, cols as nat),
{
    if n % cols == 0 {
        cols
    } else {
        n % cols
    }
}

/// Only one number of columns is balanced.
pub proof fn law_columns_are_one_choice(n: nat, width: u16, a: nat, b: nat)
    requires
        is_balanced(n, width, a),
        is_balanced(n, width, b),
    ensures
        a == b,
{
    assert(last_fill(n, a) <= last_fill(n, b));
    assert(last_fill(n, b) <= last_fill(n, a));
}

/// The number of columns of a grid of `n` images.
pub open spec fn columns_of(n: nat, width: u16) -> nat {
    choose|cols: nat| is_balanced(n, width, cols)
}

/// The width that an image of a grid may take.
pub open spec fn cell_room(n: nat, width: u16) -> u16 {
    let cols = columns_of(n, width);
    let room = if width < cols - 1 {
        0
    } else {
        (width - (cols - 1)) / cols as int
    };
    if room < 1 {
        1u16
    } else {
        room as u16
    }
}

/// The width that an image of a grid may take: an even share of the pane, a blank column
/// between two images.
pub fn grid_cell_width(n: usize, width: u16) -> (r: u16)
    ensures
        r == cell_room(n as nat, width),
{
    let cols = grid_cols(n, width);
    proof {
        law_columns_are_one_choice(n as nat, width, cols as nat, columns_of(n as nat, width));
    }
    let gaps: u16 = (cols - 1) as u16;
    let room: u16 = width.saturating_sub(gaps) / cols as u16;
    if room < 1 {
        1
    } else {
        room
    }
}

// --- Cells ------------------------------------------------------------------------

/// One image of a grid: its key, its place within the grid, and its size in cells.
#[derive(PartialEq, Eq, Debug)]
pub struct GridCell {
    pub key: String,
    pub dx: u16,
    pub dy: u16,
    pub w: u16,
    pub h: u16,
}

/// [`GridCell`] over sequences.
pub struct SpecGridCell {
    pub key: Seq<char>,
    pub dx: u16,
    pub dy: u16,
    pub w: u16,
    pub h: u16,
}

impl View for GridCell {
    type V = SpecGridCell;

    open spec fn view(&self) -> SpecGridCell {
        SpecGridCell { key: self.key@, dx: self.dx, dy: self.dy, w: self.w, h: self.h }
    }
}

/// Cells by their views.
pub open spec fn cells_of(s: Seq<GridCell>) -> Seq<SpecGridCell> {
    s.map_values(|c: GridCell| c@)
}

/// The size of image `i`; one cell where none is known.
pub open spec fn size_at(sizes: Seq<(u16, u16)>, i: int) -> (u16, u16) {
    if 0 <= i < sizes.len() {
        sizes[i]
    } else {
        (1, 1)
    }
}

/// The size of image `i`; one cell where none is known.
pub fn size_of(sizes: &Vec<(u16, u16)>, i: usize) -> (r: (u16, u16))
    ensures
        r == size_at(sizes@, i as int),
{
    if i < sizes.len() {
        sizes[i]
    } else {
        (1, 1)
    }
}

/// The widths of the images from `a` to `b`, each with a blank column behind it.
pub open spec fn span_width(sizes: Seq<(u16, u16)>, a: int, b: int) -> int
    decreases b - a,
{
    if b <= a {
        0
    } else {
        span_width(sizes, a, b - 1) + size_at(sizes, b - 1).0 + 1
    }
}

/// The height of the tallest image from `a` to `b`.
pub open spec fn span_height(sizes: Seq<(u16, u16)>, a: int, b: int) -> u16
    decreases b - a,
{
    if b <= a {
        0
    } else {
        let before = span_height(sizes, a, b - 1);
        if size_at(sizes, b - 1).1 > before {
            size_at(sizes, b - 1).1
        } else {
            before
        }
    }
}

/// Where the row of the images from `a` to `b` begins: it stands in the middle of the
/// pane.
pub open spec fn row_left(sizes: Seq<(u16, u16)>, a: int, b: int, width: u16) -> int {
    let own = span_width(sizes, a, b) - 1;
    if own < width {
        (width - own) / 2
    } else {
        0
    }
}

/// The image `i` in the row from `a` to `b` whose top is `top`. The grid's sizes begin at
/// `base`.
pub open spec fn cell_at(
    images: Seq<SpecImage>,
    sizes: Seq<(u16, u16)>,
    base: int,
    a: int,
    b: int,
    i: int,
    top: u16,
    width: u16,
) -> SpecGridCell {
    SpecGridCell {
        key: source_key(images[i].source),
        dx: near16(row_left(sizes, base + a, base + b, width) + span_width(
            sizes,
            base + a,
            base + i,
        )),
        dy: top,
        w: size_at(sizes, base + i).0,
        h: size_at(sizes, base + i).1,
    }
}

/// The end of the row that begins at `a`.
pub open spec fn row_stop(n: int, cols: nat, a: int) -> int {
    if a + cols < n {
        a + cols
    } else {
        n
    }
}

/// The cells from image `a` on, whose row's top is `top`, and the row below them all.
pub open spec fn grid_from(
    images: Seq<SpecImage>,
    sizes: Seq<(u16, u16)>,
    base: int,
    cols: nat,
    a: int,
    top: u16,
    width: u16,
) -> (Seq<SpecGridCell>, u16)
    decreases images.len() - a,
{
    if a < 0 || a >= images.len() || cols == 0 {
        (Seq::empty(), top)
    } else {
        let b = row_stop(images.len() as int, cols, a);
        let below = near16(top + span_height(sizes, base + a, base + b) + 1);
        let (rest, end) = grid_from(images, sizes, base, cols, b, below, width);
        (
            Seq::new(
                (b - a) as nat,
                |k: int| cell_at(images, sizes, base, a, b, a + k, top, width),
            ) + rest,
            end,
        )
    }
}

/// The cells of a grid: rows of images side by side, one below the other.
pub open spec fn grid_cells_of(
    images: Seq<SpecImage>,
    sizes: Seq<(u16, u16)>,
    base: int,
    width: u16,
) -> Seq<SpecGridCell> {
    grid_from(images, sizes, base, columns_of(images.len(), width), 0, 0, width).0
}

/// The height of a grid.
pub open spec fn grid_height(
    images: Seq<SpecImage>,
    sizes: Seq<(u16, u16)>,
    base: int,
    width: u16,
) -> u16 {
    let end = grid_from(images, sizes, base, columns_of(images.len(), width), 0, 0, width).1;
    if end == 0 {
        0
    } else {
        (end - 1) as u16
    }
}

proof fn lemma_span_width_grows(sizes: Seq<(u16, u16)>, a: int, b: int)
    ensures
        span_width(sizes, a, b) >= 0,
        a < b ==> span_width(sizes, a, b) >= 1,
    decreases b - a,
{
    if b > a {
        lemma_span_width_grows(sizes, a, b - 1);
    }
}

/// The cells of the row from `a` to `b`, pushed behind others; and the row's height.
fn push_row(
    images: &Vec<Image>,
    sizes: &Vec<(u16, u16)>,
    base: usize,
    a: usize,
    b: usize,
    top: u16,
    width: u16,
    out: &mut Vec<GridCell>,
) -> (r: u16)
    requires
        a < b <= images@.len(),
        b - a <= 3,
        base + images@.len() <= usize::MAX,
    ensures
        cells_of(final(out)@) == cells_of(old(out)@) + Seq::new(
            (b - a) as nat,
            |k: int|
                cell_at(
                    images_view(images@),
                    sizes@,
                    base as int,
                    a as int,
                    b as int,
                    a + k,
                    top,
                    width,
                ),
        ),
        r == span_height(sizes@, base + a, base + b),
{
    let ghost start = cells_of(out@);
    let ghost row = Seq::new(
        (b - a) as nat,
        |k: int|
            cell_at(
                images_view(images@),
                sizes@,
                base as int,
                a as int,
                b as int,
                a + k,
                top,
                width,
            ),
    );
    let mut own: u32 = 0;
    let mut tallest: u16 = 0;
    let mut i: usize = a;
    while i < b
        invariant
            a <= i <= b <= images@.len(),
            b - a <= 3,
            base + images@.len() <= usize::MAX,
            own == span_width(sizes@, base + a, base + i),
            own <= (i - a) * 65536,
            tallest == span_height(sizes@, base + a, base + i),
        decreases b - i,
    {
        let (w, h) = size_of(sizes, base + i);
        own = own + w as u32 + 1;
        if h > tallest {
            tallest = h;
        }
        i = i + 1;
    }
    proof {
        lemma_span_width_grows(sizes@, base + a, base + b);
    }
    let wide: u32 = own - 1;
    let left: u32 = if wide < width as u32 {
        (width as u32 - wide) / 2
    } else {
        0
    };
    assert(left == row_left(sizes@, base + a, base + b, width));
    let mut x: u32 = left;
    let mut k: usize = a;
    assert(start + row.take(0) =~= start);
    while k < b
        invariant
            a <= k <= b <= images@.len(),
            b - a <= 3,
            base + images@.len() <= usize::MAX,
            row == Seq::new(
                (b - a) as nat,
                |k: int|
                    cell_at(
                        images_view(images@),
                        sizes@,
                        base as int,
                        a as int,
                        b as int,
                        a + k,
                        top,
                        width,
                    ),
            ),
            left == row_left(sizes@, base + a, base + b, width),
            left <= 65535,
            x == left + span_width(sizes@, base + a, base + k),
            x <= 65535 + (k - a) * 65536,
            cells_of(out@) == start + row.take(k - a),
        decreases b - k,
    {
        let (w, h) = size_of(sizes, base + k);
        let dx: u16 = if x <= 65535 {
            x as u16
        } else {
            65535
        };
        let cell = GridCell { key: image_key(&images[k].source), dx, dy: top, w, h };
        assert(images_view(images@)[k as int] == images@[k as int]@);
        assert(cell@ == row[k - a]);
        let ghost before = cells_of(out@);
        out.push(cell);
        assert(cells_of(out@) =~= before.push(cell@));
        assert(row.take(k + 1 - a) =~= row.take(k - a).push(row[k - a]));
        assert(cells_of(out@) =~= start + row.take(k + 1 - a));
        x = x + w as u32 + 1;
        k = k + 1;
    }
    assert(row.take(b - a) =~= row);
    tallest
}

/// Lay images out in a grid: every row in the middle of the pane, its images one blank
/// column apart, one blank row below it. The sizes of the images stand from `base` on.
/// Returns the cells and the grid's height.
pub fn grid_layout(images: &Vec<Image>, sizes: &Vec<(u16, u16)>, base: usize, width: u16) -> (r: (
    Vec<GridCell>,
    u16,
))
    requires
        base + images@.len() <= usize::MAX,
    ensures
        cells_of(r.0@) == grid_cells_of(images_view(images@), sizes@, base as int, width),
        r.1 == grid_height(images_view(images@), sizes@, base as int, width),
{
    let ghost all = images_view(images@);
    assert(all.len() == images@.len());
    let cols = grid_cols(images.len(), width);
    proof {
        law_columns_are_one_choice(
            all.len(),
            width,
            cols as nat,
            columns_of(all.len(), width),
        );
    }
    let ghost whole = grid_from(all, sizes@, base as int, cols as nat, 0, 0, width);
    let mut out: Vec<GridCell> = Vec::new();
    let mut top: u16 = 0;
    let mut a: usize = 0;
    assert(cells_of(out@) =~= Seq::empty());
    assert(cells_of(out@) + whole.0 =~= whole.0);
    while a < images.len()
        invariant
            a <= images@.len(),
            base + images@.len() <= usize::MAX,
            all == images_view(images@),
            all.len() == images@.len(),
            1 <= cols <= 3,
            ({
                let (rest, end) = grid_from(
                    all,
                    sizes@,
                    base as int,
                    cols as nat,
                    a as int,
                    top,
                    width,
                );
                cells_of(out@) + rest == whole.0 && end == whole.1
            }),
        decreases images@.len() - a,
    {
        let left: usize = images.len() - a;
        let b: usize = if cols < left {
            a + cols
        } else {
            images.len()
        };
        let ghost before = cells_of(out@);
        let tallest = push_row(images, sizes, base, a, b, top, width, &mut out);
        let below = top.saturating_add(tallest).saturating_add(1);
        proof {
            let (rest, end) = grid_from(
                all,
                sizes@,
                base as int,
                cols as nat,
                b as int,
                below,
                width,
            );
            let row = Seq::new(
                (b - a) as nat,
                |k: int|
                    cell_at(
                        all,
                        sizes@,
                        base as int,
                        a as int,
                        b as int,
                        a + k,
                        top,
                        width,
                    ),
            );
            assert(before + (row + rest) =~= (before + row) + rest);
        }
        top = below;
        a = b;
    }
    assert(cells_of(out@) =~= whole.0);
    let height: u16 = top.saturating_sub(1);
    (out, height)
}

/// Every image of a grid has its cell, in order.
pub proof fn lemma_grid_keys(
    images: Seq<SpecImage>,
    sizes: Seq<(u16, u16)>,
    base: int,
    cols: nat,
    a: int,
    top: u16,
    width: u16,
)
    requires
        0 <= a <= images.len(),
        cols > 0,
    ensures
        ({
            let cells = grid_from(images, sizes, base, cols, a, top, width).0;
            &&& cells.len() == images.len() - a
            &&& forall|i: int|
                0 <= i < cells.len() ==> (#[trigger] cells[i]).key == source_key(
                    images[a + i].source,
                )
        }),
    decreases images.len() - a,
{
    if a < images.len() {
        let b = row_stop(images.len() as int, cols, a);
        let below = near16(top + span_height(sizes, base + a, base + b) + 1);
        lemma_grid_keys(images, sizes, base, cols, b, below, width);
        let rest = grid_from(images, sizes, base, cols, b, below, width).0;
        let cells = grid_from(images, sizes, base, cols, a, top, width).0;
        assert forall|i: int| 0 <= i < cells.len() implies (#[trigger] cells[i]).key == source_key(
            images[a + i].source,
        ) by {
            if i >= b - a {
                assert(cells[i] == rest[i - (b - a)]);
            }
        }
    }
}

// --- A grid fits its pane ---------------------------------------------------------

/// No image of a grid is wider than its room.
pub open spec fn sized_to_fit(sizes: Seq<(u16, u16)>, base: int, n: nat, room: u16) -> bool {
    forall|k: int| base <= k < base + n ==> (#[trigger] size_at(sizes, k)).0 <= room
}

proof fn lemma_span_fits(sizes: Seq<(u16, u16)>, base: int, n: nat, room: u16, a: int, b: int)
    requires
        sized_to_fit(sizes, base, n, room),
        base <= a <= b <= base + n,
    ensures
        span_width(sizes, a, b) <= (b - a) * (room + 1),
    decreases b - a,
{
    if b > a {
        lemma_span_fits(sizes, base, n, room, a, b - 1);
        assert(size_at(sizes, b - 1).0 <= room);
        assert((b - 1 - a) * (room + 1) + (room + 1) == (b - a) * (room + 1)) by (nonlinear_arith);
    }
}

proof fn lemma_span_ends_inside(sizes: Seq<(u16, u16)>, a: int, i: int, b: int)
    requires
        a <= i < b,
    ensures
        span_width(sizes, a, i) + size_at(sizes, i).0 + 1 <= span_width(sizes, a, b),
    decreases b - i,
{
    if i < b - 1 {
        lemma_span_ends_inside(sizes, a, i, b - 1);
    }
}

proof fn lemma_row_fits(
    sizes: Seq<(u16, u16)>,
    base: int,
    n: nat,
    cols: nat,
    a: int,
    b: int,
    i: int,
    width: u16,
)
    requires
        is_balanced(n, width, cols),
        width > 0,
        sized_to_fit(sizes, base, n, cell_room(n, width)),
        0 <= a <= i < b <= n,
        b - a <= cols,
    ensures
        row_left(sizes, base + a, base + b, width) + span_width(sizes, base + a, base + i)
            + size_at(sizes, base + i).0 <= width,
{
    law_columns_are_one_choice(n, width, cols, columns_of(n, width));
    let room = cell_room(n, width);
    lemma_span_fits(sizes, base, n, room, base + a, base + b);
    lemma_span_ends_inside(sizes, base + a, base + i, base + b);
    assert(cols <= 3);
    assert((b - a) * (room + 1) <= cols * (room + 1)) by (nonlinear_arith)
        requires
            b - a <= cols,
            room >= 0,
    ;
    assert(cols * (room + 1) <= width + 1) by {
        if cols == 1 {
            assert(cols * (room + 1) == room + 1) by (nonlinear_arith)
                requires
                    cols == 1,
            ;
            assert((width - 0) / 1 == width) by (nonlinear_arith);
            assert(room == width);
        } else if cols == 2 {
            assert(cols * (room + 1) == 2 * (room + 1)) by (nonlinear_arith)
                requires
                    cols == 2,
            ;
            assert(width >= 40);
            assert(room == (width - 1) / 2);
        } else {
            assert(cols == 3);
            assert(cols * (room + 1) == 3 * (room + 1)) by (nonlinear_arith)
                requires
                    cols == 3,
            ;
            assert(width >= 90);
            assert(room == (width - 2) / 3);
        }
    }
}

proof fn lemma_grid_from_fits(
    images: Seq<SpecImage>,
    sizes: Seq<(u16, u16)>,
    base: int,
    cols: nat,
    a: int,
    top: u16,
    width: u16,
)
    requires
        0 <= a <= images.len(),
        width > 0,
        is_balanced(images.len(), width, cols),
        sized_to_fit(sizes, base, images.len(), cell_room(images.len(), width)),
    ensures
        ({
            let cells = grid_from(images, sizes, base, cols, a, top, width).0;
            forall|i: int| 0 <= i < cells.len() ==> (#[trigger] cells[i]).dx + cells[i].w <= width
        }),
    decreases images.len() - a,
{
    if a < images.len() {
        let b = row_stop(images.len() as int, cols, a);
        let below = near16(top + span_height(sizes, base + a, base + b) + 1);
        lemma_grid_from_fits(images, sizes, base, cols, b, below, width);
        let rest = grid_from(images, sizes, base, cols, b, below, width).0;
        let cells = grid_from(images, sizes, base, cols, a, top, width).0;
        assert forall|i: int| 0 <= i < cells.len() implies (#[trigger] cells[i]).dx + cells[i].w
            <= width by {
            if i >= b - a {
                assert(cells[i] == rest[i - (b - a)]);
            } else {
                lemma_row_fits(sizes, base, images.len(), cols, a, b, a + i, width);
                lemma_span_width_grows(sizes, base + a, base + a + i);
            }
        }
    }
}

/// Where no image is wider than its room, every image of a grid lies inside the pane.
pub proof fn law_grid_fits_the_pane(
    images: Seq<SpecImage>,
    sizes: Seq<(u16, u16)>,
    base: int,
    width: u16,
    i: int,
)
    requires
        width > 0,
        sized_to_fit(sizes, base, images.len(), cell_room(images.len(), width)),
        0 <= i < grid_cells_of(images, sizes, base, width).len(),
    ensures
        ({
            let cell = grid_cells_of(images, sizes, base, width)[i];
            cell.dx + cell.w <= width
        }),
{
    lemma_columns_exist(images.len(), width);
    lemma_grid_from_fits(images, sizes, base, columns_of(images.len(), width), 0, 0, width);
}

/// Every grid has a balanced number of columns.
pub proof fn lemma_columns_exist(n: nat, width: u16)
    ensures
        is_balanced(n, width, columns_of(n, width)),
{
    let most = most_columns(n, width);
    assert(n % 1 == 0) by (nonlinear_arith);
    let best: nat = if most >= 3 && last_fill(n, 3) >= last_fill(n, 2) && last_fill(n, 3)
        >= last_fill(n, 1) {
        3
    } else if most >= 2 && last_fill(n, 2) >= last_fill(n, 1) {
        2
    } else {
        1
    };
    assert(last_fill(n, 1) == 1);
    assert(n % 2 < 2) by (nonlinear_arith);
    assert(is_balanced(n, width, best));
}

} // verus!
