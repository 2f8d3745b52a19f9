//! Where the links of wrapped text lie on the screen.
//!
//! Text is wrapped by ratatui, so the place of a link is read from the cells that its
//! line was drawn to: a run of cells in the style of a link is a piece of one. A link that
//! wraps has a piece on each of its rows, and all of them carry its number.
use vstd::prelude::*;

use super::doc::{lines_view, spans_view, Line, Span, SpecLine, SpecSpan};
use super::theme::{Color, TextStyle, Theme};
use crate::app::geometry::LinkRect;

verus! {

/// Text is not laid out wider than this. Ratatui's word wrapper adds up the widths of a
/// line's parts in sixteen bits. A line that it has not broken yet can hold a word, and a
/// symbol on either side of it, each as wide as the limit; with the symbol that comes next
/// these are four times the limit, which fit.
pub const WIDEST: u16 = 16_000;

// --- What ratatui draws -----------------------------------------------------------

/// How many rows lines of text take at a width, wrapped between words.
pub uninterp spec fn wrapped_rows(lines: Seq<SpecLine>, width: u16) -> usize;

/// `Paragraph::line_count` of ratatui: the number of rows that the lines take at a width
/// when they are wrapped and their leading space is kept. Styles have no part in it.
#[verifier::external_body]
pub(crate) fn row_count(lines: &Vec<Line>, width: u16) -> (r: usize)
    requires
        width <= WIDEST,
    ensures
        r == wrapped_rows(lines_view(lines@), width),
{
    let mut text = ratatui::text::Text::default();
    for line in lines {
        let mut row = ratatui::text::Line::default();
        for span in &line.spans {
            row.push_span(span.content.as_str());
        }
        text.push_line(row);
    }
    ratatui::widgets::Paragraph::new(text).wrap(ratatui::widgets::Wrap { trim: false }).line_count(width)
}

/// One drawn cell: its colours, where they were set, and its modifiers.
#[derive(Clone, Copy, PartialEq, Eq, Structural, Debug)]
pub struct DrawnCell {
    pub fg: Option<Color>,
    pub bg: Option<Color>,
    pub underlined: bool,
    pub reversed: bool,
    /// It has no modifier at all.
    pub plain: bool,
}

/// `ratatui::style::Style`, carried to where it is drawn.
#[verifier::external_type_specification]
#[verifier::external_body]
pub struct ExStyle(ratatui::style::Style);

/// `ratatui::buffer::Cell`, carried from where it was drawn.
#[verifier::external_type_specification]
#[verifier::external_body]
pub struct ExCell(ratatui::buffer::Cell);

/// What a style of ratatui says, where it has at most two RGB colours, adds at most the five
/// modifiers of a `TextStyle`, and removes none. Two styles of which it says the same are
/// the same.
pub uninterp spec fn style_content(s: ratatui::style::Style) -> Option<TextStyle>;

/// What a cell of ratatui's buffer shows.
pub uninterp spec fn cell_content(c: ratatui::buffer::Cell) -> DrawnCell;

/// A `ratatui::style::Style` with the same colours and modifiers, and no other
/// (`Style::new`, `Style::add_modifier`): two styles that differ become two that differ.
#[verifier::external_body]
fn ratatui_style(s: TextStyle) -> (r: ratatui::style::Style)
    ensures
        style_content(r) == Some(s),
{
    let mut m = ratatui::style::Modifier::empty();
    m.set(ratatui::style::Modifier::BOLD, s.bold);
    m.set(ratatui::style::Modifier::ITALIC, s.italic);
    m.set(ratatui::style::Modifier::UNDERLINED, s.underlined);
    m.set(ratatui::style::Modifier::CROSSED_OUT, s.crossed_out);
    m.set(ratatui::style::Modifier::REVERSED, s.reversed);
    let mut style = ratatui::style::Style::new().add_modifier(m);
    style.fg = s.fg.map(|Color::Rgb(r, g, b)| ratatui::style::Color::Rgb(r, g, b));
    style.bg = s.bg.map(|Color::Rgb(r, g, b)| ratatui::style::Color::Rgb(r, g, b));
    style
}

/// The fields of a `ratatui::buffer::Cell`: its colours, as far as they are RGB ones, and
/// what `Modifier::contains` and `Modifier::is_empty` say of its modifiers. They depend on
/// the cell alone.
#[verifier::external_body]
fn drawn_cell(cell: &ratatui::buffer::Cell) -> (r: DrawnCell)
    ensures
        r == cell_content(*cell),
{
    let color = |c: ratatui::style::Color| match c {
        ratatui::style::Color::Rgb(r, g, b) => Some(Color::Rgb(r, g, b)),
        _ => None,
    };
    DrawnCell {
        fg: color(cell.fg),
        bg: color(cell.bg),
        underlined: cell.modifier.contains(ratatui::style::Modifier::UNDERLINED),
        reversed: cell.modifier.contains(ratatui::style::Modifier::REVERSED),
        plain: cell.modifier.is_empty(),
    }
}

/// Runs of text in styles of ratatui.
pub type StyledRuns = Vec<(String, ratatui::style::Style)>;

/// The line that runs of text make over a style.
pub open spec fn line_of_runs(
    under: ratatui::style::Style,
    runs: Seq<(String, ratatui::style::Style)>,
) -> SpecLine {
    SpecLine {
        style: style_content(under)->0,
        spans: runs.map_values(
            |p: (String, ratatui::style::Style)|
                SpecSpan { content: p.0@, style: style_content(p.1)->0 },
        ),
    }
}

/// Every run is in a style that a `TextStyle` says all of.
pub open spec fn runs_are_plain(runs: Seq<(String, ratatui::style::Style)>) -> bool {
    forall|i: int| 0 <= i < runs.len() ==> style_content((#[trigger] runs[i]).1) is Some
}

/// What a row of cells shows.
pub open spec fn row_content(s: Seq<ratatui::buffer::Cell>) -> Seq<DrawnCell> {
    s.map_values(|c: ratatui::buffer::Cell| cell_content(c))
}

/// What rows of cells show.
pub open spec fn rows_content(s: Seq<Vec<ratatui::buffer::Cell>>) -> Seq<Seq<DrawnCell>> {
    s.map_values(|r: Vec<ratatui::buffer::Cell>| row_content(r@))
}

/// The cells of a line drawn in an area of a width and height, row by row.
pub uninterp spec fn drawn_cells(line: SpecLine, width: u16, rows: u16) -> Seq<Seq<DrawnCell>>;

/// `Paragraph::render` of ratatui into an empty buffer: the cells of a wrapped line, row
/// by row. There are as many rows, and as many cells in each, as the area has. The buffer
/// reaches past the area, for the word wrapper lets a line run over: a word and a symbol on
/// either side of it, each no wider than the area, can come out as one line.
#[verifier::external_body]
fn render_runs(
    runs: &StyledRuns,
    under: ratatui::style::Style,
    width: u16,
    rows: u16,
    reach: u16,
) -> (r: Vec<Vec<ratatui::buffer::Cell>>)
    requires
        width <= WIDEST,
        reach == 3 * width,
        style_content(under) is Some,
        runs_are_plain(runs@),
    ensures
        rows_content(r@) == drawn_cells(line_of_runs(under, runs@), width, rows),
        is_grid(rows_content(r@), width, rows),
{
    let area = ratatui::layout::Rect::new(0, 0, width, rows);
    let mut buf = ratatui::buffer::Buffer::empty(ratatui::layout::Rect::new(0, 0, reach, rows));
    let mut text = ratatui::text::Line::default().style(under);
    for (content, style) in runs {
        text.push_span(ratatui::text::Span::styled(content.as_str(), *style));
    }
    let paragraph = ratatui::widgets::Paragraph::new(text);
    let paragraph = paragraph.wrap(ratatui::widgets::Wrap { trim: false });
    ratatui::widgets::Widget::render(paragraph, area, &mut buf);
    (0..rows).map(|y| (0..width).map(|x| buf[(x, y)].clone()).collect()).collect()
}

fn styled_runs(spans: &Vec<Span>) -> (r: StyledRuns)
    ensures
        runs_are_plain(r@),
        forall|under: ratatui::style::Style|
            (#[trigger] line_of_runs(under, r@)).spans == spans_view(spans@),
{
    let mut out: StyledRuns = Vec::new();
    let mut i: usize = 0;
    while i < spans.len()
        invariant
            i <= spans@.len(),
            out@.len() == i,
            forall|k: int|
                0 <= k < i ==> (#[trigger] out@[k]).0@ == spans@[k].content@ && style_content(
                    out@[k].1,
                ) == Some(spans@[k].style),
        decreases spans@.len() - i,
    {
        let style = ratatui_style(spans[i].style);
        out.push((spans[i].content.clone(), style));
        i = i + 1;
    }
    assert forall|under: ratatui::style::Style|
        (#[trigger] line_of_runs(under, out@)).spans == spans_view(spans@) by {
        assert(line_of_runs(under, out@).spans =~= spans_view(spans@));
    }
    out
}

fn drawn_row(row: &Vec<ratatui::buffer::Cell>) -> (r: Vec<DrawnCell>)
    ensures
        r@ == row_content(row@),
{
    let mut out: Vec<DrawnCell> = Vec::new();
    let mut i: usize = 0;
    while i < row.len()
        invariant
            i <= row@.len(),
            out@.len() == i,
            forall|k: int| 0 <= k < i ==> #[trigger] out@[k] == cell_content(row@[k]),
        decreases row@.len() - i,
    {
        out.push(drawn_cell(&row[i]));
        i = i + 1;
    }
    assert(out@ =~= row_content(row@));
    out
}

/// The cells of a wrapped line, row by row.
fn draw_line(line: &Line, width: u16, rows: u16) -> (r: Vec<Vec<DrawnCell>>)
    requires
        width <= WIDEST,
    ensures
        grid_cells(r@) == drawn_cells(line@, width, rows),
        is_grid(grid_cells(r@), width, rows),
{
    let under = ratatui_style(line.style);
    let runs = styled_runs(&line.spans);
    let drawn = render_runs(&runs, under, width, rows, 3 * width);
    assert(line_of_runs(under, runs@) == line@);
    let mut out: Vec<Vec<DrawnCell>> = Vec::new();
    let mut y: usize = 0;
    while y < drawn.len()
        invariant
            y <= drawn@.len(),
            out@.len() == y,
            forall|k: int| 0 <= k < y ==> (#[trigger] out@[k])@ == row_content(drawn@[k]@),
        decreases drawn@.len() - y,
    {
        out.push(drawn_row(&drawn[y]));
        y = y + 1;
    }
    assert(grid_cells(out@) =~= rows_content(drawn@));
    out
}

/// Rows of cells.
pub open spec fn grid_cells(s: Seq<Vec<DrawnCell>>) -> Seq<Seq<DrawnCell>> {
    s.map_values(|r: Vec<DrawnCell>| r@)
}

/// There are `rows` rows of `width` cells.
pub open spec fn is_grid(g: Seq<Seq<DrawnCell>>, width: u16, rows: u16) -> bool {
    &&& g.len() == rows
    &&& forall|r: int| 0 <= r < g.len() ==> (#[trigger] g[r]).len() == width
}

// --- Cells of links ---------------------------------------------------------------

impl DrawnCell {
    /// It shows a link: the link's colour, underlined or, where focused, reversed.
    pub open spec fn shows_link(self, t: Theme) -> bool {
        self.fg == Some(t.accent) && (self.underlined || self.reversed)
    }

    /// Nothing was drawn to it.
    pub open spec fn untouched(self) -> bool {
        self.fg is None && self.bg is None && self.plain
    }

    /// Whether it shows a link.
    pub fn is_link(&self, theme: &Theme) -> (r: bool)
        ensures
            r == self.shows_link(*theme),
    {
        match self.fg {
            Some(c) => c == theme.accent && (self.underlined || self.reversed),
            None => false,
        }
    }

    /// Whether nothing was drawn to it.
    pub fn is_untouched(&self) -> (r: bool)
        ensures
            r == self.untouched(),
    {
        self.fg.is_none() && self.bg.is_none() && self.plain
    }
}

/// One piece of a link on a row of its line.
#[derive(Clone, Copy, PartialEq, Eq, Structural, Debug)]
pub struct Footprint {
    /// The link's place among the links of its line.
    pub occ: usize,
    pub row: u16,
    pub col: u16,
    pub width: u16,
}

impl Footprint {
    /// A cell of the line lies on it.
    pub open spec fn covers(self, row: int, col: int) -> bool {
        self.row == row && self.col <= col < self.col + self.width
    }
}

/// The first column at or after `i` that does not show a link.
pub open spec fn run_end(row: Seq<DrawnCell>, i: int, t: Theme) -> int
    decreases row.len() - i,
{
    if 0 <= i < row.len() && row[i].shows_link(t) {
        run_end(row, i + 1, t)
    } else {
        i
    }
}

/// The end of what was drawn on a row, among its first `n` cells.
pub open spec fn drawn_end(row: Seq<DrawnCell>, n: int) -> int
    decreases n,
{
    if n <= 0 || n > row.len() {
        0
    } else if row[n - 1].untouched() {
        drawn_end(row, n - 1)
    } else {
        n
    }
}

/// The pieces found so far.
pub struct Found {
    pub feet: Seq<Footprint>,
    /// How many links they belong to.
    pub links: int,
    /// The end of the last piece on the row at hand; 0 where there is none.
    pub end: int,
}

impl Found {
    /// A piece from `i` to `j` of row `r` more. It belongs to the last link where it
    /// carries that on from the row above.
    pub open spec fn with(self, r: int, i: int, j: int, carried: bool) -> Found {
        let occ = if carried {
            self.links - 1
        } else {
            self.links
        };
        Found {
            feet: self.feet.push(
                Footprint {
                    occ: occ as usize,
                    row: r as u16,
                    col: i as u16,
                    width: (j - i) as u16,
                },
            ),
            links: occ + 1,
            end: j,
        }
    }
}

/// The pieces on row `r` from column `i` on: its longest runs of cells that show a link.
/// `open` says that the row above ended inside a link.
pub open spec fn row_feet(
    row: Seq<DrawnCell>,
    r: int,
    i: int,
    open: bool,
    t: Theme,
    found: Found,
) -> Found
    decreases row.len() - i,
{
    if i < 0 || i >= row.len() {
        found
    } else if !row[i].shows_link(t) {
        row_feet(row, r, i + 1, open, t, found)
    } else {
        let j = run_end(row, i + 1, t);
        if i < j <= row.len() {
            row_feet(row, r, j, open, t, found.with(r, i, j, i == 0 && open))
        } else {
            found
        }
    }
}

/// A row ends inside a link where the last thing drawn on it belongs to one.
pub open spec fn ends_open(row: Seq<DrawnCell>, end: int) -> bool {
    end > 0 && end == drawn_end(row, row.len() as int)
}

/// The pieces on the first `k` rows, and whether the last of these rows ends inside a
/// link.
pub open spec fn grid_feet(g: Seq<Seq<DrawnCell>>, k: int, t: Theme) -> (Found, bool)
    decreases k,
{
    if k <= 0 || k > g.len() {
        (Found { feet: Seq::empty(), links: 0, end: 0 }, false)
    } else {
        let (before, open) = grid_feet(g, k - 1, t);
        let found = row_feet(
            g[k - 1],
            k - 1,
            0,
            open,
            t,
            Found { end: 0, ..before },
        );
        (found, ends_open(g[k - 1], found.end))
    }
}

fn drawn_end_of(row: &Vec<DrawnCell>) -> (r: usize)
    ensures
        r == drawn_end(row@, row@.len() as int),
{
    let mut n: usize = row.len();
    while n > 0 && row[n - 1].is_untouched()
        invariant
            n <= row@.len(),
            drawn_end(row@, row@.len() as int) == drawn_end(row@, n as int),
        decreases n,
    {
        n = n - 1;
    }
    n
}

/// The links that are on a line: the pieces of each, and how many links there are.
pub fn link_footprints(grid: &Vec<Vec<DrawnCell>>, width: u16, theme: &Theme) -> (r: (
    Vec<Footprint>,
    usize,
))
    requires
        grid@.len() <= u16::MAX,
        is_grid(grid_cells(grid@), width, grid@.len() as u16),
    ensures
        ({
            let (found, _) = grid_feet(grid_cells(grid@), grid@.len() as int, *theme);
            r.0@ == found.feet && r.1 == found.links
        }),
        r.1 <= u32::MAX,
{
    let ghost g = grid_cells(grid@);
    let mut feet: Vec<Footprint> = Vec::new();
    let mut links: usize = 0;
    let mut open: bool = false;
    let mut k: usize = 0;
    assert(feet@ =~= Seq::empty());
    while k < grid.len()
        invariant
            k <= grid@.len() <= u16::MAX,
            g == grid_cells(grid@),
            is_grid(g, width, grid@.len() as u16),
            links <= k * 65536,
            open ==> links > 0,
            ({
                let (found, o) = grid_feet(g, k as int, *theme);
                feet@ == found.feet && links == found.links && open == o
            }),
        decreases grid@.len() - k,
    {
        let row = &grid[k];
        assert(g[k as int] == row@);
        let ghost start = Found { feet: feet@, links: links as int, end: 0 };
        let ghost whole = row_feet(row@, k as int, 0, open, *theme, start);
        let mut end: usize = 0;
        let mut c: usize = 0;
        while c < row.len()
            invariant
                c <= row@.len() == width,
                k < u16::MAX,
                links <= k * 65536 + c,
                open ==> links > 0,
                end > 0 ==> links > 0,
                whole == row_feet(
                    row@,
                    k as int,
                    c as int,
                    open,
                    *theme,
                    Found { feet: feet@, links: links as int, end: end as int },
                ),
            decreases row@.len() - c,
        {
            if row[c].is_link(theme) {
                let mut j: usize = c + 1;
                while j < row.len() && row[j].is_link(theme)
                    invariant
                        c < j <= row@.len(),
                        run_end(row@, c + 1, *theme) == run_end(row@, j as int, *theme),
                    decreases row@.len() - j,
                {
                    j = j + 1;
                }
                let occ: usize = if c == 0 && open {
                    links - 1
                } else {
                    links
                };
                let foot = Footprint {
                    occ,
                    row: k as u16,
                    col: c as u16,
                    width: (j - c) as u16,
                };
                proof {
                    let now = Found { feet: feet@, links: links as int, end: end as int };
                    assert(now.with(k as int, c as int, j as int, c == 0 && open).feet
                        == feet@.push(foot));
                }
                feet.push(foot);
                links = occ + 1;
                end = j;
                c = j;
            } else {
                c = c + 1;
            }
        }
        let drawn = drawn_end_of(row);
        open = end > 0 && end == drawn;
        k = k + 1;
    }
    (feet, links)
}

// --- Every cell of a link is found ------------------------------------------------

/// Some piece covers a cell.
pub open spec fn covered(feet: Seq<Footprint>, row: int, col: int) -> bool {
    exists|k: int| 0 <= k < feet.len() && (#[trigger] feet[k]).covers(row, col)
}

proof fn lemma_run_end(row: Seq<DrawnCell>, i: int, t: Theme)
    requires
        0 <= i <= row.len(),
    ensures
        i <= run_end(row, i, t) <= row.len(),
        forall|c: int| i <= c < run_end(row, i, t) ==> (#[trigger] row[c]).shows_link(t),
    decreases row.len() - i,
{
    if i < row.len() && row[i].shows_link(t) {
        lemma_run_end(row, i + 1, t);
    }
}

proof fn lemma_row_feet(row: Seq<DrawnCell>, r: int, i: int, open: bool, t: Theme, found: Found)
    requires
        0 <= i <= row.len() <= u16::MAX,
        0 <= r <= u16::MAX,
    ensures
        ({
            let after = row_feet(row, r, i, open, t, found);
            &&& found.feet.len() <= after.feet.len()
            &&& after.feet.take(found.feet.len() as int) == found.feet
            &&& forall|k: int|
                found.feet.len() <= k < after.feet.len() ==> (#[trigger] after.feet[k]).row == r
                    && after.feet[k].col >= i
            &&& forall|c: int|
                i <= c < row.len() ==> ((#[trigger] row[c]).shows_link(t) <==> covered(
                    after.feet.skip(found.feet.len() as int),
                    r,
                    c,
                ))
            &&& forall|k: int|
                found.feet.len() <= k < after.feet.len() ==> (#[trigger] after.feet[k]).col
                    + after.feet[k].width <= row.len()
        }),
    decreases row.len() - i,
{
    let n = found.feet.len() as int;
    let after = row_feet(row, r, i, open, t, found);
    if i >= row.len() {
        assert(after.feet.take(n) =~= found.feet);
    } else if !row[i].shows_link(t) {
        lemma_row_feet(row, r, i + 1, open, t, found);
        assert forall|c: int| i <= c < row.len() implies ((#[trigger] row[c]).shows_link(t)
            <==> covered(after.feet.skip(n), r, c)) by {
            if c == i && covered(after.feet.skip(n), r, c) {
                let k = choose|k: int|
                    0 <= k < after.feet.skip(n).len() && (#[trigger] after.feet.skip(n)[k]).covers(
                        r,
                        c,
                    );
                assert(after.feet.skip(n)[k] == after.feet[n + k]);
                assert(after.feet[n + k].col >= i + 1);
            }
        }
    } else {
        lemma_run_end(row, i + 1, t);
        let j = run_end(row, i + 1, t);
        let next = found.with(r, i, j, i == 0 && open);
        lemma_row_feet(row, r, j, open, t, next);
        assert(next.feet.len() == n + 1);
        assert(after.feet.take(n) =~= found.feet) by {
            assert(after.feet.take(n + 1).take(n) =~= after.feet.take(n));
            assert(next.feet.take(n) =~= found.feet);
        }
        let own = after.feet[n];
        assert(own == after.feet.take(n + 1)[n]);
        assert(own == next.feet[n]);
        assert(own.col == i && own.width == j - i && own.row == r);
        let rest = after.feet.skip(n + 1);
        let all = after.feet.skip(n);
        assert(all[0] == own);
        assert forall|c: int| i <= c < row.len() implies ((#[trigger] row[c]).shows_link(t)
            <==> covered(all, r, c)) by {
            if c < j {
                assert(row[c].shows_link(t));
                assert(all[0].covers(r, c));
            } else {
                if covered(rest, r, c) {
                    let k = choose|k: int|
                        0 <= k < rest.len() && (#[trigger] rest[k]).covers(r, c);
                    assert(all[k + 1] == rest[k]);
                    assert(all[k + 1].covers(r, c));
                }
                if covered(all, r, c) {
                    let k = choose|k: int| 0 <= k < all.len() && (#[trigger] all[k]).covers(r, c);
                    assert(k != 0);
                    assert(rest[k - 1] == all[k]);
                    assert(rest[k - 1].covers(r, c));
                }
            }
        }
        assert forall|k: int| n <= k < after.feet.len() implies (#[trigger] after.feet[k]).row == r
            && after.feet[k].col >= i && after.feet[k].col + after.feet[k].width
            <= row.len() by {
            if k > n {
                assert(after.feet[k].col >= j);
            }
        }
    }
}

proof fn lemma_grid_feet(g: Seq<Seq<DrawnCell>>, k: int, width: u16, t: Theme)
    requires
        0 <= k <= g.len() <= u16::MAX,
        forall|r: int| 0 <= r < g.len() ==> (#[trigger] g[r]).len() == width,
    ensures
        ({
            let feet = grid_feet(g, k, t).0.feet;
            &&& forall|i: int| 0 <= i < feet.len() ==> (#[trigger] feet[i]).row < k
            &&& forall|r: int, c: int|
                0 <= r < k && 0 <= c < width ==> ((#[trigger] g[r][c]).shows_link(t) <==> covered(
                    feet,
                    r,
                    c,
                ))
        }),
    decreases k,
{
    if k > 0 {
        lemma_grid_feet(g, k - 1, width, t);
        let (before, open) = grid_feet(g, k - 1, t);
        let start = Found { end: 0, ..before };
        let n = before.feet.len() as int;
        lemma_row_feet(g[k - 1], k - 1, 0, open, t, start);
        let feet = grid_feet(g, k, t).0.feet;
        assert(feet.take(n) == before.feet);
        assert forall|i: int| 0 <= i < feet.len() implies (#[trigger] feet[i]).row < k by {
            if i < n {
                assert(feet[i] == feet.take(n)[i]);
                assert(before.feet[i].row < k - 1);
            }
        }
        assert forall|r: int, c: int|
            0 <= r < k && 0 <= c < width implies ((#[trigger] g[r][c]).shows_link(t) <==> covered(
            feet,
            r,
            c,
        )) by {
            let rest = feet.skip(n);
            if r == k - 1 {
                assert(g[k - 1][c].shows_link(t) <==> covered(rest, r, c));
                if covered(rest, r, c) {
                    let i = choose|i: int| 0 <= i < rest.len() && (#[trigger] rest[i]).covers(r, c);
                    assert(feet[n + i] == rest[i]);
                    assert(feet[n + i].covers(r, c));
                }
                if covered(feet, r, c) {
                    let i = choose|i: int| 0 <= i < feet.len() && (#[trigger] feet[i]).covers(r, c);
                    if i < n {
                        assert(feet[i] == feet.take(n)[i]);
                        assert(before.feet[i].row < k - 1);
                    }
                    assert(rest[i - n] == feet[i]);
                    assert(rest[i - n].covers(r, c));
                }
            } else {
                if covered(before.feet, r, c) {
                    let i = choose|i: int|
                        0 <= i < before.feet.len() && (#[trigger] before.feet[i]).covers(r, c);
                    assert(feet[i] == feet.take(n)[i]);
                    assert(feet[i].covers(r, c));
                }
                if covered(feet, r, c) {
                    let i = choose|i: int| 0 <= i < feet.len() && (#[trigger] feet[i]).covers(r, c);
                    if i >= n {
                        assert(feet[i].row == k - 1);
                    }
                    assert(feet[i] == feet.take(n)[i]);
                    assert(before.feet[i].covers(r, c));
                }
            }
        }
    }
}

/// However a line wraps, a cell of it shows a link exactly where a piece of a link was
/// found: no part of a link is dead to a click, and nothing else answers to one.
pub proof fn law_link_cells_are_found(
    g: Seq<Seq<DrawnCell>>,
    width: u16,
    rows: u16,
    t: Theme,
    r: int,
    c: int,
)
    requires
        is_grid(g, width, rows),
        0 <= r < rows,
        0 <= c < width,
    ensures
        g[r][c].shows_link(t) <==> covered(grid_feet(g, rows as int, t).0.feet, r, c),
{
    lemma_grid_feet(g, rows as int, width, t);
}

// --- The focused link -------------------------------------------------------------

impl SpecSpan {
    /// It is a link, or a part of one: the link's colour, underlined or, where focused,
    /// reversed.
    pub open spec fn is_link(self, t: Theme) -> bool {
        self.style.fg == Some(t.accent) && (self.style.underlined || self.style.reversed)
    }
}

/// How many links begin among the first `k` spans: a run of link spans is one link.
pub open spec fn link_starts(s: Seq<SpecSpan>, k: int, t: Theme) -> nat
    decreases k,
{
    if k <= 0 {
        0
    } else {
        link_starts(s, k - 1, t) + (if s[k - 1].is_link(t) && (k == 1 || !s[k - 2].is_link(t)) {
            1nat
        } else {
            0nat
        })
    }
}

/// A span in the style of the focused link.
pub open spec fn focus_span(s: SpecSpan) -> SpecSpan {
    SpecSpan {
        content: s.content,
        style: TextStyle { underlined: false, reversed: true, bold: true, ..s.style },
    }
}

/// A line with the focused link standing out, if it is one of its own. Its links are
/// counted from `base`.
pub open spec fn with_focus(l: SpecLine, base: usize, focused: Option<usize>, t: Theme) -> SpecLine {
    SpecLine {
        style: l.style,
        spans: Seq::new(
            l.spans.len(),
            |i: int|
                if l.spans[i].is_link(t) && focused is Some && focused->0 == base + link_starts(
                    l.spans,
                    i + 1,
                    t,
                ) - 1 {
                    focus_span(l.spans[i])
                } else {
                    l.spans[i]
                },
        ),
    }
}

/// Whether a span is a link, or a part of one.
pub fn is_link_span(span: &Span, theme: &Theme) -> (r: bool)
    ensures
        r == span@.is_link(*theme),
{
    match span.style.fg {
        Some(c) => c == theme.accent && (span.style.underlined || span.style.reversed),
        None => false,
    }
}

proof fn lemma_starts_bound(s: Seq<SpecSpan>, k: int, t: Theme)
    requires
        0 <= k,
    ensures
        link_starts(s, k, t) <= k,
    decreases k,
{
    if k > 0 {
        lemma_starts_bound(s, k - 1, t);
    }
}

/// Make the focused link stand out, if it is one of the line's, and count the line's
/// links.
pub fn focus_line(line: &Line, base: usize, focused: Option<usize>, theme: &Theme) -> (r: (
    Line,
    usize,
))
    ensures
        r.0@ == with_focus(line@, base, focused, *theme),
        r.1 == link_starts(line@.spans, line@.spans.len() as int, *theme),
{
    let ghost all = line@.spans;
    let ghost want = with_focus(line@, base, focused, *theme);
    let mut spans: Vec<Span> = Vec::new();
    let mut starts: usize = 0;
    let mut inside: bool = false;
    let mut i: usize = 0;
    assert(all.len() == line.spans@.len());
    while i < line.spans.len()
        invariant
            i <= line.spans@.len(),
            all == line@.spans,
            all.len() == line.spans@.len(),
            want == with_focus(line@, base, focused, *theme),
            starts == link_starts(all, i as int, *theme),
            starts <= i,
            inside == (i > 0 && all[i - 1].is_link(*theme)),
            inside ==> starts > 0,
            spans@.len() == i,
            forall|k: int| 0 <= k < i ==> (#[trigger] spans@[k])@ == want.spans[k],
        decreases line.spans@.len() - i,
    {
        proof {
            lemma_starts_bound(all, i + 1, *theme);
        }
        assert(all[i as int] == line.spans@[i as int]@);
        let mut span = line.spans[i].clone();
        let link = is_link_span(&span, theme);
        if link {
            if !inside {
                starts = starts + 1;
            }
            let here: bool = match focused {
                Some(f) => f >= base && f - base == starts - 1,
                None => false,
            };
            if here {
                span.style = TextStyle {
                    underlined: false,
                    reversed: true,
                    bold: true,
                    ..span.style
                };
            }
        }
        assert(starts == link_starts(all, i + 1, *theme));
        inside = link;
        assert(span@ == want.spans[i as int]);
        spans.push(span);
        i = i + 1;
    }
    let out = Line { style: line.style, spans };
    assert(out@.spans =~= want.spans);
    (out, starts)
}

/// Focusing a link keeps the words of a line, and its links where they are.
pub proof fn law_focus_changes_no_text(
    l: SpecLine,
    base: usize,
    focused: Option<usize>,
    t: Theme,
    i: int,
)
    requires
        0 <= i < l.spans.len(),
    ensures
        with_focus(l, base, focused, t).spans.len() == l.spans.len(),
        with_focus(l, base, focused, t).spans[i].content == l.spans[i].content,
        with_focus(l, base, focused, t).spans[i].is_link(t) == l.spans[i].is_link(t),
{
}

// --- Links of a text --------------------------------------------------------------

/// The nearest row or column number.
pub open spec fn near16(n: int) -> u16 {
    if n <= u16::MAX {
        n as u16
    } else {
        u16::MAX
    }
}

/// The nearest count.
pub open spec fn near_count(n: int) -> usize {
    if n <= usize::MAX {
        n as usize
    } else {
        usize::MAX
    }
}

/// Pieces of a line whose first row is `row`, whose columns begin at `off`, and whose
/// links are counted from `base`.
pub open spec fn placed(feet: Seq<Footprint>, row: u16, off: u16, base: usize) -> Seq<LinkRect> {
    feet.map_values(
        |f: Footprint|
            LinkRect {
                idx: near_count(base + f.occ),
                row: near16(row + f.row),
                col: near16(off + f.col),
                width: f.width,
            },
    )
}

/// Where a scan of lines has got to.
pub struct SpecScan {
    /// The lines, with the focused link standing out.
    pub lines: Seq<SpecLine>,
    /// The row below them.
    pub row: u16,
    /// How many links came before.
    pub links: usize,
    pub rects: Seq<LinkRect>,
}

impl SpecScan {
    /// One line more, wrapped at `width` and indented by `off`.
    pub open spec fn with_line(
        self,
        line: SpecLine,
        width: u16,
        off: u16,
        t: Theme,
        focused: Option<usize>,
    ) -> SpecScan {
        let rows = wrapped_rows(seq![line], width) as u16;
        if rows == 0 {
            SpecScan { lines: self.lines.push(line), ..self }
        } else {
            let shown = with_focus(line, self.links, focused, t);
            let found = grid_feet(drawn_cells(shown, width, rows), rows as int, t).0;
            let starts = link_starts(line.spans, line.spans.len() as int, t);
            SpecScan {
                lines: self.lines.push(shown),
                row: near16(self.row + rows),
                links: near_count(
                    self.links + (if starts > found.links {
                        starts as int
                    } else {
                        found.links
                    }),
                ),
                rects: self.rects + placed(found.feet, self.row, off, self.links),
            }
        }
    }

    /// All of some lines more.
    pub open spec fn with_lines(
        self,
        lines: Seq<SpecLine>,
        width: u16,
        off: u16,
        t: Theme,
        focused: Option<usize>,
    ) -> SpecScan
        decreases lines.len(),
    {
        if lines.len() == 0 {
            self
        } else {
            self.with_lines(lines.drop_last(), width, off, t, focused).with_line(
                lines.last(),
                width,
                off,
                t,
                focused,
            )
        }
    }
}

fn place_feet(feet: &Vec<Footprint>, row: u16, off: u16, base: usize, rects: &mut Vec<LinkRect>)
    ensures
        final(rects)@ == old(rects)@ + placed(feet@, row, off, base),
{
    let ghost start = rects@;
    let ghost all = placed(feet@, row, off, base);
    let mut i: usize = 0;
    assert(start + all.take(0) =~= start);
    while i < feet.len()
        invariant
            i <= feet@.len(),
            all == placed(feet@, row, off, base),
            rects@ == start + all.take(i as int),
        decreases feet@.len() - i,
    {
        let f = feet[i];
        rects.push(
            LinkRect {
                idx: base.saturating_add(f.occ),
                row: row.saturating_add(f.row),
                col: off.saturating_add(f.col),
                width: f.width,
            },
        );
        assert(rects@ =~= start + all.take(i + 1));
        i = i + 1;
    }
    assert(all.take(all.len() as int) =~= all);
}

/// Find the links of wrapped lines whose first row is `top`, and make the focused one
/// stand out. `idx` counts the links so far; `col_off` shifts the columns of an inset
/// text.
pub fn scan_text_links(
    text: &mut Vec<Line>,
    top: u16,
    width: u16,
    col_off: u16,
    theme: &Theme,
    focused: Option<usize>,
    idx: &mut usize,
    rects: &mut Vec<LinkRect>,
)
    requires
        width <= WIDEST,
    ensures
        ({
            let w = if width == 0 {
                1u16
            } else {
                width
            };
            let start = SpecScan {
                lines: Seq::empty(),
                row: top,
                links: *old(idx),
                rects: old(rects)@,
            };
            let done = start.with_lines(lines_view(old(text)@), w, col_off, *theme, focused);
            &&& lines_view(final(text)@) == done.lines
            &&& *final(idx) == done.links
            &&& final(rects)@ == done.rects
        }),
{
    broadcast use super::doc::lemma_lines_push;

    let w: u16 = if width == 0 {
        1
    } else {
        width
    };
    let ghost all = lines_view(text@);
    let ghost start = SpecScan {
        lines: Seq::empty(),
        row: top,
        links: *idx,
        rects: rects@,
    };
    let mut out: Vec<Line> = Vec::new();
    let mut row: u16 = top;
    let mut i: usize = 0;
    assert(all.take(0) =~= Seq::empty());
    assert(lines_view(out@) =~= Seq::empty());
    assert(all.len() == text@.len());
    while i < text.len()
        invariant
            i <= text@.len(),
            w <= WIDEST,
            all == lines_view(text@),
            all.len() == text@.len(),
            ({
                let now = start.with_lines(all.take(i as int), w, col_off, *theme, focused);
                &&& lines_view(out@) == now.lines
                &&& row == now.row
                &&& *idx == now.links
                &&& rects@ == now.rects
            }),
        decreases text@.len() - i,
    {
        broadcast use super::doc::lemma_lines_push;

        assert(all.take(i + 1).drop_last() =~= all.take(i as int));
        assert(all.take(i + 1).last() == text@[i as int]@);
        let mut one: Vec<Line> = Vec::new();
        one.push(text[i].clone());
        assert(lines_view(one@) =~= seq![text@[i as int]@]);
        let rows: u16 = row_count(&one, w) as u16;
        if rows == 0 {
            out.push(text[i].clone());
        } else {
            let (line, starts) = focus_line(&text[i], *idx, focused, theme);
            let grid = draw_line(&line, w, rows);
            assert(grid_cells(grid@).len() == grid@.len());
            let (feet, links) = link_footprints(&grid, w, theme);
            place_feet(&feet, row, col_off, *idx, rects);
            let most: usize = if starts > links {
                starts
            } else {
                links
            };
            *idx = idx.saturating_add(most);
            row = row.saturating_add(rows);
            out.push(line);
        }
        i = i + 1;
    }
    assert(all.take(all.len() as int) =~= all);
    *text = out;
}

} // verus!
