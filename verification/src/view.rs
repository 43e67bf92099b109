//! The grid renderer: lays the table out as fixed-width cells and builds one
//! line of text per terminal row.

use vstd::prelude::*;
// The renderer below is itself named `View`, which shadows the prelude's
// view trait in this module; the anonymous import keeps `@` usable here.
use vstd::view::View as _;

use crate::buffer::Buffer;

verus! {

/// A run of `n` space characters.
pub open spec fn spaces(n: nat) -> Seq<char> {
    Seq::new(n, |i: int| ' ')
}

/// A field fitted into a cell of width `w`: truncated to its first `w`
/// characters when too long, otherwise right-aligned with leading spaces.
pub open spec fn spec_cell(field: Seq<char>, w: nat) -> Seq<char> {
    if field.len() >= w {
        field.take(w as int)
    } else {
        spaces((w - field.len()) as nat) + field
    }
}

/// Cells joined by a single vertical bar between neighbours.
pub open spec fn join_bar(cells: Seq<Seq<char>>) -> Seq<char>
    decreases cells.len(),
{
    if cells.len() == 0 {
        Seq::<char>::empty()
    } else if cells.len() == 1 {
        cells[0]
    } else {
        join_bar(cells.drop_last()) + seq!['│'] + cells.last()
    }
}

/// A separator row: a horizontal rule across the whole viewport, degenerating
/// to a single space when the viewport has no width.
pub open spec fn spec_separator(width: nat) -> Seq<char> {
    if width == 0 {
        seq![' ']
    } else {
        Seq::new(width, |i: int| '─')
    }
}

fn spaces_exec(count: usize) -> (blank: String)
    ensures
        blank@ == spaces(count as nat),
{
    let mut blank = String::new();
    let mut i: usize = 0;
    proof {
        assert(blank@ =~= spaces(0));
    }
    while i < count
        invariant
            i <= count,
            blank@ == spaces(i as nat),
        decreases count - i,
    {
        blank.append(" ");
        i += 1;
        proof {
            reveal_strlit(" ");
            assert(blank@ =~= spaces(i as nat));
        }
    }
    blank
}

/// Formats one field into a fixed-width cell: truncated to the first
/// `cell_width` characters when at least that long, otherwise right-aligned
/// behind leading spaces.
pub fn format_cell(field: &str, cell_width: usize) -> (cell: String)
    ensures
        cell@ == spec_cell(field@, cell_width as nat),
{
    let length = field.unicode_len();
    if length >= cell_width {
        let cell = field.substring_char(0, cell_width).to_owned();
        proof {
            assert(cell@ =~= spec_cell(field@, cell_width as nat));
        }
        cell
    } else {
        let mut cell = spaces_exec(cell_width - length);
        cell.append(field);
        cell
    }
}

/// Builds the horizontal rule of a separator row.
pub fn build_cell_separator(width: usize) -> (rule: String)
    ensures
        rule@ == spec_separator(width as nat),
{
    if width == 0 {
        let rule = " ".to_owned();
        proof {
            reveal_strlit(" ");
            assert(rule@ =~= spec_separator(0));
        }
        return rule;
    }
    let mut rule = String::new();
    let mut i: usize = 0;
    proof {
        assert(rule@ =~= Seq::new(0, |j: int| '─'));
    }
    while i < width
        invariant
            i <= width,
            rule@ == Seq::new(i as nat, |j: int| '─'),
        decreases width - i,
    {
        rule.append("─");
        i += 1;
        proof {
            reveal_strlit("─");
            assert(rule@ =~= Seq::new(i as nat, |j: int| '─'));
        }
    }
    rule
}

/// The fixed banner text.
pub open spec fn welcome_text() -> Seq<char> {
    "gridview editor -- version 0.1.0"@
}

/// The welcome banner for a given width: the fixed message centred behind a
/// `~` marker, a bare `~` when the message cannot fit, and empty text for a
/// zero-width viewport.
pub open spec fn spec_welcome(width: nat) -> Seq<char> {
    if width == 0 {
        Seq::<char>::empty()
    } else if width <= welcome_text().len() {
        seq!['~']
    } else {
        seq!['~'] + spaces(((width - welcome_text().len() - 1) / 2) as nat) + welcome_text()
    }
}

/// Builds the welcome banner line.
pub fn build_welcome_message(width: usize) -> (banner: String)
    ensures
        banner@ == spec_welcome(width as nat),
{
    if width == 0 {
        return String::new();
    }
    let message = "gridview editor -- version 0.1.0";
    let length = message.unicode_len();
    if width <= length {
        let banner = "~".to_owned();
        proof {
            reveal_strlit("~");
            assert(banner@ =~= seq!['~']);
        }
        return banner;
    }
    let mut banner = "~".to_owned();
    let padding = (width - length - 1) / 2;
    let blank = spaces_exec(padding);
    banner.append(blank.as_str());
    banner.append(message);
    proof {
        reveal_strlit("~");
        assert(banner@ =~= spec_welcome(width as nat));
    }
    banner
}

fn join_bar_exec(cells: &Vec<String>) -> (joined: String)
    ensures
        joined@ == join_bar(cells.deep_view()),
{
    let ghost all = cells.deep_view();
    let mut joined = String::new();
    let mut i: usize = 0;
    proof {
        assert(all.take(0) =~= Seq::<Seq<char>>::empty());
    }
    while i < cells.len()
        invariant
            i <= cells.len(),
            all == cells.deep_view(),
            joined@ == join_bar(all.take(i as int)),
        decreases cells.len() - i,
    {
        if i > 0 {
            joined.append("│");
        }
        joined.append(cells[i].as_str());
        i += 1;
        proof {
            reveal_strlit("│");
            let done = all.take(i as int);
            assert(done.last() == all[i - 1]);
            if i == 1 {
                assert(join_bar(done) == done[0]);
            } else {
                assert(done.drop_last() =~= all.take(i - 1));
            }
            assert(joined@ =~= join_bar(done));
        }
    }
    proof {
        assert(all.take(cells.len() as int) =~= all);
    }
    joined
}

/// Formats every field of one record into a fixed-width cell, in order.
pub fn build_formatted_tuple(tuple: &Vec<String>, cell_width: usize) -> (cells: Vec<String>)
    ensures
        cells.deep_view() == Seq::new(
            tuple.deep_view().len(),
            |j: int| spec_cell(tuple.deep_view()[j], cell_width as nat),
        ),
{
    let ghost fields = tuple.deep_view();
    let mut cells: Vec<String> = Vec::new();
    let mut i: usize = 0;
    while i < tuple.len()
        invariant
            i <= tuple.len(),
            fields == tuple.deep_view(),
            cells.deep_view() == Seq::new(
                i as nat,
                |j: int| spec_cell(fields[j], cell_width as nat),
            ),
        decreases tuple.len() - i,
    {
        let ghost cells_deep = cells.deep_view();
        let cell = format_cell(tuple[i].as_str(), cell_width);
        cells.push(cell);
        i += 1;
        proof {
            assert(cells.deep_view() =~= cells_deep.push(spec_cell(fields[i - 1], cell_width as nat)));
            assert(cells.deep_view() =~= Seq::new(
                i as nat,
                |j: int| spec_cell(fields[j], cell_width as nat),
            ));
        }
    }
    proof {
        assert(cells.deep_view() =~= Seq::new(
            fields.len(),
            |j: int| spec_cell(fields[j], cell_width as nat),
        ));
    }
    cells
}

fn pad_cells(count: usize, cell_width: usize) -> (pads: Vec<String>)
    ensures
        pads.deep_view() == Seq::new(count as nat, |j: int| spaces(cell_width as nat)),
{
    let blank = spaces_exec(cell_width);
    let mut pads: Vec<String> = Vec::new();
    let mut i: usize = 0;
    while i < count
        invariant
            i <= count,
            blank@ == spaces(cell_width as nat),
            pads.deep_view() == Seq::new(i as nat, |j: int| spaces(cell_width as nat)),
        decreases count - i,
    {
        let ghost pads_deep = pads.deep_view();
        pads.push(blank.clone());
        i += 1;
        proof {
            assert(pads.deep_view() =~= pads_deep.push(spaces(cell_width as nat)));
            assert(pads.deep_view() =~= Seq::new(i as nat, |j: int| spaces(cell_width as nat)));
        }
    }
    proof {
        assert(pads.deep_view() =~= Seq::new(count as nat, |j: int| spaces(cell_width as nat)));
    }
    pads
}

/// A content row's text. With a record at hand, its fields fill the leading
/// cells (excess fields beyond the row's cell capacity are dropped) and
/// all-space padding cells fill the rest; without one, the row is padding
/// cells alone. The bordering differs: a record row closes its field cells
/// with a bar before the padding, a bare padding row only opens with one.
pub open spec fn spec_content_line(record: Option<Seq<Seq<char>>>, width: nat, cw: nat) -> Seq<
    char,
>
    recommends
        cw >= 1,
{
    let cell_num = width / cw;
    match record {
        Some(fields) => {
            let k = if fields.len() <= cell_num {
                fields.len()
            } else {
                cell_num
            };
            let elems = Seq::new(k, |j: int| spec_cell(fields[j], cw));
            let pads = Seq::new((cell_num - k) as nat, |j: int| spaces(cw));
            seq!['│'] + join_bar(elems) + seq!['│'] + join_bar(pads)
        },
        None => seq!['│'] + join_bar(Seq::new(cell_num, |j: int| spaces(cw))),
    }
}

fn build_record_line(record: &Vec<String>, width: usize, cell_width: usize) -> (line: String)
    requires
        cell_width >= 1,
    ensures
        line@ == spec_content_line(Some(record.deep_view()), width as nat, cell_width as nat),
{
    let ghost fields = record.deep_view();
    let cell_num = width / cell_width;
    let mut cells = build_formatted_tuple(record, cell_width);
    let ghost full = cells.deep_view();
    if cells.len() > cell_num {
        cells.truncate(cell_num);
        proof {
            assert(cells.deep_view() =~= full.subrange(0, cell_num as int));
        }
    }
    proof {
        let k = if fields.len() <= cell_num as nat {
            fields.len()
        } else {
            cell_num as nat
        };
        assert(cells.deep_view() =~= Seq::new(k, |j: int| spec_cell(fields[j], cell_width as nat)));
    }
    let pads = pad_cells(cell_num - cells.len(), cell_width);
    let mut line = "│".to_owned();
    let joined_cells = join_bar_exec(&cells);
    line.append(joined_cells.as_str());
    line.append("│");
    let joined_pads = join_bar_exec(&pads);
    line.append(joined_pads.as_str());
    proof {
        reveal_strlit("│");
        assert(line@ =~= spec_content_line(
            Some(fields),
            width as nat,
            cell_width as nat,
        ));
    }
    line
}

/// How many content rows come before row `r`, for a separator period of
/// `period` rows: the records consumed by rows `0..r`.
pub open spec fn content_rows_before(r: nat, period: nat) -> nat
    recommends
        period >= 1,
    decreases r,
{
    if r == 0 {
        0
    } else {
        content_rows_before((r - 1) as nat, period) + if ((r - 1) as nat) % period == 0 {
            0nat
        } else {
            1nat
        }
    }
}

/// The text of row `r` of the frame: a horizontal rule on separator rows,
/// otherwise the next record in order — or a row of bare padding cells once
/// the table is exhausted.
pub open spec fn spec_row_line(
    tuples: Seq<Seq<Seq<char>>>,
    r: nat,
    width: nat,
    cw: nat,
    ch: nat,
) -> Seq<char>
    recommends
        cw >= 1,
{
    if r % (ch + 1) == 0 {
        spec_separator(width)
    } else {
        let idx = content_rows_before(r, ch + 1);
        if idx < tuples.len() {
            spec_content_line(Some(tuples[idx as int]), width, cw)
        } else {
            spec_content_line(None, width, cw)
        }
    }
}

/// The whole frame: one line per viewport row.
pub open spec fn spec_frame(
    tuples: Seq<Seq<Seq<char>>>,
    width: nat,
    height: nat,
    cw: nat,
    ch: nat,
) -> Seq<Seq<char>>
    recommends
        cw >= 1,
{
    Seq::new(height, |r: int| spec_row_line(tuples, r as nat, width, cw, ch))
}

fn build_empty_line(width: usize, cell_width: usize) -> (line: String)
    requires
        cell_width >= 1,
    ensures
        line@ == spec_content_line(None, width as nat, cell_width as nat),
{
    let pads = pad_cells(width / cell_width, cell_width);
    let mut line = "│".to_owned();
    let joined_pads = join_bar_exec(&pads);
    line.append(joined_pads.as_str());
    proof {
        reveal_strlit("│");
        assert(line@ =~= spec_content_line(None, width as nat, cell_width as nat));
    }
    line
}

/// A viewport's dimensions, in character cells.
#[derive(Clone, Copy, PartialEq, Eq, Structural)]
pub struct Size {
    pub width: usize,
    pub height: usize,
}

/// The fixed per-cell dimensions of the grid.
#[derive(Clone, Copy, PartialEq, Eq, Structural)]
pub struct ViewConfig {
    pub cell_width: usize,
    pub cell_height: usize,
}

/// The grid renderer: the current table, the viewport, the cell dimensions,
/// and the dirty flag that gates redrawing.
pub struct View {
    pub buffer: Buffer,
    pub needs_redraw: bool,
    pub size: Size,
    pub config: ViewConfig,
}

impl View {
    /// The configuration invariant: a cell must be at least one character
    /// wide (the row layout divides by the cell width), and the cell height
    /// must leave the separator period representable.
    pub open spec fn wf(self) -> bool {
        &&& self.config.cell_width >= 1
        &&& self.config.cell_height < usize::MAX
    }

    /// What one `render` call does to a view: with the dirty flag up and a
    /// drawable viewport it produces the full frame and lowers the flag;
    /// otherwise it changes nothing and produces no lines.
    pub open spec fn spec_render(v: View) -> (View, Option<Seq<Seq<char>>>) {
        if v.needs_redraw && v.size.width > 0 && v.size.height > 0 {
            (
                View { needs_redraw: false, ..v },
                Some(
                    spec_frame(
                        v.buffer@,
                        v.size.width as nat,
                        v.size.height as nat,
                        v.config.cell_width as nat,
                        v.config.cell_height as nat,
                    ),
                ),
            )
        } else {
            (v, None)
        }
    }

    /// Replaces the viewport and marks the grid dirty, unconditionally.
    pub fn resize(&mut self, to: Size)
        ensures
            *final(self) == (View { size: to, needs_redraw: true, ..*old(self) }),
    {
        self.size = to;
        self.needs_redraw = true;
    }

    /// Raises the dirty flag, so the next `render` rebuilds the whole frame.
    /// The caller uses this after a draw failure left a partial frame on
    /// screen.
    pub fn invalidate(&mut self)
        ensures
            *final(self) == (View { needs_redraw: true, ..*old(self) }),
    {
        self.needs_redraw = true;
    }

    /// Replaces the table from freshly loaded text and marks the grid dirty.
    /// `None` stands for a failed load (an unreadable or missing file): the
    /// prior table and the dirty flag stay untouched, so the screen keeps
    /// showing the last good content.
    pub fn load(&mut self, contents: Option<&str>)
        ensures
            match contents {
                Some(text) => {
                    &&& final(self).buffer@ == crate::buffer::spec_parse(text@)
                    &&& final(self).needs_redraw
                    &&& final(self).size == old(self).size
                    &&& final(self).config == old(self).config
                },
                None => *final(self) == *old(self),
            },
    {
        if let Some(text) = contents {
            self.buffer = Buffer::from_text(text);
            self.needs_redraw = true;
        }
    }

    /// Builds the frame when it is due. With the dirty flag down, or a
    /// viewport of zero width or height, nothing is drawn and the state is
    /// untouched. Otherwise every viewport row gets its line — separator
    /// rows on the fixed period, content rows consuming records in order,
    /// padding rows past the end of the table — and the dirty flag drops.
    /// The caller draws the returned lines top to bottom and calls
    /// [`View::invalidate`] if a draw fails partway, so the next call
    /// retries the whole frame.
    pub fn render(&mut self) -> (frame: Option<Vec<String>>)
        requires
            old(self).wf(),
        ensures
            *final(self) == View::spec_render(*old(self)).0,
            frame.deep_view() == View::spec_render(*old(self)).1,
    {
        if !self.needs_redraw {
            return None;
        }
        let width = self.size.width;
        let height = self.size.height;
        if width == 0 || height == 0 {
            return None;
        }
        let cell_width = self.config.cell_width;
        let cell_height = self.config.cell_height;
        let ghost tuples = self.buffer@;
        let mut lines: Vec<String> = Vec::new();
        let mut next_record: usize = 0;
        let mut row: usize = 0;
        proof {
            assert(lines.deep_view() =~= Seq::<Seq<char>>::empty());
        }
        while row < height
            invariant
                row <= height,
                cell_width >= 1,
                cell_height < usize::MAX,
                tuples == self.buffer@,
                next_record as nat == ({
                    let consumed = content_rows_before(row as nat, (cell_height + 1) as nat);
                    if consumed <= tuples.len() {
                        consumed
                    } else {
                        tuples.len()
                    }
                }),
                lines.deep_view() == Seq::new(
                    row as nat,
                    |r: int| spec_row_line(
                        tuples,
                        r as nat,
                        width as nat,
                        cell_width as nat,
                        cell_height as nat,
                    ),
                ),
            decreases height - row,
        {
            let ghost lines_deep = lines.deep_view();
            if row % (cell_height + 1) == 0 {
                lines.push(build_cell_separator(width));
            } else if next_record < self.buffer.tuples.len() {
                let line = build_record_line(&self.buffer.tuples[next_record], width, cell_width);
                lines.push(line);
                next_record += 1;
            } else {
                lines.push(build_empty_line(width, cell_width));
            }
            row += 1;
            proof {
                let period = (cell_height + 1) as nat;
                assert(content_rows_before(row as nat, period) == content_rows_before(
                    (row - 1) as nat,
                    period,
                ) + if ((row - 1) as nat) % period == 0 {
                    0nat
                } else {
                    1nat
                });
                assert(lines.deep_view() =~= lines_deep.push(
                    spec_row_line(
                        tuples,
                        (row - 1) as nat,
                        width as nat,
                        cell_width as nat,
                        cell_height as nat,
                    ),
                ));
                assert(lines.deep_view() =~= Seq::new(
                    row as nat,
                    |r: int| spec_row_line(
                        tuples,
                        r as nat,
                        width as nat,
                        cell_width as nat,
                        cell_height as nat,
                    ),
                ));
            }
        }
        self.needs_redraw = false;
        proof {
            assert(lines.deep_view() =~= spec_frame(
                tuples,
                width as nat,
                height as nat,
                cell_width as nat,
                cell_height as nat,
            ));
        }
        Some(lines)
    }
}

/// With a cell width of at least one, every rendered cell's text is exactly
/// the cell width long, whatever the field holds.
pub proof fn lemma_cell_text_width(field: Seq<char>, w: nat)
    requires
        w >= 1,
    ensures
        spec_cell(field, w).len() == w,
{
}

/// Truncation round trip: a field at least as long as the cell renders as
/// its leading `w` characters; a shorter one as `w - len` spaces followed by
/// the field itself, for a total of exactly `w`.
pub proof fn lemma_cell_truncation(field: Seq<char>, w: nat)
    ensures
        field.len() >= w ==> spec_cell(field, w) == field.take(w as int),
        field.len() < w ==> spec_cell(field, w) == spaces((w - field.len()) as nat) + field,
        spec_cell(field, w).len() == w,
{
}

/// A viewport of zero width or zero height renders nothing: no lines are
/// produced and the view — the dirty flag included — is left as it was.
pub proof fn lemma_degenerate_viewport(v: View)
    requires
        v.size.width == 0 || v.size.height == 0,
    ensures
        View::spec_render(v).1 is None,
        View::spec_render(v).0 == v,
{
}

/// Rendering is idempotent: whatever the first call did, an immediate second
/// call with no intervening state change produces no lines and changes
/// nothing, because a completed render lowers the dirty flag.
pub proof fn lemma_render_idempotent(v: View)
    ensures
        View::spec_render(View::spec_render(v).0).1 is None,
        View::spec_render(View::spec_render(v).0).0 == View::spec_render(v).0,
{
}

/// Separator placement: within the frame, row `r` carries the horizontal
/// rule exactly when `r` is a multiple of `cell_height + 1`; every other row
/// is a content row, which always opens with a vertical bar.
pub proof fn lemma_separator_placement(
    tuples: Seq<Seq<Seq<char>>>,
    width: nat,
    height: nat,
    cw: nat,
    ch: nat,
    r: nat,
)
    requires
        r < height,
    ensures
        spec_frame(tuples, width, height, cw, ch)[r as int] == spec_separator(width) <==> r % (ch
            + 1) == 0,
{
    let line = spec_frame(tuples, width, height, cw, ch)[r as int];
    if r % (ch + 1) != 0 {
        assert(line[0] == '│');
        if width == 0 {
            assert(spec_separator(width)[0] == ' ');
        } else {
            assert(spec_separator(width)[0] == '─');
        }
    }
}

impl Default for View {
    /// A fresh renderer: an empty table, a zero viewport until the first
    /// `resize`, the fixed default cell dimensions, and the dirty flag up so
    /// the first drawable frame is rendered.
    fn default() -> (view: View)
        ensures
            view.wf(),
            view.buffer@ == Seq::<Seq<Seq<char>>>::empty(),
            view.needs_redraw,
            view.size == (Size { width: 0, height: 0 }),
            view.config == (ViewConfig { cell_width: 10, cell_height: 1 }),
    {
        View {
            buffer: Buffer::default(),
            needs_redraw: true,
            size: Size { width: 0, height: 0 },
            config: ViewConfig { cell_width: 10, cell_height: 1 },
        }
    }
}

} // verus!
