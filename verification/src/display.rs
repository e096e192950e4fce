//! The viewport renderer: scrolls a pane's lines into a window of bounded
//! size and turns each visible line into drawing operations.

use vstd::prelude::*;
use crate::common::{failure, AppError, ErrorModel, Key, Size};
use crate::filesystem::{NodeType, SysNode, SysNodeModel};
use crate::text::chars_of;
use crate::tree::{ModifFlags, Tree, TreeModel};
use crate::tree_node::DirSource;

verus! {

/// The colour pair of directories.
pub const COLOR_DIR: i16 = 10;

/// The colour pair of executable files.
pub const COLOR_EXEC: i16 = 11;

/// The colour pair of the selected span in a pane without focus.
pub const COLOR_UNFOCUSED: i16 = 12;

/// What is put into one character cell.
#[derive(Clone, Copy, Debug, PartialEq, Eq, Structural)]
pub enum Glyph {
    /// The character itself.
    Char(char),
    /// The line-drawing tee that opens to the right.
    LTee,
    /// The line-drawing lower left corner.
    LLCorner,
    /// The line-drawing vertical bar.
    VLine,
}

/// One drawing operation on a window.
#[derive(Clone, Copy, Debug, PartialEq, Eq, Structural)]
pub enum DrawOp {
    ReverseOn,
    ReverseOff,
    ColorOn(i16),
    ColorOff(i16),
    /// Draws the glyph at the write position and advances it by one cell.
    Put(Glyph),
}

/// The attributes in force at some point of a drawing.
pub struct Pen {
    pub color: Option<i16>,
    pub reverse: bool,
}

/// One drawn cell: its glyph and the attributes it was drawn with.
pub struct Cell {
    pub glyph: Glyph,
    pub color: Option<i16>,
    pub reverse: bool,
}

/// The glyph that shows `c`: the three box-drawing characters of the tree
/// pane become line-drawing glyphs, every other character shows itself.
pub open spec fn glyph_of(c: char) -> Glyph {
    if c == '├' {
        Glyph::LTee
    } else if c == '└' {
        Glyph::LLCorner
    } else if c == '│' {
        Glyph::VLine
    } else {
        Glyph::Char(c)
    }
}

impl Pen {
    /// No colour, no reverse video.
    pub open spec fn plain() -> Pen {
        Pen { color: None, reverse: false }
    }

    /// The pen after `op`.
    pub open spec fn after(self, op: DrawOp) -> Pen {
        match op {
            DrawOp::ReverseOn => Pen { reverse: true, ..self },
            DrawOp::ReverseOff => Pen { reverse: false, ..self },
            DrawOp::ColorOn(c) => Pen { color: Some(c), ..self },
            DrawOp::ColorOff(_) => Pen { color: None, ..self },
            DrawOp::Put(_) => self,
        }
    }

    /// Whether `op` changes something when issued with this pen: it never
    /// enables what is enabled nor disables what is not.
    pub open spec fn takes(self, op: DrawOp) -> bool {
        match op {
            DrawOp::ReverseOn => !self.reverse,
            DrawOp::ReverseOff => self.reverse,
            DrawOp::ColorOn(_) => self.color is None,
            DrawOp::ColorOff(c) => self.color == Some(c),
            DrawOp::Put(_) => true,
        }
    }
}

/// The pen after all of `ops`, issued from a plain pen.
pub open spec fn pen_after(ops: Seq<DrawOp>) -> Pen
    decreases ops.len(),
{
    if ops.len() == 0 {
        Pen::plain()
    } else {
        pen_after(ops.drop_last()).after(ops.last())
    }
}

/// Whether no operation of `ops` is redundant: issued from a plain pen, each
/// one changes the pen (or draws).
pub open spec fn tidy(ops: Seq<DrawOp>) -> bool
    decreases ops.len(),
{
    ops.len() == 0 || (tidy(ops.drop_last()) && pen_after(ops.drop_last()).takes(ops.last()))
}

/// The cells that `ops` draw, left to right, each with the attributes in
/// force when it was drawn.
pub open spec fn cells(ops: Seq<DrawOp>) -> Seq<Cell>
    decreases ops.len(),
{
    if ops.len() == 0 {
        Seq::empty()
    } else {
        let before = cells(ops.drop_last());
        match ops.last() {
            DrawOp::Put(glyph) => {
                let pen = pen_after(ops.drop_last());
                before.push(Cell { glyph, color: pen.color, reverse: pen.reverse })
            },
            _ => before,
        }
    }
}

/// One line of a pane: its text, the span `[x1, x2)` of it that can carry
/// the selection, the colour of the node it shows and the path of that node.
#[derive(Debug)]
pub struct ViewLine {
    pub content: String,
    pub x1: i32,
    pub x2: i32,
    pub node_color: Option<i16>,
    pub src_node: Vec<usize>,
}

/// A `ViewLine` as a mathematical value.
pub struct LineModel {
    pub content: Seq<char>,
    pub x1: int,
    pub x2: int,
    pub node_color: Option<i16>,
    pub src_node: Seq<usize>,
}

impl View for ViewLine {
    type V = LineModel;

    open spec fn view(&self) -> LineModel {
        LineModel {
            content: self.content@,
            x1: self.x1 as int,
            x2: self.x2 as int,
            node_color: self.node_color,
            src_node: self.src_node@,
        }
    }
}

impl ViewLine {
    /// A line with the given text, span, colour and node.
    pub fn new(content: &str, x1: i32, x2: i32, node_color: Option<i16>, src_node: &Vec<usize>) -> (r:
        ViewLine)
        ensures
            r@ == (LineModel {
                content: content@,
                x1: x1 as int,
                x2: x2 as int,
                node_color,
                src_node: src_node@,
            }),
    {
        ViewLine { content: content.to_owned(), x1, x2, node_color, src_node: src_node.clone() }
    }
}

/// The models of a sequence of lines.
pub open spec fn line_models(lines: Seq<ViewLine>) -> Seq<LineModel> {
    Seq::new(lines.len(), |i: int| lines[i]@)
}

/// What a pane tells the renderer about its prepared lines: how many there
/// are, which one carries the cursor, and the selectable span of that line.
#[derive(Clone, Copy, Debug)]
pub struct DisplInfo {
    pub lines_count: i32,
    pub curs_line: Option<i32>,
    pub curs_x1: i32,
    pub curs_x2: i32,
}

impl Default for DisplInfo {
    /// No lines and no cursor.
    fn default() -> (r: DisplInfo)
        ensures
            r.lines_count == 0,
            r.curs_line is None,
            r.curs_x1 == 0,
            r.curs_x2 == 0,
    {
        DisplInfo { lines_count: 0, curs_line: None, curs_x1: 0, curs_x2: 0 }
    }
}

/// The number of lines that a pane reports: its line count, capped at the
/// largest value of the counter.
pub open spec fn counted(lines: Seq<LineModel>) -> int {
    if lines.len() > i32::MAX {
        i32::MAX as int
    } else {
        lines.len() as int
    }
}

/// The index of the first of the first `limit` lines that shows the node at
/// `target`.
pub open spec fn line_of(lines: Seq<LineModel>, target: Seq<usize>, limit: int) -> Option<int>
    decreases limit,
{
    if limit <= 0 || limit > lines.len() {
        None
    } else {
        match line_of(lines, target, limit - 1) {
            Some(i) => Some(i),
            None => if lines[limit - 1].src_node == target {
                Some(limit - 1)
            } else {
                None
            },
        }
    }
}

/// The line that carries the cursor: the first line that shows the node at
/// `target`, among the lines that the pane reports.
pub open spec fn cursor_line(lines: Seq<LineModel>, target: Option<Seq<usize>>) -> Option<int> {
    match target {
        Some(t) => line_of(lines, t, counted(lines)),
        None => None,
    }
}

/// What a pane with the lines `lines` reports when the cursor is on the node
/// at `target`.
pub open spec fn info_of(lines: Seq<LineModel>, target: Option<Seq<usize>>, info: DisplInfo) -> bool {
    &&& info.lines_count == counted(lines)
    &&& match cursor_line(lines, target) {
        Some(c) => info.curs_line == Some(c as i32) && info.curs_x1 == lines[c].x1 && info.curs_x2
            == lines[c].x2,
        None => info.curs_line is None && info.curs_x1 == 0 && info.curs_x2 == 0,
    }
}

/// The line found by `line_of` lies below the limit.
pub proof fn lemma_line_of_bound(lines: Seq<LineModel>, target: Seq<usize>, limit: int)
    ensures
        line_of(lines, target, limit) matches Some(i) ==> 0 <= i < limit && i < lines.len()
            && lines[i].src_node == target,
    decreases limit,
{
    if limit > 0 && limit <= lines.len() {
        lemma_line_of_bound(lines, target, limit - 1);
    }
}

/// The message of the error that reports a line index out of range.
pub open spec fn out_of_range(pane: Seq<char>) -> Seq<char> {
    pane + " index out of range"@
}

/// What a pane offers to the renderer.
pub trait DisplContent {
    /// The prepared lines.
    spec fn lines(&self) -> Seq<LineModel>;

    /// The dirty flags.
    spec fn flags(&self) -> ModifFlags;

    /// The name of the pane in messages.
    spec fn pane_name() -> Seq<char>;

    /// Whether `lines` are the lines that this kind of pane shows for `tree`.
    spec fn built(lines: Seq<LineModel>, tree: TreeModel) -> bool;

    /// The node whose line carries the cursor of this kind of pane.
    spec fn target(tree: TreeModel) -> Option<Seq<usize>>;

    /// Whether the pane must be repainted.
    fn modified(&self) -> (r: bool)
        ensures
            r == self.flags().print,
    ;

    /// Records that the pane has been repainted.
    fn reset_modified(&mut self)
        ensures
            final(self).lines() == old(self).lines(),
            final(self).flags() == (ModifFlags { print: false, ..old(self).flags() }),
    ;

    /// Rebuilds the lines from `tree` if they are stale, and reports the
    /// line count and the cursor's line.
    fn prepare(&mut self, info: &mut DisplInfo, tree: &Tree) -> (r: Result<(), AppError>)
        ensures
            r is Ok,
            final(self).flags() == (ModifFlags { render: false, ..old(self).flags() }),
            if old(self).flags().render {
                Self::built(final(self).lines(), tree@)
            } else {
                final(self).lines() == old(self).lines()
            },
            info_of(final(self).lines(), Self::target(tree@), *final(info)),
    ;

    /// The prepared line with index `y`.
    fn get_line(&self, y: usize) -> (r: Result<&ViewLine, AppError>)
        ensures
            y < self.lines().len() ==> r is Ok && r->Ok_0@ == self.lines()[y as int],
            y >= self.lines().len() ==> r is Err && r->Err_0.is_str(out_of_range(Self::pane_name())),
    ;

    /// What `key` does in this kind of pane with the lines `lines`: it takes
    /// the tree from `t0` to `t1`, the pane's own flags from `own0` to
    /// `own1` and those of the other pane from `other0` to `other1`, and
    /// fails with `failed` or, where that is `None`, succeeds.
    spec fn keyed(
        key: Key,
        lines: Seq<LineModel>,
        t0: TreeModel,
        t1: TreeModel,
        own0: ModifFlags,
        own1: ModifFlags,
        other0: ModifFlags,
        other1: ModifFlags,
        failed: Option<ErrorModel>,
    ) -> bool;

    /// Whether `key` makes this kind of pane read a directory, with the
    /// lines `lines` and the tree `tree`.
    spec fn key_reads(key: Key, lines: Seq<LineModel>, tree: TreeModel) -> bool;

    /// Handles a key in this pane. `other` are the flags of the other pane.
    /// The filesystem is left alone unless the key reads a directory.
    fn process_key<F: DirSource>(
        &mut self,
        key: Key,
        tree: &mut Tree,
        other: &mut ModifFlags,
        fs: &mut F,
    ) -> (r: Result<(), AppError>)
        ensures
            final(self).lines() == old(self).lines(),
            old(tree)@.wf() ==> final(tree)@.wf(),
            !Self::key_reads(key, old(self).lines(), old(tree)@) ==> *final(fs) == *old(fs),
            Self::keyed(
                key,
                old(self).lines(),
                old(tree)@,
                final(tree)@,
                old(self).flags(),
                final(self).flags(),
                *old(other),
                *final(other),
                failure(r),
            ),
    ;
}

/// Whether index `i` of a line lies in its selectable span.
pub open spec fn in_span(line: LineModel, i: int) -> bool {
    line.x1 <= i < line.x2
}

/// The colour of a line's selectable span: the node's colour, but on the
/// cursor's line of a pane without focus the colour that marks the
/// selection there.
pub open spec fn span_color_of(node_color: Option<i16>, cursor: bool, active: bool) -> Option<i16> {
    if cursor && !active {
        Some(COLOR_UNFOCUSED)
    } else {
        node_color
    }
}

/// How character `i` of `line` is drawn: inside the selectable span with the
/// span's colour, and in reverse video on the cursor's line of the pane with
/// focus; outside it plain.
pub open spec fn cell_at(line: LineModel, i: int, cursor: bool, active: bool) -> Cell {
    Cell {
        glyph: glyph_of(line.content[i]),
        color: if in_span(line, i) {
            span_color_of(line.node_color, cursor, active)
        } else {
            None
        },
        reverse: in_span(line, i) && active && cursor,
    }
}

/// How many characters of a line of `len` characters are drawn when the
/// first `offs` are scrolled out and the window is `width` cells wide.
pub open spec fn visible(len: int, offs: int, width: int) -> int {
    if offs < 0 || width <= 0 || len <= offs {
        0
    } else if len - offs < width {
        len - offs
    } else {
        width
    }
}

/// The cells drawn for `line`: its characters from `offs` on, as many as fit.
pub open spec fn line_cells(line: LineModel, offs: int, width: int, cursor: bool, active: bool) -> Seq<
    Cell,
> {
    Seq::new(
        visible(line.content.len() as int, offs, width) as nat,
        |j: int| cell_at(line, offs + j, cursor, active),
    )
}

/// The horizontal scroll offset that keeps the span `[x1, x2)` in view:
/// the span's end is pulled into the window, but its start is never
/// scrolled out.
pub open spec fn fit(x1: int, x2: int, width: int) -> int {
    if x2 - width < 0 {
        0
    } else if x2 - width > x1 {
        x1
    } else {
        x2 - width
    }
}

/// Computes the horizontal scroll offset for the span `[x1, x2)`.
pub fn fit_str(x1: i32, x2: i32, width: i32) -> (r: i32)
    requires
        x1 >= 0,
    ensures
        r == fit(x1 as int, x2 as int, width as int),
{
    let over: i64 = x2 as i64 - width as i64;
    if over < 0 {
        0
    } else if over > x1 as i64 {
        x1
    } else {
        over as i32
    }
}

/// Whether `i` is at least `x`.
fn at_least(i: usize, x: i32) -> (r: bool)
    ensures
        r == (i as int >= x as int),
{
    x <= 0 || i >= x as usize
}

/// The glyph that shows `c`.
pub fn glyph_for(c: char) -> (r: Glyph)
    ensures
        r == glyph_of(c),
{
    if c == '├' {
        Glyph::LTee
    } else if c == '└' {
        Glyph::LLCorner
    } else if c == '│' {
        Glyph::VLine
    } else {
        Glyph::Char(c)
    }
}

/// Emits the attribute changes of one line, never a redundant one.
pub struct Attributor {
    pub container_active: bool,
    pub at_cursor: bool,
    pub node_color: Option<i16>,
    pub current_color: Option<i16>,
    pub current_reverse: bool,
    pub ops: Vec<DrawOp>,
}

impl Attributor {
    /// The operations emitted so far are tidy, and the recorded attributes
    /// are those in force after them.
    pub open spec fn wf(&self) -> bool {
        &&& tidy(self.ops@)
        &&& pen_after(self.ops@) == (Pen {
            color: self.current_color,
            reverse: self.current_reverse,
        })
    }

    /// The colour of the selectable span: the node's colour, but on the
    /// cursor's line of a pane without focus the colour that marks the
    /// selection there.
    pub open spec fn span_color(&self) -> Option<i16> {
        if self.at_cursor && !self.container_active {
            Some(COLOR_UNFOCUSED)
        } else {
            self.node_color
        }
    }

    /// Whether the selectable span is drawn in reverse video: on the
    /// cursor's line of the pane with focus.
    pub open spec fn span_reverse(&self) -> bool {
        self.container_active && self.at_cursor
    }

    /// Whether `self` continues `old`: the same line settings, and the
    /// operations of `old` followed by more that draw nothing.
    pub open spec fn extends(&self, old: &Attributor) -> bool {
        &&& self.container_active == old.container_active
        &&& self.at_cursor == old.at_cursor
        &&& self.node_color == old.node_color
        &&& old.ops@.is_prefix_of(self.ops@)
        &&& cells(self.ops@) == cells(old.ops@)
    }

    /// An attributor for one line, with nothing emitted and a plain pen.
    pub fn new(container_active: bool, at_cursor: bool, node_color: Option<i16>) -> (r: Attributor)
        ensures
            r.wf(),
            r.ops@.len() == 0,
            r.container_active == container_active,
            r.at_cursor == at_cursor,
            r.node_color == node_color,
    {
        Attributor {
            container_active,
            at_cursor,
            node_color,
            current_color: None,
            current_reverse: false,
            ops: Vec::new(),
        }
    }

    /// Emits one attribute change.
    fn emit(&mut self, op: DrawOp)
        requires
            old(self).wf(),
            !(op is Put),
            pen_after(old(self).ops@).takes(op),
        ensures
            final(self).wf(),
            final(self).extends(old(self)),
            final(self).ops@ == old(self).ops@.push(op),
            pen_after(final(self).ops@) == pen_after(old(self).ops@).after(op),
    {
        self.ops.push(op);
        match op {
            DrawOp::ReverseOn => {
                self.current_reverse = true;
            },
            DrawOp::ReverseOff => {
                self.current_reverse = false;
            },
            DrawOp::ColorOn(c) => {
                self.current_color = Some(c);
            },
            DrawOp::ColorOff(_) => {
                self.current_color = None;
            },
            DrawOp::Put(_) => {},
        }
        proof {
            assert(self.ops@.drop_last() =~= old(self).ops@);
            assert(old(self).ops@.is_prefix_of(self.ops@)) by {
                assert(self.ops@.subrange(0, old(self).ops@.len() as int) =~= old(self).ops@);
            }
        }
    }

    /// Draws one glyph with the attributes in force.
    pub fn put(&mut self, glyph: Glyph)
        requires
            old(self).wf(),
        ensures
            final(self).wf(),
            final(self).container_active == old(self).container_active,
            final(self).at_cursor == old(self).at_cursor,
            final(self).node_color == old(self).node_color,
            final(self).current_color == old(self).current_color,
            final(self).current_reverse == old(self).current_reverse,
            final(self).ops@ == old(self).ops@.push(DrawOp::Put(glyph)),
            cells(final(self).ops@) == cells(old(self).ops@).push(
                Cell {
                    glyph,
                    color: old(self).current_color,
                    reverse: old(self).current_reverse,
                },
            ),
    {
        self.ops.push(DrawOp::Put(glyph));
        proof {
            assert(self.ops@.drop_last() =~= old(self).ops@);
        }
    }

    /// Turns reverse video on unless it is on.
    pub fn set_curr_reverse(&mut self)
        requires
            old(self).wf(),
        ensures
            final(self).wf(),
            final(self).extends(old(self)),
            final(self).current_reverse,
            final(self).current_color == old(self).current_color,
    {
        if !self.current_reverse {
            self.emit(DrawOp::ReverseOn);
        } else {
            assert(self.ops@.subrange(0, self.ops@.len() as int) =~= self.ops@);
        }
    }

    /// Turns reverse video off unless it is off.
    pub fn reset_curr_reverse(&mut self)
        requires
            old(self).wf(),
        ensures
            final(self).wf(),
            final(self).extends(old(self)),
            !final(self).current_reverse,
            final(self).current_color == old(self).current_color,
    {
        if self.current_reverse {
            self.emit(DrawOp::ReverseOff);
        } else {
            assert(self.ops@.subrange(0, self.ops@.len() as int) =~= self.ops@);
        }
    }

    /// Turns the colour in force off, if there is one.
    pub fn reset_curr_color(&mut self)
        requires
            old(self).wf(),
        ensures
            final(self).wf(),
            final(self).extends(old(self)),
            final(self).current_color is None,
            final(self).current_reverse == old(self).current_reverse,
    {
        match self.current_color {
            Some(color) => {
                self.emit(DrawOp::ColorOff(color));
            },
            None => {
                assert(self.ops@.subrange(0, self.ops@.len() as int) =~= self.ops@);
            },
        }
    }

    /// Makes `color` the colour in force: nothing is emitted if it is
    /// already, otherwise the old colour is turned off before the new one is
    /// turned on.
    pub fn set_curr_color(&mut self, color: Option<i16>)
        requires
            old(self).wf(),
        ensures
            final(self).wf(),
            final(self).extends(old(self)),
            final(self).current_color == color,
            final(self).current_reverse == old(self).current_reverse,
    {
        let same: bool = match (color, self.current_color) {
            (Some(a), Some(b)) => a == b,
            (None, None) => true,
            _ => false,
        };
        if !same {
            self.reset_curr_color();
            let ghost mid = *self;
            match color {
                Some(c) => {
                    self.emit(DrawOp::ColorOn(c));
                },
                None => {},
            }
            proof {
                lemma_prefix_trans(old(self).ops@, mid.ops@, self.ops@);
            }
        } else {
            assert(self.ops@.subrange(0, self.ops@.len() as int) =~= self.ops@);
        }
    }

    /// Enters the selectable span: its colour and, where due, reverse video
    /// come into force.
    pub fn node_on(&mut self)
        requires
            old(self).wf(),
        ensures
            final(self).wf(),
            final(self).extends(old(self)),
            final(self).current_color == old(self).span_color(),
            final(self).current_reverse == (old(self).span_reverse() || old(self).current_reverse),
    {
        if self.container_active && self.at_cursor {
            self.set_curr_reverse();
        }
        let ghost mid = *self;
        let color: Option<i16> = if self.at_cursor && !self.container_active {
            Some(COLOR_UNFOCUSED)
        } else {
            self.node_color
        };
        self.set_curr_color(color);
        proof {
            lemma_prefix_trans(old(self).ops@, mid.ops@, self.ops@);
        }
    }

    /// Leaves the selectable span: its colour and reverse video go out of
    /// force.
    pub fn node_off(&mut self)
        requires
            old(self).wf(),
        ensures
            final(self).wf(),
            final(self).extends(old(self)),
            final(self).current_color is None,
            final(self).current_reverse == (!old(self).span_reverse() && old(self).current_reverse),
    {
        if self.container_active && self.at_cursor {
            self.reset_curr_reverse();
        }
        let ghost mid = *self;
        self.reset_curr_color();
        proof {
            lemma_prefix_trans(old(self).ops@, mid.ops@, self.ops@);
        }
    }

    /// Ends the line: turns off whatever is still in force and hands out
    /// the operations.
    pub fn finish(self) -> (ops: Vec<DrawOp>)
        requires
            self.wf(),
        ensures
            tidy(ops@),
            pen_after(ops@) == Pen::plain(),
            cells(ops@) == cells(self.ops@),
            self.ops@.is_prefix_of(ops@),
    {
        let mut a = self;
        a.reset_curr_color();
        let ghost mid = a;
        a.reset_curr_reverse();
        proof {
            lemma_prefix_trans(self.ops@, mid.ops@, a.ops@);
        }
        a.ops
    }
}

/// Being a prefix carries over two steps.
pub proof fn lemma_prefix_trans(a: Seq<DrawOp>, b: Seq<DrawOp>, c: Seq<DrawOp>)
    requires
        a.is_prefix_of(b),
        b.is_prefix_of(c),
    ensures
        a.is_prefix_of(c),
{
    assert(c.subrange(0, a.len() as int) =~= b.subrange(0, a.len() as int));
}

/// The scroll margin of a window `height` lines high: three lines, less in
/// a window too low to hold them on both sides of a line.
pub open spec fn margin_for(height: int) -> int {
    clamped((height - 1) / 2, 0, 3)
}

/// `v` held between `lo` and `hi`.
pub open spec fn clamped(v: int, lo: int, hi: int) -> int {
    if v < lo {
        lo
    } else if v > hi {
        hi
    } else {
        v
    }
}

/// The largest scroll offset of `total` lines in a window `height` high.
pub open spec fn max_offset(total: int, height: int) -> int {
    if total - height < 0 {
        0
    } else {
        total - height
    }
}

/// The vertical scroll offset after a refresh. With the cursor on line `c`:
/// when centring, the cursor's line goes to the middle of the window;
/// otherwise the offset moves only as far as it takes to keep `margin` lines
/// between the cursor and either edge. Without a cursor the offset stays. In
/// each case it is then held between zero and the largest offset. A window
/// of negative height shows nothing and does not scroll.
pub open spec fn scrolled(
    offset: int,
    cursor: Option<int>,
    center: bool,
    height: int,
    margin: int,
    total: int,
) -> int {
    let wanted = match cursor {
        None => offset,
        Some(c) => if center {
            c - height / 2
        } else {
            let down = if c - offset > height - 1 - margin {
                c - height + 1 + margin
            } else {
                offset
            };
            if c - down < margin {
                c - margin
            } else {
                down
            }
        },
    };
    if height < 0 {
        offset
    } else {
        clamped(wanted, 0, max_offset(total, height))
    }
}

/// How many rows of the window show a line: as many as there are lines from
/// the scroll offset on and rows to hold them, and none in a window without
/// height.
pub open spec fn rows_shown(total: int, offset: int, height: int) -> int {
    if height <= 0 {
        0
    } else {
        clamped(total - offset, 0, height)
    }
}

/// After scrolling, the cursor's line is inside the window.
pub proof fn lemma_cursor_visible(
    offset: int,
    c: int,
    center: bool,
    height: int,
    margin: int,
    total: int,
)
    requires
        0 <= c < total,
        height > 0,
        0 <= margin,
        2 * margin <= height - 1,
    ensures
        ({
            let o = scrolled(offset, Some(c), center, height, margin, total);
            0 <= o <= c < o + height
        }),
{
}

/// The state of one pane's window: its size, how far it is scrolled down,
/// its scroll margin and whether the pane has the focus.
#[derive(Clone, Copy, Debug)]
pub struct Display {
    pub size: Size,
    pub offset_y: i32,
    pub margin_y: i32,
    pub active: bool,
}

/// One refresh of a window: for each row that shows a line, top first, the
/// operations that draw it from the row's first cell on.
pub type Frame = Vec<Vec<DrawOp>>;

impl Display {
    /// The margin is the one that goes with the height, and the window is
    /// not scrolled above the first line.
    pub open spec fn wf(&self) -> bool {
        &&& self.margin_y == margin_for(self.size.height as int)
        &&& self.offset_y >= 0
    }

    /// The scroll margin that goes with a height.
    fn margin_of(height: i32) -> (r: i32)
        ensures
            r == margin_for(height as int),
    {
        if height < 1 {
            0
        } else {
            let half: i32 = (height - 1) / 2;
            if half > 3 {
                3
            } else {
                half
            }
        }
    }

    /// Tests whether the state is in order.
    pub fn in_order(&self) -> (r: bool)
        ensures
            r == self.wf(),
    {
        self.offset_y >= 0 && self.margin_y == Display::margin_of(self.size.height)
    }

    /// The state of a window of the given size, scrolled to the top and
    /// without focus. A window without height or width is a window in which
    /// nothing is drawn.
    pub fn new(size: &Size) -> (r: Display)
        ensures
            r.wf(),
            r.size == *size,
            r.margin_y == margin_for(size.height as int),
            r.offset_y == 0,
            !r.active,
    {
        Display {
            size: *size,
            offset_y: 0,
            margin_y: Display::margin_of(size.height),
            active: false,
        }
    }

    /// The operations that draw `vline` into one row of the window, with
    /// the first `offs` characters scrolled out. `cursor` says whether the
    /// line carries the cursor, `container_active` whether the pane has the
    /// focus. The operations are tidy and leave the pen plain.
    pub fn print_line(&self, vline: &ViewLine, offs: i32, cursor: bool, container_active: bool) -> (ops:
        Vec<DrawOp>)
        ensures
            tidy(ops@),
            pen_after(ops@) == Pen::plain(),
            cells(ops@) == line_cells(
                vline@,
                offs as int,
                self.size.width as int,
                cursor,
                container_active,
            ),
    {
        let chars: Vec<char> = chars_of(vline.content.as_str());
        let mut a: Attributor = Attributor::new(container_active, cursor, vline.node_color);
        let ghost line = vline@;
        let ghost shown = visible(chars@.len() as int, offs as int, self.size.width as int);
        if offs < 0 || self.size.width <= 0 || chars.len() <= offs as usize {
            assert(cells(a.ops@) =~= line_cells(
                line,
                offs as int,
                self.size.width as int,
                cursor,
                container_active,
            ));
            return a.finish();
        }
        let start: usize = offs as usize;
        let width: usize = self.size.width as usize;
        let mut i: usize = start;
        while i < chars.len() && i - start < width
            invariant
                start <= i <= chars@.len(),
                i - start <= width,
                start == offs,
                width == self.size.width,
                chars@ == line.content,
                line == vline@,
                a.wf(),
                a.container_active == container_active,
                a.at_cursor == cursor,
                a.node_color == vline.node_color,
                a.current_reverse ==> a.span_reverse(),
                (a.current_color is None && !a.current_reverse) || (i > start && line.x1 <= i - 1),
                cells(a.ops@) == Seq::new(
                    (i - start) as nat,
                    |j: int| cell_at(line, start + j, cursor, container_active),
                ),
            decreases chars@.len() - i,
        {
            if at_least(i, vline.x2) {
                a.node_off();
            } else if at_least(i, vline.x1) {
                a.node_on();
            }
            a.put(glyph_for(chars[i]));
            i = i + 1;
            assert(cells(a.ops@) =~= Seq::new(
                (i - start) as nat,
                |j: int| cell_at(line, start + j, cursor, container_active),
            ));
        }
        assert(cells(a.ops@) =~= line_cells(
            line,
            offs as int,
            self.size.width as int,
            cursor,
            container_active,
        ));
        a.finish()
    }
}

/// The horizontal scroll offset of a pane with the cursor on line `cursor`:
/// the one that fits that line's span, and none where the span starts before
/// the line does or there is no cursor.
pub open spec fn h_offset(lines: Seq<LineModel>, cursor: Option<int>, width: int) -> int {
    match cursor {
        Some(c) => if lines[c].x1 < 0 {
            0
        } else {
            fit(lines[c].x1, lines[c].x2, width)
        },
        None => fit(0, 0, width),
    }
}

/// Whether `frame` shows `lines` in a window in the state `d`, with the
/// cursor on line `cursor` and the lines scrolled `offs` cells to the left:
/// one row for each line from the scroll offset on, as many as fit, each
/// drawn tidily as `line_cells` says.
pub open spec fn shows(
    frame: Seq<Vec<DrawOp>>,
    lines: Seq<LineModel>,
    d: Display,
    cursor: Option<int>,
    offs: int,
) -> bool {
    &&& frame.len() == rows_shown(counted(lines), d.offset_y as int, d.size.height as int)
    &&& forall|y: int|
        0 <= y < frame.len() ==> {
            &&& tidy((#[trigger] frame[y])@)
            &&& pen_after(frame[y]@) == Pen::plain()
            &&& cells(frame[y]@) == line_cells(
                lines[d.offset_y + y],
                offs,
                d.size.width as int,
                cursor == Some(d.offset_y + y),
                d.active,
            )
        }
}

/// What one refresh does to a window and its pane: it takes the window
/// from `d0` to `d1`, the pane's lines from `lines0` to `lines1` and its
/// flags from `flags0` to `flags1`, and hands out `frame`.
///
/// A pane that needs no repaint is left alone and no frame is handed out.
/// Otherwise the lines are rebuilt from `tree` if they were stale, the
/// window follows the cursor's line as `scrolled` says, the frame shows the
/// lines from there on, and both flags end up cleared.
pub open spec fn displayed<C: DisplContent>(
    d0: Display,
    d1: Display,
    lines0: Seq<LineModel>,
    flags0: ModifFlags,
    lines1: Seq<LineModel>,
    flags1: ModifFlags,
    tree: TreeModel,
    center: bool,
    frame: Option<Frame>,
) -> bool {
    if !flags0.print {
        frame is None && d1 == d0 && lines1 == lines0 && flags1 == flags0
    } else {
        let cursor = cursor_line(lines1, C::target(tree));
        &&& if flags0.render {
            C::built(lines1, tree)
        } else {
            lines1 == lines0
        }
        &&& flags1 == (ModifFlags { render: false, print: false })
        &&& d1 == (Display {
            offset_y: scrolled(
                d0.offset_y as int,
                cursor,
                center,
                d0.size.height as int,
                d0.margin_y as int,
                counted(lines1),
            ) as i32,
            ..d0
        })
        &&& frame matches Some(f) && shows(
            f@,
            lines1,
            d1,
            cursor,
            h_offset(lines1, cursor, d0.size.width as int),
        )
    }
}

impl Display {
    /// Refreshes the window from `content`, which is prepared from `tree`
    /// first. Returns the frame to draw, or `None` when the pane needs no
    /// repaint; then nothing changes.
    ///
    /// The window follows the cursor's line as `scrolled` says, centring it
    /// when `center` is set, and scrolls sideways to fit the cursor line's
    /// span. After the refresh the pane counts as repainted.
    pub fn display<C: DisplContent>(&mut self, content: &mut C, tree: &Tree, center: bool) -> (r:
        Result<Option<Frame>, AppError>)
        requires
            old(self).wf(),
        ensures
            final(self).wf(),
            final(self).size == old(self).size,
            final(self).margin_y == old(self).margin_y,
            final(self).active == old(self).active,
            r is Ok,
            displayed::<C>(
                *old(self),
                *final(self),
                old(content).lines(),
                old(content).flags(),
                final(content).lines(),
                final(content).flags(),
                tree@,
                center,
                r->Ok_0,
            ),
    {
        if !content.modified() {
            return Ok(None);
        }
        let mut info: DisplInfo = DisplInfo::default();
        match content.prepare(&mut info, tree) {
            Ok(()) => {},
            Err(e) => {
                return Err(e);
            },
        }
        let ghost lines = content.lines();
        let ghost cursor = cursor_line(lines, C::target(tree@));
        proof {
            match C::target(tree@) {
                Some(t) => {
                    lemma_line_of_bound(lines, t, counted(lines));
                },
                None => {},
            }
        }
        let height: i64 = self.size.height as i64;
        let margin: i64 = self.margin_y as i64;
        let total: i64 = info.lines_count as i64;
        let mut offset: i64 = self.offset_y as i64;
        if height >= 0 {
            match info.curs_line {
                Some(c) => {
                    let c: i64 = c as i64;
                    if !center {
                        if c - offset > height - 1 - margin {
                            offset = c - height + 1 + margin;
                        }
                        if c - offset < margin {
                            offset = c - margin;
                        }
                    } else {
                        offset = c - height / 2;
                    }
                },
                None => {},
            }
            let most: i64 = if total - height < 0 { 0 } else { total - height };
            if offset < 0 {
                offset = 0;
            } else if offset > most {
                offset = most;
            }
        }
        self.offset_y = offset as i32;
        let offset_x: i32 = if info.curs_x1 < 0 {
            0
        } else {
            fit_str(info.curs_x1, info.curs_x2, self.size.width)
        };
        let mut frame: Frame = Vec::new();
        let mut y: i32 = 0;
        while y < self.size.height && (y as i64) + offset < total
            invariant
                self.wf(),
                self.size == old(self).size,
                self.margin_y == old(self).margin_y,
                self.active == old(self).active,
                self.offset_y == offset,
                0 <= offset,
                0 <= y,
                y <= self.size.height || y == 0,
                y + offset <= total || y == 0,
                total == counted(lines),
                lines == content.lines(),
                frame@.len() == y,
                forall|k: int|
                    0 <= k < y ==> {
                        &&& tidy((#[trigger] frame@[k])@)
                        &&& pen_after(frame@[k]@) == Pen::plain()
                        &&& cells(frame@[k]@) == line_cells(
                            lines[offset + k],
                            offset_x as int,
                            self.size.width as int,
                            cursor == Some(offset + k),
                            self.active,
                        )
                    },
                match cursor {
                    Some(c) => info.curs_line == Some(c as i32) && 0 <= c < total,
                    None => info.curs_line is None,
                },
            decreases self.size.height - y,
        {
            let ln: i64 = (y as i64) + offset;
            let at_cursor: bool = match info.curs_line {
                Some(c) => ln == c as i64,
                None => false,
            };
            let row: Vec<DrawOp> = match content.get_line(ln as usize) {
                Ok(view_line) => self.print_line(view_line, offset_x, at_cursor, self.active),
                Err(e) => {
                    return Err(e);
                },
            };
            frame.push(row);
            y = y + 1;
        }
        content.reset_modified();
        Ok(Some(frame))
    }
}

/// The colour of the node that an entry stands for: directories and
/// executable files have one each, everything else has none. A file counts
/// as executable when any of its three execute permissions is granted.
pub open spec fn color_of(entry: SysNodeModel) -> Option<i16> {
    match entry.typ {
        NodeType::Dir => Some(COLOR_DIR),
        NodeType::File => if entry.mode & 0o111 != 0 {
            Some(COLOR_EXEC)
        } else {
            None
        },
        NodeType::SymLink => None,
    }
}

/// The colour of the node that `entry` stands for.
pub fn node_color(entry: &SysNode) -> (r: Option<i16>)
    ensures
        r == color_of(entry@),
{
    match entry.typ {
        NodeType::Dir => Some(COLOR_DIR),
        NodeType::File => if entry.mode & 0o111 != 0 {
            Some(COLOR_EXEC)
        } else {
            None
        },
        NodeType::SymLink => None,
    }
}

/// Whether two paths are the same.
pub fn same_path(a: &Vec<usize>, b: &Vec<usize>) -> (r: bool)
    ensures
        r == (a@ == b@),
{
    if a.len() != b.len() {
        return false;
    }
    let mut k: usize = 0;
    while k < a.len()
        invariant
            k <= a@.len(),
            a@.len() == b@.len(),
            forall|j: int| 0 <= j < k ==> a@[j] == b@[j],
        decreases a@.len() - k,
    {
        if a[k] != b[k] {
            return false;
        }
        k = k + 1;
    }
    assert(a@ =~= b@);
    true
}

/// The number of `lines` as a pane reports it.
pub fn count_lines(lines: &Vec<ViewLine>) -> (r: i32)
    ensures
        r == counted(line_models(lines@)),
{
    if lines.len() > i32::MAX as usize {
        i32::MAX
    } else {
        lines.len() as i32
    }
}

/// What a pane with the lines `lines` reports when the cursor is on the node
/// at `target`.
pub fn report(lines: &Vec<ViewLine>, target: Option<&Vec<usize>>) -> (r: DisplInfo)
    ensures
        info_of(
            line_models(lines@),
            match target {
                Some(t) => Some(t@),
                None => None,
            },
            r,
        ),
{
    let count: i32 = count_lines(lines);
    let ghost models = line_models(lines@);
    let mut info: DisplInfo = DisplInfo { lines_count: count, curs_line: None, curs_x1: 0, curs_x2: 0 };
    match target {
        Some(t) => {
            let mut i: i32 = 0;
            while i < count
                invariant
                    0 <= i <= count,
                    target == Some(t),
                    count == counted(models),
                    models == line_models(lines@),
                    line_of(models, t@, i as int) is None,
                    info.lines_count == count,
                    info.curs_line is None,
                    info.curs_x1 == 0,
                    info.curs_x2 == 0,
                decreases count - i,
            {
                let line: &ViewLine = &lines[i as usize];
                if same_path(&line.src_node, t) {
                    info.curs_line = Some(i);
                    info.curs_x1 = line.x1;
                    info.curs_x2 = line.x2;
                    proof {
                        assert(models[i as int] == line@);
                        assert(line_of(models, t@, i as int + 1) == Some(i as int));
                        lemma_line_of_extends(models, t@, i as int + 1, count as int);
                    }
                    return info;
                }
                i = i + 1;
            }
        },
        None => {},
    }
    info
}

/// A line found below some limit is the one found below every larger limit.
pub proof fn lemma_line_of_extends(lines: Seq<LineModel>, target: Seq<usize>, k: int, limit: int)
    requires
        0 <= k <= limit <= lines.len(),
        line_of(lines, target, k) is Some,
    ensures
        line_of(lines, target, limit) == line_of(lines, target, k),
    decreases limit - k,
{
    if k < limit {
        lemma_line_of_extends(lines, target, k, limit - 1);
    }
}

impl Display {
    /// Hands a key to the pane shown in this window.
    pub fn process_key<C: DisplContent, F: DirSource>(
        &self,
        content: &mut C,
        key: Key,
        tree: &mut Tree,
        other: &mut ModifFlags,
        fs: &mut F,
    ) -> (r: Result<(), AppError>)
        ensures
            final(content).lines() == old(content).lines(),
            old(tree)@.wf() ==> final(tree)@.wf(),
            !C::key_reads(key, old(content).lines(), old(tree)@) ==> *final(fs) == *old(fs),
            C::keyed(
                key,
                old(content).lines(),
                old(tree)@,
                final(tree)@,
                old(content).flags(),
                final(content).flags(),
                *old(other),
                *final(other),
                failure(r),
            ),
    {
        content.process_key(key, tree, other, fs)
    }
}

} // verus!
