//! The list pane: one line of metadata for each entry of the current
//! directory.

use vstd::prelude::*;
use crate::common::{AppError, ErrorModel, Key};
use crate::display::{
    color_of,
    counted,
    cursor_line,
    lemma_line_of_bound,
    line_models,
    node_color,
    out_of_range,
    report,
    DisplContent,
    DisplInfo,
    LineModel,
    ViewLine,
};
use crate::filesystem::{
    datetime_to_str,
    file_type_char,
    file_type_to_str,
    permission_chars,
    permissions_to_str,
    SysNode,
    SysNodeModel,
};
use crate::text::{decimal, decimal_chars, pad_left_chars, push_char, push_padded};
use crate::tree::{ModifFlags, Tree, TreeModel};
use crate::tree_node::{DirSource, ListingModel, NodeModel};

verus! {

/// The column at which the name begins when no field is wider than its
/// column.
pub const NAME_COLUMN: i32 = 53;

/// The text of the line for `entry`, with `date` as the text of its
/// modification time: kind and permissions, then owner and group
/// right-aligned in eight columns each, the size right-aligned in ten, the
/// date and the name, separated by single spaces.
pub open spec fn list_line_chars(entry: SysNodeModel, date: Seq<char>) -> Seq<char> {
    seq![file_type_char(entry.typ)] + permission_chars(entry.mode) + seq![' '] + pad_left_chars(
        entry.user,
        8,
    ) + seq![' '] + pad_left_chars(entry.group, 8) + seq![' '] + pad_left_chars(
        decimal_chars(entry.size as nat),
        10,
    ) + seq![' '] + date + seq![' '] + entry.name
}

/// A length as a column number, capped at the largest one.
pub open spec fn column(len: nat) -> int {
    if len > i32::MAX {
        i32::MAX as int
    } else {
        len as int
    }
}

/// The line for `entry`, the node at `src`: its text, selectable from the
/// name column to the end of the line.
pub open spec fn list_line(entry: SysNodeModel, date: Seq<char>, src: Seq<usize>) -> LineModel {
    LineModel {
        content: list_line_chars(entry, date),
        x1: NAME_COLUMN as int,
        x2: column(list_line_chars(entry, date).len()),
        node_color: color_of(entry),
        src_node: src,
    }
}

/// Whether `line` is the line for `entry`, the node at `src`, with some text
/// for the date.
pub open spec fn is_line_of(line: LineModel, entry: SysNodeModel, src: Seq<usize>) -> bool {
    exists|date: Seq<char>| #[trigger] list_line(entry, date, src) == line
}

/// Whether `lines` list the children of `dir`, the node at `path`: one line
/// for each child, in order.
pub open spec fn lists(lines: Seq<LineModel>, dir: NodeModel, path: Seq<usize>) -> bool {
    &&& lines.len() == dir.children.len()
    &&& forall|i: int|
        0 <= i < lines.len() ==> is_line_of(
            #[trigger] lines[i],
            dir.children[i].entry,
            path.push(i as usize),
        )
}

/// Builds the line for `entry`, the node at `src`, with `date` as the text
/// of its modification time.
pub fn line_for(entry: &SysNode, date: &str, src: &Vec<usize>) -> (r: ViewLine)
    ensures
        r@ == list_line(entry@, date@, src@),
{
    let mut s: String = String::new();
    s.append(file_type_to_str(&entry.typ));
    let perms: String = permissions_to_str(entry.mode);
    s.append(perms.as_str());
    push_char(&mut s, ' ');
    push_padded(&mut s, entry.user.as_str(), 8);
    push_char(&mut s, ' ');
    push_padded(&mut s, entry.group.as_str(), 8);
    push_char(&mut s, ' ');
    let size: String = decimal(entry.size);
    push_padded(&mut s, size.as_str(), 10);
    push_char(&mut s, ' ');
    s.append(date);
    push_char(&mut s, ' ');
    s.append(entry.name.as_str());
    assert(s@ =~= list_line_chars(entry@, date@));
    let len: usize = s.as_str().unicode_len();
    let x2: i32 = if len > i32::MAX as usize { i32::MAX } else { len as i32 };
    ViewLine::new(s.as_str(), NAME_COLUMN, x2, node_color(entry), src)
}

/// The list pane.
#[derive(Debug)]
pub struct ListView {
    pub lines: Vec<ViewLine>,
    pub modif_flags: ModifFlags,
}

impl ListView {
    /// A pane without lines that has everything to do.
    pub fn new() -> (r: ListView)
        ensures
            r.lines@.len() == 0,
            r.modif_flags.render,
            r.modif_flags.print,
    {
        ListView { lines: Vec::new(), modif_flags: ModifFlags::new() }
    }

    /// Rebuilds the lines from the current directory of `tree`.
    pub fn list_curr_node(&mut self, tree: &Tree)
        ensures
            lists(line_models(final(self).lines@), tree@.curr_dir(), tree@.curr_dir_path()),
            final(self).modif_flags == old(self).modif_flags,
    {
        let cd: Vec<usize> = tree.curr_dir();
        let len: usize = cd.len();
        assert(cd@.take(len as int) =~= cd@);
        let dir = tree.root.node_ref(&cd, len);
        let ghost model = dir@;
        let mut lines: Vec<ViewLine> = Vec::new();
        let n: usize = dir.subnodes.len();
        let mut i: usize = 0;
        while i < n
            invariant
                i <= n,
                n == dir.subnodes@.len(),
                model == dir@,
                lines@.len() == i,
                forall|k: int|
                    0 <= k < i ==> is_line_of(
                        (#[trigger] lines@[k])@,
                        model.children[k].entry,
                        cd@.push(k as usize),
                    ),
            decreases n - i,
        {
            let entry: &SysNode = &dir.subnodes[i].sys_node;
            // A time that cannot be represented is shown as no date at all.
            let date: String = match datetime_to_str(entry.modified) {
                Some(text) => text,
                None => String::new(),
            };
            let mut src: Vec<usize> = cd.clone();
            src.push(i);
            let line: ViewLine = line_for(entry, date.as_str(), &src);
            proof {
                assert(model.children[i as int] == dir.subnodes@[i as int]@);
                assert(list_line(model.children[i as int].entry, date@, cd@.push(i)) == line@);
            }
            lines.push(line);
            i = i + 1;
        }
        self.lines = lines;
        proof {
            let models = line_models(self.lines@);
            assert forall|k: int| 0 <= k < models.len() implies is_line_of(
                #[trigger] models[k],
                model.children[k].entry,
                cd@.push(k as usize),
            ) by {
                assert(models[k] == self.lines@[k]@);
            }
        }
    }

    /// The index of the line that shows the selected entry, if a line does.
    pub fn find_cursor(&self, tree: &Tree) -> (r: Option<i32>)
        ensures
            cursor_line(line_models(self.lines@), tree@.curr_file_path()) == match r {
                Some(i) => Some(i as int),
                None => None,
            },
    {
        let target: Option<Vec<usize>> = tree.curr_file();
        proof {
            let lines = line_models(self.lines@);
            if let Some(t) = tree@.curr_file_path() {
                lemma_line_of_bound(lines, t, counted(lines));
            }
        }
        report(&self.lines, target.as_ref()).curs_line
    }
}

/// The node shown `step` lines below the line `cursor` of `lines` (above it
/// for a negative step), if there is such a line.
pub open spec fn neighbour(lines: Seq<LineModel>, cursor: Option<int>, step: int) -> Option<
    Seq<usize>,
> {
    match cursor {
        Some(c) => if 0 <= c + step < lines.len() {
            Some(lines[c + step].src_node)
        } else {
            None
        },
        None => None,
    }
}

/// The path of the node shown `step` lines from the line `cursor`.
pub fn neighbour_of(lines: &Vec<ViewLine>, cursor: Option<i32>, step: i32) -> (r: Option<Vec<usize>>)
    ensures
        match neighbour(
            line_models(lines@),
            match cursor {
                Some(c) => Some(c as int),
                None => None,
            },
            step as int,
        ) {
            Some(n) => r matches Some(p) && p@ == n,
            None => r is None,
        },
{
    match cursor {
        Some(c) => {
            let at: i64 = c as i64 + step as i64;
            if at >= 0 && (at as u64) < lines.len() as u64 {
                Some(lines[at as usize].src_node.clone())
            } else {
                None
            }
        },
        None => None,
    }
}

/// What a key does in the list pane with the lines `lines`: it takes the
/// tree from `t0` to `t1`, the flags of the tree pane from `tv0` to `tv1`
/// and those of the list pane from `lv0` to `lv1`, and fails with `failed`
/// or, where that is `None`, succeeds.
///
/// Up and down move the selection to the node on the neighbouring line and
/// make the list pane repaint; without such a line nothing changes. Enter
/// descends into the selected directory, as `Tree::lv_enter` does; only
/// that can fail. Backspace steps up. Other keys do nothing.
pub open spec fn list_pane_keyed(
    key: Key,
    lines: Seq<LineModel>,
    t0: TreeModel,
    t1: TreeModel,
    tv0: ModifFlags,
    tv1: ModifFlags,
    lv0: ModifFlags,
    lv1: ModifFlags,
    failed: Option<ErrorModel>,
) -> bool {
    let unchanged = failed is None && t1 == t0 && tv1 == tv0 && lv1 == lv0;
    let cursor = cursor_line(lines, t0.curr_file_path());
    match key {
        Key::Up | Key::Down => match neighbour(lines, cursor, if key == Key::Up { -1 } else { 1 }) {
            Some(n) => failed is None && t1 == t0.lv_gone(n) && tv1 == tv0 && lv1 == (ModifFlags {
                print: true,
                ..lv0
            }),
            None => unchanged,
        },
        Key::Enter => exists|listing: ListingModel|
            {
                &&& #[trigger] t0.entered(listing) == (t1, failed)
                &&& t0.flags_after_entered(listing, tv0, lv0, tv1, lv1)
            },
        Key::Backspace => failed is None && t1 == t0.moved_up() && t0.flags_after_up(
            tv0,
            lv0,
            tv1,
            lv1,
        ),
        _ => unchanged,
    }
}

impl DisplContent for ListView {
    open spec fn lines(&self) -> Seq<LineModel> {
        line_models(self.lines@)
    }

    open spec fn flags(&self) -> ModifFlags {
        self.modif_flags
    }

    open spec fn pane_name() -> Seq<char> {
        "ListView"@
    }

    /// The list pane shows the entries of the current directory.
    open spec fn built(lines: Seq<LineModel>, tree: TreeModel) -> bool {
        lists(lines, tree.curr_dir(), tree.curr_dir_path())
    }

    /// The cursor of the list pane is on the selected entry.
    open spec fn target(tree: TreeModel) -> Option<Seq<usize>> {
        tree.curr_file_path()
    }

    fn modified(&self) -> (r: bool) {
        self.modif_flags.print
    }

    fn reset_modified(&mut self) {
        self.modif_flags.print = false;
    }

    fn prepare(&mut self, info: &mut DisplInfo, tree: &Tree) -> (r: Result<(), AppError>) {
        if self.modif_flags.render {
            self.list_curr_node(tree);
            self.modif_flags.render = false;
        }
        let target: Option<Vec<usize>> = tree.curr_file();
        *info = report(&self.lines, target.as_ref());
        Ok(())
    }

    fn get_line(&self, y: usize) -> (r: Result<&ViewLine, AppError>) {
        if y < self.lines.len() {
            Ok(&self.lines[y])
        } else {
            proof {
                reveal_strlit("ListView index out of range");
                reveal_strlit("ListView");
                reveal_strlit(" index out of range");
                assert("ListView index out of range"@ =~= out_of_range("ListView"@));
            }
            Err(AppError::StrError(String::from_str("ListView index out of range")))
        }
    }

    /// In the list pane only entering a directory that is not loaded yet
    /// reads one.
    open spec fn key_reads(key: Key, lines: Seq<LineModel>, tree: TreeModel) -> bool {
        key == Key::Enter && tree.entering_reads()
    }

    /// In the list pane a key does what `list_pane_keyed` says.
    open spec fn keyed(
        key: Key,
        lines: Seq<LineModel>,
        t0: TreeModel,
        t1: TreeModel,
        own0: ModifFlags,
        own1: ModifFlags,
        other0: ModifFlags,
        other1: ModifFlags,
        failed: Option<ErrorModel>,
    ) -> bool {
        list_pane_keyed(key, lines, t0, t1, other0, other1, own0, own1, failed)
    }

    /// Handles a key in the list pane: up and down move the selection to the
    /// neighbouring line, enter descends into the selected directory,
    /// backspace steps up to the parent. Other keys do nothing. Entering
    /// fails if the directory cannot be read.
    fn process_key<F: DirSource>(
        &mut self,
        key: Key,
        tree: &mut Tree,
        other: &mut ModifFlags,
        fs: &mut F,
    ) -> (r: Result<(), AppError>)
    {
        match key {
            Key::Up => {
                let cursor: Option<i32> = self.find_cursor(tree);
                match neighbour_of(&self.lines, cursor, -1) {
                    Some(dest) => tree.lv_goto(&dest, &mut self.modif_flags),
                    None => Ok(()),
                }
            },
            Key::Down => {
                let cursor: Option<i32> = self.find_cursor(tree);
                match neighbour_of(&self.lines, cursor, 1) {
                    Some(dest) => tree.lv_goto(&dest, &mut self.modif_flags),
                    None => Ok(()),
                }
            },
            Key::Enter => tree.lv_enter(other, &mut self.modif_flags, fs),
            Key::Backspace => tree.lv_move_up(other, &mut self.modif_flags),
            _ => Ok(()),
        }
    }
}

} // verus!
