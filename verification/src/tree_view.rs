//! The tree pane: one line for each directory that is visible in the tree,
//! indented and joined by branch lines.

use vstd::prelude::*;
use crate::common::{failure, AppError, ErrorModel, Key};
use crate::display::{
    color_of,
    counted,
    cursor_line,
    lemma_line_of_bound,
    line_models,
    node_color,
    out_of_range,
    report,
    DisplContent,
    DisplInfo,
    LineModel,
    ViewLine,
};
use crate::filesystem::NodeType;
use crate::list_view::{column, neighbour, neighbour_of};
use crate::text::push_char;
use crate::tree::{ModifFlags, Tree, TreeModel};
use crate::tree_node::{DirSource, ListingModel, NodeModel, TreeNode};

verus! {

/// Whether one of the children after index `j` is a directory.
pub open spec fn dirs_after(children: Seq<NodeModel>, j: int) -> bool {
    exists|k: int| j < k < children.len() && (#[trigger] children[k]).entry.typ == NodeType::Dir
}

/// The indentation of a line: for each open level a vertical bar where the
/// level has more directories to come, a blank where it has not.
pub open spec fn lead_chars(stack: Seq<bool>) -> Seq<char> {
    Seq::new(stack.len(), |i: int| if stack[i] { '│' } else { ' ' })
}

/// The branch glyph in front of a node: a tee where more directories follow
/// on its level, a corner where it is the last, nothing for the root.
pub open spec fn link_chars(tbc: Option<bool>) -> Seq<char> {
    match tbc {
        Some(true) => seq!['├'],
        Some(false) => seq!['└'],
        None => Seq::empty(),
    }
}

/// The mark of a node: `-` when it is expanded, `+` when it is collapsed.
pub open spec fn mark_char(expanded: bool) -> char {
    if expanded {
        '-'
    } else {
        '+'
    }
}

/// The line of the directory `node` at `path`: indentation, branch glyph,
/// mark and name; the name is the selectable span.
pub open spec fn tree_line(node: NodeModel, path: Seq<usize>, stack: Seq<bool>, tbc: Option<bool>) -> LineModel {
    let before = lead_chars(stack) + link_chars(tbc) + seq![mark_char(node.expanded)];
    LineModel {
        content: before + node.entry.name,
        x1: column(before.len()),
        x2: column(before.len() + node.entry.name.len()),
        node_color: color_of(node.entry),
        src_node: path,
    }
}

/// The levels open below a node that was drawn with `tbc` under `stack`.
pub open spec fn stack_below(stack: Seq<bool>, tbc: Option<bool>) -> Seq<bool> {
    match tbc {
        Some(b) => stack.push(b),
        None => stack,
    }
}

/// The lines of the tree below and including `node` at `path`: nothing for
/// what is no directory; else the node's own line, followed, if it is
/// expanded, by the lines of its children in order.
pub open spec fn node_lines(node: NodeModel, path: Seq<usize>, stack: Seq<bool>, tbc: Option<bool>) -> Seq<LineModel>
    decreases node, 1nat, 0nat,
{
    if node.entry.typ != NodeType::Dir {
        Seq::empty()
    } else if !node.expanded {
        seq![tree_line(node, path, stack, tbc)]
    } else {
        seq![tree_line(node, path, stack, tbc)] + children_lines(
            node,
            path,
            stack_below(stack, tbc),
            node.children.len(),
        )
    }
}

/// The lines of the first `upto` children of `node`.
pub open spec fn children_lines(node: NodeModel, path: Seq<usize>, stack: Seq<bool>, upto: nat) -> Seq<LineModel>
    decreases node, 0nat, upto,
{
    if upto == 0 || upto > node.children.len() {
        Seq::empty()
    } else {
        let j = (upto - 1) as nat;
        children_lines(node, path, stack, j) + node_lines(
            node.children[j as int],
            path.push(j as usize),
            stack,
            Some(dirs_after(node.children, j as int)),
        )
    }
}

/// The index of the last child of `node` that is a directory.
fn last_dir(node: &TreeNode) -> (r: Option<usize>)
    ensures
        forall|j: int|
            0 <= j < node@.children.len() ==> dirs_after(node@.children, j) == (match r {
                Some(l) => j < l,
                None => false,
            }),
{
    let n: usize = node.subnodes.len();
    let ghost children = node@.children;
    let mut found: Option<usize> = None;
    let mut k: usize = 0;
    while k < n
        invariant
            k <= n,
            n == node.subnodes@.len(),
            children == node@.children,
            match found {
                Some(l) => l < k && children[l as int].entry.typ == NodeType::Dir,
                None => true,
            },
            forall|i: int|
                (match found {
                    Some(l) => l as int,
                    None => -1,
                }) < i < k ==> (#[trigger] children[i]).entry.typ != NodeType::Dir,
        decreases n - k,
    {
        assert(children[k as int] == node.subnodes@[k as int]@);
        match node.subnodes[k].sys_node.typ {
            NodeType::Dir => {
                found = Some(k);
            },
            _ => {},
        }
        k = k + 1;
    }
    proof {
        assert forall|j: int| 0 <= j < children.len() implies dirs_after(children, j) == (match found {
            Some(l) => j < l,
            None => false,
        }) by {
            match found {
                Some(l) => {
                    if j < l {
                        assert(children[l as int].entry.typ == NodeType::Dir);
                    }
                },
                None => {},
            }
        }
    }
    found
}

/// Whether going `step` lines from the cursor's line reads a directory: there
/// is such a line, and the node that it shows is a directory of the tree
/// that is not loaded yet.
pub open spec fn going_by_reads(step: int, lines: Seq<LineModel>, tree: TreeModel) -> bool {
    match neighbour(lines, cursor_line(lines, Some(tree.curr_dir_path())), step) {
        Some(n) => tree.tv_going_reads(n),
        None => false,
    }
}

/// What going `step` lines from the cursor's line does in the tree pane with
/// the lines `lines`: where there is such a line, the tree pane goes to the
/// node that it shows, as `Tree::tv_goto` does; where there is none, nothing
/// changes.
pub open spec fn went_by(
    step: int,
    lines: Seq<LineModel>,
    before: TreeModel,
    after: TreeModel,
    tv_before: ModifFlags,
    tv_after: ModifFlags,
    lv_before: ModifFlags,
    lv_after: ModifFlags,
    failed: Option<ErrorModel>,
) -> bool {
    let cursor = cursor_line(lines, Some(before.curr_dir_path()));
    match neighbour(lines, cursor, step) {
        Some(n) => exists|listing: ListingModel|
            {
                &&& #[trigger] before.tv_went(n, listing) == (after, failed)
                &&& before.flags_after_tv_went(
                    n,
                    listing,
                    tv_before,
                    lv_before,
                    tv_after,
                    lv_after,
                )
            },
        None => failed is None && after == before && tv_after == tv_before && lv_after
            == lv_before,
    }
}

/// What a key does in the tree pane with the lines `lines`: it takes the
/// tree from `t0` to `t1`, the flags of the tree pane from `tv0` to `tv1`
/// and those of the list pane from `lv0` to `lv1`, and fails with `failed`
/// or, where that is `None`, succeeds.
///
/// Up and down go to the directory on the neighbouring line. Right expands
/// the current directory, left collapses it or steps up, backspace steps
/// up. Other keys do nothing. Only going to a line can fail.
pub open spec fn tree_pane_keyed(
    key: Key,
    lines: Seq<LineModel>,
    t0: TreeModel,
    t1: TreeModel,
    tv0: ModifFlags,
    tv1: ModifFlags,
    lv0: ModifFlags,
    lv1: ModifFlags,
    failed: Option<ErrorModel>,
) -> bool {
    match key {
        Key::Up => went_by(-1, lines, t0, t1, tv0, tv1, lv0, lv1, failed),
        Key::Down => went_by(1, lines, t0, t1, tv0, tv1, lv0, lv1, failed),
        Key::Right => failed is None && t1 == t0.tv_expanded(true) && t0.flags_after_expand(
            true,
            tv0,
            lv0,
            tv1,
            lv1,
        ),
        Key::Left => failed is None && t1 == t0.tv_expanded(false) && t0.flags_after_expand(
            false,
            tv0,
            lv0,
            tv1,
            lv1,
        ),
        Key::Backspace => failed is None && t1 == t0.moved_up() && t0.flags_after_up(
            tv0,
            lv0,
            tv1,
            lv1,
        ),
        _ => failed is None && t1 == t0 && tv1 == tv0 && lv1 == lv0,
    }
}

/// The tree pane.
#[derive(Debug)]
pub struct TreeView {
    pub lines: Vec<ViewLine>,
    pub modif_flags: ModifFlags,
}

impl TreeView {
    /// A pane without lines that has everything to do.
    pub fn new() -> (r: TreeView)
        ensures
            r.lines@.len() == 0,
            r.modif_flags.render,
            r.modif_flags.print,
    {
        TreeView { lines: Vec::new(), modif_flags: ModifFlags::new() }
    }

    /// Builds the line of the directory `node` at `path`.
    pub fn line_for(node: &TreeNode, path: &Vec<usize>, prevs_stack: &Vec<bool>, tbc: Option<bool>) -> (r:
        ViewLine)
        ensures
            r@ == tree_line(node@, path@, prevs_stack@, tbc),
    {
        let mut s: String = String::new();
        let mut i: usize = 0;
        while i < prevs_stack.len()
            invariant
                i <= prevs_stack@.len(),
                s@ == lead_chars(prevs_stack@).take(i as int),
            decreases prevs_stack@.len() - i,
        {
            push_char(&mut s, if prevs_stack[i] { '│' } else { ' ' });
            i = i + 1;
            assert(s@ =~= lead_chars(prevs_stack@).take(i as int));
        }
        assert(lead_chars(prevs_stack@).take(prevs_stack@.len() as int) =~= lead_chars(prevs_stack@));
        match tbc {
            Some(true) => {
                push_char(&mut s, '├');
            },
            Some(false) => {
                push_char(&mut s, '└');
            },
            None => {},
        }
        push_char(&mut s, if node.expanded { '-' } else { '+' });
        let ghost before = lead_chars(prevs_stack@) + link_chars(tbc) + seq![
            mark_char(node.expanded),
        ];
        assert(s@ =~= before);
        let before_len: usize = s.as_str().unicode_len();
        s.append(node.sys_node.name.as_str());
        let all_len: usize = s.as_str().unicode_len();
        let x1: i32 = if before_len > i32::MAX as usize { i32::MAX } else { before_len as i32 };
        let x2: i32 = if all_len > i32::MAX as usize { i32::MAX } else { all_len as i32 };
        ViewLine::new(s.as_str(), x1, x2, node_color(&node.sys_node), path)
    }

    /// Appends the lines of the tree below and including `node`, the node at
    /// `path`. `prevs_stack` holds, for each open level above, whether more
    /// directories follow on it; `tbc` says the same of the node's own
    /// level, and is `None` for the root.
    pub fn list_node(
        &mut self,
        node: &TreeNode,
        path: &mut Vec<usize>,
        prevs_stack: &mut Vec<bool>,
        tbc: Option<bool>,
    )
        ensures
            line_models(final(self).lines@) == line_models(old(self).lines@) + node_lines(
                node@,
                old(path)@,
                old(prevs_stack)@,
                tbc,
            ),
            final(path)@ == old(path)@,
            final(prevs_stack)@ == old(prevs_stack)@,
            final(self).modif_flags == old(self).modif_flags,
        decreases node,
    {
        match node.sys_node.typ {
            NodeType::Dir => {},
            _ => {
                assert(line_models(self.lines@) + Seq::<LineModel>::empty() =~= line_models(
                    self.lines@,
                ));
                return ;
            },
        }
        let line: ViewLine = TreeView::line_for(node, path, prevs_stack, tbc);
        self.lines.push(line);
        let ghost base = line_models(old(self).lines@);
        let ghost own = seq![tree_line(node@, old(path)@, old(prevs_stack)@, tbc)];
        assert(line_models(self.lines@) =~= base + own);
        if !node.expanded {
            return ;
        }
        let last: Option<usize> = last_dir(node);
        match tbc {
            Some(b) => {
                prevs_stack.push(b);
            },
            None => {},
        }
        let ghost below = stack_below(old(prevs_stack)@, tbc);
        let n: usize = node.subnodes.len();
        let mut j: usize = 0;
        assert(base + own + children_lines(node@, old(path)@, below, 0) =~= base + own);
        while j < n
            invariant
                j <= n,
                n == node.subnodes@.len(),
                n == node@.children.len(),
                path@ == old(path)@,
                prevs_stack@ == below,
                self.modif_flags == old(self).modif_flags,
                line_models(self.lines@) == base + own + children_lines(
                    node@,
                    old(path)@,
                    below,
                    j as nat,
                ),
                forall|i: int|
                    0 <= i < node@.children.len() ==> dirs_after(node@.children, i) == (match last {
                        Some(l) => i < l,
                        None => false,
                    }),
            decreases n - j,
        {
            let more: bool = match last {
                Some(l) => j < l,
                None => false,
            };
            let ghost before = line_models(self.lines@);
            assert(node@.children[j as int] == node.subnodes@[j as int]@);
            path.push(j);
            self.list_node(&node.subnodes[j], path, prevs_stack, Some(more));
            path.pop();
            proof {
                assert(path@ =~= old(path)@);
                let step = node_lines(
                    node@.children[j as int],
                    old(path)@.push(j),
                    below,
                    Some(dirs_after(node@.children, j as int)),
                );
                assert(children_lines(node@, old(path)@, below, (j + 1) as nat) == children_lines(
                    node@,
                    old(path)@,
                    below,
                    j as nat,
                ) + step);
                assert(before + step =~= base + own + children_lines(
                    node@,
                    old(path)@,
                    below,
                    (j + 1) as nat,
                ));
            }
            j = j + 1;
        }
        match tbc {
            Some(_) => {
                prevs_stack.pop();
                assert(prevs_stack@ =~= old(prevs_stack)@);
            },
            None => {},
        }
        assert(base + own + children_lines(node@, old(path)@, below, n as nat) =~= base + (own
            + children_lines(node@, old(path)@, below, n as nat)));
    }

    /// Rebuilds the lines from the tree.
    pub fn list_tree(&mut self, tree: &Tree)
        ensures
            line_models(final(self).lines@) == node_lines(
                tree@.root,
                Seq::empty(),
                Seq::empty(),
                None,
            ),
            final(self).modif_flags == old(self).modif_flags,
    {
        self.lines = Vec::new();
        let mut path: Vec<usize> = Vec::new();
        let mut prevs_stack: Vec<bool> = Vec::new();
        assert(line_models(self.lines@) =~= Seq::<LineModel>::empty());
        self.list_node(&tree.root, &mut path, &mut prevs_stack, None);
        assert(Seq::<LineModel>::empty() + node_lines(tree@.root, Seq::empty(), Seq::empty(), None)
            =~= node_lines(tree@.root, Seq::empty(), Seq::empty(), None));
    }

    /// The index of the line that shows the current directory, if a line
    /// does.
    pub fn find_cursor(&self, tree: &Tree) -> (r: Option<i32>)
        ensures
            cursor_line(line_models(self.lines@), Some(tree@.curr_dir_path())) == match r {
                Some(i) => Some(i as int),
                None => None,
            },
    {
        let target: Vec<usize> = tree.curr_dir();
        proof {
            let lines = line_models(self.lines@);
            lemma_line_of_bound(lines, target@, counted(lines));
        }
        report(&self.lines, Some(&target)).curs_line
    }
}

impl DisplContent for TreeView {
    open spec fn lines(&self) -> Seq<LineModel> {
        line_models(self.lines@)
    }

    open spec fn flags(&self) -> ModifFlags {
        self.modif_flags
    }

    open spec fn pane_name() -> Seq<char> {
        "TreeView"@
    }

    /// The tree pane shows the directories of the whole tree, as far as
    /// they are expanded.
    open spec fn built(lines: Seq<LineModel>, tree: TreeModel) -> bool {
        lines == node_lines(tree.root, Seq::empty(), Seq::empty(), None)
    }

    /// The cursor of the tree pane is on the current directory.
    open spec fn target(tree: TreeModel) -> Option<Seq<usize>> {
        Some(tree.curr_dir_path())
    }

    fn modified(&self) -> (r: bool) {
        self.modif_flags.print
    }

    fn reset_modified(&mut self) {
        self.modif_flags.print = false;
    }

    fn prepare(&mut self, info: &mut DisplInfo, tree: &Tree) -> (r: Result<(), AppError>) {
        if self.modif_flags.render {
            self.list_tree(tree);
            self.modif_flags.render = false;
        }
        let target: Vec<usize> = tree.curr_dir();
        *info = report(&self.lines, Some(&target));
        Ok(())
    }

    fn get_line(&self, y: usize) -> (r: Result<&ViewLine, AppError>) {
        if y < self.lines.len() {
            Ok(&self.lines[y])
        } else {
            proof {
                reveal_strlit("TreeView index out of range");
                reveal_strlit("TreeView");
                reveal_strlit(" index out of range");
                assert("TreeView index out of range"@ =~= out_of_range("TreeView"@));
            }
            Err(AppError::StrError(String::from_str("TreeView index out of range")))
        }
    }

    /// In the tree pane only going to a directory that is not loaded yet
    /// reads one.
    open spec fn key_reads(key: Key, lines: Seq<LineModel>, tree: TreeModel) -> bool {
        (key == Key::Up || key == Key::Down) && going_by_reads(
            if key == Key::Up { -1 } else { 1 },
            lines,
            tree,
        )
    }

    /// In the tree pane a key does what `tree_pane_keyed` says.
    open spec fn keyed(
        key: Key,
        lines: Seq<LineModel>,
        t0: TreeModel,
        t1: TreeModel,
        own0: ModifFlags,
        own1: ModifFlags,
        other0: ModifFlags,
        other1: ModifFlags,
        failed: Option<ErrorModel>,
    ) -> bool {
        tree_pane_keyed(key, lines, t0, t1, own0, own1, other0, other1, failed)
    }

    /// Handles a key in the tree pane: up and down go to the directory on
    /// the neighbouring line, right expands the current directory, left
    /// collapses it or steps up, backspace steps up to the parent. Other
    /// keys do nothing.
    ///
    /// Going to a line fails if the tree no longer holds the node that the
    /// line shows, or if the directory cannot be read.
    fn process_key<F: DirSource>(
        &mut self,
        key: Key,
        tree: &mut Tree,
        other: &mut ModifFlags,
        fs: &mut F,
    ) -> (r: Result<(), AppError>)
    {
        match key {
            Key::Up => self.go_by(-1, tree, other, fs),
            Key::Down => self.go_by(1, tree, other, fs),
            Key::Right => tree.tv_expand(true, &mut self.modif_flags, other),
            Key::Left => tree.tv_expand(false, &mut self.modif_flags, other),
            Key::Backspace => tree.tv_move_up(&mut self.modif_flags, other),
            _ => Ok(()),
        }
    }
}

impl TreeView {
    /// Goes to the directory shown `step` lines from the cursor's line.
    fn go_by<F: DirSource>(&mut self, step: i32, tree: &mut Tree, lv: &mut ModifFlags, fs: &mut F) -> (r:
        Result<(), AppError>)
        requires
            step == 1 || step == -1,
        ensures
            final(self).lines@ == old(self).lines@,
            old(tree)@.wf() ==> final(tree)@.wf(),
            !going_by_reads(step as int, line_models(old(self).lines@), old(tree)@) ==> *final(fs)
                == *old(fs),
            went_by(
                step as int,
                line_models(old(self).lines@),
                old(tree)@,
                final(tree)@,
                old(self).modif_flags,
                final(self).modif_flags,
                *old(lv),
                *final(lv),
                failure(r),
            ),
    {
        let cursor: Option<i32> = self.find_cursor(tree);
        match neighbour_of(&self.lines, cursor, step) {
            Some(dest) => tree.tv_goto(&dest, &mut self.modif_flags, lv, fs),
            None => Ok(()),
        }
    }

}

} // verus!
