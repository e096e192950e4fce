//! The tree controller: the root of the node model, the cursor pair, and
//! every navigation step. Each step says through the dirty flags of the two
//! panes what they have to rebuild or repaint.

use vstd::prelude::*;
use crate::common::{failure, AppError, ErrorModel};
use crate::filesystem::{NodeType, SysNode};
use crate::pathname::{
    components,
    is_absolute,
    lemma_components_joined,
    plain_name,
    split_components,
    starts_at_root,
    views,
};
use crate::tree_node::{DirSource, ListingModel, NodeModel, TreeNode};

verus! {

/// The two dirty flags of a pane.
#[derive(Clone, Copy, Debug, PartialEq, Eq, Structural)]
pub struct ModifFlags {
    /// The lines of the pane must be rebuilt from the tree.
    pub render: bool,
    /// The pane must be repainted.
    pub print: bool,
}

impl ModifFlags {
    /// Both flags set: a new pane has everything to do.
    pub fn new() -> (r: ModifFlags)
        ensures
            r.render,
            r.print,
    {
        ModifFlags { render: true, print: true }
    }
}

/// The cursor pair. `node` is the path of the parent whose child list the
/// tree pane browses and `tpos` the index in that list: together they name
/// the current directory, which is the root where they name nothing. `lpos`
/// is the index of the selected entry in the current directory.
#[derive(Debug)]
pub struct Cursor {
    pub node: Option<Vec<usize>>,
    pub tpos: usize,
    pub lpos: usize,
}

/// A `Cursor` as a mathematical value.
pub struct CursorModel {
    pub node: Option<Seq<usize>>,
    pub tpos: usize,
    pub lpos: usize,
}

impl View for Cursor {
    type V = CursorModel;

    open spec fn view(&self) -> CursorModel {
        CursorModel {
            node: match self.node {
                Some(p) => Some(p@),
                None => None,
            },
            tpos: self.tpos,
            lpos: self.lpos,
        }
    }
}

impl CursorModel {
    /// The cursor that makes the node at `node` the current directory, with
    /// the first entry selected.
    pub open spec fn at_node(node: Seq<usize>) -> CursorModel {
        if node.len() == 0 {
            CursorModel { node: None, tpos: 0, lpos: 0 }
        } else {
            CursorModel { node: Some(node.drop_last()), tpos: node.last(), lpos: 0 }
        }
    }
}

/// The tree of nodes with its cursor pair.
#[derive(Debug)]
pub struct Tree {
    pub root: TreeNode,
    pub cursor: Cursor,
}

/// A `Tree` as a mathematical value.
pub struct TreeModel {
    pub root: NodeModel,
    pub cursor: CursorModel,
}

impl View for Tree {
    type V = TreeModel;

    open spec fn view(&self) -> TreeModel {
        TreeModel { root: self.root@, cursor: self.cursor@ }
    }
}

/// The message of the error that reports a node missing from the tree.
pub open spec fn goto_error() -> Seq<char> {
    "internal goto error"@
}

/// The name of the root directory.
pub open spec fn root_name() -> Seq<char> {
    "/"@
}

/// The failure that reports a node missing from the tree.
pub open spec fn lost() -> ErrorModel {
    ErrorModel::StrError(goto_error())
}

/// The path given was empty.
pub open spec fn empty_path() -> ErrorModel {
    ErrorModel::PathError("empty path"@, ""@)
}

/// The path given does not begin at the root.
pub open spec fn not_absolute(path: Seq<char>) -> ErrorModel {
    ErrorModel::PathError("absolute path expected"@, path)
}

/// No entry of the directory reached so far is called `component`.
pub open spec fn not_found(component: Seq<char>) -> ErrorModel {
    ErrorModel::PathError("path not found"@, component)
}

/// The entry called `component` is no directory.
pub open spec fn not_a_dir(component: Seq<char>) -> ErrorModel {
    ErrorModel::PathError("not a directory"@, component)
}

/// The index of the first of `children` that is called `name`.
pub open spec fn first_named(children: Seq<NodeModel>, name: Seq<char>) -> Option<int>
    decreases children.len(),
{
    if children.len() == 0 {
        None
    } else {
        match first_named(children.drop_last(), name) {
            Some(i) => Some(i),
            None => if children.last().entry.name == name {
                Some(children.len() - 1)
            } else {
                None
            },
        }
    }
}

/// Resolving `components` from the node at `at` downwards, where reading
/// the directory of the node reached at step `k` gives `listings[k]`.
///
/// Each node reached is loaded first, if it is not: from its listing, and a
/// failed listing ends the walk with that failure. Then the first child
/// called like the next component is looked up; it must exist and be a
/// directory. The result is the tree as the loads left it, with the path of
/// the node that the last component leads to or the failure that stopped
/// the walk.
pub open spec fn walk(
    root: NodeModel,
    at: Seq<usize>,
    components: Seq<Seq<char>>,
    listings: Seq<ListingModel>,
) -> (NodeModel, Result<Seq<usize>, ErrorModel>)
    decreases components.len(),
{
    match root.at(at).load_failure(listings[0]) {
        Some(f) => (root, Err(f)),
        None => {
            let loaded = root.replace(at, root.at(at).loaded_with(listings[0]));
            if components.len() == 0 {
                (loaded, Ok(at))
            } else {
                match first_named(loaded.at(at).children, components[0]) {
                    None => (loaded, Err(not_found(components[0]))),
                    Some(i) => if loaded.at(at).children[i].entry.typ != NodeType::Dir {
                        (loaded, Err(not_a_dir(components[0])))
                    } else {
                        walk(loaded, at.push(i as usize), components.skip(1), listings.skip(1))
                    },
                }
            }
        },
    }
}

/// Whether resolving `components` from the node at `at` downwards reads no
/// directory: every node that the walk reaches is loaded already, down to
/// where it ends.
pub open spec fn walks_quietly(root: NodeModel, at: Seq<usize>, components: Seq<Seq<char>>) -> bool
    decreases components.len(),
{
    let here = root.at(at);
    &&& !here.needs_listing()
    &&& components.len() == 0 || !here.loaded || match first_named(here.children, components[0]) {
        None => true,
        Some(i) => here.children[i].entry.typ != NodeType::Dir || walks_quietly(
            root,
            at.push(i as usize),
            components.skip(1),
        ),
    }
}

/// Whether resolving `path` from the root reads no directory: the path is
/// refused as it stands, or the walk along it reads none.
pub open spec fn reads_nothing(root: NodeModel, path: Seq<char>) -> bool {
    path.len() == 0 || !is_absolute(path) || walks_quietly(root, Seq::empty(), components(path))
}

/// A walk that reads no directory does not depend on what reading would
/// give.
pub proof fn lemma_quiet_walk(
    root: NodeModel,
    at: Seq<usize>,
    components: Seq<Seq<char>>,
    a: Seq<ListingModel>,
    b: Seq<ListingModel>,
)
    requires
        root.has(at),
        walks_quietly(root, at, components),
    ensures
        walk(root, at, components, a) == walk(root, at, components, b),
    decreases components.len(),
{
    let here = root.at(at);
    root.lemma_replace_same(at);
    if here.loaded && components.len() > 0 {
        match first_named(here.children, components[0]) {
            Some(i) => {
                if here.children[i].entry.typ == NodeType::Dir {
                    lemma_first_named_found(here.children, components[0]);
                    root.lemma_has_step(at, i as usize);
                    lemma_quiet_walk(root, at.push(i as usize), components.skip(1), a.skip(1), b.skip(1));
                }
            },
            None => {},
        }
    }
}

/// Resolving a path that reads no directory does not depend on what reading
/// would give.
pub proof fn lemma_quiet_resolve(
    root: NodeModel,
    path: Seq<char>,
    a: Seq<ListingModel>,
    b: Seq<ListingModel>,
)
    requires
        reads_nothing(root, path),
    ensures
        resolve(root, path, a) == resolve(root, path, b),
{
    if path.len() > 0 && is_absolute(path) {
        lemma_quiet_walk(root, Seq::empty(), components(path), a, b);
    }
}

/// Resolving the absolute path `path` from the root, with `listings` as in
/// `walk`: an empty path and one that does not begin at the root are
/// refused before anything is read.
pub open spec fn resolve(root: NodeModel, path: Seq<char>, listings: Seq<ListingModel>) -> (
    NodeModel,
    Result<Seq<usize>, ErrorModel>,
) {
    if path.len() == 0 {
        (root, Err(empty_path()))
    } else if !is_absolute(path) {
        (root, Err(not_absolute(path)))
    } else {
        walk(root, Seq::empty(), components(path), listings)
    }
}

/// Whether the outcome `r` of a search reports what the model `w` says:
/// the same node, or the same failure.
pub open spec fn found_as(r: Result<Vec<usize>, AppError>, w: Result<Seq<usize>, ErrorModel>) -> bool {
    match r {
        Ok(node) => w == Ok::<Seq<usize>, ErrorModel>(node@),
        Err(e) => w == Err::<Seq<usize>, ErrorModel>(e@),
    }
}

/// Looks up the first child of `node` that is called `name`.
pub fn find_child(node: &TreeNode, name: &str) -> (r: Option<usize>)
    ensures
        match r {
            Some(i) => first_named(node@.children, name@) == Some(i as int),
            None => first_named(node@.children, name@) is None,
        },
{
    let n: usize = node.subnodes.len();
    let ghost children = node@.children;
    let name_owned: String = name.to_owned();
    let mut i: usize = 0;
    assert(children.take(0) =~= Seq::<NodeModel>::empty());
    while i < n
        invariant
            i <= n,
            n == node.subnodes@.len(),
            children == node@.children,
            name_owned@ == name@,
            first_named(children.take(i as int), name@) is None,
        decreases n - i,
    {
        proof {
            assert(children.take(i as int + 1).drop_last() =~= children.take(i as int));
            assert(children.take(i as int + 1).last() == node.subnodes@[i as int]@);
        }
        if node.subnodes[i].sys_node.name == name_owned {
            proof {
                lemma_first_named_extends(children, i as int + 1, name@);
            }
            return Some(i);
        }
        i = i + 1;
    }
    assert(children.take(n as int) =~= children);
    None
}

/// A child found among the first `k` children is the one found among all.
pub proof fn lemma_first_named_extends(children: Seq<NodeModel>, k: int, name: Seq<char>)
    requires
        0 <= k <= children.len(),
        first_named(children.take(k), name) is Some,
    ensures
        first_named(children, name) == first_named(children.take(k), name),
    decreases children.len() - k,
{
    if k < children.len() {
        assert(children.take(k + 1).drop_last() =~= children.take(k));
        lemma_first_named_extends(children, k + 1, name);
    } else {
        assert(children.take(k) =~= children);
    }
}

/// The child that a lookup by name finds exists and bears the name.
pub proof fn lemma_first_named_found(children: Seq<NodeModel>, name: Seq<char>)
    ensures
        first_named(children, name) matches Some(i) ==> 0 <= i < children.len()
            && children[i].entry.name == name,
    decreases children.len(),
{
    if children.len() > 0 {
        lemma_first_named_found(children.drop_last(), name);
    }
}

impl TreeModel {
    /// Every node is in order and the root is a directory.
    pub open spec fn wf(self) -> bool {
        self.root.wf() && self.root.entry.typ == NodeType::Dir
    }

    /// The path of the current directory: the child that the cursor names,
    /// or the root where it names none.
    pub open spec fn curr_dir_path(self) -> Seq<usize> {
        match self.cursor.node {
            Some(p) => if self.root.has(p) && self.cursor.tpos < self.root.at(p).children.len() {
                p.push(self.cursor.tpos)
            } else {
                Seq::empty()
            },
            None => Seq::empty(),
        }
    }

    /// The current directory.
    pub open spec fn curr_dir(self) -> NodeModel {
        self.root.at(self.curr_dir_path())
    }

    /// The path of the selected entry of the current directory, if the
    /// selection names one.
    pub open spec fn curr_file_path(self) -> Option<Seq<usize>> {
        if self.cursor.lpos < self.curr_dir().children.len() {
            Some(self.curr_dir_path().push(self.cursor.lpos))
        } else {
            None
        }
    }

    /// The full path of the current directory.
    pub open spec fn curr_path(self) -> Seq<char> {
        self.root.path_chars(self.curr_dir_path())
    }

    /// The nodes after leaving `prev` for `next`: what is left behind is
    /// unloaded as `NodeModel::evict` says; a `prev` that names no node
    /// leaves nothing behind.
    pub open spec fn after_leaving(self, prev: Seq<usize>, next: Seq<usize>) -> NodeModel {
        if self.root.has(prev) {
            self.root.evict(prev, next)
        } else {
            self.root
        }
    }

    /// Whether leaving `prev` for `next` unloads anything.
    pub open spec fn leaving_unloads(self, prev: Seq<usize>, next: Seq<usize>) -> bool {
        self.root.has(prev) && self.root.evicts(prev, next)
    }

    /// The tree after a move from `prev` to `next`, where `next` is a node.
    pub open spec fn moved(self, prev: Seq<usize>, next: Seq<usize>) -> TreeModel {
        TreeModel { root: self.after_leaving(prev, next), cursor: CursorModel::at_node(next) }
    }

    /// The tree after a step up: the parent of the current directory becomes
    /// current and the directory left behind is unloaded unless it is
    /// expanded. At the root nothing moves.
    pub open spec fn moved_up(self) -> TreeModel {
        let cd = self.curr_dir_path();
        if cd.len() == 0 {
            self
        } else {
            self.moved(cd, cd.drop_last())
        }
    }

    /// Whether a step up unloads the directory it leaves.
    pub open spec fn moving_up_unloads(self) -> bool {
        let cd = self.curr_dir_path();
        self.root.evicts(cd, cd.drop_last())
    }

    /// The tree with the current directory exchanged for `n`.
    pub open spec fn with_curr_dir(self, n: NodeModel) -> TreeModel {
        TreeModel { root: self.root.replace(self.curr_dir_path(), n), ..self }
    }

    /// The tree after the tree pane's expand (`expand` true) or collapse
    /// (false) on the current directory. Expanding marks it expanded.
    /// Collapsing an expanded directory marks it collapsed and unloads its
    /// children; collapsing a collapsed one steps up instead.
    pub open spec fn tv_expanded(self, expand: bool) -> TreeModel {
        if expand {
            self.with_curr_dir(self.curr_dir().with_expanded(true))
        } else if self.curr_dir().expanded {
            self.with_curr_dir(self.curr_dir().collapsed())
        } else {
            self.moved_up()
        }
    }

    /// Whether the selected entry of the current directory is a directory,
    /// so that the list pane can enter it.
    pub open spec fn can_enter(self) -> bool {
        match self.curr_file_path() {
            Some(f) => self.root.at(f).entry.typ == NodeType::Dir,
            None => false,
        }
    }

    /// What the list pane's entering the selected entry does, where reading
    /// the entry's directory gives `listing`: the tree afterwards and the
    /// failure, if it fails.
    ///
    /// Only a directory is entered; on anything else nothing happens. The
    /// directory is loaded first, and one that cannot be read is not
    /// entered: that is the failure, and nothing changes. Otherwise the
    /// directory entered and the one left are both marked expanded, so that
    /// the tree pane shows the branch, and the one entered becomes current.
    pub open spec fn entered(self, listing: ListingModel) -> (TreeModel, Option<ErrorModel>) {
        match self.curr_file_path() {
            Some(f) if self.can_enter() => match self.root.at(f).load_failure(listing) {
                Some(e) => (self, Some(e)),
                None => {
                    let cd = self.curr_dir_path();
                    let loaded = self.root.replace(
                        f,
                        self.root.at(f).loaded_with(listing).with_expanded(true),
                    );
                    let opened = loaded.replace(cd, loaded.at(cd).with_expanded(true));
                    (TreeModel { root: opened, cursor: CursorModel::at_node(f) }, None)
                },
            },
            _ => (self, None),
        }
    }

    /// What the tree pane's going to the node at `node` does, where reading
    /// the node's directory gives `listing`: the tree afterwards and the
    /// failure, if it fails.
    ///
    /// A node that is not in the tree cannot be gone to. The node is loaded
    /// first, and one that cannot be read is not gone to: that is the
    /// failure, and nothing changes. Otherwise what the move leaves behind
    /// is unloaded and the node becomes current.
    pub open spec fn tv_went(self, node: Seq<usize>, listing: ListingModel) -> (
        TreeModel,
        Option<ErrorModel>,
    ) {
        if !self.root.has(node) {
            (self, Some(lost()))
        } else {
            match self.root.at(node).load_failure(listing) {
                Some(e) => (self, Some(e)),
                None => (self.with_loaded(node, listing).moved(self.curr_dir_path(), node), None),
            }
        }
    }

    /// Whether the tree pane's going to the node at `node` reads a
    /// directory: the node is there and is a directory not loaded yet.
    pub open spec fn tv_going_reads(self, node: Seq<usize>) -> bool {
        self.root.has(node) && self.root.at(node).needs_listing()
    }

    /// Whether the list pane's entering the selected entry reads a
    /// directory: the entry is a directory not loaded yet.
    pub open spec fn entering_reads(self) -> bool {
        match self.curr_file_path() {
            Some(f) => self.can_enter() && self.root.at(f).needs_listing(),
            None => false,
        }
    }

    /// The tree with the node at `node` loaded from `listing`.
    pub open spec fn with_loaded(self, node: Seq<usize>, listing: ListingModel) -> TreeModel {
        TreeModel {
            root: self.root.replace(node, self.root.at(node).loaded_with(listing)),
            ..self
        }
    }

    /// Whether the tree pane's going to the node at `node` unloads anything.
    pub open spec fn tv_going_unloads(self, node: Seq<usize>, listing: ListingModel) -> bool {
        self.with_loaded(node, listing).leaving_unloads(self.curr_dir_path(), node)
    }

    /// What the tree pane's going to the node at `node` leaves in the flags
    /// of the tree pane (from `tv0` to `tv1`) and of the list pane (from
    /// `lv0` to `lv1`): on failure nothing changes; otherwise both panes
    /// repaint, the list pane rebuilds its lines, and the tree pane has to
    /// rebuild them if something was unloaded or it had to already.
    pub open spec fn flags_after_tv_went(
        self,
        node: Seq<usize>,
        listing: ListingModel,
        tv0: ModifFlags,
        lv0: ModifFlags,
        tv1: ModifFlags,
        lv1: ModifFlags,
    ) -> bool {
        if self.tv_went(node, listing).1 is Some {
            tv1 == tv0 && lv1 == lv0
        } else {
            &&& tv1 == (ModifFlags {
                render: tv0.render || self.tv_going_unloads(node, listing),
                print: true,
            })
            &&& lv1 == (ModifFlags { render: true, print: true })
        }
    }

    /// What the list pane's entering leaves in the flags: both panes rebuild
    /// and repaint after a directory was entered, and nothing changes
    /// otherwise.
    pub open spec fn flags_after_entered(
        self,
        listing: ListingModel,
        tv0: ModifFlags,
        lv0: ModifFlags,
        tv1: ModifFlags,
        lv1: ModifFlags,
    ) -> bool {
        if self.can_enter() && self.entered(listing).1 is None {
            &&& tv1 == (ModifFlags { render: true, print: true })
            &&& lv1 == (ModifFlags { render: true, print: true })
        } else {
            tv1 == tv0 && lv1 == lv0
        }
    }

    /// The tree after going to the absolute path `path`, with `listings` as
    /// in `walk`. On success the node found and its ancestors are expanded
    /// and the node becomes the current directory; on failure the cursor
    /// stays and only the loads made on the way remain.
    pub open spec fn gone_to_path(self, path: Seq<char>, listings: Seq<ListingModel>) -> TreeModel {
        let (loaded, found) = resolve(self.root, path, listings);
        match found {
            Ok(node) => TreeModel {
                root: loaded.expanded_along(node),
                cursor: CursorModel::at_node(node),
            },
            Err(_) => TreeModel { root: loaded, ..self },
        }
    }

    /// The failure of going to `path`, if it fails.
    pub open spec fn path_failure(self, path: Seq<char>, listings: Seq<ListingModel>) -> Option<
        ErrorModel,
    > {
        match resolve(self.root, path, listings).1 {
            Ok(_) => None,
            Err(f) => Some(f),
        }
    }

    /// The tree after the list pane selected the node at `node`: the
    /// selection moves there if `node` is an entry of the current directory
    /// and stays otherwise.
    pub open spec fn lv_gone(self, node: Seq<usize>) -> TreeModel {
        if node.len() > 0 && node.drop_last() == self.curr_dir_path() && self.root.has(node) {
            TreeModel { cursor: CursorModel { lpos: node.last(), ..self.cursor }, ..self }
        } else {
            self
        }
    }

    /// What a step up leaves in the flags of the tree pane (from `tv0` to
    /// `tv1`) and of the list pane (from `lv0` to `lv1`): at the root nothing
    /// changes; otherwise both panes repaint, the list pane rebuilds its
    /// lines, and the tree pane has to rebuild them if the step unloaded
    /// something or it had to already.
    pub open spec fn flags_after_up(
        self,
        tv0: ModifFlags,
        lv0: ModifFlags,
        tv1: ModifFlags,
        lv1: ModifFlags,
    ) -> bool {
        if self.curr_dir_path().len() == 0 {
            tv1 == tv0 && lv1 == lv0
        } else {
            &&& tv1 == (ModifFlags { render: tv0.render || self.moving_up_unloads(), print: true })
            &&& lv1 == (ModifFlags { render: true, print: true })
        }
    }

    /// What the tree pane's expand or collapse leaves in the flags: where
    /// the mark of the current directory changes the tree pane rebuilds and
    /// repaints; expanding an expanded directory changes nothing; collapsing
    /// a collapsed one is a step up.
    pub open spec fn flags_after_expand(
        self,
        expand: bool,
        tv0: ModifFlags,
        lv0: ModifFlags,
        tv1: ModifFlags,
        lv1: ModifFlags,
    ) -> bool {
        if expand != self.curr_dir().expanded {
            tv1 == (ModifFlags { render: true, print: true }) && lv1 == lv0
        } else if expand {
            tv1 == tv0 && lv1 == lv0
        } else {
            self.flags_after_up(tv0, lv0, tv1, lv1)
        }
    }

    /// The current directory is always a node of the tree.
    pub proof fn lemma_curr_dir_exists(self)
        ensures
            self.root.has(self.curr_dir_path()),
    {
        match self.cursor.node {
            Some(p) => {
                if self.root.has(p) {
                    self.root.lemma_has_step(p, self.cursor.tpos);
                }
            },
            None => {},
        }
    }

    /// A cursor set on a node of the tree makes that node the current
    /// directory.
    pub proof fn lemma_at_node(root: NodeModel, node: Seq<usize>)
        requires
            root.has(node),
        ensures
            (TreeModel { root, cursor: CursorModel::at_node(node) }).curr_dir_path() == node,
    {
        if node.len() > 0 {
            root.lemma_has_prefix(node, node.len() - 1);
            assert(node.take(node.len() - 1) =~= node.drop_last());
            assert(node.drop_last().push(node.last()) =~= node);
        }
    }
}

impl Tree {
    /// The path of the current directory.
    pub fn curr_dir(&self) -> (r: Vec<usize>)
        ensures
            r@ == self@.curr_dir_path(),
            self@.root.has(r@),
    {
        proof {
            self@.lemma_curr_dir_exists();
        }
        match &self.cursor.node {
            Some(p) => {
                match self.root.node_at(p) {
                    Some(parent) => {
                        if self.cursor.tpos < parent.subnodes.len() {
                            let mut r: Vec<usize> = p.clone();
                            r.push(self.cursor.tpos);
                            return r;
                        }
                    },
                    None => {},
                }
            },
            None => {},
        }
        Vec::new()
    }

    /// The path of the selected entry of the current directory, if there is
    /// one.
    pub fn curr_file(&self) -> (r: Option<Vec<usize>>)
        ensures
            match r {
                Some(p) => self@.curr_file_path() == Some(p@),
                None => self@.curr_file_path() is None,
            },
            r matches Some(p) ==> self@.root.has(p@),
    {
        let mut cd: Vec<usize> = self.curr_dir();
        match self.root.node_at(&cd) {
            Some(dir) => {
                if self.cursor.lpos < dir.subnodes.len() {
                    proof {
                        self@.root.lemma_has_step(cd@, self.cursor.lpos);
                    }
                    cd.push(self.cursor.lpos);
                    Some(cd)
                } else {
                    None
                }
            },
            None => None,
        }
    }

    /// The full path of the current directory.
    pub fn curr_path(&self) -> (r: String)
        ensures
            r@ == self@.curr_path(),
    {
        let cd: Vec<usize> = self.curr_dir();
        self.root.get_path(&cd)
    }

    /// Makes the node at `node` the current directory and selects its first
    /// entry. Fails, changing nothing, if `node` names no node of the tree.
    pub fn goto(&mut self, node: &Vec<usize>) -> (r: Result<(), AppError>)
        ensures
            r is Ok <==> old(self)@.root.has(node@),
            r is Ok ==> final(self)@ == (TreeModel {
                root: old(self)@.root,
                cursor: CursorModel::at_node(node@),
            }),
            r is Ok ==> final(self)@.curr_dir_path() == node@,
            r matches Err(e) ==> final(self)@ == old(self)@ && e.is_str(goto_error()),
    {
        if !self.root.contains(node) {
            return Err(AppError::StrError(String::from_str("internal goto error")));
        }
        proof {
            TreeModel::lemma_at_node(self@.root, node@);
        }
        let n: usize = node.len();
        if n == 0 {
            self.cursor.node = None;
            self.cursor.tpos = 0;
        } else {
            let mut parent: Vec<usize> = node.clone();
            let last: usize = parent.pop().unwrap();
            assert(parent@ =~= node@.drop_last());
            self.cursor.node = Some(parent);
            self.cursor.tpos = last;
        }
        self.cursor.lpos = 0;
        Ok(())
    }
    /// Moves from the node at `prev` to the node at `next`: unloads what is
    /// left behind, then makes `next` the current directory. Returns whether
    /// anything was unloaded. Fails if `next` names no node; what was left
    /// behind is unloaded all the same, and the cursor stays.
    pub fn move_from_to(&mut self, prev: &Vec<usize>, next: &Vec<usize>) -> (r: Result<
        bool,
        AppError,
    >)
        ensures
            r is Ok <==> old(self)@.root.has(next@),
            r is Ok ==> final(self)@.root.has(next@),
            final(self)@.root == old(self)@.after_leaving(prev@, next@),
            r matches Ok(unloaded) ==> unloaded == old(self)@.leaving_unloads(prev@, next@)
                && final(self)@ == old(self)@.moved(prev@, next@) && final(self)@.curr_dir_path()
                == next@,
            r matches Err(e) ==> e.is_str(goto_error()) && final(self)@.cursor == old(self)@.cursor,
            old(self)@.wf() ==> final(self)@.wf(),
    {
        let unloaded: bool = if self.root.contains(prev) {
            proof {
                if self@.root.has(next@) {
                    self@.root.lemma_evict_keeps_destination(prev@, next@);
                }
                if self@.root.evict(prev@, next@).has(next@) {
                    self@.root.lemma_evict_shrinks(prev@, next@, next@);
                }
                self@.root.lemma_evict_keeps_root(prev@, next@);
            }
            self.root.try_unload(prev, next)
        } else {
            false
        };
        match self.goto(next) {
            Ok(()) => Ok(unloaded),
            Err(e) => Err(e),
        }
    }

    /// Selects the entry at `node` in the list pane, if it is an entry of the
    /// current directory; otherwise the selection stays.
    pub fn move_to_list_node(&mut self, node: &Vec<usize>) -> (r: Result<(), AppError>)
        ensures
            r is Ok,
            final(self)@ == old(self)@.lv_gone(node@),
    {
        let cd: Vec<usize> = self.curr_dir();
        let n: usize = node.len();
        if n > 0 && n - 1 == cd.len() && self.root.contains(node) {
            let mut same: bool = true;
            let mut k: usize = 0;
            while k < cd.len()
                invariant
                    k <= cd@.len(),
                    n == cd@.len() + 1,
                    n == node@.len(),
                    same <==> forall|j: int| 0 <= j < k ==> cd@[j] == node@[j],
                decreases cd@.len() - k,
            {
                if cd[k] != node[k] {
                    same = false;
                }
                k = k + 1;
            }
            proof {
                if same {
                    assert(node@.drop_last() =~= cd@);
                } else {
                    let j = choose|j: int| 0 <= j < cd@.len() && cd@[j] != node@[j];
                    assert(node@.drop_last()[j] == node@[j]);
                }
            }
            if same {
                self.cursor.lpos = node[n - 1];
            }
        }
        Ok(())
    }

    /// The list pane moves its selection to the entry at `node`. Nothing in
    /// the tree changes; the list pane has to repaint.
    pub fn lv_goto(&mut self, node: &Vec<usize>, lv: &mut ModifFlags) -> (r: Result<(), AppError>)
        ensures
            r is Ok,
            final(self)@ == old(self)@.lv_gone(node@),
            final(lv).print,
            final(lv).render == old(lv).render,
    {
        let r = self.move_to_list_node(node);
        lv.print = true;
        r
    }

    /// Steps up to the parent of the current directory, if it has one, and
    /// returns whether the step unloaded the directory it left; `None` at
    /// the root, where nothing moves.
    fn step_up(&mut self) -> (r: Option<bool>)
        ensures
            final(self)@ == old(self)@.moved_up(),
            r is Some <==> old(self)@.curr_dir_path().len() > 0,
            r matches Some(unloaded) ==> unloaded == old(self)@.moving_up_unloads(),
            old(self)@.wf() ==> final(self)@.wf(),
    {
        let cd: Vec<usize> = self.curr_dir();
        if cd.len() == 0 {
            return None;
        }
        let mut parent: Vec<usize> = cd.clone();
        parent.pop();
        proof {
            assert(parent@ =~= cd@.drop_last());
            self@.root.lemma_has_prefix(cd@, cd@.len() - 1);
            assert(cd@.take(cd@.len() - 1) =~= cd@.drop_last());
        }
        match self.move_from_to(&cd, &parent) {
            Ok(unloaded) => Some(unloaded),
            Err(_) => None,
        }
    }

    /// The tree pane steps up to the parent of the current directory. At the
    /// root nothing happens. Otherwise the list pane has to rebuild its
    /// lines, the tree pane too if the step unloaded something, and both
    /// repaint. No flag is ever cleared here.
    pub fn tv_move_up(&mut self, tv: &mut ModifFlags, lv: &mut ModifFlags) -> (r: Result<
        (),
        AppError,
    >)
        ensures
            r is Ok,
            final(self)@ == old(self)@.moved_up(),
            old(self)@.wf() ==> final(self)@.wf(),
            old(self)@.flags_after_up(*old(tv), *old(lv), *final(tv), *final(lv)),
    {
        match self.step_up() {
            Some(unloaded) => {
                tv.render = tv.render || unloaded;
                tv.print = true;
                lv.render = true;
                lv.print = true;
            },
            None => {},
        }
        Ok(())
    }

    /// The list pane steps up to the parent of the current directory. At the
    /// root nothing happens. Otherwise the list pane has to rebuild its
    /// lines, the tree pane too if the step unloaded something, and both
    /// repaint.
    pub fn lv_move_up(&mut self, tv: &mut ModifFlags, lv: &mut ModifFlags) -> (r: Result<
        (),
        AppError,
    >)
        ensures
            r is Ok,
            final(self)@ == old(self)@.moved_up(),
            old(self)@.wf() ==> final(self)@.wf(),
            old(self)@.flags_after_up(*old(tv), *old(lv), *final(tv), *final(lv)),
    {
        match self.step_up() {
            Some(unloaded) => {
                lv.render = true;
                lv.print = true;
                tv.render = tv.render || unloaded;
                tv.print = true;
            },
            None => {},
        }
        Ok(())
    }
    /// The tree pane expands (`b` true) or collapses (`b` false) the current
    /// directory.
    ///
    /// Expanding a collapsed directory marks it expanded; on an expanded one
    /// nothing happens. Collapsing an expanded directory marks it collapsed
    /// and unloads each of its children; on a collapsed one it steps up to
    /// the parent instead, as `tv_move_up` does. The tree pane rebuilds and
    /// repaints whenever a mark changed.
    pub fn tv_expand(&mut self, b: bool, tv: &mut ModifFlags, lv: &mut ModifFlags) -> (r: Result<
        (),
        AppError,
    >)
        ensures
            r is Ok,
            final(self)@ == old(self)@.tv_expanded(b),
            old(self)@.wf() ==> final(self)@.wf(),
            old(self)@.flags_after_expand(b, *old(tv), *old(lv), *final(tv), *final(lv)),
    {
        let cd: Vec<usize> = self.curr_dir();
        let len: usize = cd.len();
        proof {
            assert(cd@.take(len as int) =~= cd@);
            assert(cd@.subrange(0, len as int) =~= cd@);
            self@.root.lemma_replace_same(cd@);
            if self@.wf() {
                self@.root.lemma_wf_at(cd@);
                self@.root.at(cd@).lemma_with_expanded_wf(true);
                self@.root.at(cd@).lemma_collapsed_wf();
                self@.root.lemma_replace_wf(cd@, self@.root.at(cd@).with_expanded(true));
                self@.root.lemma_replace_wf(cd@, self@.root.at(cd@).collapsed());
                self@.root.lemma_replace_keeps_root_entry(cd@, self@.root.at(cd@).with_expanded(true));
                self@.root.lemma_replace_keeps_root_entry(cd@, self@.root.at(cd@).collapsed());
            }
        }
        let expanded: bool = self.root.node_ref(&cd, len).expanded;
        if b {
            if !expanded {
                let node = self.root.node_mut(&cd, 0, len);
                node.set_expanded(true);
                tv.render = true;
                tv.print = true;
            } else {
                assert(self@.root.at(cd@).with_expanded(true) == self@.root.at(cd@));
            }
            Ok(())
        } else if expanded {
            let node = self.root.node_mut(&cd, 0, len);
            node.collapse();
            tv.render = true;
            tv.print = true;
            Ok(())
        } else {
            self.tv_move_up(tv, lv)
        }
    }
    /// The tree pane goes to the node at `node`: the node is loaded from
    /// `fs` if it was not, what the move leaves behind is unloaded, and the
    /// node becomes the current directory.
    ///
    /// Fails, changing nothing, if `node` names no node or its directory
    /// cannot be read; the read is tried again on the next attempt.
    /// Otherwise the list pane has to rebuild, the tree pane too if
    /// something was unloaded, and both repaint.
    pub fn tv_goto<F: DirSource>(
        &mut self,
        node: &Vec<usize>,
        tv: &mut ModifFlags,
        lv: &mut ModifFlags,
        fs: &mut F,
    ) -> (r: Result<(), AppError>)
        ensures
            exists|listing: ListingModel|
                {
                    &&& #[trigger] old(self)@.tv_went(node@, listing) == (final(self)@, failure(r))
                    &&& old(self)@.flags_after_tv_went(
                        node@,
                        listing,
                        *old(tv),
                        *old(lv),
                        *final(tv),
                        *final(lv),
                    )
                },
            !old(self)@.tv_going_reads(node@) ==> *final(fs) == *old(fs),
            r is Ok ==> final(self)@.curr_dir_path() == node@,
            r is Err ==> final(self)@ == old(self)@,
            old(self)@.wf() ==> final(self)@.wf(),
    {
        let ghost before = self@;
        if !self.root.contains(node) {
            proof {
                let any: ListingModel = Err(Seq::empty());
                assert(before.tv_went(node@, any) == (before, Some(lost())));
            }
            return Err(AppError::StrError(String::from_str("internal goto error")));
        }
        let old_cd: Vec<usize> = self.curr_dir();
        let read = self.root.load(node, fs);
        let ghost listing = choose|listing: ListingModel|
            {
                &&& self@.root == before.root.replace(
                    node@,
                    before.root.at(node@).loaded_with(listing),
                )
                &&& failure(read) == #[trigger] before.root.at(node@).load_failure(listing)
            };
        match read {
            Ok(()) => {},
            Err(e) => {
                proof {
                    assert(before.tv_went(node@, listing) == (before, Some(e@)));
                }
                return Err(e);
            },
        }
        proof {
            before.root.lemma_replace_keeps_root_entry(
                node@,
                before.root.at(node@).loaded_with(listing),
            );
            assert(self@ == before.with_loaded(node@, listing));
        }
        let unloaded: bool = match self.move_from_to(&old_cd, node) {
            Ok(u) => u,
            Err(e) => {
                return Err(e);
            },
        };
        proof {
            assert(before.tv_went(node@, listing) == (self@, None::<ErrorModel>));
        }
        lv.render = true;
        lv.print = true;
        tv.render = tv.render || unloaded;
        tv.print = true;
        Ok(())
    }

    /// The list pane enters the selected entry if it is a directory: the
    /// directory is loaded from `fs` if it was not, it and the directory
    /// left are marked expanded, and it becomes current. Both panes then
    /// have to rebuild and repaint. On a file, or with nothing selected,
    /// nothing happens.
    ///
    /// Fails, changing nothing, if the directory cannot be read.
    pub fn lv_enter<F: DirSource>(
        &mut self,
        tv: &mut ModifFlags,
        lv: &mut ModifFlags,
        fs: &mut F,
    ) -> (r: Result<(), AppError>)
        ensures
            exists|listing: ListingModel|
                {
                    &&& #[trigger] old(self)@.entered(listing) == (final(self)@, failure(r))
                    &&& old(self)@.flags_after_entered(
                        listing,
                        *old(tv),
                        *old(lv),
                        *final(tv),
                        *final(lv),
                    )
                },
            !old(self)@.entering_reads() ==> *final(fs) == *old(fs),
            !old(self)@.can_enter() ==> r is Ok && final(self)@ == old(self)@,
            old(self)@.can_enter() && r is Ok ==> Some(final(self)@.curr_dir_path()) == old(self)@.curr_file_path(),
            r is Err ==> final(self)@ == old(self)@,
            old(self)@.wf() ==> final(self)@.wf(),
    {
        let ghost before = self@;
        let ghost any: ListingModel = Err(Seq::empty());
        let file: Vec<usize> = match self.curr_file() {
            Some(f) => f,
            None => {
                assert(before.entered(any) == (before, None::<ErrorModel>));
                return Ok(());
            },
        };
        let flen: usize = file.len();
        assert(file@.take(flen as int) =~= file@);
        assert(file@.subrange(0, flen as int) =~= file@);
        match self.root.node_ref(&file, flen).sys_node.typ {
            NodeType::Dir => {},
            _ => {
                assert(before.entered(any) == (before, None::<ErrorModel>));
                return Ok(());
            },
        }
        let cd: Vec<usize> = self.curr_dir();
        let len: usize = cd.len();
        assert(cd@.subrange(0, len as int) =~= cd@);
        let read = self.root.load(&file, fs);
        let ghost listing = choose|listing: ListingModel|
            {
                &&& self@.root == before.root.replace(
                    file@,
                    before.root.at(file@).loaded_with(listing),
                )
                &&& failure(read) == #[trigger] before.root.at(file@).load_failure(listing)
            };
        match read {
            Ok(()) => {},
            Err(e) => {
                proof {
                    assert(before.entered(listing) == (before, Some(e@)));
                }
                return Err(e);
            },
        }
        let ghost read_in = self@.root;
        let ghost marked = read_in.at(file@).with_expanded(true);
        let ghost loaded = read_in.replace(file@, marked);
        let ghost opened = loaded.replace(cd@, loaded.at(cd@).with_expanded(true));
        proof {
            let lpos = before.cursor.lpos;
            assert(file@ == cd@.push(lpos));
            let fresh = before.root.at(file@).loaded_with(listing);
            before.root.lemma_replace_at(file@, fresh);
            before.root.lemma_replace_keeps_root_entry(file@, fresh);
            before.root.lemma_replace_twice(file@, fresh, marked);
            read_in.lemma_replace_at(file@, marked);
            read_in.lemma_replace_keeps_root_entry(file@, marked);
            // The directory left is still there, with the same children.
            loaded.lemma_has_prefix(file@, cd@.len() as int);
            assert(file@.take(cd@.len() as int) =~= cd@);
            loaded.lemma_replace_at(cd@, loaded.at(cd@).with_expanded(true));
            loaded.lemma_replace_keeps_root_entry(cd@, loaded.at(cd@).with_expanded(true));
            opened.lemma_has_step(cd@, lpos);
            assert(cd@.is_prefix_of(file@)) by {
                assert(file@.subrange(0, cd@.len() as int) =~= cd@);
            }
            opened.lemma_evict_descending(cd@, file@);
            if before.wf() {
                read_in.lemma_wf_at(file@);
                read_in.at(file@).lemma_with_expanded_wf(true);
                read_in.lemma_replace_wf(file@, marked);
                loaded.lemma_wf_at(cd@);
                loaded.at(cd@).lemma_with_expanded_wf(true);
                loaded.lemma_replace_wf(cd@, loaded.at(cd@).with_expanded(true));
            }
        }
        let entered = self.root.node_mut(&file, 0, flen);
        entered.set_expanded(true);
        let dir = self.root.node_mut(&cd, 0, len);
        dir.set_expanded(true);
        assert(self@.root == opened);
        match self.move_from_to(&cd, &file) {
            Ok(_) => {},
            Err(e) => {
                return Err(e);
            },
        }
        proof {
            assert(before.entered(listing) == (self@, None::<ErrorModel>));
            TreeModel::lemma_at_node(self@.root, file@);
        }
        tv.render = true;
        tv.print = true;
        lv.render = true;
        lv.print = true;
        Ok(())
    }

    /// A tree that holds the root directory, expanded and loaded from `fs`
    /// (a failed load leaves it empty), with the root as current directory.
    pub fn new<F: DirSource>(fs: &mut F) -> (r: Tree)
        ensures
            r@.wf(),
            r@.cursor == CursorModel::at_node(Seq::empty()),
            r@.root.entry.name == root_name(),
            r@.root.expanded,
            exists|listing: ListingModel| #[trigger]
                NodeModel::fresh(r@.root.entry).with_expanded(true).loaded_with(listing) == r@.root,
    {
        let mut root: TreeNode = TreeNode::from(SysNode::new("/", NodeType::Dir));
        root.set_expanded(true);
        let ghost bare = root@;
        proof {
            bare.lemma_leaf_wf();
        }
        let here: Vec<usize> = Vec::new();
        let _ = root.load(&here, fs);
        proof {
            let listing = choose|listing: ListingModel|
                root@ == bare.replace(here@, bare.at(here@).loaded_with(listing));
            assert(bare.loaded_with(listing) == root@);
            assert(NodeModel::fresh(root@.entry).with_expanded(true) == bare);
        }
        Tree { root, cursor: Cursor { node: None, tpos: 0, lpos: 0 } }
    }
    /// Resolves the components of `comps` from index `k` on, starting at the
    /// node at `at`: loads each node reached and descends into the first
    /// child called like the next component, which must be a directory.
    fn inner_find<F: DirSource>(
        &mut self,
        at: Vec<usize>,
        comps: &Vec<String>,
        k: usize,
        fs: &mut F,
    ) -> (r: Result<Vec<usize>, AppError>)
        requires
            k <= comps@.len(),
            old(self)@.root.has(at@),
        ensures
            final(self)@.cursor == old(self)@.cursor,
            exists|ls: Seq<ListingModel>|
                {
                    let w = #[trigger] walk(old(self)@.root, at@, views(comps@).skip(k as int), ls);
                    final(self)@.root == w.0 && found_as(r, w.1)
                },
            walks_quietly(old(self)@.root, at@, views(comps@).skip(k as int)) ==> *final(fs) == *old(fs),
            r matches Ok(node) ==> final(self)@.root.has(node@),
            old(self)@.wf() ==> final(self)@.wf(),
        decreases comps@.len() - k,
    {
        let ghost before = self@.root;
        let ghost rest = views(comps@).skip(k as int);
        let read = self.root.load(&at, fs);
        let ghost first = choose|listing: ListingModel|
            {
                &&& self@.root == before.replace(at@, before.at(at@).loaded_with(listing))
                &&& failure(read) == #[trigger] before.at(at@).load_failure(listing)
            };
        let ghost loaded = self@.root;
        proof {
            before.lemma_replace_keeps_root_entry(at@, before.at(at@).loaded_with(first));
        }
        match read {
            Ok(()) => {},
            Err(e) => {
                proof {
                    let w = walk(before, at@, rest, seq![first]);
                    assert(w.0 == before);
                }
                return Err(e);
            },
        }
        if k == comps.len() {
            proof {
                let w = walk(before, at@, rest, seq![first]);
                assert(w.0 == loaded);
            }
            return Ok(at);
        }
        let len: usize = at.len();
        assert(at@.take(len as int) =~= at@);
        let here = self.root.node_ref(&at, len);
        let name: &String = &comps[k];
        assert(rest[0] == name@);
        assert(rest.skip(1) =~= views(comps@).skip(k as int + 1));
        match find_child(here, name.as_str()) {
            None => {
                proof {
                    let w = walk(before, at@, rest, seq![first]);
                    assert(w.0 == loaded);
                    assert(w.1 == Err::<Seq<usize>, ErrorModel>(not_found(name@)));
                }
                Err(AppError::PathError(String::from_str("path not found"), name.clone()))
            },
            Some(i) => {
                proof {
                    lemma_first_named_found(loaded.at(at@).children, name@);
                    assert(loaded.at(at@).children[i as int] == here.subnodes@[i as int]@);
                    loaded.lemma_has_step(at@, i);
                }
                match here.subnodes[i].sys_node.typ {
                    NodeType::Dir => {
                        let mut next: Vec<usize> = at.clone();
                        next.push(i);
                        let r = self.inner_find(next, comps, k + 1, fs);
                        proof {
                            let more = choose|ls: Seq<ListingModel>|
                                {
                                    let w = #[trigger] walk(
                                        loaded,
                                        at@.push(i),
                                        views(comps@).skip(k as int + 1),
                                        ls,
                                    );
                                    self@.root == w.0 && found_as(r, w.1)
                                };
                            let ls = seq![first] + more;
                            assert(ls[0] == first);
                            assert(ls.skip(1) =~= more);
                            let w = walk(before, at@, rest, ls);
                            assert(w == walk(loaded, at@.push(i), rest.skip(1), ls.skip(1)));
                            assert(self@.root == w.0 && found_as(r, w.1));
                        }
                        r
                    },
                    _ => {
                        proof {
                            let w = walk(before, at@, rest, seq![first]);
                            assert(w.0 == loaded);
                            assert(w.1 == Err::<Seq<usize>, ErrorModel>(not_a_dir(name@)));
                        }
                        Err(
                            AppError::PathError(String::from_str("not a directory"), name.clone()),
                        )
                    },
                }
            },
        }
    }

    /// Resolves the absolute path `path` to a node, loading from `fs` each
    /// directory on the way, the one found included, that is not loaded yet.
    /// A directory that cannot be read ends the search with that failure.
    pub fn find<F: DirSource>(&mut self, path: &str, fs: &mut F) -> (r: Result<Vec<usize>, AppError>)
        ensures
            final(self)@.cursor == old(self)@.cursor,
            exists|ls: Seq<ListingModel>|
                {
                    let w = #[trigger] resolve(old(self)@.root, path@, ls);
                    final(self)@.root == w.0 && found_as(r, w.1)
                },
            reads_nothing(old(self)@.root, path@) ==> *final(fs) == *old(fs),
            r matches Ok(node) ==> final(self)@.root.has(node@),
            old(self)@.wf() ==> final(self)@.wf(),
    {
        if path.unicode_len() == 0 {
            proof {
                let w = resolve(self@.root, path@, Seq::<ListingModel>::empty());
                assert(w.0 == self@.root);
            }
            return Err(AppError::PathError(String::from_str("empty path"), String::from_str("")));
        }
        if !starts_at_root(path) {
            proof {
                let w = resolve(self@.root, path@, Seq::<ListingModel>::empty());
                assert(w.0 == self@.root);
            }
            return Err(
                AppError::PathError(String::from_str("absolute path expected"), path.to_owned()),
            );
        }
        let comps: Vec<String> = split_components(path);
        assert(views(comps@).skip(0) =~= components(path@));
        let r = self.inner_find(Vec::new(), &comps, 0, fs);
        proof {
            let ls = choose|ls: Seq<ListingModel>|
                {
                    let w = #[trigger] walk(old(self)@.root, Seq::empty(), components(path@), ls);
                    self@.root == w.0 && found_as(r, w.1)
                };
            let w = resolve(old(self)@.root, path@, ls);
            assert(self@.root == w.0 && found_as(r, w.1));
        }
        r
    }

    /// Goes to the directory with the absolute path `path`: resolves it as
    /// `find` does, expands the node found and all its ancestors, and makes
    /// it the current directory. On failure the cursor stays and only the
    /// loads made on the way remain.
    pub fn go_to_path<F: DirSource>(&mut self, path: &str, fs: &mut F) -> (r: Result<(), AppError>)
        ensures
            exists|ls: Seq<ListingModel>|
                {
                    &&& #[trigger] old(self)@.gone_to_path(path@, ls) == final(self)@
                    &&& failure(r) == old(self)@.path_failure(path@, ls)
                },
            reads_nothing(old(self)@.root, path@) ==> *final(fs) == *old(fs),
            old(self)@.wf() ==> final(self)@.wf(),
    {
        let found = self.find(path, fs);
        let ghost ls = choose|ls: Seq<ListingModel>|
            {
                let w = #[trigger] resolve(old(self)@.root, path@, ls);
                self@.root == w.0 && found_as(found, w.1)
            };
        let node: Vec<usize> = match found {
            Ok(node) => node,
            Err(e) => {
                proof {
                    assert(old(self)@.gone_to_path(path@, ls) == self@);
                    assert(Some(e@) == old(self)@.path_failure(path@, ls));
                }
                return Err(e);
            },
        };
        proof {
            self@.root.lemma_expanded_along_keeps(node@, node@);
            self@.root.lemma_expanded_along_keeps(node@, Seq::empty());
        }
        self.root.expand(&node);
        let r = self.goto(&node);
        proof {
            assert(old(self)@.gone_to_path(path@, ls) == self@);
            assert(failure(r) == old(self)@.path_failure(path@, ls));
        }
        r
    }
}

/// Whether step `k` of the way to the node at `node` can be taken by name:
/// the child entered is a directory with a plain name, and the first of its
/// siblings to bear that name.
pub open spec fn step_by_name(root: NodeModel, node: Seq<usize>, k: int) -> bool {
    let parent = root.at(node.take(k));
    let child = parent.children[node[k] as int];
    &&& child.entry.typ == NodeType::Dir
    &&& plain_name(child.entry.name)
    &&& first_named(parent.children, child.entry.name) == Some(node[k] as int)
}

/// Whether the node at `node` can be reached from the root by name: every
/// step of the way can be taken by name.
pub open spec fn reachable_by_name(root: NodeModel, node: Seq<usize>) -> bool {
    &&& root.has(node)
    &&& forall|k: int| 0 <= k < node.len() ==> step_by_name(root, node, k)
}

/// The names of the nodes on the way to `node` after step `k`.
pub open spec fn names_below(root: NodeModel, node: Seq<usize>, k: int) -> Seq<Seq<char>> {
    Seq::new((node.len() - k) as nat, |i: int| root.at(node.take(k + i + 1)).entry.name)
}

/// Whether reading the directory at the end of a walk of `steps` steps
/// succeeds, where it has to be read at all: the node reached is loaded
/// already, or `listings` holds a good listing for it.
pub open spec fn readable(target: NodeModel, steps: int, listings: Seq<ListingModel>) -> bool {
    target.loaded || (0 <= steps < listings.len() && target.load_failure(listings[steps]) is None)
}

/// Resolving the names of the nodes on the way to a node that is there
/// finds that node, and loads nothing but the node itself.
pub proof fn lemma_walk_existing(
    root: NodeModel,
    node: Seq<usize>,
    k: int,
    listings: Seq<ListingModel>,
)
    requires
        root.wf(),
        root.has(node),
        0 <= k <= node.len(),
        forall|j: int| k <= j < node.len() ==> step_by_name(root, node, j),
        readable(root.at(node), node.len() - k, listings),
    ensures
        walk(root, node.take(k), names_below(root, node, k), listings).1 == Ok::<
            Seq<usize>,
            ErrorModel,
        >(node),
        walk(root, node.take(k), names_below(root, node, k), listings).0 == root.replace(
            node,
            root.at(node).loaded_with(listings[node.len() - k]),
        ),
    decreases node.len() - k,
{
    let at = node.take(k);
    let comps = names_below(root, node, k);
    if k == node.len() {
        assert(at =~= node);
    } else {
        root.lemma_has_prefix(node, k);
        let here = root.at(at);
        let i = node[k];
        assert(here.node_ok());
        assert(here.loaded_with(listings[0]) == here);
        root.lemma_replace_same(at);
        assert(step_by_name(root, node, k));
        assert(comps[0] == here.children[i as int].entry.name);
        assert(at.push(i) =~= node.take(k + 1));
        assert(comps.skip(1) =~= names_below(root, node, k + 1));
        let rest = listings.skip(1);
        if !root.at(node).loaded {
            assert(rest[node.len() - k - 1] == listings[node.len() - k]);
        }
        lemma_walk_existing(root, node, k + 1, rest);
        assert(root.at(node).loaded_with(rest[node.len() - k - 1]) == root.at(node).loaded_with(
            listings[node.len() - k],
        ));
    }
}

/// Loading a node and expanding the way to it changes no name on that way.
pub proof fn lemma_names_kept(root: NodeModel, node: Seq<usize>, l: ListingModel)
    requires
        root.has(node),
    ensures
        root.replace(node, root.at(node).loaded_with(l)).expanded_along(node).has(node),
        root.replace(node, root.at(node).loaded_with(l)).expanded_along(node).names(node)
            == root.names(node),
{
    let fresh = root.at(node).loaded_with(l);
    let loaded = root.replace(node, fresh);
    let opened = loaded.expanded_along(node);
    root.lemma_replace_at(node, fresh);
    loaded.lemma_expanded_along_keeps(node, node);
    assert forall|k: int| 0 <= k <= node.len() implies opened.at(node.take(k)).entry == root.at(
        node.take(k),
    ).entry by {
        let q = node.take(k);
        root.lemma_has_prefix(node, k);
        loaded.lemma_has_prefix(node, k);
        loaded.lemma_expanded_along_keeps(node, q);
        if k < node.len() {
            root.lemma_replace_keeps(node, fresh, q);
        } else {
            assert(q =~= node);
        }
    }
    assert(opened.names(node) =~= root.names(node));
}

impl TreeModel {
    /// Going to the path of a directory that is in the tree arrives there:
    /// for every node that can be reached from the root by name, going to
    /// its full path succeeds, makes it the current directory, and the path
    /// of the current directory is then the path that was given. For a node
    /// that is loaded this holds whatever the filesystem answers; one that
    /// is not must be readable.
    pub proof fn theorem_path_round_trip(self, node: Seq<usize>, listings: Seq<ListingModel>)
        requires
            self.wf(),
            self.root.entry.name == root_name(),
            reachable_by_name(self.root, node),
            readable(self.root.at(node), node.len() as int, listings),
        ensures
            self.path_failure(self.root.path_chars(node), listings) is None,
            self.gone_to_path(self.root.path_chars(node), listings).curr_dir_path() == node,
            self.gone_to_path(self.root.path_chars(node), listings).curr_path()
                == self.root.path_chars(node),
    {
        let root = self.root;
        let names = root.names(node);
        let path = root.path_chars(node);
        reveal_strlit("/");
        assert(root_name() =~= seq!['/']);
        assert(node.take(0) =~= Seq::<usize>::empty());
        assert(names[0] == root.at(node.take(0)).entry.name);
        assert forall|k: int| 1 <= k < names.len() implies plain_name(#[trigger] names[k]) by {
            assert(step_by_name(root, node, k - 1));
            root.lemma_has_prefix(node, k - 1);
        }
        lemma_components_joined(names);
        assert(names.skip(1) =~= names_below(root, node, 0));
        lemma_walk_existing(root, node, 0, listings);
        let w = walk(root, Seq::empty(), components(path), listings);
        assert(resolve(root, path, listings) == w);
        lemma_names_kept(root, node, listings[node.len() as int]);
        let after = self.gone_to_path(path, listings);
        TreeModel::lemma_at_node(after.root, node);
    }
}

impl TreeModel {
    /// A move never unloads the way to its destination: after a move to a
    /// node of a well-formed tree, that node is still there, each of its
    /// ancestors up to the root is loaded, and no node on the way, the
    /// destination included, has changed its loading state.
    pub proof fn theorem_move_keeps_way(self, prev: Seq<usize>, next: Seq<usize>)
        requires
            self.wf(),
            self.root.has(next),
        ensures
            self.moved(prev, next).wf(),
            self.moved(prev, next).root.has(next),
            self.moved(prev, next).curr_dir_path() == next,
            forall|k: int|
                0 <= k < next.len() ==> (#[trigger] self.moved(prev, next).root.at(
                    next.take(k),
                )).loaded,
            forall|k: int|
                0 <= k <= next.len() ==> (#[trigger] self.moved(prev, next).root.at(
                    next.take(k),
                )).loaded == self.root.at(next.take(k)).loaded,
    {
        let after = self.moved(prev, next);
        if self.root.has(prev) {
            self.root.lemma_evict_keeps_destination(prev, next);
            self.root.lemma_evict_wf(prev, next);
            self.root.lemma_evict_keeps_root(prev, next);
            assert forall|k: int| 0 <= k <= next.len() implies (#[trigger] after.root.at(
                next.take(k),
            )).loaded == self.root.at(next.take(k)).loaded by {
                assert(self.root.evict(prev, next).at(next.take(k)).same_node(
                    self.root.at(next.take(k)),
                ));
            }
        } else {
            assert forall|k: int| 0 <= k < next.len() implies (#[trigger] after.root.at(
                next.take(k),
            )).loaded by {
                self.root.lemma_has_prefix(next, k);
                assert(self.root.at(next.take(k)).node_ok());
            }
        }
        TreeModel::lemma_at_node(after.root, next);
    }
}

impl TreeModel {
    /// Whether the cursor names a node: it is set on the root, or on a child
    /// that is there.
    pub open spec fn cursor_set(self) -> bool {
        match self.cursor.node {
            Some(p) => self.root.has(p) && self.cursor.tpos < self.root.at(p).children.len(),
            None => true,
        }
    }

    /// Exchanging the current directory for a node with as many children
    /// leaves the cursor on it.
    pub proof fn lemma_with_curr_dir(self, n: NodeModel)
        requires
            self.cursor_set(),
            n.children.len() == self.curr_dir().children.len(),
        ensures
            self.with_curr_dir(n).cursor_set(),
            self.with_curr_dir(n).curr_dir_path() == self.curr_dir_path(),
            self.with_curr_dir(n).curr_dir() == n,
    {
        let cd = self.curr_dir_path();
        self.lemma_curr_dir_exists();
        self.root.lemma_replace_at(cd, n);
        match self.cursor.node {
            Some(p) => {
                assert(!cd.is_prefix_of(p));
                self.root.lemma_replace_keeps(cd, n, p);
            },
            None => {},
        }
    }

    /// Collapsing the current directory in the tree pane and expanding it
    /// again leaves it current and expanded, with the same entries in the
    /// same order as before.
    pub proof fn theorem_collapse_expand_current(self)
        requires
            self.cursor_set(),
            self.curr_dir().expanded,
        ensures
            self.tv_expanded(false).tv_expanded(true).curr_dir_path() == self.curr_dir_path(),
            self.tv_expanded(false).tv_expanded(true).curr_dir().expanded,
            self.tv_expanded(false).tv_expanded(true).curr_dir().child_entries()
                == self.curr_dir().child_entries(),
    {
        let cd = self.curr_dir();
        let shut = self.tv_expanded(false);
        self.lemma_with_curr_dir(cd.collapsed());
        shut.lemma_with_curr_dir(cd.collapsed().with_expanded(true));
        cd.theorem_collapse_expand(cd.child_entries());
    }
}

} // verus!
