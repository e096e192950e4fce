//! The node model: an owned tree of filesystem nodes whose children are
//! loaded on demand and can be unloaded again.
//!
//! A node inside a tree is named by its path: the child indices that lead to
//! it from the root. The parent of a node is the node one step shorter.

use vstd::prelude::*;
use crate::common::{failure, AppError, ErrorModel};
use crate::filesystem::{NodeType, SysNode, SysNodeModel};
use crate::pathname::{join_path, joined, push_component};

verus! {

/// One element of the tree.
#[derive(Debug)]
pub struct TreeNode {
    pub sys_node: SysNode,
    pub subnodes: Vec<TreeNode>,
    pub loaded: bool,
    pub expanded: bool,
}

/// A `TreeNode` as a mathematical value.
#[verifier::ext_equal]
pub struct NodeModel {
    pub entry: SysNodeModel,
    pub children: Seq<NodeModel>,
    pub loaded: bool,
    pub expanded: bool,
}

impl View for TreeNode {
    type V = NodeModel;

    open spec fn view(&self) -> NodeModel {
        self.model()
    }
}

/// The models of a sequence of entries.
pub open spec fn entry_models(entries: Seq<SysNode>) -> Seq<SysNodeModel> {
    Seq::new(entries.len(), |i: int| entries[i]@)
}

/// What reading a directory gives: its entries in the order read, or the
/// system's message on failure.
pub type Listing = Result<Vec<SysNode>, String>;

/// A `Listing` as a mathematical value.
pub type ListingModel = Result<Seq<SysNodeModel>, Seq<char>>;

/// The model of a listing.
pub open spec fn listing_model(listing: Listing) -> ListingModel {
    match listing {
        Ok(entries) => Ok(entry_models(entries@)),
        Err(m) => Err(m@),
    }
}

/// The filesystem as the navigator consumes it: something that lists the
/// entries of a directory given by its full path. Nothing is assumed of the
/// answers.
pub trait DirSource {
    fn read_dir(&mut self, path: &str) -> Listing;
}

/// The message reported when something that is not a directory is asked for
/// its children.
pub open spec fn not_a_directory() -> Seq<char> {
    "not a directory"@
}

/// Whether the first `len` steps of `a` are the beginning of `b`.
fn starts(a: &Vec<usize>, len: usize, b: &Vec<usize>) -> (r: bool)
    requires
        len <= a@.len(),
    ensures
        r == a@.take(len as int).is_prefix_of(b@),
{
    if len > b.len() {
        return false;
    }
    let mut k: usize = 0;
    while k < len
        invariant
            k <= len,
            len <= a@.len(),
            len <= b@.len(),
            forall|j: int| 0 <= j < k ==> a@[j] == b@[j],
        decreases len - k,
    {
        if a[k] != b[k] {
            proof {
                let p = a@.take(len as int);
                if p.is_prefix_of(b@) {
                    assert(b@.subrange(0, p.len() as int)[k as int] == p[k as int]);
                }
            }
            return false;
        }
        k = k + 1;
    }
    assert(a@.take(len as int) =~= b@.subrange(0, len as int));
    true
}

impl NodeModel {
    /// A node as it is first created for an entry: nothing loaded, collapsed.
    pub open spec fn fresh(entry: SysNodeModel) -> NodeModel {
        NodeModel { entry, children: Seq::empty(), loaded: false, expanded: false }
    }

    /// What must hold of each single node: children are present only when
    /// loaded, and only a directory is ever loaded.
    pub open spec fn node_ok(self) -> bool {
        &&& (!self.loaded ==> self.children.len() == 0)
        &&& (self.entry.typ != NodeType::Dir ==> !self.loaded)
    }

    /// Whether `path` leads from this node to a node below it (or, when
    /// empty, to this node itself).
    pub open spec fn has(self, path: Seq<usize>) -> bool
        decreases path.len(),
    {
        if path.len() == 0 {
            true
        } else {
            path[0] < self.children.len() && self.children[path[0] as int].has(path.skip(1))
        }
    }

    /// The node that `path` leads to.
    pub open spec fn at(self, path: Seq<usize>) -> NodeModel
        recommends
            self.has(path),
        decreases path.len(),
    {
        if path.len() == 0 {
            self
        } else {
            self.children[path[0] as int].at(path.skip(1))
        }
    }

    /// This tree with the node at `path` exchanged for `n`.
    pub open spec fn replace(self, path: Seq<usize>, n: NodeModel) -> NodeModel
        recommends
            self.has(path),
        decreases path.len(),
    {
        if path.len() == 0 {
            n
        } else {
            NodeModel {
                children: self.children.update(
                    path[0] as int,
                    self.children[path[0] as int].replace(path.skip(1), n),
                ),
                ..self
            }
        }
    }

    /// Every node of this tree satisfies `node_ok`.
    pub open spec fn wf(self) -> bool {
        forall|p: Seq<usize>| self.has(p) ==> (#[trigger] self.at(p)).node_ok()
    }

    /// This node with its children dropped.
    pub open spec fn unloaded(self) -> NodeModel {
        NodeModel { children: Seq::empty(), loaded: false, ..self }
    }

    /// This node with one more child at the end.
    pub open spec fn appended(self, child: NodeModel) -> NodeModel {
        NodeModel { children: self.children.push(child), ..self }
    }

    /// This node loaded with one fresh child per entry, in the entries' order.
    pub open spec fn filled(self, entries: Seq<SysNodeModel>) -> NodeModel {
        NodeModel {
            children: Seq::new(entries.len(), |i: int| NodeModel::fresh(entries[i])),
            loaded: true,
            ..self
        }
    }

    /// The names met on the way from this node to the node at `path`, both
    /// included, top first.
    pub open spec fn names(self, path: Seq<usize>) -> Seq<Seq<char>>
        recommends
            self.has(path),
    {
        Seq::new(path.len() + 1, |k: int| self.at(path.take(k)).entry.name)
    }

    /// The full path of the node at `path`: the names from this node down to
    /// it, joined as path components.
    pub open spec fn path_chars(self, path: Seq<usize>) -> Seq<char>
        recommends
            self.has(path),
    {
        join_path(self.names(path))
    }

    /// A path that resolves can be extended by `i` exactly when the node it
    /// leads to has a child `i`, and then leads to that child.
    pub proof fn lemma_has_step(self, path: Seq<usize>, i: usize)
        requires
            self.has(path),
        ensures
            self.has(path.push(i)) <==> i < self.at(path).children.len(),
            i < self.at(path).children.len() ==> self.at(path.push(i)) == self.at(
                path,
            ).children[i as int],
    {
        let one = seq![i];
        assert(path.push(i) =~= path + one);
        self.lemma_has_concat(path, one);
        let n = self.at(path);
        assert(one.skip(1) =~= Seq::<usize>::empty());
        assert(one[0] == i);
        if i < n.children.len() {
            assert(n.children[i as int].has(one.skip(1)));
            assert(n.has(one));
            assert(n.at(one) == n.children[i as int].at(one.skip(1)));
        }
    }

    /// Every prefix of a path that resolves resolves too.
    pub proof fn lemma_has_prefix(self, path: Seq<usize>, k: int)
        requires
            self.has(path),
            0 <= k <= path.len(),
        ensures
            self.has(path.take(k)),
            self.at(path.take(k)).has(path.skip(k)),
            self.at(path.take(k)).at(path.skip(k)) == self.at(path),
            k < path.len() ==> path[k] < self.at(path.take(k)).children.len(),
            k < path.len() ==> self.has(path.take(k + 1)),
            k < path.len() ==> self.at(path.take(k + 1)) == self.at(
                path.take(k),
            ).children[path[k] as int],
    {
        assert(path =~= path.take(k) + path.skip(k));
        self.lemma_has_concat(path.take(k), path.skip(k));
        if k < path.len() {
            assert(path.skip(k)[0] == path[k]);
            assert(path.take(k + 1) =~= path.take(k).push(path[k]));
            self.lemma_has_step(path.take(k), path[k]);
        }
    }

    /// Resolving a path in two stretches is resolving it in one.
    pub proof fn lemma_has_concat(self, p: Seq<usize>, q: Seq<usize>)
        ensures
            self.has(p + q) <==> self.has(p) && self.at(p).has(q),
            self.has(p + q) ==> self.at(p + q) == self.at(p).at(q),
        decreases p.len(),
    {
        if p.len() == 0 {
            assert(p + q =~= q);
        } else {
            assert((p + q).skip(1) =~= p.skip(1) + q);
            assert((p + q)[0] == p[0]);
            if p[0] < self.children.len() {
                self.children[p[0] as int].lemma_has_concat(p.skip(1), q);
            }
        }
    }

    /// A tree is well formed exactly when its top node is in order and each
    /// of its children is a well-formed tree.
    pub proof fn lemma_wf_unfold(self)
        ensures
            self.wf() <==> self.node_ok() && forall|i: usize|
                i < self.children.len() ==> (#[trigger] self.children[i as int]).wf(),
    {
        let none = Seq::<usize>::empty();
        if self.wf() {
            assert(self.has(none));
            assert(self.at(none) == self);
            assert forall|i: usize| i < self.children.len() implies (
            #[trigger] self.children[i as int]).wf() by {
                let c = self.children[i as int];
                assert forall|p: Seq<usize>| c.has(p) implies (#[trigger] c.at(p)).node_ok() by {
                    let q = seq![i] + p;
                    assert(q.skip(1) =~= p);
                    assert(q[0] == i);
                    assert(self.has(q));
                    assert(self.at(q) == c.at(p));
                }
            }
        }
        if self.node_ok() && forall|i: usize|
            i < self.children.len() ==> (#[trigger] self.children[i as int]).wf() {
            assert forall|p: Seq<usize>| self.has(p) implies (#[trigger] self.at(p)).node_ok() by {
                if p.len() > 0 {
                    let c = self.children[p[0] as int];
                    assert(c.wf());
                    assert(c.has(p.skip(1)));
                    assert(self.at(p) == c.at(p.skip(1)));
                }
            }
        }
    }

    /// After a replacement the path leads to the new node.
    pub proof fn lemma_replace_at(self, path: Seq<usize>, n: NodeModel)
        requires
            self.has(path),
        ensures
            self.replace(path, n).has(path),
            self.replace(path, n).at(path) == n,
        decreases path.len(),
    {
        if path.len() > 0 {
            self.children[path[0] as int].lemma_replace_at(path.skip(1), n);
        }
    }

    /// Exchanging a node of a well-formed tree for a well-formed tree leaves
    /// a well-formed tree.
    pub proof fn lemma_replace_wf(self, path: Seq<usize>, n: NodeModel)
        requires
            self.wf(),
            self.has(path),
            n.wf(),
        ensures
            self.replace(path, n).wf(),
        decreases path.len(),
    {
        if path.len() > 0 {
            let i = path[0] as int;
            let r = self.replace(path, n);
            self.lemma_wf_unfold();
            self.children[i].lemma_replace_wf(path.skip(1), n);
            assert forall|j: usize| j < r.children.len() implies (#[trigger] r.children[j as int]).wf() by {
                if j != i {
                    assert(r.children[j as int] == self.children[j as int]);
                }
            }
            r.lemma_wf_unfold();
        }
    }

    /// Of two replacements at the same place the second one stands.
    pub proof fn lemma_replace_twice(self, path: Seq<usize>, a: NodeModel, b: NodeModel)
        requires
            self.has(path),
        ensures
            self.replace(path, a).replace(path, b) == self.replace(path, b),
        decreases path.len(),
    {
        if path.len() > 0 {
            let i = path[0] as int;
            self.children[i].lemma_replace_twice(path.skip(1), a, b);
            assert(self.replace(path, a).replace(path, b).children =~= self.replace(
                path,
                b,
            ).children);
        }
    }

    /// Replacing a node by itself changes nothing.
    pub proof fn lemma_replace_same(self, path: Seq<usize>)
        requires
            self.has(path),
        ensures
            self.replace(path, self.at(path)) == self,
        decreases path.len(),
    {
        if path.len() > 0 {
            let i = path[0] as int;
            self.children[i].lemma_replace_same(path.skip(1));
            assert(self.replace(path, self.at(path)).children =~= self.children);
        }
    }

    /// Whether leaving the node at `from` for the node at `to` unloads it:
    /// it is neither `to` nor an ancestor of `to`, and it is not expanded.
    pub open spec fn evicts(self, from: Seq<usize>, to: Seq<usize>) -> bool
        recommends
            self.has(from),
    {
        !from.is_prefix_of(to) && !self.at(from).expanded
    }

    /// The tree after leaving `from` for `to`: starting at `from` and going
    /// up, each node is unloaded until one is met that is `to`, an ancestor
    /// of `to`, or expanded.
    pub open spec fn evict(self, from: Seq<usize>, to: Seq<usize>) -> NodeModel
        recommends
            self.has(from),
        decreases from.len(),
    {
        if self.evicts(from, to) && from.len() > 0 {
            self.replace(from, self.at(from).unloaded()).evict(from.drop_last(), to)
        } else {
            self
        }
    }

    /// The message with which loading this node from `listing` fails, if it
    /// does: a node that is loaded already never fails, a node that is no
    /// directory always does, and any other fails as the listing did.
    pub open spec fn load_error(self, listing: ListingModel) -> Option<Seq<char>> {
        if self.loaded {
            None
        } else if self.entry.typ != NodeType::Dir {
            Some(not_a_directory())
        } else {
            match listing {
                Ok(_) => None,
                Err(m) => Some(m),
            }
        }
    }

    /// Whether loading this node takes a listing: it is a directory that is
    /// not loaded yet.
    pub open spec fn needs_listing(self) -> bool {
        !self.loaded && self.entry.typ == NodeType::Dir
    }

    /// The failure of loading this node from `listing`, if it fails.
    pub open spec fn load_failure(self, listing: ListingModel) -> Option<ErrorModel> {
        match self.load_error(listing) {
            Some(m) => Some(ErrorModel::IoError(m)),
            None => None,
        }
    }

    /// This node after an attempt to load it from `listing`: filled with the
    /// listed entries if it was an unloaded directory and the listing is
    /// good, unchanged otherwise.
    pub open spec fn loaded_with(self, listing: ListingModel) -> NodeModel {
        match listing {
            Ok(entries) if !self.loaded && self.entry.typ == NodeType::Dir => self.filled(entries),
            _ => self,
        }
    }

    /// This tree with the node at `path` and each of its ancestors expanded.
    pub open spec fn expanded_along(self, path: Seq<usize>) -> NodeModel
        recommends
            self.has(path),
        decreases path.len(),
    {
        if path.len() == 0 {
            NodeModel { expanded: true, ..self }
        } else {
            NodeModel {
                expanded: true,
                children: self.children.update(
                    path[0] as int,
                    self.children[path[0] as int].expanded_along(path.skip(1)),
                ),
                ..self
            }
        }
    }

    /// A node without children that is not loaded is a well-formed tree.
    pub proof fn lemma_leaf_wf(self)
        requires
            self.children.len() == 0,
            !self.loaded,
        ensures
            self.wf(),
    {
        self.lemma_wf_unfold();
    }

    /// Loading keeps a tree well formed, whatever the listing.
    pub proof fn lemma_loaded_with_wf(self, listing: ListingModel)
        requires
            self.wf(),
        ensures
            self.loaded_with(listing).wf(),
    {
        let r = self.loaded_with(listing);
        if r != self {
            assert forall|i: usize| i < r.children.len() implies (#[trigger] r.children[i as int]).wf() by {
                r.children[i as int].lemma_leaf_wf();
            }
            r.lemma_wf_unfold();
        }
    }

    /// Unloading what is left behind keeps a tree well formed.
    pub proof fn lemma_evict_wf(self, from: Seq<usize>, to: Seq<usize>)
        requires
            self.wf(),
            self.has(from),
        ensures
            self.evict(from, to).wf(),
        decreases from.len(),
    {
        if self.evicts(from, to) && from.len() > 0 {
            let gone = self.at(from).unloaded();
            let t = self.replace(from, gone);
            gone.lemma_leaf_wf();
            self.lemma_replace_wf(from, gone);
            self.lemma_replace_at(from, gone);
            t.lemma_has_prefix(from, from.len() - 1);
            assert(from.take(from.len() - 1) =~= from.drop_last());
            t.lemma_evict_wf(from.drop_last(), to);
        }
    }

    /// Expanding a node and its ancestors changes nothing but the expansion
    /// marks: the same paths resolve, to nodes with the same entry, the same
    /// number of children and the same loading state.
    pub proof fn lemma_expanded_along_keeps(self, path: Seq<usize>, q: Seq<usize>)
        requires
            self.has(path),
        ensures
            self.expanded_along(path).has(q) == self.has(q),
            self.has(q) ==> {
                let a = self.expanded_along(path).at(q);
                let b = self.at(q);
                &&& a.entry == b.entry
                &&& a.loaded == b.loaded
                &&& a.children.len() == b.children.len()
                &&& a.expanded == (b.expanded || q.is_prefix_of(path))
            },
        decreases path.len(),
    {
        let e = self.expanded_along(path);
        if q.len() == 0 {
            assert(q.is_prefix_of(path)) by {
                assert(path.subrange(0, 0) =~= q);
            }
        } else if path.len() == 0 {
            assert(!q.is_prefix_of(path));
        } else {
            let i = path[0];
            if q[0] == i {
                self.children[i as int].lemma_expanded_along_keeps(path.skip(1), q.skip(1));
                if q.is_prefix_of(path) {
                    assert(path.skip(1).subrange(0, q.len() - 1) =~= path.subrange(
                        0,
                        q.len() as int,
                    ).skip(1));
                    assert(q.skip(1).is_prefix_of(path.skip(1)));
                }
                if q.len() <= path.len() && q.skip(1).is_prefix_of(path.skip(1)) {
                    assert(path.subrange(0, q.len() as int) =~= seq![i] + path.skip(1).subrange(
                        0,
                        q.len() - 1,
                    ));
                    assert(q =~= seq![i] + q.skip(1));
                    assert(q.is_prefix_of(path));
                }
            } else {
                if q.is_prefix_of(path) {
                    assert(path.subrange(0, q.len() as int)[0] == q[0]);
                }
                if q[0] < self.children.len() {
                    assert(e.children[q[0] as int] == self.children[q[0] as int]);
                }
            }
        }
    }

    /// Expanding keeps a tree well formed.
    pub proof fn lemma_expanded_along_wf(self, path: Seq<usize>)
        requires
            self.wf(),
            self.has(path),
        ensures
            self.expanded_along(path).wf(),
    {
        let e = self.expanded_along(path);
        assert forall|q: Seq<usize>| e.has(q) implies (#[trigger] e.at(q)).node_ok() by {
            self.lemma_expanded_along_keeps(path, q);
            assert(self.at(q).node_ok());
        }
    }

    /// Whether two nodes agree in everything but what lies below their
    /// children: entry, loading state, expansion and number of children.
    pub open spec fn same_node(self, other: NodeModel) -> bool {
        &&& self.entry == other.entry
        &&& self.loaded == other.loaded
        &&& self.expanded == other.expanded
        &&& self.children.len() == other.children.len()
    }

    /// Replacing the node at `path` leaves every node that is not at or
    /// below `path` in place and, but for what lies below it, as it was.
    pub proof fn lemma_replace_keeps(self, path: Seq<usize>, n: NodeModel, q: Seq<usize>)
        requires
            self.has(path),
            self.has(q),
            !path.is_prefix_of(q),
        ensures
            self.replace(path, n).has(q),
            self.replace(path, n).at(q).same_node(self.at(q)),
        decreases path.len(),
    {
        if path.len() == 0 {
            assert(q.subrange(0, 0) =~= path);
        } else if q.len() > 0 {
            let i = path[0];
            if q[0] == i {
                if path.skip(1).is_prefix_of(q.skip(1)) {
                    assert(q.subrange(0, path.len() as int) =~= seq![i] + q.skip(1).subrange(
                        0,
                        path.len() - 1,
                    ));
                    assert(path =~= seq![i] + path.skip(1));
                }
                self.children[i as int].lemma_replace_keeps(path.skip(1), n, q.skip(1));
            }
        }
    }

    /// Leaving `from` for `to` never touches the way to `to`: the node at
    /// `to` and each of its ancestors stays in place with its loading state,
    /// and in a well-formed tree every proper ancestor of `to` is loaded
    /// afterwards.
    pub proof fn lemma_evict_keeps_destination(self, from: Seq<usize>, to: Seq<usize>)
        requires
            self.has(from),
            self.has(to),
        ensures
            self.evict(from, to).has(to),
            forall|k: int|
                0 <= k <= to.len() ==> (#[trigger] self.evict(from, to).at(to.take(k))).same_node(
                    self.at(to.take(k)),
                ),
            self.wf() ==> forall|k: int|
                0 <= k < to.len() ==> (#[trigger] self.evict(from, to).at(to.take(k))).loaded,
        decreases from.len(),
    {
        let e = self.evict(from, to);
        if self.evicts(from, to) && from.len() > 0 {
            let gone = self.at(from).unloaded();
            let t = self.replace(from, gone);
            self.lemma_replace_at(from, gone);
            t.lemma_has_prefix(from, from.len() - 1);
            assert(from.take(from.len() - 1) =~= from.drop_last());
            assert(to.take(to.len() as int) =~= to);
            assert forall|k: int| 0 <= k <= to.len() implies t.has(to.take(k)) && (#[trigger] t.at(
                to.take(k),
            )).same_node(self.at(to.take(k))) by {
                let q = to.take(k);
                self.lemma_has_prefix(to, k);
                if from.is_prefix_of(q) {
                    assert(to.subrange(0, from.len() as int) =~= q.subrange(0, from.len() as int));
                }
                self.lemma_replace_keeps(from, gone, q);
            }
            assert(t.has(to)) by {
                assert(t.at(to.take(to.len() as int)).same_node(self.at(to.take(to.len() as int))));
            }
            t.lemma_evict_keeps_destination(from.drop_last(), to);
            assert forall|k: int| 0 <= k <= to.len() implies (#[trigger] e.at(to.take(k))).same_node(
                self.at(to.take(k)),
            ) by {
                assert(t.at(to.take(k)).same_node(self.at(to.take(k))));
                assert(e.at(to.take(k)).same_node(t.at(to.take(k))));
            }
        }
        if self.wf() {
            assert forall|k: int| 0 <= k < to.len() implies (#[trigger] e.at(to.take(k))).loaded by {
                self.lemma_has_prefix(to, k);
                assert(self.at(to.take(k)).node_ok());
                assert(e.at(to.take(k)).same_node(self.at(to.take(k))));
            }
        }
    }

    /// Unloading a node makes no new path resolve.
    pub proof fn lemma_unload_shrinks(self, path: Seq<usize>, q: Seq<usize>)
        requires
            self.has(path),
            self.replace(path, self.at(path).unloaded()).has(q),
        ensures
            self.has(q),
        decreases path.len(),
    {
        if path.len() > 0 && q.len() > 0 {
            let i = path[0];
            if q[0] == i {
                self.children[i as int].lemma_unload_shrinks(path.skip(1), q.skip(1));
            }
        }
    }

    /// Leaving a node for another makes no new path resolve.
    pub proof fn lemma_evict_shrinks(self, from: Seq<usize>, to: Seq<usize>, q: Seq<usize>)
        requires
            self.has(from),
            self.evict(from, to).has(q),
        ensures
            self.has(q),
        decreases from.len(),
    {
        if self.evicts(from, to) && from.len() > 0 {
            let gone = self.at(from).unloaded();
            let t = self.replace(from, gone);
            self.lemma_replace_at(from, gone);
            t.lemma_has_prefix(from, from.len() - 1);
            assert(from.take(from.len() - 1) =~= from.drop_last());
            t.lemma_evict_shrinks(from.drop_last(), to, q);
            self.lemma_unload_shrinks(from, q);
        }
    }

    /// Leaving a node for another leaves the top node as it was, but for
    /// what lies below its children.
    pub proof fn lemma_evict_keeps_root(self, from: Seq<usize>, to: Seq<usize>)
        requires
            self.has(from),
        ensures
            self.evict(from, to).same_node(self),
        decreases from.len(),
    {
        if self.evicts(from, to) && from.len() > 0 {
            let gone = self.at(from).unloaded();
            let t = self.replace(from, gone);
            self.lemma_replace_at(from, gone);
            t.lemma_has_prefix(from, from.len() - 1);
            assert(from.take(from.len() - 1) =~= from.drop_last());
            t.lemma_evict_keeps_root(from.drop_last(), to);
            self.lemma_replace_keeps(from, gone, Seq::empty());
        }
    }

    /// Replacing a node by one with the same entry leaves the entry of the
    /// top node as it was.
    pub proof fn lemma_replace_keeps_root_entry(self, path: Seq<usize>, n: NodeModel)
        requires
            self.has(path),
            n.entry == self.at(path).entry,
        ensures
            self.replace(path, n).entry == self.entry,
    {
    }

    /// Leaving a node for itself or for something below it unloads nothing.
    pub proof fn lemma_evict_descending(self, from: Seq<usize>, to: Seq<usize>)
        requires
            from.is_prefix_of(to),
        ensures
            self.evict(from, to) == self,
            !self.evicts(from, to),
    {
    }

    /// This node collapsed: marked as not expanded, with each of its
    /// children unloaded.
    pub open spec fn collapsed(self) -> NodeModel {
        NodeModel {
            expanded: false,
            children: Seq::new(self.children.len(), |i: int| self.children[i].unloaded()),
            ..self
        }
    }

    /// This node marked as expanded or not.
    pub open spec fn with_expanded(self, expanded: bool) -> NodeModel {
        NodeModel { expanded, ..self }
    }

    /// Collapsing keeps a tree well formed.
    pub proof fn lemma_collapsed_wf(self)
        requires
            self.wf(),
        ensures
            self.collapsed().wf(),
    {
        let c = self.collapsed();
        self.lemma_wf_unfold();
        assert forall|i: usize| i < c.children.len() implies (#[trigger] c.children[i as int]).wf() by {
            c.children[i as int].lemma_leaf_wf();
        }
        c.lemma_wf_unfold();
    }

    /// Marking a node as expanded or not keeps a tree well formed.
    pub proof fn lemma_with_expanded_wf(self, expanded: bool)
        requires
            self.wf(),
        ensures
            self.with_expanded(expanded).wf(),
    {
        self.lemma_wf_unfold();
        self.with_expanded(expanded).lemma_wf_unfold();
    }

    /// The tree below a node of a well-formed tree is well formed.
    pub proof fn lemma_wf_at(self, path: Seq<usize>)
        requires
            self.wf(),
            self.has(path),
        ensures
            self.at(path).wf(),
    {
        assert forall|q: Seq<usize>| self.at(path).has(q) implies (#[trigger] self.at(path).at(
            q,
        )).node_ok() by {
            self.lemma_has_concat(path, q);
        }
    }

    /// In a well-formed tree every node that has children is loaded, and
    /// nothing but a directory is loaded.
    pub proof fn theorem_loaded_nodes(self, path: Seq<usize>)
        requires
            self.wf(),
            self.has(path),
        ensures
            self.at(path).children.len() > 0 ==> self.at(path).loaded,
            self.at(path).entry.typ != NodeType::Dir ==> !self.at(path).loaded,
            self.at(path).entry.typ != NodeType::Dir ==> self.at(path).children.len() == 0,
    {
        assert(self.at(path).node_ok());
    }

    /// Loading is idempotent: a node that was loaded stays as it is however
    /// often it is loaded again and whatever the filesystem then answers;
    /// and two attempts with the same answer leave what one leaves.
    pub proof fn theorem_load_twice(self, first: ListingModel, second: ListingModel)
        ensures
            self.loaded_with(first).loaded_with(first) == self.loaded_with(first),
            self.load_error(first) is None ==> self.loaded_with(first).loaded_with(second)
                == self.loaded_with(first),
            self.load_error(first) is None ==> self.loaded_with(first).load_error(second) is None,
    {
    }

    /// A directory that is loaded from a listing has the listed entries as
    /// its children's, in the listing's order.
    pub proof fn theorem_filled_entries(self, entries: Seq<SysNodeModel>)
        ensures
            self.filled(entries).child_entries() == entries,
    {
        assert(self.filled(entries).child_entries() =~= entries);
    }

    /// Collapsing a directory and expanding it again brings back the same
    /// entries in the same order: those of a fresh load, as long as the
    /// directory itself has not changed. Only what was below the children
    /// is gone, and the directory is expanded as before.
    pub proof fn theorem_collapse_expand(self, listing: Seq<SysNodeModel>)
        requires
            self.child_entries() == listing,
        ensures
            self.collapsed().with_expanded(true).child_entries() == NodeModel::fresh(
                self.entry,
            ).filled(listing).child_entries(),
            self.collapsed().with_expanded(true).child_entries() == self.child_entries(),
            self.collapsed().with_expanded(true).same_node(self.with_expanded(true)),
            forall|i: int|
                0 <= i < self.children.len() ==> (#[trigger] self.collapsed().with_expanded(
                    true,
                ).children[i]) == self.children[i].unloaded(),
    {
        let back = self.collapsed().with_expanded(true);
        assert(back.child_entries() =~= self.child_entries());
        NodeModel::fresh(self.entry).theorem_filled_entries(listing);
    }

    /// The entries of this node's children, in order.
    pub open spec fn child_entries(self) -> Seq<SysNodeModel> {
        Seq::new(self.children.len(), |i: int| self.children[i].entry)
    }
}

impl TreeNode {
    /// The mathematical value of this node and everything below it.
    pub open spec fn model(&self) -> NodeModel
        decreases self,
    {
        NodeModel {
            entry: self.sys_node@,
            children: Seq::new(
                self.subnodes@.len(),
                |i: int|
                    if 0 <= i < self.subnodes@.len() {
                        self.subnodes@[i].model()
                    } else {
                        arbitrary()
                    },
            ),
            loaded: self.loaded,
            expanded: self.expanded,
        }
    }

    /// A new node for `sys_node`: no children, not loaded, collapsed.
    pub fn from(sys_node: SysNode) -> (r: TreeNode)
        ensures
            r@ == NodeModel::fresh(sys_node@),
    {
        let r = TreeNode { sys_node, subnodes: Vec::new(), loaded: false, expanded: false };
        assert(r@.children =~= Seq::empty());
        r
    }

    /// Adds `subn` as the last child of this node.
    pub fn append(&mut self, subn: TreeNode)
        ensures
            final(self)@ == old(self)@.appended(subn@),
    {
        self.subnodes.push(subn);
        assert(self@.children =~= old(self)@.children.push(subn@));
    }

    /// Drops the children and marks the node as not loaded. Whether the node
    /// is expanded stays as it was.
    pub fn unload(&mut self)
        ensures
            final(self)@ == old(self)@.unloaded(),
    {
        self.subnodes = Vec::new();
        self.loaded = false;
        assert(self@.children =~= Seq::empty());
    }
    /// Whether `path` leads to a node of this tree.
    pub fn contains(&self, path: &Vec<usize>) -> (r: bool)
        ensures
            r == self@.has(path@),
    {
        self.node_at(path).is_some()
    }

    /// The node that `path` leads to, if it leads to one.
    pub fn node_at(&self, path: &Vec<usize>) -> (r: Option<&TreeNode>)
        ensures
            r is Some <==> self@.has(path@),
            r matches Some(n) ==> n@ == self@.at(path@),
    {
        let mut cur: &TreeNode = self;
        let mut k: usize = 0;
        assert(path@.skip(0) =~= path@);
        while k < path.len()
            invariant
                k <= path@.len(),
                self@.has(path@) <==> cur@.has(path@.skip(k as int)),
                self@.has(path@) ==> self@.at(path@) == cur@.at(path@.skip(k as int)),
            decreases path@.len() - k,
        {
            let i: usize = path[k];
            assert(path@.skip(k as int)[0] == i);
            assert(path@.skip(k as int).skip(1) =~= path@.skip(k as int + 1));
            if i >= cur.subnodes.len() {
                return None;
            }
            cur = &cur.subnodes[i];
            k = k + 1;
        }
        Some(cur)
    }
    /// The node that the first `len` steps of `path` lead to.
    pub(crate) fn node_ref(&self, path: &Vec<usize>, len: usize) -> (r: &TreeNode)
        requires
            len <= path@.len(),
            self@.has(path@.take(len as int)),
        ensures
            r@ == self@.at(path@.take(len as int)),
    {
        let ghost p = path@.take(len as int);
        let mut cur: &TreeNode = self;
        let mut k: usize = 0;
        assert(p.skip(0) =~= p);
        while k < len
            invariant
                k <= len,
                len <= path@.len(),
                p == path@.take(len as int),
                cur@.has(p.skip(k as int)),
                self@.at(p) == cur@.at(p.skip(k as int)),
            decreases len - k,
        {
            let i: usize = path[k];
            assert(p.skip(k as int)[0] == i);
            assert(p.skip(k as int).skip(1) =~= p.skip(k as int + 1));
            cur = &cur.subnodes[i];
            k = k + 1;
        }
        cur
    }

    /// Mutable access to the node that steps `from` to `to` of `path` lead to.
    pub(crate) fn node_mut(&mut self, path: &Vec<usize>, from: usize, to: usize) -> (r: &mut TreeNode)
        requires
            from <= to <= path@.len(),
            old(self)@.has(path@.subrange(from as int, to as int)),
        ensures
            r@ == old(self)@.at(path@.subrange(from as int, to as int)),
            final(self)@ == old(self)@.replace(
                path@.subrange(from as int, to as int),
                final(r)@,
            ),
        decreases to - from,
    {
        if from == to {
            self
        } else {
            let i: usize = path[from];
            let ghost p = path@.subrange(from as int, to as int);
            assert(p[0] == i);
            assert(p.skip(1) =~= path@.subrange(from as int + 1, to as int));
            assert(self@.children[i as int] == self.subnodes@[i as int]@);
            proof {
                let pre = *self;
                assert forall|t: TreeNode|
                    t.sys_node == pre.sys_node && t.loaded == pre.loaded && t.expanded
                        == pre.expanded && t.subnodes@ == pre.subnodes@.update(
                        i as int,
                        t.subnodes@[i as int],
                    ) implies #[trigger] t.model() == (NodeModel {
                    children: pre@.children.update(i as int, t.model().children[i as int]),
                    ..pre@
                }) by {
                    assert(t.model().children =~= pre@.children.update(
                        i as int,
                        t.model().children[i as int],
                    ));
                }
            }
            let child = &mut self.subnodes[i];
            child.node_mut(path, from + 1, to)
        }
    }
    /// The full path of the node that `path` leads to: the names from this
    /// node down to it, joined as path components.
    pub fn get_path(&self, path: &Vec<usize>) -> (r: String)
        requires
            self@.has(path@),
        ensures
            r@ == self@.path_chars(path@),
    {
        let ghost names = self@.names(path@);
        let mut r: String = String::new();
        push_component(&mut r, self.sys_node.name.as_str());
        let mut cur: &TreeNode = self;
        let mut k: usize = 0;
        proof {
            assert(path@.take(0) =~= Seq::<usize>::empty());
            assert(names.take(1).drop_last() =~= Seq::<Seq<char>>::empty());
            assert(join_path(names.take(1).drop_last()) == Seq::<char>::empty());
        }
        while k < path.len()
            invariant
                k <= path@.len(),
                self@.has(path@),
                names == self@.names(path@),
                cur@ == self@.at(path@.take(k as int)),
                r@ == join_path(names.take(k as int + 1)),
            decreases path@.len() - k,
        {
            let i: usize = path[k];
            proof {
                self@.lemma_has_prefix(path@, k as int);
                assert(cur@.children[i as int] == cur.subnodes@[i as int]@);
                let upto = names.take(k as int + 2);
                assert(upto.drop_last() =~= names.take(k as int + 1));
                assert(upto.last() == self@.at(path@.take(k as int + 1)).entry.name);
                assert(join_path(upto) == joined(join_path(upto.drop_last()), upto.last()));
            }
            cur = &cur.subnodes[i];
            push_component(&mut r, cur.sys_node.name.as_str());
            k = k + 1;
        }
        assert(names.take(path@.len() as int + 1) =~= names);
        r
    }

    /// Leaves the node at `this_node` for the node at `next_node`, unloading
    /// what is left behind: going up from `this_node`, each node is unloaded
    /// until one is met that is `next_node`, one of its ancestors, or
    /// expanded. Returns whether anything was unloaded.
    pub fn try_unload(&mut self, this_node: &Vec<usize>, next_node: &Vec<usize>) -> (unloaded: bool)
        requires
            old(self)@.has(this_node@),
        ensures
            unloaded == old(self)@.evicts(this_node@, next_node@),
            final(self)@ == old(self)@.evict(this_node@, next_node@),
            old(self)@.wf() ==> final(self)@.wf(),
    {
        proof {
            if self@.wf() {
                self@.lemma_evict_wf(this_node@, next_node@);
            }
        }
        let mut k: usize = this_node.len();
        let mut unloaded: bool = false;
        let mut climbing: bool = true;
        assert(this_node@.take(k as int) =~= this_node@);
        while climbing && k > 0
            invariant
                k <= this_node@.len(),
                old(self)@.has(this_node@),
                self@.has(this_node@.take(k as int)),
                old(self)@.evict(this_node@, next_node@) == self@.evict(
                    this_node@.take(k as int),
                    next_node@,
                ),
                unloaded == (k < this_node@.len()),
                unloaded == old(self)@.evicts(this_node@, next_node@) || (climbing && !unloaded),
                !unloaded ==> self@ == old(self)@,
                !climbing ==> !self@.evicts(this_node@.take(k as int), next_node@),
            decreases k + if climbing { 1nat } else { 0nat },
        {
            let ghost p = this_node@.take(k as int);
            if starts(this_node, k, next_node) || self.node_ref(this_node, k).expanded {
                climbing = false;
                proof {
                    if !unloaded {
                        assert(p =~= this_node@);
                    }
                }
            } else {
                proof {
                    if !unloaded {
                        assert(p =~= this_node@);
                    }
                    assert(p =~= this_node@.subrange(0, k as int));
                    assert(p.drop_last() =~= this_node@.take(k as int - 1));
                    self@.lemma_replace_at(p, self@.at(p).unloaded());
                    self@.replace(p, self@.at(p).unloaded()).lemma_has_prefix(p, k as int - 1);
                    assert(p.take(k as int - 1) =~= p.drop_last());
                }
                let node = self.node_mut(this_node, 0, k);
                node.unload();
                unloaded = true;
                k = k - 1;
            }
        }
        proof {
            if k == 0 {
                assert(this_node@.take(0) =~= Seq::<usize>::empty());
                assert(Seq::<usize>::empty().is_prefix_of(next_node@));
            }
            if !unloaded {
                assert(this_node@.take(k as int) =~= this_node@);
            }
        }
        unloaded
    }
    /// Replaces the children by one fresh node per entry and marks the node
    /// as loaded.
    fn populate(&mut self, entries: &Vec<SysNode>)
        ensures
            final(self)@ == old(self)@.filled(entry_models(entries@)),
    {
        let mut nodes: Vec<TreeNode> = Vec::new();
        let mut i: usize = 0;
        while i < entries.len()
            invariant
                i <= entries@.len(),
                nodes@.len() == i,
                forall|k: int| 0 <= k < i ==> (#[trigger] nodes@[k])@ == NodeModel::fresh(entries@[k]@),
            decreases entries@.len() - i,
        {
            nodes.push(TreeNode::from(entries[i].duplicate()));
            i = i + 1;
        }
        self.subnodes = nodes;
        self.loaded = true;
        assert(self@.children =~= old(self)@.filled(entry_models(entries@)).children);
    }

    /// Loads this node from the outcome of reading its directory.
    ///
    /// A node that is loaded already stays as it is. Otherwise a good listing
    /// of a directory becomes its children, in the listing's order, and a
    /// failed one is reported and changes nothing. A node that is no
    /// directory is never loaded.
    pub fn load_with(&mut self, listing: Listing) -> (r: Result<(), AppError>)
        ensures
            final(self)@ == old(self)@.loaded_with(listing_model(listing)),
            failure(r) == old(self)@.load_failure(listing_model(listing)),
            old(self)@.wf() ==> final(self)@.wf(),
    {
        proof {
            if self@.wf() {
                self@.lemma_loaded_with_wf(listing_model(listing));
            }
        }
        if self.loaded {
            return Ok(());
        }
        match self.sys_node.typ {
            NodeType::Dir => {},
            _ => {
                return Err(AppError::IoError(String::from_str("not a directory")));
            },
        }
        match listing {
            Ok(entries) => {
                self.populate(&entries);
                Ok(())
            },
            Err(m) => Err(AppError::IoError(m)),
        }
    }

    /// The path of the directory that must be read in order to load the
    /// node at `node`: its full path if it is a directory that is not loaded
    /// yet, and none otherwise.
    pub fn load_request(&self, node: &Vec<usize>) -> (r: Option<String>)
        requires
            self@.has(node@),
        ensures
            match r {
                Some(path) => self@.at(node@).needs_listing() && path@ == self@.path_chars(node@),
                None => !self@.at(node@).needs_listing(),
            },
    {
        let len: usize = node.len();
        assert(node@.take(len as int) =~= node@);
        let target = self.node_ref(node, len);
        let fetch: bool = !target.loaded && match target.sys_node.typ {
            NodeType::Dir => true,
            _ => false,
        };
        if fetch {
            Some(self.get_path(node))
        } else {
            None
        }
    }

    /// Loads the node at `node` if it is not loaded yet, reading its
    /// directory from `fs`.
    ///
    /// `fs` is consulted only for an unloaded directory, with the path that
    /// `load_request` gives, and is left alone otherwise; the outcome is
    /// then applied as `load_with` says.
    pub fn load<F: DirSource>(&mut self, node: &Vec<usize>, fs: &mut F) -> (r: Result<(), AppError>)
        requires
            old(self)@.has(node@),
        ensures
            exists|listing: ListingModel|
                {
                    &&& final(self)@ == old(self)@.replace(
                        node@,
                        old(self)@.at(node@).loaded_with(listing),
                    )
                    &&& failure(r) == #[trigger] old(self)@.at(node@).load_failure(listing)
                },
            !old(self)@.at(node@).needs_listing() ==> *final(fs) == *old(fs),
            old(self)@.at(node@).loaded ==> r is Ok && final(self)@ == old(self)@,
            old(self)@.at(node@).entry.typ != NodeType::Dir ==> final(self)@ == old(self)@,
            r is Err ==> final(self)@ == old(self)@,
            r is Ok ==> final(self)@.at(node@).loaded,
            final(self)@.has(node@),
            old(self)@.wf() ==> final(self)@.wf(),
    {
        let len: usize = node.len();
        assert(node@.take(len as int) =~= node@);
        assert(node@.subrange(0, len as int) =~= node@);
        proof {
            self@.lemma_replace_same(node@);
        }
        let listing: Listing = match self.load_request(node) {
            Some(path) => fs.read_dir(path.as_str()),
            None => Err(String::new()),
        };
        let ghost lm = listing_model(listing);
        let n = self.node_mut(node, 0, len);
        let r = n.load_with(listing);
        proof {
            let before = old(self)@;
            assert(failure(r) == before.at(node@).load_failure(lm));
            before.lemma_replace_at(node@, before.at(node@).loaded_with(lm));
            if before.wf() {
                assert(before.at(node@).wf()) by {
                    assert forall|q: Seq<usize>| before.at(node@).has(q) implies (
                    #[trigger] before.at(node@).at(q)).node_ok() by {
                        before.lemma_has_concat(node@, q);
                    }
                }
                before.at(node@).lemma_loaded_with_wf(lm);
                before.lemma_replace_wf(node@, before.at(node@).loaded_with(lm));
            }
        }
        r
    }

    /// Expands the node at `node` and each of its ancestors.
    pub fn expand(&mut self, node: &Vec<usize>)
        requires
            old(self)@.has(node@),
        ensures
            final(self)@ == old(self)@.expanded_along(node@),
            old(self)@.wf() ==> final(self)@.wf(),
    {
        proof {
            if self@.wf() {
                self@.lemma_expanded_along_wf(node@);
            }
        }
        assert(node@.skip(0) =~= node@);
        self.expand_from(node, 0);
    }

    fn expand_from(&mut self, path: &Vec<usize>, from: usize)
        requires
            from <= path@.len(),
            old(self)@.has(path@.skip(from as int)),
        ensures
            final(self)@ == old(self)@.expanded_along(path@.skip(from as int)),
        decreases path@.len() - from,
    {
        self.expanded = true;
        if from < path.len() {
            let i: usize = path[from];
            let ghost p = path@.skip(from as int);
            assert(p[0] == i);
            assert(p.skip(1) =~= path@.skip(from as int + 1));
            assert(self@.children[i as int] == self.subnodes@[i as int]@);
            let child = &mut self.subnodes[i];
            child.expand_from(path, from + 1);
            assert(self@.children =~= old(self)@.expanded_along(p).children);
        }
    }
    /// Collapses this node: marks it as not expanded and unloads each of its
    /// children, which cannot be reached until it is expanded again.
    pub fn collapse(&mut self)
        ensures
            final(self)@ == old(self)@.collapsed(),
            old(self)@.wf() ==> final(self)@.wf(),
    {
        proof {
            if self@.wf() {
                self@.lemma_collapsed_wf();
            }
        }
        self.expanded = false;
        let n: usize = self.subnodes.len();
        let mut i: usize = 0;
        while i < n
            invariant
                i <= n,
                n == old(self).subnodes@.len(),
                self.subnodes@.len() == n,
                self.sys_node == old(self).sys_node,
                self.loaded == old(self).loaded,
                !self.expanded,
                forall|k: int| 0 <= k < i ==> (#[trigger] self.subnodes@[k])@ == old(
                    self,
                ).subnodes@[k]@.unloaded(),
                forall|k: int| i <= k < n ==> self.subnodes@[k] == old(self).subnodes@[k],
            decreases n - i,
        {
            let child = &mut self.subnodes[i];
            child.unload();
            i = i + 1;
        }
        assert(self@.children =~= old(self)@.collapsed().children);
    }

    /// Marks this node as expanded or not.
    pub fn set_expanded(&mut self, expanded: bool)
        ensures
            final(self)@ == old(self)@.with_expanded(expanded),
            old(self)@.wf() ==> final(self)@.wf(),
    {
        proof {
            if self@.wf() {
                self@.lemma_with_expanded_wf(expanded);
            }
        }
        self.expanded = expanded;
        assert(self@.children =~= old(self)@.children);
    }
}

} // verus!
