use navigator::common::AppError;
use navigator::filesystem::{NodeType, SysNode};
use navigator::tree_node::{DirSource, Listing, TreeNode};

/// A filesystem that answers from a table and counts the reads.
struct TableFs {
    dirs: Vec<(String, Vec<(String, NodeType)>)>,
    reads: Vec<String>,
}

impl DirSource for TableFs {
    fn read_dir(&mut self, path: &str) -> Listing {
        self.reads.push(path.to_string());
        for (p, entries) in &self.dirs {
            if p == path {
                return Ok(entries.iter().map(|(n, t)| SysNode::new(n, *t)).collect());
            }
        }
        Err(format!("cannot read {}", path))
    }
}

fn table(dirs: &[(&str, &[(&str, NodeType)])]) -> TableFs {
    TableFs {
        dirs: dirs
            .iter()
            .map(|(p, es)| (p.to_string(), es.iter().map(|(n, t)| (n.to_string(), *t)).collect()))
            .collect(),
        reads: Vec::new(),
    }
}

fn dir(name: &str) -> TreeNode {
    TreeNode::from(SysNode::new(name, NodeType::Dir))
}

fn file(name: &str) -> TreeNode {
    TreeNode::from(SysNode::new(name, NodeType::File))
}

fn entries(names: &[(&str, NodeType)]) -> Vec<SysNode> {
    names.iter().map(|(n, t)| SysNode::new(n, *t)).collect()
}

fn names(node: &TreeNode) -> Vec<String> {
    node.subnodes.iter().map(|n| n.sys_node.name.clone()).collect()
}

/// Checks the two rules of a well-formed tree on every node.
fn well_formed(node: &TreeNode) -> bool {
    (node.loaded || node.subnodes.is_empty())
        && (node.sys_node.typ == NodeType::Dir || !node.loaded)
        && node.subnodes.iter().all(well_formed)
}

/// `/` with `a` (holding `b`, holding `c`) and `x` (holding `y`), all loaded.
fn sample() -> TreeNode {
    let mut root = dir("/");
    root.load_with(Ok(entries(&[("a", NodeType::Dir), ("x", NodeType::Dir)]))).unwrap();
    root.subnodes[0].load_with(Ok(entries(&[("b", NodeType::Dir), ("f", NodeType::File)]))).unwrap();
    root.subnodes[0].subnodes[0].load_with(Ok(entries(&[("c", NodeType::Dir)]))).unwrap();
    root.subnodes[0].subnodes[0].subnodes[0].load_with(Ok(Vec::new())).unwrap();
    root.subnodes[1].load_with(Ok(entries(&[("y", NodeType::Dir)]))).unwrap();
    root
}

#[test]
fn fresh_node_is_empty_and_collapsed() {
    let n = dir("d");
    assert_eq!(n.sys_node.name, "d");
    assert!(n.subnodes.is_empty());
    assert!(!n.loaded);
    assert!(!n.expanded);
}

#[test]
fn append_adds_at_the_end() {
    let mut n = dir("d");
    n.append(file("one"));
    n.append(file("two"));
    assert_eq!(names(&n), vec!["one", "two"]);
    assert!(!n.loaded);
}

#[test]
fn load_with_fills_in_listing_order() {
    let mut n = dir("d");
    let r = n.load_with(Ok(entries(&[("z", NodeType::File), ("a", NodeType::Dir)])));
    assert!(r.is_ok());
    assert!(n.loaded);
    assert_eq!(names(&n), vec!["z", "a"]);
    assert!(n.subnodes.iter().all(|c| !c.loaded && !c.expanded && c.subnodes.is_empty()));
    assert!(well_formed(&n));
}

#[test]
fn load_with_is_a_no_op_on_a_loaded_node() {
    let mut n = dir("d");
    n.load_with(Ok(entries(&[("a", NodeType::File)]))).unwrap();
    let again = n.load_with(Ok(entries(&[("b", NodeType::File), ("c", NodeType::File)])));
    assert!(again.is_ok());
    assert_eq!(names(&n), vec!["a"]);
    let failed = n.load_with(Err("gone".to_string()));
    assert!(failed.is_ok());
    assert_eq!(names(&n), vec!["a"]);
    assert!(n.loaded);
}

#[test]
fn load_with_reports_a_failed_read_and_changes_nothing() {
    let mut n = dir("d");
    match n.load_with(Err("permission denied".to_string())) {
        Err(AppError::IoError(m)) => assert_eq!(m, "permission denied"),
        _ => panic!("expected an IO error"),
    }
    assert!(!n.loaded);
    assert!(n.subnodes.is_empty());
    // The next attempt is made afresh.
    n.load_with(Ok(entries(&[("a", NodeType::File)]))).unwrap();
    assert_eq!(names(&n), vec!["a"]);
}

#[test]
fn load_with_never_loads_a_file() {
    let mut f = file("f");
    match f.load_with(Ok(entries(&[("a", NodeType::File)]))) {
        Err(AppError::IoError(m)) => assert_eq!(m, "not a directory"),
        _ => panic!("expected an IO error"),
    }
    assert!(!f.loaded);
    assert!(f.subnodes.is_empty());
    let mut l = TreeNode::from(SysNode::new("l", NodeType::SymLink));
    assert!(l.load_with(Ok(Vec::new())).is_err());
    assert!(!l.loaded);
}

#[test]
fn load_reads_the_full_path_once() {
    let mut fs = table(&[("/", &[("a", NodeType::Dir)]), ("/a", &[("b", NodeType::File)])]);
    let mut root = dir("/");
    root.load(&vec![], &mut fs).unwrap();
    root.load(&vec![0], &mut fs).unwrap();
    assert_eq!(fs.reads, vec!["/", "/a"]);
    assert_eq!(names(&root.subnodes[0]), vec!["b"]);
    // Loading again asks nothing.
    root.load(&vec![], &mut fs).unwrap();
    root.load(&vec![0], &mut fs).unwrap();
    assert_eq!(fs.reads, vec!["/", "/a"]);
    assert_eq!(names(&root), vec!["a"]);
    assert!(well_formed(&root));
}

#[test]
fn load_failure_leaves_the_tree_as_it_was() {
    let mut fs = table(&[("/", &[("locked", NodeType::Dir), ("f", NodeType::File)])]);
    let mut root = dir("/");
    root.load(&vec![], &mut fs).unwrap();
    match root.load(&vec![0], &mut fs) {
        Err(AppError::IoError(m)) => assert_eq!(m, "cannot read /locked"),
        _ => panic!("expected an IO error"),
    }
    assert!(!root.subnodes[0].loaded);
    assert_eq!(names(&root), vec!["locked", "f"]);
    // A file is refused without asking the filesystem.
    let reads = fs.reads.len();
    assert!(root.load(&vec![1], &mut fs).is_err());
    assert_eq!(fs.reads.len(), reads);
    assert!(well_formed(&root));
}

#[test]
fn unload_drops_children_and_keeps_the_mark() {
    let mut n = dir("d");
    n.load_with(Ok(entries(&[("a", NodeType::File)]))).unwrap();
    n.expanded = true;
    n.unload();
    assert!(n.subnodes.is_empty());
    assert!(!n.loaded);
    assert!(n.expanded);
}

#[test]
fn node_at_follows_indices() {
    let root = sample();
    assert_eq!(root.node_at(&vec![]).unwrap().sys_node.name, "/");
    assert_eq!(root.node_at(&vec![0, 0, 0]).unwrap().sys_node.name, "c");
    assert_eq!(root.node_at(&vec![1, 0]).unwrap().sys_node.name, "y");
    assert!(root.node_at(&vec![2]).is_none());
    assert!(root.node_at(&vec![0, 1, 0]).is_none());
    assert!(root.contains(&vec![0, 1]));
    assert!(!root.contains(&vec![0, 0, 0, 0]));
}

#[test]
fn get_path_joins_names_from_the_root() {
    let root = sample();
    assert_eq!(root.get_path(&vec![]), "/");
    assert_eq!(root.get_path(&vec![0]), "/a");
    assert_eq!(root.get_path(&vec![0, 0, 0]), "/a/b/c");
    assert_eq!(root.get_path(&vec![0, 1]), "/a/f");
    // Below a node that is no root the path is relative.
    assert_eq!(root.subnodes[0].get_path(&vec![0, 0]), "a/b/c");
}

#[test]
fn try_unload_climbs_until_the_destination_branch() {
    let mut root = sample();
    // From /a/b/c to /x/y: c, b and a are left behind.
    let unloaded = root.try_unload(&vec![0, 0, 0], &vec![1, 0]);
    assert!(unloaded);
    assert!(!root.subnodes[0].loaded);
    assert!(root.subnodes[0].subnodes.is_empty());
    assert!(root.loaded);
    assert_eq!(names(&root), vec!["a", "x"]);
    assert_eq!(names(&root.subnodes[1]), vec!["y"]);
    assert!(well_formed(&root));
}

#[test]
fn try_unload_stops_at_an_expanded_node() {
    let mut root = sample();
    root.subnodes[0].expanded = true;
    let unloaded = root.try_unload(&vec![0, 0, 0], &vec![1, 0]);
    assert!(unloaded);
    // c and b are unloaded; a is expanded and stays loaded.
    assert!(root.subnodes[0].loaded);
    assert_eq!(names(&root.subnodes[0]), vec!["b", "f"]);
    assert!(!root.subnodes[0].subnodes[0].loaded);
    assert!(root.subnodes[0].subnodes[0].subnodes.is_empty());
    assert!(well_formed(&root));
}

#[test]
fn try_unload_keeps_an_expanded_start() {
    let mut root = sample();
    root.subnodes[0].subnodes[0].subnodes[0].expanded = true;
    let unloaded = root.try_unload(&vec![0, 0, 0], &vec![1, 0]);
    assert!(!unloaded);
    assert!(root.subnodes[0].subnodes[0].subnodes[0].loaded);
    assert_eq!(names(&root.subnodes[0].subnodes[0]), vec!["c"]);
}

#[test]
fn try_unload_keeps_the_way_to_the_destination() {
    let mut root = sample();
    // Moving up from /a/b/c to /a/b unloads c only.
    assert!(root.try_unload(&vec![0, 0, 0], &vec![0, 0]));
    assert!(root.subnodes[0].subnodes[0].loaded);
    assert_eq!(names(&root.subnodes[0].subnodes[0]), vec!["c"]);
    assert!(!root.subnodes[0].subnodes[0].subnodes[0].loaded);
    // Moving down or staying unloads nothing.
    assert!(!root.try_unload(&vec![0], &vec![0, 0]));
    assert!(!root.try_unload(&vec![0, 0], &vec![0, 0]));
    assert!(!root.try_unload(&vec![], &vec![1]));
    assert!(root.subnodes[0].loaded && root.subnodes[1].loaded && root.loaded);
}

#[test]
fn expand_marks_the_node_and_its_ancestors() {
    let mut root = sample();
    root.expand(&vec![0, 0]);
    assert!(root.expanded);
    assert!(root.subnodes[0].expanded);
    assert!(root.subnodes[0].subnodes[0].expanded);
    assert!(!root.subnodes[0].subnodes[0].subnodes[0].expanded);
    assert!(!root.subnodes[1].expanded);
    assert_eq!(names(&root.subnodes[0]), vec!["b", "f"]);
}

#[test]
fn collapse_unloads_the_children() {
    let mut root = sample();
    root.subnodes[0].expanded = true;
    root.subnodes[0].subnodes[0].expanded = true;
    root.subnodes[0].collapse();
    let a = &root.subnodes[0];
    assert!(!a.expanded);
    assert!(a.loaded);
    assert_eq!(names(a), vec!["b", "f"]);
    assert!(!a.subnodes[0].loaded);
    assert!(a.subnodes[0].subnodes.is_empty());
    // The child keeps its own mark.
    assert!(a.subnodes[0].expanded);
    assert!(well_formed(&root));
}

#[test]
fn collapse_then_expand_keeps_the_names_of_a_fresh_load() {
    let listing = [("b", NodeType::Dir), ("f", NodeType::File)];
    let mut fresh = dir("a");
    fresh.load_with(Ok(entries(&listing))).unwrap();
    let mut root = sample();
    root.subnodes[0].expanded = true;
    root.subnodes[0].collapse();
    root.subnodes[0].set_expanded(true);
    assert_eq!(names(&root.subnodes[0]), names(&fresh));
    assert!(root.subnodes[0].expanded);
}

#[test]
fn loading_twice_is_loading_once() {
    let listing = [("b", NodeType::Dir), ("f", NodeType::File)];
    let mut once = dir("a");
    once.load_with(Ok(entries(&listing))).unwrap();
    let mut twice = dir("a");
    twice.load_with(Ok(entries(&listing))).unwrap();
    twice.load_with(Ok(entries(&listing))).unwrap();
    assert_eq!(names(&once), names(&twice));
    assert_eq!(once.loaded, twice.loaded);
}

#[test]
fn every_operation_keeps_the_tree_well_formed() {
    let mut fs = table(&[
        ("/", &[("a", NodeType::Dir), ("f", NodeType::File), ("l", NodeType::SymLink)]),
        ("/a", &[("b", NodeType::Dir)]),
        ("/a/b", &[]),
    ]);
    let mut root = dir("/");
    assert!(well_formed(&root));
    root.load(&vec![], &mut fs).unwrap();
    assert!(well_formed(&root));
    root.load(&vec![0], &mut fs).unwrap();
    root.load(&vec![0, 0], &mut fs).unwrap();
    let _ = root.load(&vec![1], &mut fs);
    let _ = root.load(&vec![2], &mut fs);
    assert!(well_formed(&root));
    assert!(!root.subnodes[1].loaded && !root.subnodes[2].loaded);
    root.expand(&vec![0, 0]);
    assert!(well_formed(&root));
    root.subnodes[0].collapse();
    assert!(well_formed(&root));
    root.try_unload(&vec![0], &vec![]);
    assert!(well_formed(&root));
    root.unload();
    assert!(well_formed(&root));
}
