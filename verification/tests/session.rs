use navigator::common::{AppError, Key, Size};
use navigator::display::{DrawOp, Glyph};
use navigator::filesystem::{NodeType, SysNode};
use navigator::session::{Focus, Session, Step};
use navigator::tree::{ModifFlags, Tree};
use navigator::tree_node::{DirSource, Listing};

struct DiskFs {
    dirs: Vec<(String, Vec<(String, NodeType)>)>,
    reads: usize,
}

impl DirSource for DiskFs {
    fn read_dir(&mut self, path: &str) -> Listing {
        self.reads += 1;
        for (p, entries) in &self.dirs {
            if p == path {
                return Ok(entries.iter().map(|(n, t)| SysNode::new(n, *t)).collect());
            }
        }
        Err(format!("no such directory: {}", path))
    }
}

fn disk() -> DiskFs {
    let table: &[(&str, &[(&str, NodeType)])] = &[
        (
            "/",
            &[
                ("bin", NodeType::Dir),
                ("etc", NodeType::Dir),
                ("home", NodeType::Dir),
                ("readme.txt", NodeType::File),
            ],
        ),
        ("/bin", &[]),
        ("/etc", &[("hosts", NodeType::File)]),
        ("/home", &[("user", NodeType::Dir)]),
        ("/home/user", &[("notes.txt", NodeType::File)]),
    ];
    DiskFs {
        dirs: table
            .iter()
            .map(|(p, es)| (p.to_string(), es.iter().map(|(n, t)| (n.to_string(), *t)).collect()))
            .collect(),
        reads: 0,
    }
}

fn session(fs: &mut DiskFs) -> Session {
    Session::new(Tree::new(fs), &Size::new(18, 10), &Size::new(58, 10), &Size::new(80, 1))
}

fn text(row: &[DrawOp]) -> String {
    row.iter()
        .filter_map(|op| match op {
            DrawOp::Put(Glyph::Char(c)) => Some(*c),
            DrawOp::Put(Glyph::LTee) => Some('├'),
            DrawOp::Put(Glyph::LLCorner) => Some('└'),
            DrawOp::Put(Glyph::VLine) => Some('│'),
            _ => None,
        })
        .collect()
}

fn all_set() -> ModifFlags {
    ModifFlags { render: true, print: true }
}

fn quit_path(s: &mut Session, fs: &mut DiskFs) -> String {
    match s.handle_key(Key::Quit, fs) {
        Ok(Step::Quit(path)) => path,
        _ => panic!("expected the session to end"),
    }
}

#[test]
fn new_session_focuses_the_tree_pane() {
    let mut fs = disk();
    let s = session(&mut fs);
    assert_eq!(s.focus, Focus::Tree);
    assert!(s.left_displ.active);
    assert!(!s.right_displ.active);
    assert_eq!(s.tree_view.modif_flags, all_set());
    assert_eq!(s.list_view.modif_flags, all_set());
    assert_eq!(s.left_displ.size, Size::new(18, 10));
    assert_eq!(s.right_displ.size, Size::new(58, 10));
    assert_eq!(s.sw_size, Size::new(80, 1));
    assert_eq!(s.tree.curr_path(), "/");
}

#[test]
fn session_starts_in_the_given_directory() {
    let mut fs = disk();
    let mut s = session(&mut fs);
    s.go_to_start(Some("/home/user"), Some("/etc"), &mut fs).unwrap();
    assert_eq!(s.tree.curr_path(), "/home/user");
}

#[test]
fn session_falls_back_to_the_working_directory() {
    let mut fs = disk();
    let mut s = session(&mut fs);
    s.go_to_start(Some("/nowhere"), Some("/etc"), &mut fs).unwrap();
    assert_eq!(s.tree.curr_path(), "/etc");
    let mut t = session(&mut fs);
    t.go_to_start(None, Some("/home"), &mut fs).unwrap();
    assert_eq!(t.tree.curr_path(), "/home");
}

#[test]
fn session_falls_back_to_the_root() {
    let mut fs = disk();
    let mut s = session(&mut fs);
    s.go_to_start(Some("relative"), Some("/gone"), &mut fs).unwrap();
    assert_eq!(s.tree.curr_path(), "/");
    let mut t = session(&mut fs);
    t.go_to_start(None, None, &mut fs).unwrap();
    assert_eq!(t.tree.curr_path(), "/");
    let mut u = session(&mut fs);
    u.go_to_start(Some("/readme.txt"), None, &mut fs).unwrap();
    assert_eq!(u.tree.curr_path(), "/");
}

#[test]
fn entering_home_from_the_list_pane() {
    let mut fs = disk();
    let mut s = session(&mut fs);
    s.refresh(true).unwrap();
    assert!(matches!(s.handle_key(Key::Tab, &mut fs), Ok(Step::Continue)));
    assert_eq!(s.focus, Focus::List);
    // The list pane selects the first entry.
    assert_eq!(s.tree.curr_file(), Some(vec![0]));
    assert_eq!(s.tree.root.subnodes[0].sys_node.name, "bin");
    s.refresh(false).unwrap();
    assert!(matches!(s.handle_key(Key::Down, &mut fs), Ok(Step::Continue)));
    s.refresh(false).unwrap();
    assert!(matches!(s.handle_key(Key::Down, &mut fs), Ok(Step::Continue)));
    s.refresh(false).unwrap();
    let selected = s.tree.curr_file().unwrap();
    assert_eq!(s.tree.root.node_at(&selected).unwrap().sys_node.name, "home");
    assert!(matches!(s.handle_key(Key::Enter, &mut fs), Ok(Step::Continue)));
    // `home` is the current directory, expanded, with its child listed.
    assert_eq!(s.tree.curr_path(), "/home");
    assert!(s.tree.root.subnodes[2].expanded);
    assert_eq!(s.tree.cursor.lpos, 0);
    let out = s.refresh(false).unwrap();
    let tree_rows: Vec<String> = out.left.unwrap().iter().map(|r| text(r)).collect();
    assert_eq!(tree_rows, vec!["-/", "├+bin", "├+etc", "└-home", " └+user"]);
    let list_rows = out.right.unwrap();
    assert_eq!(list_rows.len(), 1);
    assert!(text(&list_rows[0]).ends_with(" user"));
    assert_eq!(s.tree.curr_file(), Some(vec![2, 0]));
    let status = text(&out.status);
    assert_eq!(status.len(), 80);
    assert_eq!(status.trim_end(), "/home");
}

#[test]
fn quit_yields_the_current_directory_from_either_pane() {
    let mut fs = disk();
    let mut s = session(&mut fs);
    s.go_to_start(Some("/home/user"), None, &mut fs).unwrap();
    assert_eq!(s.focus, Focus::Tree);
    assert_eq!(quit_path(&mut s, &mut fs), "/home/user");
    s.handle_key(Key::Tab, &mut fs).unwrap();
    assert_eq!(s.focus, Focus::List);
    assert_eq!(quit_path(&mut s, &mut fs), "/home/user");
    // After moving about, the last current directory is reported.
    s.handle_key(Key::Backspace, &mut fs).unwrap();
    assert_eq!(quit_path(&mut s, &mut fs), "/home");
    s.handle_key(Key::Tab, &mut fs).unwrap();
    s.refresh(false).unwrap();
    s.handle_key(Key::Up, &mut fs).unwrap();
    assert_eq!(quit_path(&mut s, &mut fs), "/etc");
    // Quitting changes nothing.
    assert_eq!(s.tree.curr_path(), "/etc");
    assert_eq!(s.focus, Focus::Tree);
}

#[test]
fn escape_abandons_the_session() {
    let mut fs = disk();
    let mut s = session(&mut fs);
    match s.handle_key(Key::Escape, &mut fs) {
        Err(AppError::StrError(m)) => assert_eq!(m, "Abandoned."),
        _ => panic!("expected the session to be abandoned"),
    }
    s.handle_key(Key::Tab, &mut fs).unwrap();
    assert!(s.handle_key(Key::Escape, &mut fs).is_err());
    assert_eq!(s.tree.curr_path(), "/");
}

#[test]
fn tab_switches_the_focus_and_repaints() {
    let mut fs = disk();
    let mut s = session(&mut fs);
    s.refresh(true).unwrap();
    assert_eq!(s.tree_view.modif_flags, ModifFlags { render: false, print: false });
    assert_eq!(s.list_view.modif_flags, ModifFlags { render: false, print: false });
    s.handle_key(Key::Tab, &mut fs).unwrap();
    assert_eq!(s.focus, Focus::List);
    assert!(!s.left_displ.active);
    assert!(s.right_displ.active);
    assert_eq!(s.tree_view.modif_flags, ModifFlags { render: false, print: true });
    assert_eq!(s.list_view.modif_flags, ModifFlags { render: false, print: true });
    s.switch_focus();
    assert_eq!(s.focus, Focus::Tree);
    assert!(s.left_displ.active);
    assert!(!s.right_displ.active);
}

#[test]
fn keys_go_to_the_pane_with_the_focus() {
    let mut fs = disk();
    let mut s = session(&mut fs);
    s.refresh(true).unwrap();
    // In the tree pane, down goes to the next directory.
    s.handle_key(Key::Down, &mut fs).unwrap();
    assert_eq!(s.tree.curr_path(), "/bin");
    s.handle_key(Key::Up, &mut fs).unwrap();
    assert_eq!(s.tree.curr_path(), "/");
    // In the list pane, down moves the selection only.
    s.handle_key(Key::Tab, &mut fs).unwrap();
    s.refresh(false).unwrap();
    s.handle_key(Key::Down, &mut fs).unwrap();
    assert_eq!(s.tree.curr_path(), "/");
    assert_eq!(s.tree.cursor.lpos, 1);
    // Left and right mean nothing there.
    s.handle_key(Key::Right, &mut fs).unwrap();
    s.handle_key(Key::Left, &mut fs).unwrap();
    assert_eq!(s.tree.curr_path(), "/");
    assert!(s.tree.root.expanded);
}

#[test]
fn refresh_draws_only_what_is_stale() {
    let mut fs = disk();
    let mut s = session(&mut fs);
    let first = s.refresh(true).unwrap();
    let left: Vec<String> = first.left.unwrap().iter().map(|r| text(r)).collect();
    assert_eq!(left, vec!["-/", "├+bin", "├+etc", "└+home"]);
    assert_eq!(first.right.unwrap().len(), 4);
    assert_eq!(text(&first.status).trim_end(), "/");
    let second = s.refresh(false).unwrap();
    assert!(second.left.is_none());
    assert!(second.right.is_none());
    assert_eq!(text(&second.status).trim_end(), "/");
    // A move in the list pane repaints that pane only.
    s.handle_key(Key::Tab, &mut fs).unwrap();
    s.refresh(false).unwrap();
    s.handle_key(Key::Down, &mut fs).unwrap();
    let third = s.refresh(false).unwrap();
    assert!(third.left.is_none());
    assert!(third.right.is_some());
}

#[test]
fn failure_in_the_tree_pane_ends_the_session() {
    let mut fs = disk();
    let mut s = session(&mut fs);
    s.go_to_start(Some("/home/user"), None, &mut fs).unwrap();
    s.refresh(true).unwrap();
    // The tree changes behind the pane's back.
    s.tree.goto(&vec![2]).unwrap();
    s.tree.root.subnodes[2].unload();
    match s.handle_key(Key::Down, &mut fs) {
        Err(AppError::StrError(m)) => assert_eq!(m, "internal goto error"),
        _ => panic!("expected a failure"),
    }
}

fn locked_disk() -> DiskFs {
    DiskFs {
        dirs: vec![(
            "/".to_string(),
            vec![("locked".to_string(), NodeType::Dir), ("open".to_string(), NodeType::Dir)],
        ), ("/open".to_string(), Vec::new())],
        reads: 0,
    }
}

#[test]
fn start_fails_on_an_unreadable_directory() {
    let mut fs = locked_disk();
    let mut s = session(&mut fs);
    match s.go_to_start(Some("/locked/deep"), Some("/open"), &mut fs) {
        Err(AppError::IoError(m)) => assert_eq!(m, "no such directory: /locked"),
        _ => panic!("expected an IO error"),
    }
    assert_eq!(s.tree.curr_path(), "/");
    let mut t = session(&mut fs);
    assert!(t.go_to_start(Some("/missing"), Some("/locked"), &mut fs).is_err());
    let mut u = session(&mut fs);
    u.go_to_start(Some("/missing"), Some("/open"), &mut fs).unwrap();
    assert_eq!(u.tree.curr_path(), "/open");
}

#[test]
fn unreadable_directory_is_reported_and_the_session_goes_on() {
    let mut fs = locked_disk();
    let mut s = session(&mut fs);
    s.refresh(true).unwrap();
    // Down in the tree pane would go to /locked.
    match s.handle_key(Key::Down, &mut fs) {
        Ok(Step::Failed(AppError::IoError(m))) => assert_eq!(m, "no such directory: /locked"),
        _ => panic!("expected a reported failure"),
    }
    assert_eq!(s.tree.curr_path(), "/");
    // Entering it from the list pane fails in the same way.
    s.handle_key(Key::Tab, &mut fs).unwrap();
    s.refresh(false).unwrap();
    assert!(matches!(s.handle_key(Key::Enter, &mut fs), Ok(Step::Failed(AppError::IoError(_)))));
    assert_eq!(s.tree.curr_path(), "/");
    // The session is still good for other keys.
    assert!(matches!(s.handle_key(Key::Down, &mut fs), Ok(Step::Continue)));
    assert!(matches!(s.handle_key(Key::Enter, &mut fs), Ok(Step::Continue)));
    assert_eq!(s.tree.curr_path(), "/open");
}

#[test]
fn keys_that_load_nothing_read_nothing() {
    let mut fs = disk();
    let mut s = session(&mut fs);
    s.go_to_start(Some("/home/user"), None, &mut fs).unwrap();
    s.refresh(true).unwrap();
    let reads = fs.reads;
    for key in [Key::Tab, Key::Up, Key::Down, Key::Left, Key::Right, Key::Tab, Key::Other] {
        s.handle_key(key, &mut fs).unwrap();
        s.refresh(false).unwrap();
    }
    quit_path(&mut s, &mut fs);
    assert!(s.handle_key(Key::Escape, &mut fs).is_err());
    // Left, right and backspace in the tree pane never read.
    for key in [Key::Left, Key::Right, Key::Backspace, Key::Backspace, Key::Backspace] {
        s.handle_key(key, &mut fs).unwrap();
        s.refresh(false).unwrap();
    }
    assert_eq!(fs.reads, reads);
}

#[test]
fn start_reads_nothing_for_paths_that_are_refused() {
    let mut fs = disk();
    let mut s = session(&mut fs);
    let reads = fs.reads;
    s.go_to_start(Some("relative/path"), Some(""), &mut fs).unwrap();
    s.go_to_start(None, None, &mut fs).unwrap();
    s.go_to_start(Some("/"), Some("/home"), &mut fs).unwrap();
    assert_eq!(fs.reads, reads);
    assert_eq!(s.tree.curr_path(), "/");
}
