use navigator::common::{Key, Size};
use navigator::display::{DisplContent, DisplInfo, Display, DrawOp, Glyph, ViewLine};
use navigator::filesystem::{datetime_to_str, EntryMeta, NodeType, SysNode};
use navigator::list_view::{line_for, neighbour_of, ListView, NAME_COLUMN};
use navigator::tree::{ModifFlags, Tree};
use navigator::tree_node::{DirSource, Listing};
use navigator::tree_view::TreeView;

struct PlainFs {
    dirs: Vec<(String, Vec<(String, NodeType)>)>,
}

impl DirSource for PlainFs {
    fn read_dir(&mut self, path: &str) -> Listing {
        for (p, entries) in &self.dirs {
            if p == path {
                return Ok(entries.iter().map(|(n, t)| SysNode::new(n, *t)).collect());
            }
        }
        Err(format!("no such directory: {}", path))
    }
}

fn plain_fs(dirs: &[(&str, &[(&str, NodeType)])]) -> PlainFs {
    PlainFs {
        dirs: dirs
            .iter()
            .map(|(p, es)| (p.to_string(), es.iter().map(|(n, t)| (n.to_string(), *t)).collect()))
            .collect(),
    }
}

fn sample_fs() -> PlainFs {
    plain_fs(&[
        (
            "/",
            &[
                ("bin", NodeType::Dir),
                ("etc", NodeType::Dir),
                ("home", NodeType::Dir),
                ("readme.txt", NodeType::File),
            ],
        ),
        ("/bin", &[]),
        ("/etc", &[("init.d", NodeType::Dir), ("hosts", NodeType::File)]),
        ("/etc/init.d", &[]),
        ("/home", &[("user", NodeType::Dir)]),
        ("/home/user", &[("notes.txt", NodeType::File)]),
    ])
}

/// A root with `n` directories `d0`, `d1`, ...
fn wide_fs(n: usize) -> PlainFs {
    let names: Vec<String> = (0..n).map(|i| format!("d{}", i)).collect();
    let mut dirs = vec![("/".to_string(), names.iter().map(|n| (n.clone(), NodeType::Dir)).collect())];
    for n in &names {
        dirs.push((format!("/{}", n), Vec::new()));
    }
    PlainFs { dirs }
}

fn contents(lines: &[ViewLine]) -> Vec<String> {
    lines.iter().map(|l| l.content.clone()).collect()
}

fn flags(render: bool, print: bool) -> ModifFlags {
    ModifFlags { render, print }
}

fn shown(row: &[DrawOp]) -> String {
    row.iter()
        .filter_map(|op| match op {
            DrawOp::Put(Glyph::Char(c)) => Some(*c),
            DrawOp::Put(Glyph::LTee) => Some('├'),
            DrawOp::Put(Glyph::LLCorner) => Some('└'),
            DrawOp::Put(Glyph::VLine) => Some('│'),
            _ => None,
        })
        .collect()
}

#[test]
fn list_line_has_fixed_columns() {
    let meta = EntryMeta {
        is_dir: false,
        is_symlink: false,
        mode: 0o644,
        len: 1234,
        uid: 4_000_000_001,
        gid: 4_000_000_002,
        modified: Some(0),
    };
    let mut entry = SysNode::from("notes.txt", Some(&meta));
    entry.user = "alice".to_string();
    entry.group = "staff".to_string();
    let l = line_for(&entry, "Jan 05 14:30", &vec![2, 0]);
    assert_eq!(l.content, "-rw-r--r--    alice    staff       1234 Jan 05 14:30 notes.txt");
    assert_eq!(l.x1, 53);
    assert_eq!(l.x1, NAME_COLUMN);
    assert_eq!(l.x2, 62);
    assert_eq!(l.node_color, None);
    assert_eq!(l.src_node, vec![2, 0]);
    let name: String = l.content.chars().skip(l.x1 as usize).collect();
    assert_eq!(name, "notes.txt");
}

#[test]
fn list_line_of_a_directory() {
    let mut entry = SysNode::new("src", NodeType::Dir);
    entry.mode = 0o755;
    entry.user = "averyveryverylongname".to_string();
    entry.size = 12_345_678_901;
    let l = line_for(&entry, "", &vec![0]);
    assert_eq!(l.content, "drwxr-xr-x averyveryverylongname          12345678901  src");
    assert_eq!(l.node_color, Some(10));
    assert_eq!(l.x1, 53);
    assert_eq!(l.x2, l.content.chars().count() as i32);
}

#[test]
fn list_pane_lists_the_current_directory() {
    let mut fs = sample_fs();
    let mut tree = Tree::new(&mut fs);
    let mut lv = ListView::new();
    assert!(lv.lines.is_empty());
    assert_eq!(lv.modif_flags, flags(true, true));
    lv.list_curr_node(&tree);
    assert_eq!(lv.lines.len(), 4);
    let date = datetime_to_str(tree.root.subnodes[0].sys_node.modified).expect("a date");
    assert_eq!(lv.lines[0].content, format!("d---------                            0 {} bin", date));
    assert!(lv.lines[3].content.starts_with("----------"));
    assert!(lv.lines[3].content.ends_with(" readme.txt"));
    let sources: Vec<Vec<usize>> = lv.lines.iter().map(|l| l.src_node.clone()).collect();
    assert_eq!(sources, vec![vec![0], vec![1], vec![2], vec![3]]);
    assert_eq!(lv.find_cursor(&tree), Some(0));
    tree.cursor.lpos = 3;
    assert_eq!(lv.find_cursor(&tree), Some(3));
    tree.cursor.lpos = 4;
    assert_eq!(lv.find_cursor(&tree), None);
}

#[test]
fn list_pane_prepares_only_when_stale() {
    let mut fs = sample_fs();
    let mut tree = Tree::new(&mut fs);
    let mut lv = ListView::new();
    let mut info = DisplInfo::default();
    assert!(lv.modified());
    lv.prepare(&mut info, &tree).unwrap();
    assert_eq!(info.lines_count, 4);
    assert_eq!(info.curs_line, Some(0));
    assert_eq!(info.curs_x1, 53);
    assert_eq!(info.curs_x2, 56);
    assert_eq!(lv.modif_flags, flags(false, true));
    // The tree moves on, but the lines are not marked stale.
    tree.goto(&vec![2]).unwrap();
    lv.prepare(&mut info, &tree).unwrap();
    assert_eq!(info.lines_count, 4);
    assert_eq!(info.curs_line, None);
    assert_eq!((info.curs_x1, info.curs_x2), (0, 0));
    lv.modif_flags.render = true;
    tree.root.load(&vec![2], &mut fs).unwrap();
    lv.prepare(&mut info, &tree).unwrap();
    assert_eq!(info.lines_count, 1);
    assert_eq!(info.curs_line, Some(0));
    lv.reset_modified();
    assert!(!lv.modified());
    assert_eq!(lv.modif_flags, flags(false, false));
}

#[test]
fn list_pane_of_an_empty_directory_has_no_cursor() {
    let mut fs = sample_fs();
    let mut tree = Tree::new(&mut fs);
    tree.go_to_path("/bin", &mut fs).unwrap();
    let mut lv = ListView::new();
    let mut info = DisplInfo::default();
    lv.prepare(&mut info, &tree).unwrap();
    assert_eq!(info.lines_count, 0);
    assert_eq!(info.curs_line, None);
}

#[test]
fn get_line_checks_the_index() {
    let mut fs = sample_fs();
    let tree = Tree::new(&mut fs);
    let mut lv = ListView::new();
    lv.list_curr_node(&tree);
    assert!(lv.get_line(3).unwrap().content.ends_with("readme.txt"));
    assert_eq!(lv.get_line(4).unwrap_err().to_string(), "ListView index out of range");
    let mut tv = TreeView::new();
    tv.list_tree(&tree);
    assert_eq!(tv.get_line(0).unwrap().content, "-/");
    assert_eq!(tv.get_line(4).unwrap_err().to_string(), "TreeView index out of range");
}

#[test]
fn tree_pane_draws_the_expanded_directories() {
    let mut fs = sample_fs();
    let mut tree = Tree::new(&mut fs);
    let mut tv = TreeView::new();
    tv.list_tree(&tree);
    assert_eq!(contents(&tv.lines), vec!["-/", "├+bin", "├+etc", "└+home"]);
    tree.go_to_path("/etc/init.d", &mut fs).unwrap();
    tree.go_to_path("/home/user", &mut fs).unwrap();
    tv.list_tree(&tree);
    assert_eq!(
        contents(&tv.lines),
        vec!["-/", "├+bin", "├-etc", "│└-init.d", "└-home", " └-user"]
    );
    let spans: Vec<(i32, i32)> = tv.lines.iter().map(|l| (l.x1, l.x2)).collect();
    assert_eq!(spans, vec![(1, 2), (2, 5), (2, 5), (3, 9), (2, 6), (3, 7)]);
    let sources: Vec<Vec<usize>> = tv.lines.iter().map(|l| l.src_node.clone()).collect();
    assert_eq!(sources, vec![vec![], vec![0], vec![1], vec![1, 0], vec![2], vec![2, 0]]);
    assert!(tv.lines.iter().all(|l| l.node_color == Some(10)));
    assert_eq!(tv.find_cursor(&tree), Some(5));
    tree.goto(&vec![]).unwrap();
    assert_eq!(tv.find_cursor(&tree), Some(0));
}

#[test]
fn tree_pane_shows_nothing_below_a_collapsed_root() {
    let mut fs = sample_fs();
    let mut tree = Tree::new(&mut fs);
    tree.root.expanded = false;
    let mut tv = TreeView::new();
    tv.list_tree(&tree);
    assert_eq!(contents(&tv.lines), vec!["+/"]);
    let mut info = DisplInfo::default();
    tv.prepare(&mut info, &tree).unwrap();
    assert_eq!(info.lines_count, 1);
    assert_eq!(info.curs_line, Some(0));
    assert_eq!((info.curs_x1, info.curs_x2), (1, 2));
}

#[test]
fn tree_line_of_a_single_node() {
    let mut fs = sample_fs();
    let tree = Tree::new(&mut fs);
    let home = &tree.root.subnodes[2];
    let l = TreeView::line_for(home, &vec![2], &vec![true, false], Some(true));
    assert_eq!(l.content, "│ ├+home");
    assert_eq!((l.x1, l.x2), (4, 8));
    let last = TreeView::line_for(home, &vec![2], &vec![], Some(false));
    assert_eq!(last.content, "└+home");
    let root = TreeView::line_for(&tree.root, &vec![], &vec![], None);
    assert_eq!(root.content, "-/");
}

#[test]
fn neighbours_of_a_line() {
    let lines = vec![
        ViewLine::new("a", 0, 1, None, &vec![0]),
        ViewLine::new("b", 0, 1, None, &vec![1]),
    ];
    assert_eq!(neighbour_of(&lines, Some(0), 1), Some(vec![1]));
    assert_eq!(neighbour_of(&lines, Some(1), -1), Some(vec![0]));
    assert_eq!(neighbour_of(&lines, Some(0), -1), None);
    assert_eq!(neighbour_of(&lines, Some(1), 1), None);
    assert_eq!(neighbour_of(&lines, Some(0), 0), Some(vec![0]));
    assert_eq!(neighbour_of(&lines, None, 1), None);
    assert_eq!(neighbour_of(&lines, Some(i32::MAX), 1), None);
}

#[test]
fn keys_in_the_list_pane() {
    let mut fs = sample_fs();
    let mut tree = Tree::new(&mut fs);
    let mut lv = ListView::new();
    let mut tvf = flags(false, false);
    let mut info = DisplInfo::default();
    lv.prepare(&mut info, &tree).unwrap();
    lv.reset_modified();
    // Up on the first line does nothing.
    lv.process_key(Key::Up, &mut tree, &mut tvf, &mut fs).unwrap();
    assert_eq!(tree.cursor.lpos, 0);
    assert_eq!(lv.modif_flags, flags(false, false));
    lv.process_key(Key::Down, &mut tree, &mut tvf, &mut fs).unwrap();
    assert_eq!(tree.cursor.lpos, 1);
    assert_eq!(lv.modif_flags, flags(false, true));
    assert_eq!(tvf, flags(false, false));
    lv.process_key(Key::Down, &mut tree, &mut tvf, &mut fs).unwrap();
    lv.process_key(Key::Down, &mut tree, &mut tvf, &mut fs).unwrap();
    lv.process_key(Key::Down, &mut tree, &mut tvf, &mut fs).unwrap();
    assert_eq!(tree.cursor.lpos, 3);
    lv.process_key(Key::Up, &mut tree, &mut tvf, &mut fs).unwrap();
    assert_eq!(tree.cursor.lpos, 2);
    // Keys of the other pane and of the session do nothing here.
    lv.modif_flags = flags(false, false);
    for key in [Key::Left, Key::Right, Key::Tab, Key::Quit, Key::Escape, Key::Other] {
        lv.process_key(key, &mut tree, &mut tvf, &mut fs).unwrap();
    }
    assert_eq!(tree.cursor.lpos, 2);
    assert_eq!(tree.curr_path(), "/");
    assert_eq!(lv.modif_flags, flags(false, false));
    assert_eq!(tvf, flags(false, false));
    lv.process_key(Key::Enter, &mut tree, &mut tvf, &mut fs).unwrap();
    assert_eq!(tree.curr_path(), "/home");
    assert_eq!(lv.modif_flags, flags(true, true));
    assert_eq!(tvf, flags(true, true));
    lv.process_key(Key::Backspace, &mut tree, &mut tvf, &mut fs).unwrap();
    assert_eq!(tree.curr_path(), "/");
}

#[test]
fn keys_in_the_tree_pane() {
    let mut fs = sample_fs();
    let mut tree = Tree::new(&mut fs);
    let mut tv = TreeView::new();
    let mut lvf = flags(false, false);
    let mut info = DisplInfo::default();
    tv.prepare(&mut info, &tree).unwrap();
    tv.reset_modified();
    tv.process_key(Key::Up, &mut tree, &mut lvf, &mut fs).unwrap();
    assert_eq!(tree.curr_path(), "/");
    assert_eq!(lvf, flags(false, false));
    tv.process_key(Key::Down, &mut tree, &mut lvf, &mut fs).unwrap();
    assert_eq!(tree.curr_path(), "/bin");
    assert_eq!(tv.modif_flags, flags(false, true));
    assert_eq!(lvf, flags(true, true));
    tv.process_key(Key::Down, &mut tree, &mut lvf, &mut fs).unwrap();
    assert_eq!(tree.curr_path(), "/etc");
    // /bin was left behind collapsed and is unloaded: the lines are stale.
    assert_eq!(tv.modif_flags, flags(true, true));
    tv.process_key(Key::Right, &mut tree, &mut lvf, &mut fs).unwrap();
    assert!(tree.root.subnodes[1].expanded);
    tv.prepare(&mut info, &tree).unwrap();
    assert_eq!(contents(&tv.lines), vec!["-/", "├+bin", "├-etc", "│└+init.d", "└+home"]);
    assert_eq!(info.curs_line, Some(2));
    tv.process_key(Key::Down, &mut tree, &mut lvf, &mut fs).unwrap();
    assert_eq!(tree.curr_path(), "/etc/init.d");
    tv.process_key(Key::Backspace, &mut tree, &mut lvf, &mut fs).unwrap();
    assert_eq!(tree.curr_path(), "/etc");
    tv.process_key(Key::Left, &mut tree, &mut lvf, &mut fs).unwrap();
    assert!(!tree.root.subnodes[1].expanded);
    assert_eq!(tree.curr_path(), "/etc");
    tv.process_key(Key::Left, &mut tree, &mut lvf, &mut fs).unwrap();
    assert_eq!(tree.curr_path(), "/");
    let before = tv.modif_flags;
    let mut lvf = flags(false, false);
    for key in [Key::Enter, Key::Tab, Key::Quit, Key::Escape, Key::Other] {
        tv.process_key(key, &mut tree, &mut lvf, &mut fs).unwrap();
    }
    assert_eq!(tree.curr_path(), "/");
    assert_eq!(tv.modif_flags, before);
    assert_eq!(lvf, flags(false, false));
}

#[test]
fn tree_pane_fails_on_a_line_whose_node_is_gone() {
    let mut fs = sample_fs();
    let mut tree = Tree::new(&mut fs);
    tree.go_to_path("/etc/init.d", &mut fs).unwrap();
    let mut tv = TreeView::new();
    let mut lvf = flags(false, false);
    let mut info = DisplInfo::default();
    tv.prepare(&mut info, &tree).unwrap();
    // The tree changes behind the pane's back.
    tree.goto(&vec![1]).unwrap();
    tree.root.subnodes[1].unload();
    let r = tv.process_key(Key::Down, &mut tree, &mut lvf, &mut fs);
    assert_eq!(r.unwrap_err().to_string(), "internal goto error");
}

#[test]
fn window_follows_the_cursor_with_a_margin() {
    let mut fs = wide_fs(30);
    let mut tree = Tree::new(&mut fs);
    let mut tv = TreeView::new();
    let mut d = Display::new(&Size::new(20, 10));
    assert_eq!(d.margin_y, 3);
    let frame = d.display(&mut tv, &tree, false).unwrap().unwrap();
    assert_eq!(frame.len(), 10);
    assert_eq!(shown(&frame[0]), "-/");
    assert_eq!(shown(&frame[1]), "├+d0");
    assert_eq!(d.offset_y, 0);
    assert!(!tv.modified());
    // Nothing to repaint: no frame.
    assert!(d.display(&mut tv, &tree, false).unwrap().is_none());
    // Cursor on line 6: still inside the margin.
    tree.goto(&vec![5]).unwrap();
    tv.modif_flags.print = true;
    d.display(&mut tv, &tree, false).unwrap().unwrap();
    assert_eq!(d.offset_y, 0);
    // Cursor on line 7: the window moves one line down.
    tree.goto(&vec![6]).unwrap();
    tv.modif_flags.print = true;
    let frame = d.display(&mut tv, &tree, false).unwrap().unwrap();
    assert_eq!(d.offset_y, 1);
    assert_eq!(shown(&frame[0]), "├+d0");
    assert_eq!(shown(&frame[6]), "├+d6");
    // Far down: the cursor sits at the lower margin.
    tree.goto(&vec![19]).unwrap();
    tv.modif_flags.print = true;
    d.display(&mut tv, &tree, false).unwrap().unwrap();
    assert_eq!(d.offset_y, 14);
    // Back up: the cursor sits at the upper margin.
    tree.goto(&vec![9]).unwrap();
    tv.modif_flags.print = true;
    d.display(&mut tv, &tree, false).unwrap().unwrap();
    assert_eq!(d.offset_y, 7);
    // The last line: the window stops at the end.
    tree.goto(&vec![29]).unwrap();
    tv.modif_flags.print = true;
    let frame = d.display(&mut tv, &tree, false).unwrap().unwrap();
    assert_eq!(d.offset_y, 21);
    assert_eq!(frame.len(), 10);
    assert_eq!(shown(&frame[9]), "└+d29");
    // The first line: the window stops at the top.
    tree.goto(&vec![]).unwrap();
    tv.modif_flags.print = true;
    d.display(&mut tv, &tree, false).unwrap().unwrap();
    assert_eq!(d.offset_y, 0);
}

#[test]
fn window_centres_the_cursor_on_request() {
    let mut fs = wide_fs(30);
    let mut tree = Tree::new(&mut fs);
    let mut tv = TreeView::new();
    let mut d = Display::new(&Size::new(20, 10));
    tree.goto(&vec![19]).unwrap();
    let frame = d.display(&mut tv, &tree, true).unwrap().unwrap();
    assert_eq!(d.offset_y, 15);
    assert_eq!(shown(&frame[5]), "├+d19");
    tree.goto(&vec![1]).unwrap();
    tv.modif_flags.print = true;
    d.display(&mut tv, &tree, true).unwrap().unwrap();
    assert_eq!(d.offset_y, 0);
    tree.goto(&vec![29]).unwrap();
    tv.modif_flags.print = true;
    d.display(&mut tv, &tree, true).unwrap().unwrap();
    assert_eq!(d.offset_y, 21);
}

#[test]
fn window_taller_than_the_lines_shows_them_all() {
    let mut fs = sample_fs();
    let tree = Tree::new(&mut fs);
    let mut tv = TreeView::new();
    let mut d = Display::new(&Size::new(20, 10));
    d.active = true;
    let frame = d.display(&mut tv, &tree, false).unwrap().unwrap();
    assert_eq!(frame.len(), 4);
    assert_eq!(d.offset_y, 0);
    // The cursor's line carries the selection.
    assert_eq!(
        frame[0],
        vec![
            DrawOp::Put(Glyph::Char('-')),
            DrawOp::ReverseOn,
            DrawOp::ColorOn(10),
            DrawOp::Put(Glyph::Char('/')),
            DrawOp::ColorOff(10),
            DrawOp::ReverseOff,
        ]
    );
    assert_eq!(
        frame[1],
        vec![
            DrawOp::Put(Glyph::LTee),
            DrawOp::Put(Glyph::Char('+')),
            DrawOp::ColorOn(10),
            DrawOp::Put(Glyph::Char('b')),
            DrawOp::Put(Glyph::Char('i')),
            DrawOp::Put(Glyph::Char('n')),
            DrawOp::ColorOff(10),
        ]
    );
    let mut empty = Display::new(&Size::new(20, 0));
    tv.modif_flags.print = true;
    assert_eq!(empty.display(&mut tv, &tree, false).unwrap().unwrap().len(), 0);
}

#[test]
fn window_scrolls_sideways_to_the_name() {
    let mut fs = sample_fs();
    let tree = Tree::new(&mut fs);
    let mut lv = ListView::new();
    let mut d = Display::new(&Size::new(20, 5));
    let frame = d.display(&mut lv, &tree, false).unwrap().unwrap();
    // The name `bin` ends in column 56: the line is scrolled by 36 cells.
    let whole = lv.lines[0].content.clone();
    let part: String = whole.chars().skip(36).take(20).collect();
    assert_eq!(shown(&frame[0]), part);
    assert!(shown(&frame[0]).ends_with(" bin"));
    assert_eq!(frame.len(), 4);
}

#[test]
fn window_without_height_shows_nothing_and_does_not_scroll() {
    let mut fs = wide_fs(30);
    let mut tree = Tree::new(&mut fs);
    let mut tv = TreeView::new();
    for height in [-5, 0] {
        let mut d = Display::new(&Size::new(20, height));
        assert_eq!(d.size, Size::new(20, height));
        tree.goto(&vec![19]).unwrap();
        tv.modif_flags = ModifFlags { render: true, print: true };
        let frame = d.display(&mut tv, &tree, false).unwrap().unwrap();
        assert_eq!(frame.len(), 0);
        assert_eq!(tv.lines.len(), 31);
        assert_eq!(tv.modif_flags, ModifFlags { render: false, print: false });
        assert_eq!(d.size, Size::new(20, height));
        if height < 0 {
            assert_eq!(d.offset_y, 0);
        }
        assert!(d.in_order());
    }
    let mut narrow = Display::new(&Size::new(-4, 3));
    tree.goto(&vec![]).unwrap();
    tv.modif_flags.print = true;
    let frame = narrow.display(&mut tv, &tree, false).unwrap().unwrap();
    assert_eq!(frame.len(), 3);
    assert!(frame.iter().all(|row| row.is_empty()));
    assert_eq!(narrow.size, Size::new(-4, 3));
}

#[test]
fn entry_with_a_time_out_of_range_is_listed_without_a_date() {
    let mut fs = sample_fs();
    let mut tree = Tree::new(&mut fs);
    tree.root.subnodes[0].sys_node.modified = i64::MAX;
    let mut lv = ListView::new();
    lv.list_curr_node(&tree);
    assert_eq!(lv.lines[0].content, "d---------                            0  bin");
}
