use navigator::common::{AppError, Size};
use navigator::filesystem::{
    datetime_to_str, file_type_to_str, owner_label, permissions_to_str, EntryMeta, NodeType,
    SysNode,
};
use navigator::pathname::{push_component, split_components, starts_at_root};
use navigator::text::{chars_of, decimal, push_padded, string_of};

#[test]
fn priority_puts_directories_first() {
    assert_eq!(NodeType::Dir.priority(), 1);
    assert_eq!(NodeType::File.priority(), 2);
    assert_eq!(NodeType::SymLink.priority(), 2);
}

#[test]
fn file_type_tags() {
    assert_eq!(file_type_to_str(&NodeType::File), "-");
    assert_eq!(file_type_to_str(&NodeType::Dir), "d");
    assert_eq!(file_type_to_str(&NodeType::SymLink), "l");
}

#[test]
fn permissions_of_common_modes() {
    assert_eq!(permissions_to_str(0o755), "rwxr-xr-x");
    assert_eq!(permissions_to_str(0o644), "rw-r--r--");
    assert_eq!(permissions_to_str(0o000), "---------");
    assert_eq!(permissions_to_str(0o777), "rwxrwxrwx");
    assert_eq!(permissions_to_str(0o400), "r--------");
    assert_eq!(permissions_to_str(0o001), "--------x");
}

#[test]
fn permissions_ignore_the_bits_above_the_lowest_nine() {
    assert_eq!(permissions_to_str(0o100644), "rw-r--r--");
    assert_eq!(permissions_to_str(0o040755), "rwxr-xr-x");
    assert_eq!(permissions_to_str(u32::MAX), "rwxrwxrwx");
}

#[test]
fn decimal_numerals() {
    assert_eq!(decimal(0), "0");
    assert_eq!(decimal(7), "7");
    assert_eq!(decimal(10), "10");
    assert_eq!(decimal(4096), "4096");
    assert_eq!(decimal(u64::MAX), "18446744073709551615");
}

#[test]
fn padding_aligns_to_the_right() {
    let mut s = String::from("[");
    push_padded(&mut s, "ab", 5);
    assert_eq!(s, "[   ab");
    let mut t = String::new();
    push_padded(&mut t, "abcdef", 3);
    assert_eq!(t, "abcdef");
    let mut u = String::new();
    push_padded(&mut u, "żółw", 6);
    assert_eq!(u, "  żółw");
}

#[test]
fn strings_and_characters_convert_both_ways() {
    let chars = chars_of("a├b");
    assert_eq!(chars, vec!['a', '├', 'b']);
    assert_eq!(string_of(&chars), "a├b");
    assert_eq!(string_of(&Vec::new()), "");
}

#[test]
fn owner_label_prefers_the_name() {
    assert_eq!(owner_label(Some("alice".to_string()), 1000), "alice");
    assert_eq!(owner_label(None, 1000), "1000");
    assert_eq!(owner_label(None, 0), "0");
}

#[test]
fn new_record_is_bare() {
    let n = SysNode::new("etc", NodeType::Dir);
    assert_eq!(n.name, "etc");
    assert_eq!(n.typ, NodeType::Dir);
    assert_eq!(n.mode, 0);
    assert_eq!(n.user, "");
    assert_eq!(n.group, "");
    assert_eq!(n.size, 0);
    assert!(n.modified > 0);
}

#[test]
fn record_without_metadata_is_an_empty_file() {
    let n = SysNode::from("ghost", None);
    assert_eq!(n.name, "ghost");
    assert_eq!(n.typ, NodeType::File);
    assert_eq!(n.mode, 0);
    assert_eq!(n.size, 0);
    assert_eq!(n.user, "");
    assert_eq!(n.group, "");
}

#[test]
fn record_from_metadata() {
    let meta = EntryMeta {
        is_dir: true,
        is_symlink: true,
        mode: 0o40755,
        len: 4096,
        uid: 4_000_000_001,
        gid: 4_000_000_002,
        modified: Some(1_700_000_000),
    };
    let n = SysNode::from("src", Some(&meta));
    assert_eq!(n.name, "src");
    assert_eq!(n.typ, NodeType::Dir);
    assert_eq!(n.mode, 0o40755);
    assert_eq!(n.size, 4096);
    assert_eq!(n.modified, 1_700_000_000);
    // No account has these ids, so the numbers stand in.
    assert_eq!(n.user, "4000000001");
    assert_eq!(n.group, "4000000002");
}

#[test]
fn record_kinds_from_flags() {
    let mut meta = EntryMeta {
        is_dir: false,
        is_symlink: true,
        mode: 0o777,
        len: 3,
        uid: 4_000_000_001,
        gid: 4_000_000_001,
        modified: Some(-5),
    };
    let link = SysNode::from("l", Some(&meta));
    assert_eq!(link.typ, NodeType::SymLink);
    assert_eq!(link.modified, 0);
    meta.is_symlink = false;
    let file = SysNode::from("f", Some(&meta));
    assert_eq!(file.typ, NodeType::File);
    meta.modified = None;
    let stamped = SysNode::from("g", Some(&meta));
    assert!(stamped.modified > 0);
}

#[test]
fn duplicate_copies_every_field() {
    let meta = EntryMeta {
        is_dir: false,
        is_symlink: false,
        mode: 0o640,
        len: 12,
        uid: 4_000_000_001,
        gid: 4_000_000_002,
        modified: Some(99),
    };
    let a = SysNode::from("a.txt", Some(&meta));
    let b = a.duplicate();
    assert_eq!(b.name, a.name);
    assert_eq!(b.typ, a.typ);
    assert_eq!(b.mode, a.mode);
    assert_eq!(b.user, a.user);
    assert_eq!(b.group, a.group);
    assert_eq!(b.size, a.size);
    assert_eq!(b.modified, a.modified);
}

#[test]
fn dates_have_month_day_hour_minute() {
    let s = datetime_to_str(1_700_000_000).expect("a date");
    let chars: Vec<char> = s.chars().collect();
    assert_eq!(chars.len(), 12);
    assert_eq!(chars[3], ' ');
    assert_eq!(chars[6], ' ');
    assert_eq!(chars[9], ':');
    assert!(chars[4].is_ascii_digit() && chars[5].is_ascii_digit());
}

#[test]
fn dates_out_of_range_are_none() {
    assert_eq!(datetime_to_str(i64::MAX), None);
    assert_eq!(datetime_to_str(i64::MIN), None);
    assert!(datetime_to_str(0).is_some());
}

#[test]
fn record_from_parts_with_names_found() {
    let meta = EntryMeta {
        is_dir: false,
        is_symlink: true,
        mode: 0o120777,
        len: 11,
        uid: 1000,
        gid: 50,
        modified: Some(1_600_000_000),
    };
    let n = SysNode::from_parts(
        "link",
        Some(&meta),
        Some("alice".to_string()),
        Some("staff".to_string()),
        42,
    );
    assert_eq!(n.name, "link");
    assert_eq!(n.typ, NodeType::SymLink);
    assert_eq!(n.mode, 0o120777);
    assert_eq!(n.user, "alice");
    assert_eq!(n.group, "staff");
    assert_eq!(n.size, 11);
    assert_eq!(n.modified, 1_600_000_000);
}

#[test]
fn record_from_parts_falls_back_to_numbers_and_the_clock() {
    let meta = EntryMeta {
        is_dir: true,
        is_symlink: false,
        mode: 0o755,
        len: 0,
        uid: 1000,
        gid: 50,
        modified: None,
    };
    let n = SysNode::from_parts("d", Some(&meta), None, Some("staff".to_string()), 42);
    assert_eq!(n.typ, NodeType::Dir);
    assert_eq!(n.user, "1000");
    assert_eq!(n.group, "staff");
    assert_eq!(n.modified, 42);
    let m = SysNode::from_parts("d", Some(&meta), Some("alice".to_string()), None, 42);
    assert_eq!(m.user, "alice");
    assert_eq!(m.group, "50");
    let before = EntryMeta { modified: Some(-1), ..meta };
    assert_eq!(SysNode::from_parts("d", Some(&before), None, None, 42).modified, 0);
}

#[test]
fn record_from_parts_without_metadata() {
    let n = SysNode::from_parts("ghost", None, Some("alice".to_string()), Some("staff".to_string()), 7);
    assert_eq!(n.name, "ghost");
    assert_eq!(n.typ, NodeType::File);
    assert_eq!(n.mode, 0);
    assert_eq!(n.user, "");
    assert_eq!(n.group, "");
    assert_eq!(n.size, 0);
    assert_eq!(n.modified, 7);
}

#[test]
fn error_texts() {
    assert_eq!(AppError::StrError("Abandoned.".to_string()).to_string(), "Abandoned.");
    assert_eq!(
        AppError::PathError("path not found".to_string(), "x".to_string()).to_string(),
        "Path error: path not found ('x')"
    );
    assert_eq!(AppError::IoError("denied".to_string()).to_string(), "Błąd IO: denied");
}

#[test]
fn size_keeps_width_and_height_apart() {
    let s = Size::new(80, 24);
    assert_eq!(s.width, 80);
    assert_eq!(s.height, 24);
}

#[test]
fn components_skip_empty_stretches_and_dots() {
    assert_eq!(split_components("/"), Vec::<String>::new());
    assert_eq!(split_components(""), Vec::<String>::new());
    assert_eq!(split_components("/home/user"), vec!["home", "user"]);
    assert_eq!(split_components("//home///user/"), vec!["home", "user"]);
    assert_eq!(split_components("/./home/./user/."), vec!["home", "user"]);
    assert_eq!(split_components("/home/../etc"), vec!["home", "..", "etc"]);
    assert_eq!(split_components("/.hidden/..."), vec![".hidden", "..."]);
    assert_eq!(split_components("a/b"), vec!["a", "b"]);
}

#[test]
fn absolute_paths_begin_with_a_slash() {
    assert!(starts_at_root("/"));
    assert!(starts_at_root("/a"));
    assert!(!starts_at_root(""));
    assert!(!starts_at_root("a/"));
    assert!(!starts_at_root("./a"));
}

#[test]
fn components_are_joined_with_single_slashes() {
    let mut p = String::new();
    push_component(&mut p, "/");
    assert_eq!(p, "/");
    push_component(&mut p, "home");
    assert_eq!(p, "/home");
    push_component(&mut p, "user");
    assert_eq!(p, "/home/user");
    push_component(&mut p, "/etc");
    assert_eq!(p, "/etc");
    let mut q = String::new();
    push_component(&mut q, "rel");
    assert_eq!(q, "rel");
    push_component(&mut q, "x");
    assert_eq!(q, "rel/x");
    push_component(&mut q, "");
    assert_eq!(q, "rel/x/");
}
