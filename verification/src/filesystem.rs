//! The flat attribute record of one directory entry, and how its fields are
//! shown as text.

use vstd::prelude::*;
use crate::text::{decimal, decimal_chars, push_char};

verus! {

/// What kind of filesystem object an entry is.
#[derive(Clone, Copy, Debug, PartialEq, Eq, Structural)]
pub enum NodeType {
    File,
    Dir,
    SymLink,
}

impl NodeType {
    /// The rank of a kind when entries are grouped: directories first.
    pub open spec fn spec_priority(self) -> int {
        match self {
            NodeType::Dir => 1,
            NodeType::File => 2,
            NodeType::SymLink => 2,
        }
    }

    /// Directories rank 1, everything else ranks 2.
    pub fn priority(&self) -> (r: i32)
        ensures
            r == self.spec_priority(),
    {
        match self {
            NodeType::Dir => 1,
            NodeType::File => 2,
            NodeType::SymLink => 2,
        }
    }
}

/// What the filesystem reports about one directory entry besides its name.
#[derive(Clone, Copy, Debug)]
pub struct EntryMeta {
    pub is_dir: bool,
    pub is_symlink: bool,
    pub mode: u32,
    pub len: u64,
    pub uid: u32,
    pub gid: u32,
    /// Seconds from the Unix epoch to the last modification, where known.
    pub modified: Option<i64>,
}

/// Snapshot of one filesystem entry.
#[derive(Debug)]
pub struct SysNode {
    pub name: String,
    pub typ: NodeType,
    pub mode: u32,
    pub user: String,
    pub group: String,
    pub size: u64,
    /// Seconds since the Unix epoch.
    pub modified: i64,
}

/// A `SysNode` as plain mathematical values.
pub struct SysNodeModel {
    pub name: Seq<char>,
    pub typ: NodeType,
    pub mode: u32,
    pub user: Seq<char>,
    pub group: Seq<char>,
    pub size: u64,
    pub modified: i64,
}

impl View for SysNode {
    type V = SysNodeModel;

    open spec fn view(&self) -> SysNodeModel {
        SysNodeModel {
            name: self.name@,
            typ: self.typ,
            mode: self.mode,
            user: self.user@,
            group: self.group@,
            size: self.size,
            modified: self.modified,
        }
    }
}

/// The kind that the two metadata flags stand for: a directory wins over a
/// symbolic link, and anything else is a file.
pub open spec fn kind_of(is_dir: bool, is_symlink: bool) -> NodeType {
    if is_dir {
        NodeType::Dir
    } else if is_symlink {
        NodeType::SymLink
    } else {
        NodeType::File
    }
}

/// The label of an owner: the account's name where the lookup found one,
/// else the numeric id in decimal.
pub open spec fn owner_label_chars(found: Option<Seq<char>>, id: u32) -> Seq<char> {
    match found {
        Some(name) => name,
        None => decimal_chars(id as nat),
    }
}

/// A timestamp before the epoch counts as the epoch itself.
pub open spec fn clamp_to_epoch(secs: i64) -> i64 {
    if secs < 0 {
        0
    } else {
        secs
    }
}

/// Looks up the account name that the system's user database holds for `uid`.
///
/// Calls `users::get_user_by_uid`, which returns the account if the database
/// has one and `None` otherwise (also on a lookup error). The answer depends
/// on the machine, so nothing is claimed of it.
#[verifier::external_body]
fn lookup_user_name(uid: u32) -> (r: Option<String>) {
    match users::get_user_by_uid(uid) {
        Some(user) => Some(user.name().to_string_lossy().into_owned()),
        None => None,
    }
}

/// Looks up the group name that the system's group database holds for `gid`.
///
/// Calls `users::get_group_by_gid`, which returns the group if the database
/// has one and `None` otherwise (also on a lookup error). The answer depends
/// on the machine, so nothing is claimed of it.
#[verifier::external_body]
fn lookup_group_name(gid: u32) -> (r: Option<String>) {
    match users::get_group_by_gid(gid) {
        Some(group) => Some(group.name().to_string_lossy().into_owned()),
        None => None,
    }
}

/// The current time in seconds since the Unix epoch.
///
/// Reads the system clock with `SystemTime::now` and converts it through
/// chrono's `DateTime<Utc>`; `timestamp` gives the seconds. The value
/// depends on the clock, so nothing is claimed of it. chrono takes every
/// time that it can represent, which is some 260,000 years either way.
#[verifier::external_body]
fn now_timestamp() -> (r: i64) {
    chrono::DateTime::<chrono::Utc>::from(std::time::SystemTime::now()).timestamp()
}

/// The metadata behind a reference that may be absent.
pub open spec fn meta_of(meta: Option<&EntryMeta>) -> Option<EntryMeta> {
    match meta {
        Some(m) => Some(*m),
        None => None,
    }
}

/// The characters of a string that may be absent.
pub open spec fn found_chars(found: Option<String>) -> Option<Seq<char>> {
    match found {
        Some(s) => Some(s@),
        None => None,
    }
}

/// The record of the entry called `name` with the metadata `meta`, where
/// the lookup of the owner's name gave `user`, that of the group's name
/// gave `group`, and `now` is the current time.
///
/// Without metadata the entry counts as an empty file with no owner,
/// stamped `now`. With it, a directory wins over a symbolic link, owner and
/// group are labelled by the names found or else by their numbers, and the
/// time of modification is the one given, not before the epoch, or `now`
/// where none is given.
pub open spec fn record(
    name: Seq<char>,
    meta: Option<EntryMeta>,
    user: Option<Seq<char>>,
    group: Option<Seq<char>>,
    now: i64,
) -> SysNodeModel {
    match meta {
        None => SysNodeModel {
            name,
            typ: NodeType::File,
            mode: 0,
            user: Seq::empty(),
            group: Seq::empty(),
            size: 0,
            modified: now,
        },
        Some(m) => SysNodeModel {
            name,
            typ: kind_of(m.is_dir, m.is_symlink),
            mode: m.mode,
            user: owner_label_chars(user, m.uid),
            group: owner_label_chars(group, m.gid),
            size: m.len,
            modified: match m.modified {
                Some(t) => clamp_to_epoch(t),
                None => now,
            },
        },
    }
}

/// Chooses the label of an owner from the outcome of the name lookup.
pub fn owner_label(found: Option<String>, id: u32) -> (r: String)
    ensures
        r@ == owner_label_chars(found_chars(found), id),
{
    match found {
        Some(name) => name,
        None => decimal(id as u64),
    }
}

impl SysNode {
    /// Builds the record of a directory entry from its name, its metadata,
    /// the outcomes of the two name lookups and the current time.
    pub fn from_parts(
        name: &str,
        meta: Option<&EntryMeta>,
        user: Option<String>,
        group: Option<String>,
        now: i64,
    ) -> (r: SysNode)
        ensures
            r@ == record(name@, meta_of(meta), found_chars(user), found_chars(group), now),
    {
        match meta {
            None => SysNode {
                name: name.to_owned(),
                typ: NodeType::File,
                mode: 0,
                user: String::new(),
                group: String::new(),
                size: 0,
                modified: now,
            },
            Some(m) => {
                let typ = if m.is_dir {
                    NodeType::Dir
                } else if m.is_symlink {
                    NodeType::SymLink
                } else {
                    NodeType::File
                };
                let modified: i64 = match m.modified {
                    Some(t) => if t < 0 {
                        0
                    } else {
                        t
                    },
                    None => now,
                };
                SysNode {
                    name: name.to_owned(),
                    typ,
                    mode: m.mode,
                    user: owner_label(user, m.uid),
                    group: owner_label(group, m.gid),
                    size: m.len,
                    modified,
                }
            },
        }
    }

    /// Builds the record of a directory entry from its name and metadata.
    ///
    /// Reads the clock, looks the owner up in the user database and the
    /// group in the group database, and builds the record as `from_parts`
    /// does. What the lookups find and what the clock says depends on the
    /// machine; the record is the one that goes with them. Without metadata
    /// nothing is looked up.
    pub fn from(name: &str, meta: Option<&EntryMeta>) -> (r: SysNode)
        ensures
            exists|user: Option<Seq<char>>, group: Option<Seq<char>>, now: i64| #[trigger]
                record(name@, meta_of(meta), user, group, now) == r@,
    {
        let now: i64 = now_timestamp();
        match meta {
            None => {
                let r = SysNode::from_parts(name, None, None, None, now);
                assert(record(name@, meta_of(meta), None, None, now) == r@);
                r
            },
            Some(m) => {
                let user: Option<String> = lookup_user_name(m.uid);
                let group: Option<String> = lookup_group_name(m.gid);
                let ghost u = found_chars(user);
                let ghost g = found_chars(group);
                let r = SysNode::from_parts(name, meta, user, group, now);
                assert(record(name@, meta_of(meta), u, g, now) == r@);
                r
            },
        }
    }

    /// A bare record with the given name and kind: no permissions, no owner,
    /// size zero, stamped with the current time.
    pub fn new(name: &str, typ: NodeType) -> (r: SysNode)
        ensures
            r@ == (SysNodeModel {
                name: name@,
                typ,
                mode: 0,
                user: Seq::empty(),
                group: Seq::empty(),
                size: 0,
                modified: r@.modified,
            }),
    {
        SysNode {
            name: name.to_owned(),
            typ,
            mode: 0,
            user: String::new(),
            group: String::new(),
            size: 0,
            modified: now_timestamp(),
        }
    }

    /// A copy of this record.
    pub fn duplicate(&self) -> (r: SysNode)
        ensures
            r@ == self@,
    {
        SysNode {
            name: self.name.clone(),
            typ: self.typ,
            mode: self.mode,
            user: self.user.clone(),
            group: self.group.clone(),
            size: self.size,
            modified: self.modified,
        }
    }
}

/// Formats a modification time as month, day, hour and minute in the local
/// time zone, as in `Jan 05 14:30`; `None` for a time that cannot be
/// represented.
///
/// Calls chrono: `DateTime::from_timestamp`, which yields the instant or
/// `None` when the seconds are out of its range, then `with_timezone(&Local)`
/// and `format("%b %d %H:%M")`. The text depends on the machine's time zone,
/// so nothing is claimed of it. chrono looks the zone's offset up in the
/// system's time zone data and gives up only where that data is malformed.
#[verifier::external_body]
pub fn datetime_to_str(modified: i64) -> (r: Option<String>) {
    match chrono::DateTime::from_timestamp(modified, 0) {
        Some(t) => Some(t.with_timezone(&chrono::Local).format("%b %d %H:%M").to_string()),
        None => None,
    }
}

/// The one-character tag of a kind in a long listing.
pub open spec fn file_type_char(typ: NodeType) -> char {
    match typ {
        NodeType::File => '-',
        NodeType::Dir => 'd',
        NodeType::SymLink => 'l',
    }
}

/// The tag of `typ` as a one-character string: `-`, `d` or `l`.
pub fn file_type_to_str(typ: &NodeType) -> (r: &'static str)
    ensures
        r@ == seq![file_type_char(*typ)],
{
    proof {
        reveal_strlit("-");
        reveal_strlit("d");
        reveal_strlit("l");
    }
    let r = match typ {
        NodeType::File => "-",
        NodeType::Dir => "d",
        NodeType::SymLink => "l",
    };
    assert(r@ =~= seq![file_type_char(*typ)]);
    r
}

/// Whether bit `bit` (counted from the least significant) of `mode` is set.
pub open spec fn mode_bit(mode: u32, bit: u32) -> bool {
    mode & (1u32 << bit) != 0
}

/// The letter shown at position `i` (0 to 8) of a permission string when the
/// permission is granted: `r`, `w`, `x`, repeating.
pub open spec fn permission_letter(i: int) -> char {
    if i % 3 == 0 {
        'r'
    } else if i % 3 == 1 {
        'w'
    } else {
        'x'
    }
}

/// Character `i` of the permission string of `mode`: position 0 shows the
/// owner's read bit (bit 8), position 8 the others' execute bit (bit 0).
pub open spec fn permission_char(mode: u32, i: int) -> char {
    if mode_bit(mode, (8 - i) as u32) {
        permission_letter(i)
    } else {
        '-'
    }
}

/// The nine-character permission string of `mode`.
pub open spec fn permission_chars(mode: u32) -> Seq<char> {
    Seq::new(9, |i: int| permission_char(mode, i))
}

/// Renders the low nine permission bits of `mode` as `rwxrwxrwx`, with `-`
/// in place of each permission that is not granted.
pub fn permissions_to_str(mode: u32) -> (r: String)
    ensures
        r@ == permission_chars(mode),
{
    let mut r: String = String::new();
    let mut i: u32 = 0;
    while i < 9
        invariant
            i <= 9,
            r@.len() == i,
            forall|k: int| 0 <= k < i ==> r@[k] == permission_char(mode, k),
        decreases 9 - i,
    {
        let bit: u32 = 8 - i;
        let granted: bool = mode & (1u32 << bit) != 0;
        let letter: char = if i % 3 == 0 {
            'r'
        } else if i % 3 == 1 {
            'w'
        } else {
            'x'
        };
        push_char(&mut r, if granted { letter } else { '-' });
        i = i + 1;
    }
    assert(r@ =~= permission_chars(mode));
    r
}

} // verus!
