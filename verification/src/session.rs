//! One session of the navigator: the tree, the two panes with their
//! windows, and which pane has the focus. The session decides what each key
//! does; drawing the frames and reading the keys is left to the caller.

use vstd::prelude::*;
use crate::common::{failure, AppError, ErrorModel, Key, Size};
use crate::display::{
    cells,
    pen_after,
    tidy,
    Attributor,
    Cell,
    Display,
    DrawOp,
    Frame,
    Glyph,
    Pen,
};
use crate::display::{displayed, line_models, DisplContent};
use crate::list_view::{list_pane_keyed, ListView};
use crate::text::chars_of;
use crate::tree::{lemma_quiet_resolve, reads_nothing, ModifFlags, Tree, TreeModel};
use crate::tree_node::{DirSource, ListingModel};
use crate::tree_view::{tree_pane_keyed, TreeView};

verus! {

/// The pane that takes the keys.
#[derive(Clone, Copy, Debug, PartialEq, Eq, Structural)]
pub enum Focus {
    Tree,
    List,
}

/// What the caller does after a key.
#[derive(Debug)]
pub enum Step {
    /// Refresh and read the next key.
    Continue,
    /// The key failed and changed nothing: report the failure, then go on
    /// as after `Continue`.
    Failed(AppError),
    /// End the session; the path is that of the current directory.
    Quit(String),
}

/// Whether a failure ends the session: an inconsistency inside the
/// navigator does, a directory that cannot be read or a path that cannot be
/// resolved does not.
pub open spec fn fatal(e: ErrorModel) -> bool {
    e is StrError
}

/// The failure that the outcome of a key reports, whether it ends the
/// session or not.
pub open spec fn reported(r: Result<Step, AppError>) -> Option<ErrorModel> {
    match r {
        Ok(Step::Failed(e)) => Some(e@),
        Ok(_) => None,
        Err(e) => Some(e@),
    }
}

/// The message of the error that ends an abandoned session.
pub open spec fn abandoned() -> Seq<char> {
    "Abandoned."@
}

/// Cell `i` of the status line for `path`: the path's character, or a blank
/// behind its end, in reverse video.
pub open spec fn status_cell(path: Seq<char>, i: int) -> Cell {
    Cell {
        glyph: Glyph::Char(if 0 <= i < path.len() { path[i] } else { ' ' }),
        color: None,
        reverse: true,
    }
}

/// The cells of the status line for `path` in a row `width` cells wide: the
/// path in reverse video, cut off or filled up with blanks to the width.
pub open spec fn status_cells(path: Seq<char>, width: int) -> Seq<Cell> {
    let shown: nat = if width < 0 { 0nat } else { width as nat };
    Seq::new(shown, |i: int| status_cell(path, i))
}

/// The operations that draw the status line for `path` into a row `width`
/// cells wide.
pub fn status_line(path: &str, width: i32) -> (ops: Vec<DrawOp>)
    ensures
        tidy(ops@),
        pen_after(ops@) == Pen::plain(),
        cells(ops@) == status_cells(path@, width as int),
{
    let chars: Vec<char> = chars_of(path);
    let mut pen: Attributor = Attributor::new(false, false, None);
    pen.set_curr_reverse();
    assert(cells(pen.ops@) =~= status_cells(path@, 0));
    let mut i: i32 = 0;
    while i < width
        invariant
            0 <= i,
            i <= width || (width < 0 && i == 0),
            chars@ == path@,
            pen.wf(),
            pen.current_color is None,
            pen.current_reverse,
            cells(pen.ops@) == status_cells(path@, i as int),
        decreases width - i,
    {
        let c: char = if (i as usize) < chars.len() { chars[i as usize] } else { ' ' };
        assert(Glyph::Char(c) == status_cell(path@, i as int).glyph);
        pen.put(Glyph::Char(c));
        i = i + 1;
        assert(cells(pen.ops@) =~= status_cells(path@, i as int));
    }
    assert(status_cells(path@, i as int) =~= status_cells(path@, width as int));
    pen.finish()
}

/// Whether a failed attempt to go to a path lets the start go on to the
/// next path: a path that does not resolve does, a directory that cannot be
/// read does not.
pub open spec fn passes_on(e: ErrorModel) -> bool {
    e is PathError
}

/// What the start of a session does that was given the path `arg` and has
/// the working directory `cwd`, with listings as in `walk`: the tree
/// afterwards and the failure, if the start fails.
///
/// The tree goes to `arg` if there is one and it resolves, else to `cwd` if
/// there is one and it resolves, else it stays at the root. A directory that
/// cannot be read on the way to either is the failure of the start.
pub open spec fn started(
    tree: TreeModel,
    arg: Option<Seq<char>>,
    cwd: Option<Seq<char>>,
    ls1: Seq<ListingModel>,
    ls2: Seq<ListingModel>,
) -> (TreeModel, Option<ErrorModel>) {
    let tried = match arg {
        Some(path) => tree.gone_to_path(path, ls1),
        None => tree,
    };
    let first = match arg {
        Some(path) => tree.path_failure(path, ls1),
        None => Some(ErrorModel::PathError(Seq::empty(), Seq::empty())),
    };
    match first {
        None => (tried, None),
        Some(e) => if !passes_on(e) {
            (tried, Some(e))
        } else {
            match cwd {
                None => (tried, None),
                Some(path) => match tried.path_failure(path, ls2) {
                    Some(e2) if !passes_on(e2) => (tried.gone_to_path(path, ls2), Some(e2)),
                    _ => (tried.gone_to_path(path, ls2), None),
                },
            }
        },
    }
}

/// Whether the start of a session reads no directory: neither the way to
/// `arg` does, nor, where the start goes on to it, the way to `cwd`.
pub open spec fn starts_quietly(tree: TreeModel, arg: Option<Seq<char>>, cwd: Option<Seq<char>>) -> bool {
    let none = Seq::<ListingModel>::empty();
    let tried = match arg {
        Some(path) => tree.gone_to_path(path, none),
        None => tree,
    };
    let goes_on = match arg {
        Some(path) => match tree.path_failure(path, none) {
            Some(e) => passes_on(e),
            None => false,
        },
        None => true,
    };
    &&& match arg {
        Some(path) => reads_nothing(tree.root, path),
        None => true,
    }
    &&& match cwd {
        Some(path) => goes_on ==> reads_nothing(tried.root, path),
        None => true,
    }
}

/// The characters of a string that may be absent.
pub open spec fn chars_opt(s: Option<&str>) -> Option<Seq<char>> {
    match s {
        Some(p) => Some(p@),
        None => None,
    }
}

/// The state of one session.
#[derive(Debug)]
pub struct Session {
    pub tree: Tree,
    pub tree_view: TreeView,
    pub list_view: ListView,
    /// The window of the tree pane.
    pub left_displ: Display,
    /// The window of the list pane.
    pub right_displ: Display,
    /// The extent of the status line.
    pub sw_size: Size,
    pub focus: Focus,
}

/// What one refresh hands to the caller for drawing: the frame of each pane
/// that has to be repainted, and the status line.
#[derive(Debug)]
pub struct Refresh {
    pub left: Option<Frame>,
    pub right: Option<Frame>,
    pub status: Vec<DrawOp>,
}

impl Session {
    /// Both windows are in order and exactly the window of the pane with
    /// the focus is active.
    pub open spec fn wf(&self) -> bool {
        &&& self.left_displ.wf()
        &&& self.right_displ.wf()
        &&& self.left_displ.active == (self.focus == Focus::Tree)
        &&& self.right_displ.active == (self.focus == Focus::List)
    }

    /// Whether `key` makes the session read a directory: it goes to the pane
    /// with the focus and makes that pane read one.
    pub open spec fn key_reads(&self, key: Key) -> bool {
        match self.focus {
            Focus::Tree => TreeView::key_reads(key, line_models(self.tree_view.lines@), self.tree@),
            Focus::List => ListView::key_reads(key, line_models(self.list_view.lines@), self.tree@),
        }
    }

    /// Tests whether the session is in order.
    pub fn in_order(&self) -> (r: bool)
        ensures
            r == self.wf(),
    {
        let on_tree: bool = match self.focus {
            Focus::Tree => true,
            Focus::List => false,
        };
        self.left_displ.in_order() && self.right_displ.in_order() && self.left_displ.active
            == on_tree && self.right_displ.active == !on_tree
    }

    /// A session on `tree` with windows of the given sizes: both panes have
    /// everything to do and the tree pane has the focus.
    pub fn new(tree: Tree, tw_size: &Size, lw_size: &Size, sw_size: &Size) -> (r: Session)
        ensures
            r.wf(),
            r.sw_size == *sw_size,
            r.tree@ == tree@,
            r.focus == Focus::Tree,
            r.tree_view.lines@.len() == 0,
            r.list_view.lines@.len() == 0,
            r.tree_view.modif_flags == (ModifFlags { render: true, print: true }),
            r.list_view.modif_flags == (ModifFlags { render: true, print: true }),
            r.left_displ.offset_y == 0,
            r.right_displ.offset_y == 0,
            r.left_displ.size == *tw_size,
            r.right_displ.size == *lw_size,
    {
        let mut left_displ: Display = Display::new(tw_size);
        let right_displ: Display = Display::new(lw_size);
        left_displ.active = true;
        Session {
            tree,
            tree_view: TreeView::new(),
            list_view: ListView::new(),
            left_displ,
            right_displ,
            sw_size: *sw_size,
            focus: Focus::Tree,
        }
    }

    /// Goes to the directory in which the session starts: `arg`, the path
    /// given to the program, if there is one and it resolves; else `cwd`,
    /// the working directory, if there is one and it resolves; else the
    /// tree stays where it is. A path that does not resolve is not
    /// reported; a directory that cannot be read on the way fails the start.
    pub fn go_to_start<F: DirSource>(&mut self, arg: Option<&str>, cwd: Option<&str>, fs: &mut F) -> (r:
        Result<(), AppError>)
        ensures
            exists|ls1: Seq<ListingModel>, ls2: Seq<ListingModel>| #[trigger]
                started(old(self).tree@, chars_opt(arg), chars_opt(cwd), ls1, ls2) == (
                    final(self).tree@,
                    failure(r),
                ),
            starts_quietly(old(self).tree@, chars_opt(arg), chars_opt(cwd)) ==> *final(fs) == *old(fs),
            old(self).tree@.wf() ==> final(self).tree@.wf(),
            final(self).tree_view == old(self).tree_view,
            final(self).list_view == old(self).list_view,
            final(self).left_displ == old(self).left_displ,
            final(self).right_displ == old(self).right_displ,
            final(self).sw_size == old(self).sw_size,
            final(self).focus == old(self).focus,
    {
        let ghost t0 = self.tree@;
        let ghost arg_m: Option<Seq<char>> = chars_opt(arg);
        let ghost cwd_m: Option<Seq<char>> = chars_opt(cwd);
        let ghost mut ls1: Seq<ListingModel> = Seq::empty();
        match arg {
            Some(path) => {
                let r = self.tree.go_to_path(path, fs);
                proof {
                    ls1 = choose|ls: Seq<ListingModel>|
                        {
                            &&& #[trigger] t0.gone_to_path(path@, ls) == self.tree@
                            &&& failure(r) == t0.path_failure(path@, ls)
                        };
                    if reads_nothing(t0.root, path@) {
                        lemma_quiet_resolve(t0.root, path@, ls1, Seq::empty());
                    }
                }
                match r {
                    Ok(()) => {
                        assert(started(t0, arg_m, cwd_m, ls1, Seq::empty()) == (
                            self.tree@,
                            None::<ErrorModel>,
                        ));
                        return Ok(());
                    },
                    Err(AppError::PathError(_, _)) => {},
                    Err(e) => {
                        assert(started(t0, arg_m, cwd_m, ls1, Seq::empty()) == (
                            self.tree@,
                            Some(e@),
                        ));
                        return Err(e);
                    },
                }
            },
            None => {},
        }
        let ghost t1 = self.tree@;
        match cwd {
            Some(path) => {
                let r = self.tree.go_to_path(path, fs);
                proof {
                    let ls2 = choose|ls: Seq<ListingModel>|
                        {
                            &&& #[trigger] t1.gone_to_path(path@, ls) == self.tree@
                            &&& failure(r) == t1.path_failure(path@, ls)
                        };
                    assert(started(t0, arg_m, cwd_m, ls1, ls2).0 == self.tree@);
                }
                match r {
                    Ok(()) => Ok(()),
                    Err(AppError::PathError(_, _)) => Ok(()),
                    Err(e) => Err(e),
                }
            },
            None => {
                assert(started(t0, arg_m, cwd_m, ls1, Seq::empty()) == (
                    self.tree@,
                    None::<ErrorModel>,
                ));
                Ok(())
            },
        }
    }

    /// Moves the focus to the other pane. Both panes have to repaint, since
    /// the selection is drawn differently with and without focus.
    pub fn switch_focus(&mut self)
        requires
            old(self).wf(),
        ensures
            final(self).wf(),
            final(self).focus != old(self).focus,
            final(self).tree@ == old(self).tree@,
            final(self).sw_size == old(self).sw_size,
            final(self).tree_view.lines@ == old(self).tree_view.lines@,
            final(self).list_view.lines@ == old(self).list_view.lines@,
            final(self).tree_view.modif_flags == (ModifFlags {
                print: true,
                ..old(self).tree_view.modif_flags
            }),
            final(self).list_view.modif_flags == (ModifFlags {
                print: true,
                ..old(self).list_view.modif_flags
            }),
            final(self).left_displ == (Display {
                active: !old(self).left_displ.active,
                ..old(self).left_displ
            }),
            final(self).right_displ == (Display {
                active: !old(self).right_displ.active,
                ..old(self).right_displ
            }),
    {
        match self.focus {
            Focus::Tree => {
                self.focus = Focus::List;
                self.left_displ.active = false;
                self.right_displ.active = true;
            },
            Focus::List => {
                self.focus = Focus::Tree;
                self.left_displ.active = true;
                self.right_displ.active = false;
            },
        }
        self.tree_view.modif_flags.print = true;
        self.list_view.modif_flags.print = true;
    }

    /// Handles one key.
    ///
    /// The quit key ends the session with the path of the current directory,
    /// whichever pane has the focus. Escape abandons it: that is an error.
    /// Tab moves the focus to the other pane. Every other key goes to the
    /// pane with the focus. Where the pane fails because a directory cannot
    /// be read, the failure is handed out for reporting and the session goes
    /// on; an inconsistency inside the navigator ends the session.
    pub fn handle_key<F: DirSource>(&mut self, key: Key, fs: &mut F) -> (r: Result<Step, AppError>)
        requires
            old(self).wf(),
        ensures
            final(self).wf(),
            old(self).tree@.wf() ==> final(self).tree@.wf(),
            final(self).left_displ.size == old(self).left_displ.size,
            final(self).right_displ.size == old(self).right_displ.size,
            final(self).sw_size == old(self).sw_size,
            final(self).left_displ.offset_y == old(self).left_displ.offset_y,
            final(self).right_displ.offset_y == old(self).right_displ.offset_y,
            line_models(final(self).tree_view.lines@) == line_models(old(self).tree_view.lines@),
            line_models(final(self).list_view.lines@) == line_models(old(self).list_view.lines@),
            !old(self).key_reads(key) ==> *final(fs) == *old(fs),
            key == Key::Quit ==> {
                &&& r matches Ok(Step::Quit(path)) && path@ == old(self).tree@.curr_path()
                &&& *final(self) == *old(self)
            },
            key == Key::Escape ==> {
                &&& r matches Err(e) && e.is_str(abandoned())
                &&& *final(self) == *old(self)
            },
            key == Key::Tab ==> {
                &&& r matches Ok(Step::Continue)
                &&& final(self).focus != old(self).focus
                &&& final(self).tree@ == old(self).tree@
                &&& final(self).tree_view.modif_flags == (ModifFlags {
                    print: true,
                    ..old(self).tree_view.modif_flags
                })
                &&& final(self).list_view.modif_flags == (ModifFlags {
                    print: true,
                    ..old(self).list_view.modif_flags
                })
            },
            key != Key::Quit && key != Key::Escape && key != Key::Tab ==> {
                &&& final(self).focus == old(self).focus
                &&& !(r matches Ok(Step::Quit(_)))
                &&& r is Err <==> (reported(r) matches Some(e) && fatal(e))
                &&& old(self).focus == Focus::Tree ==> tree_pane_keyed(
                    key,
                    line_models(old(self).tree_view.lines@),
                    old(self).tree@,
                    final(self).tree@,
                    old(self).tree_view.modif_flags,
                    final(self).tree_view.modif_flags,
                    old(self).list_view.modif_flags,
                    final(self).list_view.modif_flags,
                    reported(r),
                )
                &&& old(self).focus == Focus::List ==> list_pane_keyed(
                    key,
                    line_models(old(self).list_view.lines@),
                    old(self).tree@,
                    final(self).tree@,
                    old(self).tree_view.modif_flags,
                    final(self).tree_view.modif_flags,
                    old(self).list_view.modif_flags,
                    final(self).list_view.modif_flags,
                    reported(r),
                )
            },
    {
        match key {
            Key::Quit => Ok(Step::Quit(self.tree.curr_path())),
            Key::Escape => Err(AppError::StrError(String::from_str("Abandoned."))),
            Key::Tab => {
                self.switch_focus();
                Ok(Step::Continue)
            },
            _ => {
                let r = match self.focus {
                    Focus::Tree => self.left_displ.process_key(
                        &mut self.tree_view,
                        key,
                        &mut self.tree,
                        &mut self.list_view.modif_flags,
                        fs,
                    ),
                    Focus::List => self.right_displ.process_key(
                        &mut self.list_view,
                        key,
                        &mut self.tree,
                        &mut self.tree_view.modif_flags,
                        fs,
                    ),
                };
                match r {
                    Ok(()) => Ok(Step::Continue),
                    Err(AppError::StrError(m)) => Err(AppError::StrError(m)),
                    Err(e) => Ok(Step::Failed(e)),
                }
            },
        }
    }
}

impl Session {
    /// Refreshes both panes and the status line. `center` asks for the
    /// cursor's line of the tree pane to be centred, as on the first
    /// refresh of a session.
    ///
    /// Each pane is refreshed as `Display::display` says, the tree pane
    /// first; the status line always shows the path of the current
    /// directory. The tree itself is only read.
    pub fn refresh(&mut self, center: bool) -> (r: Result<Refresh, AppError>)
        requires
            old(self).wf(),
        ensures
            final(self).wf(),
            final(self).tree == old(self).tree,
            final(self).focus == old(self).focus,
            final(self).sw_size == old(self).sw_size,
            r matches Ok(out) && {
                &&& displayed::<TreeView>(
                    old(self).left_displ,
                    final(self).left_displ,
                    line_models(old(self).tree_view.lines@),
                    old(self).tree_view.modif_flags,
                    line_models(final(self).tree_view.lines@),
                    final(self).tree_view.modif_flags,
                    old(self).tree@,
                    center,
                    out.left,
                )
                &&& displayed::<ListView>(
                    old(self).right_displ,
                    final(self).right_displ,
                    line_models(old(self).list_view.lines@),
                    old(self).list_view.modif_flags,
                    line_models(final(self).list_view.lines@),
                    final(self).list_view.modif_flags,
                    old(self).tree@,
                    false,
                    out.right,
                )
                &&& tidy(out.status@)
                &&& pen_after(out.status@) == Pen::plain()
                &&& cells(out.status@) == status_cells(
                    old(self).tree@.curr_path(),
                    old(self).sw_size.width as int,
                )
            },
    {
        let left: Option<Frame> = match self.left_displ.display(
            &mut self.tree_view,
            &self.tree,
            center,
        ) {
            Ok(frame) => frame,
            Err(e) => {
                return Err(e);
            },
        };
        let right: Option<Frame> = match self.right_displ.display(
            &mut self.list_view,
            &self.tree,
            false,
        ) {
            Ok(frame) => frame,
            Err(e) => {
                return Err(e);
            },
        };
        let path: String = self.tree.curr_path();
        let status: Vec<DrawOp> = status_line(path.as_str(), self.sw_size.width);
        Ok(Refresh { left, right, status })
    }
}

} // verus!
