//! How the terminal is divided: a framed tree pane on the left quarter, a
//! framed list pane on the rest, and the status line on the bottom row.

use vstd::prelude::*;
use crate::common::Size;

verus! {

/// A rectangle of the terminal: its extent and the position of its top left
/// cell.
#[derive(Clone, Copy, Debug, PartialEq, Eq, Structural)]
pub struct Rect {
    pub height: i32,
    pub width: i32,
    pub y: i32,
    pub x: i32,
}

/// The windows of the navigator on a terminal of a given size.
#[derive(Clone, Copy, Debug)]
pub struct Screen {
    /// The frame of the tree pane.
    pub left_pane: Rect,
    /// The frame of the list pane.
    pub right_pane: Rect,
    /// The inside of the tree pane's frame.
    pub tree_win: Rect,
    /// The inside of the list pane's frame.
    pub list_win: Rect,
    /// The bottom row.
    pub status_win: Rect,
    pub tw_size: Size,
    pub lw_size: Size,
    pub sw_size: Size,
}

/// A quarter of `width`, rounded towards zero.
pub open spec fn quarter(width: int) -> int {
    if width >= 0 {
        width / 4
    } else {
        -((-width) / 4)
    }
}

impl Screen {
    /// Whether this is the division of a terminal `scr_height` rows high and
    /// `scr_width` columns wide: the bottom row is the status line; above
    /// it the left quarter is the tree pane and the rest the list pane, each
    /// with a frame one cell thick around its window.
    pub open spec fn divides(&self, scr_height: int, scr_width: int) -> bool {
        let l_width = quarter(scr_width);
        let r_width = scr_width - l_width;
        let p_height = scr_height - 1;
        &&& self.left_pane == (Rect { height: p_height as i32, width: l_width as i32, y: 0, x: 0 })
        &&& self.right_pane == (Rect {
            height: p_height as i32,
            width: r_width as i32,
            y: 0,
            x: l_width as i32,
        })
        &&& self.tree_win == (Rect {
            height: (p_height - 2) as i32,
            width: (l_width - 2) as i32,
            y: 1,
            x: 1,
        })
        &&& self.list_win == (Rect {
            height: (p_height - 2) as i32,
            width: (r_width - 2) as i32,
            y: 1,
            x: (l_width + 1) as i32,
        })
        &&& self.status_win == (Rect {
            height: 1,
            width: scr_width as i32,
            y: p_height as i32,
            x: 0,
        })
        &&& self.tw_size == (Size { height: (p_height - 2) as i32, width: (l_width - 2) as i32 })
        &&& self.lw_size == (Size { height: (p_height - 2) as i32, width: (r_width - 2) as i32 })
        &&& self.sw_size == (Size { height: 1, width: scr_width as i32 })
    }

    /// Divides a terminal of the reported size. The height must leave room
    /// for the arithmetic: three rows go to the status line and the frames.
    pub fn create(scr_height: i32, scr_width: i32) -> (r: Screen)
        requires
            scr_height >= i32::MIN + 3,
        ensures
            r.divides(scr_height as int, scr_width as int),
    {
        let l_width: i32 = scr_width / 4;
        let r_width: i32 = scr_width - l_width;
        let p_height: i32 = scr_height - 1;
        Screen {
            left_pane: Rect { height: p_height, width: l_width, y: 0, x: 0 },
            right_pane: Rect { height: p_height, width: r_width, y: 0, x: l_width },
            tree_win: Rect { height: p_height - 2, width: l_width - 2, y: 1, x: 1 },
            list_win: Rect { height: p_height - 2, width: r_width - 2, y: 1, x: l_width + 1 },
            status_win: Rect { height: 1, width: scr_width, y: p_height, x: 0 },
            tw_size: Size::new(l_width - 2, p_height - 2),
            lw_size: Size::new(r_width - 2, p_height - 2),
            sw_size: Size::new(scr_width, 1),
        }
    }
}

} // verus!
