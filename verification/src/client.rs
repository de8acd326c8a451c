//! Decisions of the multiplexer's client: which input goes to the sidebar,
//! what the handshake with the server gives, the size it asks the server
//! for, and when the sidebar's rows are replaced.
use vstd::prelude::*;
use crate::protocol::ServerMsg;
use crate::sidebar::{SidebarEntry, SidebarState};
use crate::terminal::{digit_next, digit_step, is_digit_byte};

verus! {

/// Whether the SGR mouse report read from position `j` on (with `idx`
/// parameters passed and `col` the column read so far) ends with its
/// column within the sidebar's `width`; the column is compared as the
/// low 16 bits of what was read.
pub open spec fn mouse_col_within(data: Seq<u8>, j: int, idx: int, col: u32, width: u16) -> bool
    decreases data.len() - j,
{
    if j < 0 || j >= data.len() {
        false
    } else {
        let b = data[j];
        if is_digit_byte(b) {
            mouse_col_within(data, j + 1, idx, if idx == 1 { digit_step(col, b) } else { col }, width)
        } else if b == 59 {
            if idx + 1 >= 3 {
                false
            } else {
                mouse_col_within(data, j + 1, idx + 1, col, width)
            }
        } else if b == 77 || b == 109 {
            idx == 2 && col % 0x10000 <= width
        } else {
            false
        }
    }
}

/// Whether `data` starts with an SGR mouse report (`ESC [ <`) whose column
/// falls in the sidebar.
pub open spec fn sidebar_mouse_report(data: Seq<u8>, width: u16) -> bool {
    data.len() >= 3 && data[0] == 0x1b && data[1] == 91 && data[2] == 60 && mouse_col_within(data, 3, 0, 0, width)
}

/// Tells whether `data` is a mouse report in the sidebar (see
/// [`sidebar_mouse_report`]).
pub fn is_sidebar_mouse(data: &[u8], width: u16) -> (r: bool)
    ensures
        r == sidebar_mouse_report(data@, width),
{
    if data.len() < 3 || data[0] != 0x1b || data[1] != 91 || data[2] != 60 {
        return false;
    }
    let mut j: usize = 3;
    let mut idx: usize = 0;
    let mut col: u32 = 0;
    while j < data.len()
        invariant
            3 <= j <= data@.len(),
            data@[0] == 0x1b && data@[1] == 91 && data@[2] == 60,
            idx < 3,
            mouse_col_within(data@, j as int, idx as int, col, width) == mouse_col_within(data@, 3, 0, 0, width),
        decreases data@.len() - j,
    {
        let b = data[j];
        if 48 <= b && b <= 57 {
            if idx == 1 {
                col = digit_next(col, b);
            }
        } else if b == 59 {
            if idx + 1 >= 3 {
                return false;
            }
            idx = idx + 1;
        } else if b == 77 || b == 109 {
            let r = idx == 2 && col % 0x10000 <= width as u32;
            assert(mouse_col_within(data@, j as int, idx as int, col, width) == r);
            return r;
        } else {
            return false;
        }
        j = j + 1;
    }
    false
}

/// Whether input goes to the sidebar: while it has the focus, while a new
/// session's command is typed, and for mouse reports in its area.
pub fn routes_to_sidebar(sidebar: &SidebarState, data: &[u8], width: u16) -> (r: bool)
    ensures
        r == (sidebar.focused || sidebar.new_session_input is Some || sidebar_mouse_report(data@, width)),
{
    sidebar.focused || sidebar.new_session_input.is_some() || is_sidebar_mouse(data, width)
}

/// What the server's first message gives the client.
#[derive(Debug, Clone, Copy, PartialEq, Eq, Structural)]
pub enum Handshake {
    /// The program's terminal size, columns then rows.
    Size(u16, u16),
    /// The program has exited with this code.
    Exit(i32),
    /// No message came.
    Failed,
}

/// The outcome of the handshake from the first message (`None` when none
/// could be read): the size the server reports, the exit code, or, for
/// any other message, the client's own size.
pub fn handshake(first: Option<&ServerMsg>, cols: u16, rows: u16) -> (r: Handshake)
    ensures
        match first {
            None => r == Handshake::Failed,
            Some(ServerMsg::Resized { cols: c, rows: w }) => r == Handshake::Size(*c, *w),
            Some(ServerMsg::Exited(code)) => r == Handshake::Exit(*code),
            Some(ServerMsg::Output(_)) => r == Handshake::Size(cols, rows),
        },
{
    match first {
        None => Handshake::Failed,
        Some(ServerMsg::Resized { cols: c, rows: w }) => Handshake::Size(*c, *w),
        Some(ServerMsg::Exited(code)) => Handshake::Exit(*code),
        Some(ServerMsg::Output(_)) => Handshake::Size(cols, rows),
    }
}

/// The size the client asks the server for in a terminal of `cols` by
/// `rows` with a sidebar `width` wide: the columns right of the sidebar
/// and all the rows, when both are more than zero.
pub fn content_size(cols: u16, rows: u16, width: u16) -> (r: Option<(u16, u16)>)
    ensures
        cols > width && rows > 0 ==> r == Some(((cols - width) as u16, rows)),
        !(cols > width && rows > 0) ==> r is None,
{
    let content = cols.saturating_sub(width);
    if rows > 0 && content > 0 {
        Some((content, rows))
    } else {
        None
    }
}

/// Whether refreshed rows differ from the shown ones in which sessions
/// run: the sidebar is replaced only then.
pub open spec fn running_differs(shown: Seq<SidebarEntry>, fresh: Seq<SidebarEntry>) -> bool {
    shown.len() != fresh.len() || exists|k: int| 0 <= k < shown.len() && shown[k].running != fresh[k].running
}

/// Tells whether the running flags changed (see [`running_differs`]).
pub fn running_changed(shown: &Vec<SidebarEntry>, fresh: &Vec<SidebarEntry>) -> (r: bool)
    ensures
        r == running_differs(shown@, fresh@),
{
    if shown.len() != fresh.len() {
        return true;
    }
    let mut k: usize = 0;
    while k < shown.len()
        invariant
            k <= shown@.len(),
            shown@.len() == fresh@.len(),
            forall|t: int| 0 <= t < k ==> shown@[t].running == fresh@[t].running,
        decreases shown@.len() - k,
    {
        if shown[k].running != fresh[k].running {
            return true;
        }
        k = k + 1;
    }
    false
}

} // verus!
