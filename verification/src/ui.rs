//! Small rules of the terminal UI: moving the selection, sizing the AI SSH
//! pane, and the labels of list entries.
use vstd::prelude::*;
use crate::config::VpsEntry;
use crate::remote::RemoteFile;
use crate::text::{string_of, push_str, push_all, decimal, decimal_of};
use crate::keys::AppMode;

verus! {

/// The selection after moving down: the next entry, wrapping to the first.
pub open spec fn next_index(selected: Option<usize>, len: nat) -> nat {
    match selected {
        Some(i) => if i + 1 >= len { 0 } else { (i + 1) as nat },
        None => 0,
    }
}

/// The selection after moving up: the previous entry, wrapping to the last.
pub open spec fn prev_index(selected: Option<usize>, len: nat) -> nat {
    match selected {
        Some(i) => if i == 0 { if len > 0 { (len - 1) as nat } else { 0 } } else { (i - 1) as nat },
        None => 0,
    }
}

/// Moves the selection down (see `next_index`).
pub fn select_next(selected: Option<usize>, len: usize) -> (i: usize)
    ensures
        i == next_index(selected, len as nat),
{
    match selected {
        Some(i) => if i >= len.saturating_sub(1) { 0 } else { i + 1 },
        None => 0,
    }
}

/// Moves the selection up (see `prev_index`).
pub fn select_prev(selected: Option<usize>, len: usize) -> (i: usize)
    ensures
        i == prev_index(selected, len as nat),
{
    match selected {
        Some(i) => if i == 0 { len.saturating_sub(1) } else { i - 1 },
        None => 0,
    }
}

/// Moving down then up returns to the same entry of a non-empty list.
pub proof fn lemma_next_then_prev(i: usize, len: usize)
    requires
        i < len,
    ensures
        prev_index(Some(next_index(Some(i), len as nat) as usize), len as nat) == i,
{
}

/// The selection after deleting the entry at `selected`: it moves up when
/// it fell off the end of the list.
pub fn selection_after_delete(selected: usize, remaining: usize) -> (i: usize)
    ensures
        i == if selected >= remaining && selected > 0 { selected - 1 } else { selected as int },
{
    if selected >= remaining && selected > 0 { selected - 1 } else { selected }
}

/// The size (rows, columns) of the AI SSH pseudo-terminal for a window of
/// `width` by `height`: 12 rows and 4 columns go to the frame, and it keeps
/// at least 1 row and 20 columns.
pub fn ai_pty_size(width: u16, height: u16) -> (r: (u16, u16))
    ensures
        r.0 == if height > 13 { height - 12 } else { 1 },
        r.1 == if width > 24 { width - 4 } else { 20 },
{
    let rows = height.saturating_sub(12);
    let cols = width.saturating_sub(4);
    (if rows > 1 { rows } else { 1 }, if cols > 20 { cols } else { 20 })
}

/// The number of rows a page key scrolls in a window of `height` rows.
pub fn page_rows(height: u16) -> (n: usize)
    ensures
        n == if height > 13 { height - 12 } else { 1 },
{
    let rows = height.saturating_sub(12);
    if rows > 1 { rows as usize } else { 1 }
}

/// The size (rows, columns) of the text inside the terminal panel, whose
/// area is `width` by `height`: the border takes 2 of each, and it keeps at
/// least 1 row and 20 columns.
pub fn terminal_panel_size(width: u16, height: u16) -> (r: (u16, u16))
    ensures
        r.0 == if height > 3 { height - 2 } else { 1 },
        r.1 == if width > 22 { width - 2 } else { 20 },
{
    let rows = height.saturating_sub(2);
    let cols = width.saturating_sub(2);
    (if rows > 1 { rows } else { 1 }, if cols > 20 { cols } else { 20 })
}

/// The cursor blinks: shown for 500 ms, hidden for 500 ms.
pub fn cursor_visible(elapsed_millis: u128) -> (b: bool)
    ensures
        b == ((elapsed_millis / 500) % 2 == 0),
{
    (elapsed_millis / 500) % 2 == 0
}

/// The line of a node in the server list: a lock for key login, a key for
/// password login, then `[name] host`.
pub open spec fn server_label_spec(entry: VpsEntry) -> Seq<char> {
    " "@ + (if entry.key_path is Some { "🔒"@ } else { "🔑"@ }) + " ["@ + entry.name@ + "] "@ + entry.host@
}

/// The line of a node in the server list (see `server_label_spec`).
pub fn server_label(entry: &VpsEntry) -> (s: String)
    ensures
        s@ == server_label_spec(*entry),
{
    let mut v: Vec<char> = Vec::new();
    push_str(&mut v, " ");
    if entry.key_path.is_some() {
        push_str(&mut v, "🔒");
    } else {
        push_str(&mut v, "🔑");
    }
    push_str(&mut v, " [");
    push_str(&mut v, entry.name.as_str());
    push_str(&mut v, "] ");
    push_str(&mut v, entry.host.as_str());
    string_of(v.as_slice())
}

/// The line of a remote entry: a folder or a page, the name, and for a
/// file its size in bytes.
pub open spec fn file_label_spec(file: RemoteFile) -> Seq<char> {
    " "@ + (if file.is_dir { "📁"@ } else { "📄"@ }) + " "@ + file.name@ + " "@
        + (if file.is_dir { Seq::empty() } else { "("@ + decimal(file.size as nat) + " Bytes)"@ })
}

/// The line of a remote entry (see `file_label_spec`).
pub fn file_label(file: &RemoteFile) -> (s: String)
    ensures
        s@ == file_label_spec(*file),
{
    let mut v: Vec<char> = Vec::new();
    push_str(&mut v, " ");
    if file.is_dir {
        push_str(&mut v, "📁");
    } else {
        push_str(&mut v, "📄");
    }
    push_str(&mut v, " ");
    push_str(&mut v, file.name.as_str());
    push_str(&mut v, " ");
    if !file.is_dir {
        push_str(&mut v, "(");
        let d = decimal_of(file.size);
        push_all(&mut v, d.as_slice());
        push_str(&mut v, " Bytes)");
    }
    string_of(v.as_slice())
}

/// The title of the file panel.
pub fn file_panel_title(path: &str) -> (s: String)
    ensures
        s@ == " 📂 目录: "@ + path@ + " "@,
{
    let mut v: Vec<char> = Vec::new();
    push_str(&mut v, " 📂 目录: ");
    push_str(&mut v, path);
    push_str(&mut v, " ");
    string_of(v.as_slice())
}

/// The title of the AI SSH terminal: the login, how far it is scrolled back
/// when it is, and whether mouse copy mode is on.
pub open spec fn ai_title_spec(user: Seq<char>, node: Seq<char>, offset: nat, copy_mode: bool) -> Seq<char> {
    let copy = if copy_mode { " | 复制模式"@ } else { Seq::empty() };
    if offset > 0 {
        " AI SSH: "@ + user + "@"@ + node + " | 历史 +"@ + decimal(offset) + copy + " "@
    } else {
        " AI SSH: "@ + user + "@"@ + node + copy + " "@
    }
}

/// The title of the AI SSH terminal (see `ai_title_spec`).
pub fn ai_terminal_title(user: &str, node: &str, offset: usize, copy_mode: bool) -> (s: String)
    ensures
        s@ == ai_title_spec(user@, node@, offset as nat, copy_mode),
{
    let mut v: Vec<char> = Vec::new();
    push_str(&mut v, " AI SSH: ");
    push_str(&mut v, user);
    push_str(&mut v, "@");
    push_str(&mut v, node);
    if offset > 0 {
        push_str(&mut v, " | 历史 +");
        let d = decimal_of(offset as u64);
        push_all(&mut v, d.as_slice());
    }
    if copy_mode {
        push_str(&mut v, " | 复制模式");
    }
    push_str(&mut v, " ");
    string_of(v.as_slice())
}

/// The key help of the server list and file panes.
pub fn help_text(mode: AppMode) -> (s: &'static str)
    ensures
        mode == AppMode::ServerList ==> s@ == " ⌨️ 快捷键映射:  [Enter]连接终端   [i]AI SSH   [f]文件管理   [a]新增   [e]编辑   [x]删除   [s]安全免密   [q]退出程序"@,
        mode != AppMode::ServerList ==> s@ == " ⌨️ 快捷键映射:  [Enter]进入目录   [d]下载此文件   [u]上传至当前目录   [b]返回服务器列表   [q]退出程序"@,
{
    match mode {
        AppMode::ServerList => " ⌨️ 快捷键映射:  [Enter]连接终端   [i]AI SSH   [f]文件管理   [a]新增   [e]编辑   [x]删除   [s]安全免密   [q]退出程序",
        _ => " ⌨️ 快捷键映射:  [Enter]进入目录   [d]下载此文件   [u]上传至当前目录   [b]返回服务器列表   [q]退出程序",
    }
}

} // verus!

verus! {

/// A rectangle of the screen: its left column, top row, width and height.
#[derive(Debug, Clone, Copy, PartialEq, Eq, Structural)]
pub struct Area {
    pub x: u16,
    pub y: u16,
    pub width: u16,
    pub height: u16,
}

/// An area as a tuple (x, y, width, height).
pub open spec fn area_tuple(a: Area) -> (u16, u16, u16, u16) {
    (a.x, a.y, a.width, a.height)
}

/// The middle part of `ratatui::layout::Layout::split` of `area` into
/// three parts of `outer`, `middle` and `outer` percent, stacked top to
/// bottom when `vertical`, side by side otherwise.
pub uninterp spec fn layout_middle(vertical: bool, outer: u16, middle: u16, area: (u16, u16, u16, u16)) -> (u16, u16, u16, u16);

/// Calls `ratatui::layout::Layout::split` with the constraints
/// `Percentage(outer)`, `Percentage(middle)`, `Percentage(outer)` in the
/// given direction and returns the middle rectangle. Claimed of it: the
/// result is fixed by the arguments (the crate's layout cache only stores
/// results), and named above.
#[verifier::external_body]
fn split_middle(vertical: bool, outer: u16, middle: u16, area: Area) -> (r: Area)
    ensures
        area_tuple(r) == layout_middle(vertical, outer, middle, area_tuple(area)),
{
    let direction = if vertical { ratatui::layout::Direction::Vertical } else { ratatui::layout::Direction::Horizontal };
    let constraints = [
        ratatui::layout::Constraint::Percentage(outer),
        ratatui::layout::Constraint::Percentage(middle),
        ratatui::layout::Constraint::Percentage(outer),
    ];
    let rect = ratatui::layout::Rect { x: area.x, y: area.y, width: area.width, height: area.height };
    let part = ratatui::layout::Layout::default().direction(direction).constraints(constraints).split(rect)[1];
    Area { x: part.x, y: part.y, width: part.width, height: part.height }
}

/// The rectangle of a notice popup: `percent_x` of the width and
/// `percent_y` of the height of `r`, in its middle (the rest split evenly
/// on both sides, by ratatui's layout).
pub open spec fn centered_area(percent_x: u16, percent_y: u16, r: (u16, u16, u16, u16)) -> (u16, u16, u16, u16) {
    let band = layout_middle(true, ((100 - percent_y) / 2) as u16, percent_y, r);
    layout_middle(false, ((100 - percent_x) / 2) as u16, percent_x, band)
}

/// The rectangle of a notice popup (see `centered_area`).
pub fn centered_rect(percent_x: u16, percent_y: u16, r: Area) -> (c: Area)
    requires
        percent_x <= 100,
        percent_y <= 100,
    ensures
        area_tuple(c) == centered_area(percent_x, percent_y, area_tuple(r)),
{
    let band = split_middle(true, (100 - percent_y) / 2, percent_y, r);
    split_middle(false, (100 - percent_x) / 2, percent_x, band)
}

} // verus!

verus! {

/// Moving down goes to the next entry and wraps from the last to the first;
/// moving up goes to the previous one and wraps from the first to the last;
/// with nothing selected both select the first; a selection stays in the list.
pub proof fn lemma_selection_moves(i: usize, len: usize)
    requires
        i < len,
    ensures
        i + 1 < len ==> next_index(Some(i), len as nat) == i + 1,
        i + 1 == len ==> next_index(Some(i), len as nat) == 0,
        i > 0 ==> prev_index(Some(i), len as nat) == i - 1,
        i == 0 ==> prev_index(Some(i), len as nat) == len - 1,
        next_index(Some(i), len as nat) < len,
        prev_index(Some(i), len as nat) < len,
        next_index(None, len as nat) == 0,
        prev_index(None, len as nat) == 0,
        next_index(Some(prev_index(Some(i), len as nat) as usize), len as nat) == i,
{
}

} // verus!
