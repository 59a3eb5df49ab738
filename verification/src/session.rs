//! The decisions of the main loop: what a key does in each pane, and what
//! the AI SSH pane tells the user.
use vstd::prelude::*;
use crate::config::VpsEntry;
use crate::keys::{KeyCode, KeyModifiers, key_sequence, shell_key_sequence, control_char, control_char_for, should_exit_ai_ssh, should_interrupt_ai_ssh};
use crate::text::{chars_of, string_of, push_str, chars_eq, opt_view};

verus! {

/// What a key does in the server list.
#[derive(Debug, Clone, Copy, PartialEq, Eq, Structural)]
pub enum ServerListAction {
    OpenShell,
    OpenAiSsh,
    BrowseFiles,
    Add,
    Edit,
    Delete,
    SetupKey,
    SelectNext,
    SelectPrev,
    Nothing,
}

/// The server list's keys: Enter opens a shell, `i` the AI SSH pane, `f`
/// the file browser, `a`/`e`/`x`/`s` add, edit, delete and set up key
/// login, Down/`j` and Up/`k` move the selection.
pub open spec fn server_list_action_spec(code: KeyCode) -> ServerListAction {
    match code {
        KeyCode::Enter => ServerListAction::OpenShell,
        KeyCode::Char(c) => {
            if c == 'i' { ServerListAction::OpenAiSsh }
            else if c == 'f' { ServerListAction::BrowseFiles }
            else if c == 'a' { ServerListAction::Add }
            else if c == 'e' { ServerListAction::Edit }
            else if c == 'x' { ServerListAction::Delete }
            else if c == 's' { ServerListAction::SetupKey }
            else if c == 'j' { ServerListAction::SelectNext }
            else if c == 'k' { ServerListAction::SelectPrev }
            else { ServerListAction::Nothing }
        },
        KeyCode::Down => ServerListAction::SelectNext,
        KeyCode::Up => ServerListAction::SelectPrev,
        _ => ServerListAction::Nothing,
    }
}

pub fn server_list_action(code: KeyCode) -> (a: ServerListAction)
    ensures
        a == server_list_action_spec(code),
{
    match code {
        KeyCode::Enter => ServerListAction::OpenShell,
        KeyCode::Char(c) => {
            if c == 'i' { ServerListAction::OpenAiSsh }
            else if c == 'f' { ServerListAction::BrowseFiles }
            else if c == 'a' { ServerListAction::Add }
            else if c == 'e' { ServerListAction::Edit }
            else if c == 'x' { ServerListAction::Delete }
            else if c == 's' { ServerListAction::SetupKey }
            else if c == 'j' { ServerListAction::SelectNext }
            else if c == 'k' { ServerListAction::SelectPrev }
            else { ServerListAction::Nothing }
        },
        KeyCode::Down => ServerListAction::SelectNext,
        KeyCode::Up => ServerListAction::SelectPrev,
        _ => ServerListAction::Nothing,
    }
}

/// What a key does in the file browser.
#[derive(Debug, Clone, Copy, PartialEq, Eq, Structural)]
pub enum FileBrowserAction {
    Back,
    Open,
    Download,
    Upload,
    SelectNext,
    SelectPrev,
    Nothing,
}

/// The file browser's keys: `b`/Esc go back, Enter opens, `d` downloads,
/// `u` uploads, Down/`j` and Up/`k` move the selection.
pub open spec fn file_browser_action_spec(code: KeyCode) -> FileBrowserAction {
    match code {
        KeyCode::Esc => FileBrowserAction::Back,
        KeyCode::Enter => FileBrowserAction::Open,
        KeyCode::Char(c) => {
            if c == 'b' { FileBrowserAction::Back }
            else if c == 'd' { FileBrowserAction::Download }
            else if c == 'u' { FileBrowserAction::Upload }
            else if c == 'j' { FileBrowserAction::SelectNext }
            else if c == 'k' { FileBrowserAction::SelectPrev }
            else { FileBrowserAction::Nothing }
        },
        KeyCode::Down => FileBrowserAction::SelectNext,
        KeyCode::Up => FileBrowserAction::SelectPrev,
        _ => FileBrowserAction::Nothing,
    }
}

pub fn file_browser_action(code: KeyCode) -> (a: FileBrowserAction)
    ensures
        a == file_browser_action_spec(code),
{
    match code {
        KeyCode::Esc => FileBrowserAction::Back,
        KeyCode::Enter => FileBrowserAction::Open,
        KeyCode::Char(c) => {
            if c == 'b' { FileBrowserAction::Back }
            else if c == 'd' { FileBrowserAction::Download }
            else if c == 'u' { FileBrowserAction::Upload }
            else if c == 'j' { FileBrowserAction::SelectNext }
            else if c == 'k' { FileBrowserAction::SelectPrev }
            else { FileBrowserAction::Nothing }
        },
        KeyCode::Down => FileBrowserAction::SelectNext,
        KeyCode::Up => FileBrowserAction::SelectPrev,
        _ => FileBrowserAction::Nothing,
    }
}

/// What a key does in the AI SSH pane.
#[derive(Debug, Clone, PartialEq, Eq)]
pub enum AiKeyAction {
    /// F2: switch mouse copy mode.
    ToggleCopyMode,
    /// Ctrl+Q: close the session and go back to the server list.
    Exit,
    /// Page keys and Ctrl+Home/End move through the scroll-back.
    PageUp,
    PageDown,
    Top,
    Bottom,
    /// Ctrl+C: back to the live screen, and interrupt the remote command.
    Interrupt,
    /// Back to the live screen, and send this text when there is one.
    Type(Option<String>),
    Nothing,
}

/// The contents of an AI SSH key action.
pub enum AiKeyView {
    ToggleCopyMode,
    Exit,
    PageUp,
    PageDown,
    Top,
    Bottom,
    Interrupt,
    Type(Option<Seq<char>>),
    Nothing,
}

pub open spec fn ai_key_view(a: AiKeyAction) -> AiKeyView {
    match a {
        AiKeyAction::ToggleCopyMode => AiKeyView::ToggleCopyMode,
        AiKeyAction::Exit => AiKeyView::Exit,
        AiKeyAction::PageUp => AiKeyView::PageUp,
        AiKeyAction::PageDown => AiKeyView::PageDown,
        AiKeyAction::Top => AiKeyView::Top,
        AiKeyAction::Bottom => AiKeyView::Bottom,
        AiKeyAction::Interrupt => AiKeyView::Interrupt,
        AiKeyAction::Type(t) => AiKeyView::Type(opt_view(t)),
        AiKeyAction::Nothing => AiKeyView::Nothing,
    }
}

/// The AI SSH pane's keys, in this order: F2, Ctrl+Q, PageUp, PageDown,
/// Ctrl+Home, Ctrl+End, Ctrl+C; then Enter, Backspace, Tab and Esc type
/// `\n`, DEL, `\t` and ESC; cursor and editing keys type their escape
/// sequence; a character types itself, or with Ctrl its control character.
pub open spec fn ai_key_action_spec(code: KeyCode, modifiers: KeyModifiers, application_cursor_mode: bool) -> AiKeyView {
    if code == KeyCode::F(2) {
        AiKeyView::ToggleCopyMode
    } else if code == KeyCode::Char('q') && modifiers.control {
        AiKeyView::Exit
    } else if code == KeyCode::PageUp {
        AiKeyView::PageUp
    } else if code == KeyCode::PageDown {
        AiKeyView::PageDown
    } else if code == KeyCode::Home && modifiers.control {
        AiKeyView::Top
    } else if code == KeyCode::End && modifiers.control {
        AiKeyView::Bottom
    } else if code == KeyCode::Char('\u{3}') || ((code == KeyCode::Char('c') || code == KeyCode::Char('C')) && modifiers.control) {
        AiKeyView::Interrupt
    } else {
        match code {
            KeyCode::Enter => AiKeyView::Type(Some("\n"@)),
            KeyCode::Backspace => AiKeyView::Type(Some("\x7f"@)),
            KeyCode::Tab => AiKeyView::Type(Some("\t"@)),
            KeyCode::Esc => AiKeyView::Type(Some("\x1b"@)),
            KeyCode::Up | KeyCode::Down | KeyCode::Left | KeyCode::Right | KeyCode::Home | KeyCode::End | KeyCode::Delete =>
                AiKeyView::Type(key_sequence(code, application_cursor_mode)),
            KeyCode::Char(ch) => AiKeyView::Type(
                if modifiers.control {
                    match control_char(ch) { Some(c) => Some(seq![c]), None => None }
                } else {
                    Some(seq![ch])
                },
            ),
            _ => AiKeyView::Nothing,
        }
    }
}

fn char_string(c: char) -> (s: String)
    ensures
        s@ == seq![c],
{
    let mut s = String::new();
    s.push(c);
    s
}

/// What a key does in the AI SSH pane (see `ai_key_action_spec`).
pub fn ai_key_action(code: KeyCode, modifiers: KeyModifiers, application_cursor_mode: bool) -> (a: AiKeyAction)
    ensures
        ai_key_view(a) == ai_key_action_spec(code, modifiers, application_cursor_mode),
{
    if code == KeyCode::F(2) {
        return AiKeyAction::ToggleCopyMode;
    }
    if should_exit_ai_ssh(code, modifiers) {
        return AiKeyAction::Exit;
    }
    match code {
        KeyCode::PageUp => return AiKeyAction::PageUp,
        KeyCode::PageDown => return AiKeyAction::PageDown,
        KeyCode::Home => if modifiers.contains_control() { return AiKeyAction::Top },
        KeyCode::End => if modifiers.contains_control() { return AiKeyAction::Bottom },
        _ => {},
    }
    if should_interrupt_ai_ssh(code, modifiers) {
        return AiKeyAction::Interrupt;
    }
    match code {
        KeyCode::Enter => AiKeyAction::Type(Some(String::from_str("\n"))),
        KeyCode::Backspace => AiKeyAction::Type(Some(String::from_str("\x7f"))),
        KeyCode::Tab => AiKeyAction::Type(Some(String::from_str("\t"))),
        KeyCode::Esc => AiKeyAction::Type(Some(String::from_str("\x1b"))),
        KeyCode::Up | KeyCode::Down | KeyCode::Left | KeyCode::Right | KeyCode::Home | KeyCode::End | KeyCode::Delete => {
            match shell_key_sequence(code, application_cursor_mode) {
                Some(s) => AiKeyAction::Type(Some(String::from_str(s))),
                None => AiKeyAction::Type(None),
            }
        },
        KeyCode::Char(ch) => {
            if modifiers.contains_control() {
                match control_char_for(ch) {
                    Some(c) => AiKeyAction::Type(Some(char_string(c))),
                    None => AiKeyAction::Type(None),
                }
            } else {
                AiKeyAction::Type(Some(char_string(ch)))
            }
        },
        _ => AiKeyAction::Nothing,
    }
}

/// The number of lines one wheel step scrolls the AI SSH pane.
pub const WHEEL_ROWS: usize = 3;

/// Whether the AI SSH pane needs the node switched to key login first:
/// it logs in by password and has no key yet.
pub fn needs_key_setup(entry: &VpsEntry) -> (b: bool)
    ensures
        b == (entry.key_path is None && entry.password is Some),
{
    entry.key_path.is_none() && entry.password.is_some()
}

/// The advice panel right after the AI SSH session opened.
pub fn connected_advice(has_api_key: bool) -> (s: &'static str)
    ensures
        has_api_key ==> s@ == "AI SSH 已连接。检测到错误时会请求大模型给出告警和命令。"@,
        !has_api_key ==> s@ == "AI SSH 已连接。未配置 API Key，无法使用大模型分析。"@,
{
    if has_api_key {
        "AI SSH 已连接。检测到错误时会请求大模型给出告警和命令。"
    } else {
        "AI SSH 已连接。未配置 API Key，无法使用大模型分析。"
    }
}

/// The advice panel while a diagnosis is pending, or when none can be asked for.
pub fn pending_advice(has_api_key: bool) -> (s: &'static str)
    ensures
        has_api_key ==> s@ == "警告: 判断中\n问题: 正在请求大模型分析\n命令: 无"@,
        !has_api_key ==> s@ == "警告: 高\n问题: 未配置 API Key，无法使用大模型判断\n命令: 无"@,
{
    if has_api_key {
        "警告: 判断中\n问题: 正在请求大模型分析\n命令: 无"
    } else {
        "警告: 高\n问题: 未配置 API Key，无法使用大模型判断\n命令: 无"
    }
}

/// A diagnosis is shown only when it answers the latest request: its
/// fingerprint is the last one sent.
pub fn advice_is_current(fingerprint: &str, last_fingerprint: &str) -> (b: bool)
    ensures
        b == (fingerprint@ == last_fingerprint@),
{
    let a = chars_of(fingerprint);
    let b = chars_of(last_fingerprint);
    chars_eq(a.as_slice(), b.as_slice())
}

/// The advice and the notice when the AI SSH session could not open.
pub fn connect_failure(error: &str, has_api_key: bool) -> (r: (String, String))
    ensures
        r.0@ == "警告: 高\n问题: AI SSH 连接失败: "@ + error@ + "\n命令: 无"@,
        r.1@ == "❌ AI SSH 连接失败: "@ + error@ + "\n\n"@ + r.0@ + "\n\n"@ + (if has_api_key {
            "API Key 已配置；本次失败发生在 SSH 登录前，尚未进入 AI 分析阶段。"@
        } else {
            "未配置 API Key；这只影响大模型分析，不影响 SSH 登录。可在启动前设置 $env:DEEPSEEK_API_KEY=\"你的key\"。"@
        }),
{
    let mut advice: Vec<char> = Vec::new();
    push_str(&mut advice, "警告: 高\n问题: AI SSH 连接失败: ");
    push_str(&mut advice, error);
    push_str(&mut advice, "\n命令: 无");
    let advice_s = string_of(advice.as_slice());
    let mut notice: Vec<char> = Vec::new();
    push_str(&mut notice, "❌ AI SSH 连接失败: ");
    push_str(&mut notice, error);
    push_str(&mut notice, "\n\n");
    push_str(&mut notice, advice_s.as_str());
    push_str(&mut notice, "\n\n");
    if has_api_key {
        push_str(&mut notice, "API Key 已配置；本次失败发生在 SSH 登录前，尚未进入 AI 分析阶段。");
    } else {
        push_str(&mut notice, "未配置 API Key；这只影响大模型分析，不影响 SSH 登录。可在启动前设置 $env:DEEPSEEK_API_KEY=\"你的key\"。");
    }
    (advice_s, string_of(notice.as_slice()))
}

} // verus!

verus! {

/// The server list's keys as the README lists them: Enter connects in a new
/// tab, `i` opens AI SSH, `f` the file browser, `a`/`e`/`x`/`s` add, edit,
/// delete and set up key login; Down does what `j` does and moves to the
/// next entry, Up does what `k` does and moves to the previous one; any
/// other letter does nothing.
pub proof fn lemma_server_list_keys(c: char)
    ensures
        server_list_action_spec(KeyCode::Enter) == ServerListAction::OpenShell,
        server_list_action_spec(KeyCode::Char('i')) == ServerListAction::OpenAiSsh,
        server_list_action_spec(KeyCode::Char('f')) == ServerListAction::BrowseFiles,
        server_list_action_spec(KeyCode::Char('a')) == ServerListAction::Add,
        server_list_action_spec(KeyCode::Char('e')) == ServerListAction::Edit,
        server_list_action_spec(KeyCode::Char('x')) == ServerListAction::Delete,
        server_list_action_spec(KeyCode::Char('s')) == ServerListAction::SetupKey,
        server_list_action_spec(KeyCode::Down) == server_list_action_spec(KeyCode::Char('j')),
        server_list_action_spec(KeyCode::Down) == ServerListAction::SelectNext,
        server_list_action_spec(KeyCode::Up) == server_list_action_spec(KeyCode::Char('k')),
        server_list_action_spec(KeyCode::Up) == ServerListAction::SelectPrev,
        !(c == 'i' || c == 'f' || c == 'a' || c == 'e' || c == 'x' || c == 's' || c == 'j' || c == 'k')
            ==> server_list_action_spec(KeyCode::Char(c)) == ServerListAction::Nothing,
{
}

/// The file browser's keys as the README lists them: Enter opens, `d`
/// downloads, `u` uploads, `b` and Esc go back; Down does what `j` does
/// (next entry), Up what `k` does (previous entry); other letters do nothing.
pub proof fn lemma_file_browser_keys(c: char)
    ensures
        file_browser_action_spec(KeyCode::Enter) == FileBrowserAction::Open,
        file_browser_action_spec(KeyCode::Char('d')) == FileBrowserAction::Download,
        file_browser_action_spec(KeyCode::Char('u')) == FileBrowserAction::Upload,
        file_browser_action_spec(KeyCode::Char('b')) == FileBrowserAction::Back,
        file_browser_action_spec(KeyCode::Esc) == FileBrowserAction::Back,
        file_browser_action_spec(KeyCode::Down) == file_browser_action_spec(KeyCode::Char('j')),
        file_browser_action_spec(KeyCode::Down) == FileBrowserAction::SelectNext,
        file_browser_action_spec(KeyCode::Up) == file_browser_action_spec(KeyCode::Char('k')),
        file_browser_action_spec(KeyCode::Up) == FileBrowserAction::SelectPrev,
        !(c == 'd' || c == 'u' || c == 'b' || c == 'j' || c == 'k')
            ==> file_browser_action_spec(KeyCode::Char(c)) == FileBrowserAction::Nothing,
{
}

/// The AI SSH pane's keys, whatever the modifiers and cursor mode: PageUp
/// scrolls back and PageDown forward; Ctrl+Home and Ctrl+End go to the
/// oldest line and the live screen; F2 switches copy mode; Ctrl+Q leaves and
/// Ctrl+C interrupts, while the same letters without Ctrl are typed; any
/// other character without Ctrl is sent as itself; Enter, Backspace, Tab
/// and Esc send `\n`, DEL, `\t` and ESC.
pub proof fn lemma_ai_pane_keys(m: KeyModifiers, app_mode: bool, c: char)
    ensures
        ai_key_action_spec(KeyCode::PageUp, m, app_mode) == AiKeyView::PageUp,
        ai_key_action_spec(KeyCode::PageDown, m, app_mode) == AiKeyView::PageDown,
        m.control ==> ai_key_action_spec(KeyCode::Home, m, app_mode) == AiKeyView::Top,
        m.control ==> ai_key_action_spec(KeyCode::End, m, app_mode) == AiKeyView::Bottom,
        ai_key_action_spec(KeyCode::F(2), m, app_mode) == AiKeyView::ToggleCopyMode,
        m.control ==> ai_key_action_spec(KeyCode::Char('q'), m, app_mode) == AiKeyView::Exit,
        m.control ==> ai_key_action_spec(KeyCode::Char('c'), m, app_mode) == AiKeyView::Interrupt,
        ai_key_action_spec(KeyCode::Char('\u{3}'), m, app_mode) == AiKeyView::Interrupt,
        !m.control && c != '\u{3}' ==> ai_key_action_spec(KeyCode::Char(c), m, app_mode) == AiKeyView::Type(Some(seq![c])),
        ai_key_action_spec(KeyCode::Enter, m, app_mode) == AiKeyView::Type(Some(seq!['\n'])),
        ai_key_action_spec(KeyCode::Backspace, m, app_mode) == AiKeyView::Type(Some(seq!['\x7f'])),
        ai_key_action_spec(KeyCode::Tab, m, app_mode) == AiKeyView::Type(Some(seq!['\t'])),
        ai_key_action_spec(KeyCode::Esc, m, app_mode) == AiKeyView::Type(Some(seq!['\x1b'])),
{
    reveal_strlit("\n");
    reveal_strlit("\x7f");
    reveal_strlit("\t");
    reveal_strlit("\x1b");
    assert("\n"@ =~= seq!['\n']);
    assert("\x7f"@ =~= seq!['\x7f']);
    assert("\t"@ =~= seq!['\t']);
    assert("\x1b"@ =~= seq!['\x1b']);
}

} // verus!
