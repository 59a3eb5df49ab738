//! Keys of the terminal UI and what the AI SSH pane sends for them.
use vstd::prelude::*;
use crate::text::{chars_of, string_of, push_str};

verus! {

/// A key the UI reacts to.
#[derive(Debug, Clone, Copy, PartialEq, Eq, Structural)]
pub enum KeyCode {
    Char(char),
    F(u8),
    Up,
    Down,
    Left,
    Right,
    Home,
    End,
    PageUp,
    PageDown,
    Delete,
    Enter,
    Esc,
    Backspace,
    Tab,
    Other,
}

/// The modifier keys held with a key.
#[derive(Debug, Clone, Copy, PartialEq, Eq, Structural)]
pub struct KeyModifiers {
    pub shift: bool,
    pub control: bool,
    pub alt: bool,
}

impl KeyModifiers {
    /// No modifier held.
    pub fn empty() -> (m: KeyModifiers)
        ensures
            !m.shift && !m.control && !m.alt,
    {
        KeyModifiers { shift: false, control: false, alt: false }
    }

    /// Only Ctrl held.
    pub fn with_control() -> (m: KeyModifiers)
        ensures
            !m.shift && m.control && !m.alt,
    {
        KeyModifiers { shift: false, control: true, alt: false }
    }

    /// Whether Ctrl is held.
    pub fn contains_control(&self) -> (b: bool)
        ensures
            b == self.control,
    {
        self.control
    }
}

/// The pane that has the keyboard.
#[derive(Debug, Clone, Copy, PartialEq, Eq, Structural)]
pub enum AppMode {
    ServerList,
    FileBrowser,
    AiSsh,
}

/// What the remote shell is sent for a cursor or editing key: the SS3
/// forms (`ESC O x`) in application cursor mode, the CSI forms otherwise.
pub open spec fn key_sequence(code: KeyCode, application_cursor_mode: bool) -> Option<Seq<char>> {
    match code {
        KeyCode::Up => Some(if application_cursor_mode { "\x1bOA"@ } else { "\x1b[A"@ }),
        KeyCode::Down => Some(if application_cursor_mode { "\x1bOB"@ } else { "\x1b[B"@ }),
        KeyCode::Right => Some(if application_cursor_mode { "\x1bOC"@ } else { "\x1b[C"@ }),
        KeyCode::Left => Some(if application_cursor_mode { "\x1bOD"@ } else { "\x1b[D"@ }),
        KeyCode::Home => Some(if application_cursor_mode { "\x1bOH"@ } else { "\x1b[H"@ }),
        KeyCode::End => Some(if application_cursor_mode { "\x1bOF"@ } else { "\x1b[F"@ }),
        KeyCode::Delete => Some("\x1b[3~"@),
        _ => None,
    }
}

/// The escape sequence for a cursor or editing key (see `key_sequence`).
pub fn shell_key_sequence(code: KeyCode, application_cursor_mode: bool) -> (r: Option<&'static str>)
    ensures
        match r {
            Some(s) => key_sequence(code, application_cursor_mode) == Some(s@),
            None => key_sequence(code, application_cursor_mode) is None,
        },
{
    match code {
        KeyCode::Up => Some(if application_cursor_mode { "\x1bOA" } else { "\x1b[A" }),
        KeyCode::Down => Some(if application_cursor_mode { "\x1bOB" } else { "\x1b[B" }),
        KeyCode::Right => Some(if application_cursor_mode { "\x1bOC" } else { "\x1b[C" }),
        KeyCode::Left => Some(if application_cursor_mode { "\x1bOD" } else { "\x1b[D" }),
        KeyCode::Home => Some(if application_cursor_mode { "\x1bOH" } else { "\x1b[H" }),
        KeyCode::End => Some(if application_cursor_mode { "\x1bOF" } else { "\x1b[F" }),
        KeyCode::Delete => Some("\x1b[3~"),
        _ => None,
    }
}

/// `q` quits the program, except in the AI SSH pane, where every letter
/// goes to the remote shell.
pub fn should_quit_app(code: KeyCode, _modifiers: KeyModifiers, mode: &AppMode) -> (b: bool)
    ensures
        b == (*mode != AppMode::AiSsh && code == KeyCode::Char('q')),
{
    match mode {
        AppMode::AiSsh => false,
        _ => match code {
            KeyCode::Char(c) => c == 'q',
            _ => false,
        },
    }
}

/// Ctrl+Q leaves the AI SSH pane.
pub fn should_exit_ai_ssh(code: KeyCode, modifiers: KeyModifiers) -> (b: bool)
    ensures
        b == (code == KeyCode::Char('q') && modifiers.control),
{
    match code {
        KeyCode::Char(c) => c == 'q' && modifiers.contains_control(),
        _ => false,
    }
}

/// Ctrl+C (either case) or a raw ETX character interrupts the remote command.
pub fn should_interrupt_ai_ssh(code: KeyCode, modifiers: KeyModifiers) -> (b: bool)
    ensures
        b == (code == KeyCode::Char('\u{3}')
            || ((code == KeyCode::Char('c') || code == KeyCode::Char('C')) && modifiers.control)),
{
    match code {
        KeyCode::Char(c) => c == '\u{3}' || ((c == 'c' || c == 'C') && modifiers.contains_control()),
        _ => false,
    }
}

/// The control character that Ctrl with `c` types: letters (either case)
/// give 1 to 26, and `[ \ ] ^ _ ?` give ESC, FS, GS, RS, US and DEL.
pub open spec fn control_char(c: char) -> Option<char> {
    if 'a' <= c && c <= 'z' {
        Some(((c as u32) - 96) as char)
    } else if 'A' <= c && c <= 'Z' {
        Some(((c as u32) - 64) as char)
    } else if c == '[' {
        Some('\x1b')
    } else if c == '\\' {
        Some('\x1c')
    } else if c == ']' {
        Some('\x1d')
    } else if c == '^' {
        Some('\x1e')
    } else if c == '_' {
        Some('\x1f')
    } else if c == '?' {
        Some('\x7f')
    } else {
        None
    }
}

/// The control character for Ctrl with `c` (see `control_char`).
pub fn control_char_for(c: char) -> (r: Option<char>)
    ensures
        r == control_char(c),
{
    let lower: char = if 'A' <= c && c <= 'Z' { ((c as u8) + 32u8) as char } else { c };
    if 'a' <= lower && lower <= 'z' {
        return Some(((lower as u8) - 96u8) as char);
    }
    if c == '[' {
        Some('\x1b')
    } else if c == '\\' {
        Some('\x1c')
    } else if c == ']' {
        Some('\x1d')
    } else if c == '^' {
        Some('\x1e')
    } else if c == '_' {
        Some('\x1f')
    } else if c == '?' {
        Some('\x7f')
    } else {
        None
    }
}

/// Pasted text with its line endings made `\n`: `\r\n` and a lone `\r`
/// both become `\n`.
pub open spec fn newlines_normalized(s: Seq<char>) -> Seq<char>
    decreases s.len(),
{
    if s.len() == 0 {
        s
    } else if s[0] == '\r' && s.len() >= 2 && s[1] == '\n' {
        seq!['\n'] + newlines_normalized(s.subrange(2, s.len() as int))
    } else if s[0] == '\r' {
        seq!['\n'] + newlines_normalized(s.drop_first())
    } else {
        seq![s[0]] + newlines_normalized(s.drop_first())
    }
}

/// Pasted text as a bracketed paste: normalized line endings between
/// `ESC [200~` and `ESC [201~`.
pub fn bracketed_paste_sequence(text: &str) -> (s: String)
    ensures
        s@ == "\x1b[200~"@ + newlines_normalized(text@) + "\x1b[201~"@,
{
    let t = chars_of(text);
    let n = t.len();
    let mut v: Vec<char> = Vec::new();
    push_str(&mut v, "\x1b[200~");
    let ghost head = v@;
    let mut i: usize = 0;
    assert(t@.subrange(0, n as int) =~= t@);
    while i < n
        invariant
            n == t@.len(),
            i <= n,
            head + newlines_normalized(t@) == v@ + newlines_normalized(t@.subrange(i as int, n as int)),
        decreases n - i,
    {
        let ghost rest = t@.subrange(i as int, n as int);
        if t[i] == '\r' && i + 1 < n && t[i + 1] == '\n' {
            assert(rest.subrange(2, rest.len() as int) =~= t@.subrange(i + 2, n as int));
            v.push('\n');
            i = i + 2;
        } else {
            assert(rest.drop_first() =~= t@.subrange(i + 1, n as int));
            if t[i] == '\r' {
                v.push('\n');
            } else {
                v.push(t[i]);
            }
            i = i + 1;
        }
        proof {
            assert(v@ + newlines_normalized(t@.subrange(i as int, n as int)) =~= head + newlines_normalized(t@));
        }
    }
    assert(t@.subrange(n as int, n as int).len() == 0);
    push_str(&mut v, "\x1b[201~");
    string_of(v.as_slice())
}

} // verus!

verus! {

/// Ctrl with a letter types the same control character in either case.
pub proof fn lemma_control_char_ignores_case(c: char)
    requires
        'a' <= c && c <= 'z',
    ensures
        control_char(c) == control_char(((c as u32) - 32) as char),
        control_char(c) matches Some(k) && 1 <= (k as u32) && (k as u32) <= 26,
{
}

/// A bracketed paste holds no carriage return between its markers.
pub proof fn lemma_paste_has_no_carriage_return(s: Seq<char>)
    ensures
        !newlines_normalized(s).contains('\r'),
    decreases s.len(),
{
    if s.len() > 0 {
        let rest = if s[0] == '\r' && s.len() >= 2 && s[1] == '\n' { s.subrange(2, s.len() as int) } else { s.drop_first() };
        lemma_paste_has_no_carriage_return(rest);
        let head = if s[0] == '\r' { '\n' } else { s[0] };
        let n = newlines_normalized(s);
        assert(n == seq![head] + newlines_normalized(rest));
        assert forall|i: int| 0 <= i < n.len() implies n[i] != '\r' by {
            if i > 0 {
                assert(n[i] == newlines_normalized(rest)[i - 1]);
            }
        }
    }
}

/// Text without carriage returns is pasted unchanged.
pub proof fn lemma_paste_keeps_plain_text(s: Seq<char>)
    requires
        !s.contains('\r'),
    ensures
        newlines_normalized(s) == s,
    decreases s.len(),
{
    if s.len() > 0 {
        assert(s[0] != '\r') by {
            if s[0] == '\r' {
                assert(s.contains('\r'));
            }
        }
        assert(!s.drop_first().contains('\r')) by {
            if s.drop_first().contains('\r') {
                let i = choose|i: int| 0 <= i < s.drop_first().len() && s.drop_first()[i] == '\r';
                assert(s[i + 1] == '\r');
            }
        }
        lemma_paste_keeps_plain_text(s.drop_first());
        assert(seq![s[0]] + s.drop_first() =~= s);
    }
}

} // verus!

verus! {

/// Application cursor mode sends the same cursor and Home/End keys with
/// `ESC O` in place of `ESC [`; Delete is `ESC [ 3 ~` in both modes; the four
/// arrows send `A` (up), `B` (down), `C` (right), `D` (left), Home `H`, End `F`.
pub proof fn lemma_key_sequence_modes(code: KeyCode)
    ensures
        key_sequence(code, false) is Some <==> key_sequence(code, true) is Some,
        key_sequence(code, false) is Some && code != KeyCode::Delete ==> ({
            let s = key_sequence(code, false).unwrap();
            let t = key_sequence(code, true).unwrap();
            &&& s.len() == 3 && t.len() == 3
            &&& s[0] == '\x1b' && t[0] == '\x1b'
            &&& s[1] == '[' && t[1] == 'O'
            &&& s[2] == t[2]
        }),
        key_sequence(KeyCode::Delete, false) == key_sequence(KeyCode::Delete, true),
        key_sequence(KeyCode::Delete, false) == Some(seq!['\x1b', '[', '3', '~']),
        key_sequence(KeyCode::Up, false).unwrap()[2] == 'A',
        key_sequence(KeyCode::Down, false).unwrap()[2] == 'B',
        key_sequence(KeyCode::Right, false).unwrap()[2] == 'C',
        key_sequence(KeyCode::Left, false).unwrap()[2] == 'D',
        key_sequence(KeyCode::Home, false).unwrap()[2] == 'H',
        key_sequence(KeyCode::End, false).unwrap()[2] == 'F',
{
    reveal_strlit("\x1bOA");
    reveal_strlit("\x1bOB");
    reveal_strlit("\x1bOC");
    reveal_strlit("\x1bOD");
    reveal_strlit("\x1bOH");
    reveal_strlit("\x1bOF");
    reveal_strlit("\x1b[A");
    reveal_strlit("\x1b[B");
    reveal_strlit("\x1b[C");
    reveal_strlit("\x1b[D");
    reveal_strlit("\x1b[H");
    reveal_strlit("\x1b[F");
    reveal_strlit("\x1b[3~");
    assert("\x1b[3~"@ =~= seq!['\x1b', '[', '3', '~']);
}

/// Ctrl with a letter sends its place in the alphabet (Ctrl+A is 1, Ctrl+Z
/// is 26), whatever its case.
pub proof fn lemma_control_letters(c: char)
    requires
        'a' <= c && c <= 'z',
    ensures
        control_char(c) == Some(((c as u32) - 96) as char),
        control_char(((c as u32) - 32) as char) == Some(((c as u32) - 96) as char),
{
}

} // verus!
