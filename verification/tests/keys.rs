use benssh::keys::{
    bracketed_paste_sequence, control_char_for, shell_key_sequence, should_exit_ai_ssh,
    should_interrupt_ai_ssh, should_quit_app, AppMode, KeyCode, KeyModifiers,
};

#[test]
fn shell_key_sequence_maps_arrows_for_remote_history() {
    assert_eq!(shell_key_sequence(KeyCode::Up, false), Some("\x1b[A"));
    assert_eq!(shell_key_sequence(KeyCode::Down, false), Some("\x1b[B"));
    assert_eq!(shell_key_sequence(KeyCode::Left, false), Some("\x1b[D"));
    assert_eq!(shell_key_sequence(KeyCode::Right, false), Some("\x1b[C"));
}

#[test]
fn shell_key_sequence_uses_application_cursor_mode_for_vim() {
    assert_eq!(shell_key_sequence(KeyCode::Up, true), Some("\x1bOA"));
    assert_eq!(shell_key_sequence(KeyCode::Down, true), Some("\x1bOB"));
    assert_eq!(shell_key_sequence(KeyCode::Left, true), Some("\x1bOD"));
    assert_eq!(shell_key_sequence(KeyCode::Right, true), Some("\x1bOC"));
}

#[test]
fn ai_ssh_keeps_letters_available_for_commands() {
    assert!(!should_exit_ai_ssh(
        KeyCode::Char('q'),
        KeyModifiers::empty()
    ));
    assert!(!should_exit_ai_ssh(KeyCode::Esc, KeyModifiers::empty()));
    assert!(should_exit_ai_ssh(
        KeyCode::Char('q'),
        KeyModifiers::with_control()
    ));
    assert!(!should_interrupt_ai_ssh(
        KeyCode::Char('c'),
        KeyModifiers::empty()
    ));
    assert!(should_interrupt_ai_ssh(
        KeyCode::Char('c'),
        KeyModifiers::with_control()
    ));
    assert!(should_interrupt_ai_ssh(
        KeyCode::Char('C'),
        KeyModifiers::with_control()
    ));
    assert!(should_interrupt_ai_ssh(
        KeyCode::Char('\u{3}'),
        KeyModifiers::empty()
    ));
    assert!(!should_quit_app(
        KeyCode::Char('q'),
        KeyModifiers::empty(),
        &AppMode::AiSsh
    ));
    assert!(!should_quit_app(
        KeyCode::Char('q'),
        KeyModifiers::with_control(),
        &AppMode::AiSsh
    ));
}

#[test]
fn control_char_for_maps_shell_control_shortcuts() {
    assert_eq!(control_char_for('d'), Some('\x04'));
    assert_eq!(control_char_for('l'), Some('\x0c'));
    assert_eq!(control_char_for('['), Some('\x1b'));
    assert_eq!(control_char_for('?'), Some('\x7f'));
}

#[test]
fn bracketed_paste_sequence_wraps_and_normalizes_pasted_text() {
    assert_eq!(
        bracketed_paste_sequence("a\r\nb\rc"),
        "\x1b[200~a\nb\nc\x1b[201~"
    );
}

#[test]
fn quit_key_works_outside_the_ai_pane() {
    assert!(should_quit_app(KeyCode::Char('q'), KeyModifiers::empty(), &AppMode::ServerList));
    assert!(should_quit_app(KeyCode::Char('q'), KeyModifiers::empty(), &AppMode::FileBrowser));
    assert!(!should_quit_app(KeyCode::Char('x'), KeyModifiers::empty(), &AppMode::ServerList));
}

#[test]
fn home_end_and_delete_sequences() {
    assert_eq!(shell_key_sequence(KeyCode::Home, false), Some("\x1b[H"));
    assert_eq!(shell_key_sequence(KeyCode::End, false), Some("\x1b[F"));
    assert_eq!(shell_key_sequence(KeyCode::Home, true), Some("\x1bOH"));
    assert_eq!(shell_key_sequence(KeyCode::End, true), Some("\x1bOF"));
    assert_eq!(shell_key_sequence(KeyCode::Delete, true), Some("\x1b[3~"));
    assert_eq!(shell_key_sequence(KeyCode::Delete, false), Some("\x1b[3~"));
    assert_eq!(shell_key_sequence(KeyCode::PageUp, false), None);
    assert_eq!(shell_key_sequence(KeyCode::Char('a'), true), None);
}

#[test]
fn control_char_ignores_case_and_rejects_others() {
    assert_eq!(control_char_for('D'), Some('\x04'));
    assert_eq!(control_char_for('a'), Some('\x01'));
    assert_eq!(control_char_for('Z'), Some('\x1a'));
    assert_eq!(control_char_for('\\'), Some('\x1c'));
    assert_eq!(control_char_for(']'), Some('\x1d'));
    assert_eq!(control_char_for('^'), Some('\x1e'));
    assert_eq!(control_char_for('_'), Some('\x1f'));
    assert_eq!(control_char_for('1'), None);
    assert_eq!(control_char_for('é'), None);
}

#[test]
fn paste_without_carriage_returns_is_unchanged_inside_markers() {
    assert_eq!(bracketed_paste_sequence("ls -la\n"), "\x1b[200~ls -la\n\x1b[201~");
    assert_eq!(bracketed_paste_sequence(""), "\x1b[200~\x1b[201~");
    assert_eq!(bracketed_paste_sequence("\r\r\n"), "\x1b[200~\n\n\x1b[201~");
}
