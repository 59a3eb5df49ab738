use benssh::terminal::{
    cell_col_to_byte_idx, display_width, history_display_text, recent_context, sanitize_terminal_output,
    terminal_display_text, TerminalBuffer,
};

#[test]
fn sanitize_terminal_output_removes_ansi_escape_sequences() {
    let text = "\x1b[01;32mroot\x1b[0m@\x1b[01;34mhost\x1b[0m:~# ls\r\n";
    assert_eq!(sanitize_terminal_output(text), "root@host:~# ls\n");
}

#[test]
fn sanitize_terminal_output_handles_backspace() {
    assert_eq!(sanitize_terminal_output("abc\x08d"), "abd");
}

#[test]
fn sanitize_terminal_output_does_not_turn_carriage_return_into_newline() {
    assert_eq!(
        sanitize_terminal_output("root@TX:~# l\rs\r\n"),
        "root@TX:~# ls\n"
    );
}

#[test]
fn push_output_preserves_partial_line_across_reads() {
    let mut buffer = TerminalBuffer::new(10, 40);
    buffer.push_output("l");
    buffer.push_output("s");
    assert!(buffer.recent_context().contains("ls"));
}

#[test]
fn terminal_buffer_uses_remote_echo_as_screen_source() {
    let mut buffer = TerminalBuffer::new(10, 40);
    buffer.push_output("root@TX:~# ls\r\nfile.txt\r\nroot@TX:~# ");

    let context = buffer.recent_context();
    assert!(context.contains("root@TX:~# ls\nfile.txt"));
}

#[test]
fn terminal_buffer_interprets_ansi_clear_line() {
    let mut buffer = TerminalBuffer::new(3, 20);
    buffer.push_output("Downloading 10%");
    buffer.push_output("\r\x1b[2KDone\n");
    let display = buffer.display_text(true);
    assert!(display.contains("Done"));
    assert!(!display.contains("Downloading 10%"));
}

#[test]
fn terminal_display_text_adds_visible_cursor() {
    assert_eq!(
        terminal_display_text("root@TX:~# ", (0, 11), true),
        "root@TX:~# █"
    );
    assert_eq!(terminal_display_text("", (0, 0), true), "█");
    assert_eq!(
        terminal_display_text("root@TX:~# ", (0, 11), false),
        "root@TX:~# "
    );
}

#[test]
fn terminal_display_text_uses_real_cursor_position() {
    assert_eq!(
        terminal_display_text("root@TX:~# reb", (0, 12), true),
        "root@TX:~# r█b"
    );
}

#[test]
fn terminal_display_text_uses_cell_width_for_chinese_cursor() {
    let line = "# 2. 清理所有m存";
    let cursor_col = display_width(line);

    assert_eq!(
        terminal_display_text(line, (0, cursor_col as u16), true),
        "# 2. 清理所有m存█"
    );
}

#[test]
fn cell_col_to_byte_idx_accounts_for_wide_chars() {
    let line = "# 2. 清理所有m存";
    assert_eq!(&line[cell_col_to_byte_idx(line, 13)..], "m存");
    assert_eq!(cell_col_to_byte_idx(line, display_width(line)), line.len());
}

#[test]
fn terminal_buffer_tracks_application_cursor_mode() {
    let mut buffer = TerminalBuffer::new(10, 40);
    assert!(!buffer.application_cursor_mode());

    buffer.push_output("\x1b[?1h");
    assert!(buffer.application_cursor_mode());

    buffer.push_output("\x1b[?1l");
    assert!(!buffer.application_cursor_mode());
}

#[test]
fn terminal_buffer_tracks_split_application_cursor_sequence() {
    let mut buffer = TerminalBuffer::new(10, 40);
    buffer.push_output("\x1b[?");
    buffer.push_output("1h");
    assert!(buffer.application_cursor_mode());
}

#[test]
fn terminal_buffer_can_scroll_back_to_previous_output() {
    let mut buffer = TerminalBuffer::new(3, 20);
    for i in 1..=8 {
        buffer.push_output(&format!("line{}\r\n", i));
    }

    buffer.scrollback_up(2);
    let historical = buffer.display_text(false);

    assert!(buffer.scrollback_offset() > 0);
    assert!(historical.contains("line4"));
    assert!(historical.contains("line5"));
}

#[test]
fn terminal_buffer_scrollback_bottom_returns_to_live_screen() {
    let mut buffer = TerminalBuffer::new(3, 20);
    for i in 1..=8 {
        buffer.push_output(&format!("line{}\r\n", i));
    }
    let bottom = buffer.display_text(false);

    buffer.scrollback_up(2);
    buffer.scrollback_bottom();

    assert_eq!(buffer.scrollback_offset(), 0);
    assert_eq!(buffer.display_text(false), bottom);
}

#[test]
fn history_display_text_slices_from_bottom_safely() {
    let history = "1\n2\n3\n4\n5\n6\n";
    assert_eq!(history_display_text(history, 3, 0), "4\n5\n6");
    assert_eq!(history_display_text(history, 3, 2), "2\n3\n4");
    assert_eq!(history_display_text(history, 3, 99), "1\n2\n3");
}

#[test]
fn history_display_text_ignores_blank_padding_when_scrolled() {
    let history = "\n\nLast login\n[root@ALIYUN ~]# ps -ef\nUID PID\nroot 1\n\n\nroot 2\n";

    assert_eq!(
        history_display_text(history, 4, 3),
        "Last login\n[root@ALIYUN ~]# ps -ef\nUID PID\nroot 1"
    );
}

#[test]
fn display_width_counts_wide_and_control_characters() {
    assert_eq!(display_width("abc"), 3);
    assert_eq!(display_width("清理"), 4);
    assert_eq!(display_width("a\x07b"), 2);
    assert_eq!(cell_col_to_byte_idx("清理", 1), 3);
    assert_eq!(cell_col_to_byte_idx("清理", 2), 3);
}

#[test]
fn cursor_is_drawn_on_rows_beyond_the_output() {
    assert_eq!(terminal_display_text("a", (2, 1), true), "a\n\n █");
    assert_eq!(terminal_display_text("abc\ndef", (1, 0), true), "abc\n█ef");
}

#[test]
fn sanitize_strips_osc_titles_and_stray_escapes() {
    assert_eq!(sanitize_terminal_output("\x1b]0;title\x07ok"), "ok");
    assert_eq!(sanitize_terminal_output("\x1b]2;t\x1b\\x\x1bZy"), "xZy");
    assert_eq!(sanitize_terminal_output("\x08\x7fab\x7f"), "a");
    assert_eq!(sanitize_terminal_output("\x1b[31"), "");
}

#[test]
fn plain_log_keeps_three_hundred_lines() {
    let mut buffer = TerminalBuffer::new(5, 20);
    for i in 0..310 {
        buffer.push_output(&format!("l{}\n", i));
    }
    let context = buffer.recent_context();
    assert!(context.starts_with("l230\n"));
    assert!(context.ends_with("l309"));
    buffer.scrollback_top();
    assert_eq!(buffer.scrollback_offset(), 295);
    assert_eq!(buffer.max_history_offset(), 295);
    buffer.scrollback_down(5);
    assert_eq!(buffer.scrollback_offset(), 290);
    buffer.scrollback_up(1000);
    assert_eq!(buffer.scrollback_offset(), 295);
}

#[test]
fn clear_and_resize_reset_the_view() {
    let mut buffer = TerminalBuffer::new(3, 20);
    buffer.push_output("a\nb\nc\nd\ne\n\x1b[?1h");
    buffer.scrollback_up(1);
    buffer.resize(10, 30);
    assert_eq!(buffer.scrollback_offset(), 1);
    assert!(buffer.application_cursor_mode());
    buffer.clear();
    assert_eq!(buffer.scrollback_offset(), 0);
    assert!(!buffer.application_cursor_mode());
    assert_eq!(buffer.recent_context(), "");
}

#[test]
fn live_screen_shows_processed_output_with_cursor() {
    let mut buffer = TerminalBuffer::new(3, 10);
    buffer.push_output("hi");
    let shown = buffer.display_text(true);
    assert!(shown.starts_with("hi█"));
}

#[test]
fn scrolling_back_and_forth_returns_to_same_view() {
    let mut buffer = TerminalBuffer::new(3, 20);
    for i in 1..=8 {
        buffer.push_output(&format!("line{}\r\n", i));
    }
    assert_eq!(buffer.max_history_offset(), 5);
    buffer.scrollback_up(1);
    let before = buffer.display_text(false);
    buffer.scrollback_up(2);
    buffer.scrollback_down(2);
    assert_eq!(buffer.scrollback_offset(), 1);
    assert_eq!(buffer.display_text(false), before);
    buffer.scrollback_up(100);
    assert_eq!(buffer.scrollback_offset(), 5);
    buffer.scrollback_down(100);
    assert_eq!(buffer.scrollback_offset(), 0);
}

#[test]
fn narrow_pane_takes_triple_width_characters() {
    let mut buffer = TerminalBuffer::new(2, 3);
    buffer.push_output("a\u{17D8}b\u{17D8}");
    let live = buffer.display_text(false);
    assert_eq!(live.lines().count() <= 2, true);
    buffer.resize(4, 3);
    buffer.push_output("\r\n\u{17D8}\u{17D8}");
    let _ = buffer.display_text(true);
}

#[test]
fn output_split_across_reads_shows_the_same_screen() {
    let mut whole = TerminalBuffer::new(4, 30);
    whole.push_output("Downloading 10%\r\x1b[2KDone\r\n$ ");
    let mut split = TerminalBuffer::new(4, 30);
    split.push_output("Downloading 10%\r\x1b[");
    split.push_output("2KDone\r\n$ ");
    assert_eq!(whole.display_text(true), split.display_text(true));
    assert!(whole.display_text(false).contains("Done"));
    assert!(!whole.display_text(false).contains("Downloading"));
}

#[test]
fn a_resize_ends_wrapped_rows_as_the_emulator_does() {
    let mut buffer = TerminalBuffer::new(3, 5);
    buffer.push_output("abcdefg");
    assert_eq!(buffer.display_text(true), "abcdefg\n  █");
    buffer.resize(3, 5);
    assert_eq!(buffer.display_text(true), "abcde\nfg█");
    buffer.resize(3, 5);
    assert_eq!(buffer.display_text(true), "abcde\nfg█");
}

#[test]
fn pane_keeps_its_columns_when_narrowing_after_wide_characters() {
    let mut plain = TerminalBuffer::new(3, 10);
    plain.push_output("abc");
    assert!(plain.fit_pane(3, 5));
    let mut wide = TerminalBuffer::new(3, 10);
    wide.push_output("ab你");
    assert!(wide.fit_pane(4, 20));
    assert!(!wide.fit_pane(4, 3));
    assert!(wide.fit_pane(4, 20));
    wide.push_output("x");
    assert!(wide.display_text(false).contains("ab你x"));
}

#[test]
fn a_carriage_return_without_line_feed_stays_on_the_last_line() {
    assert_eq!(recent_context("x\r"), "x\r");
    assert_eq!(recent_context("a\r\nb\r"), "a\nb\r");
    assert_eq!(recent_context("a\r\n"), "a");
}
