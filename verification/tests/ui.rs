use benssh::config::VpsEntry;
use benssh::keys::AppMode;
use benssh::remote::RemoteFile;
use benssh::ui::{
    ai_pty_size, ai_terminal_title, cursor_visible, file_label, file_panel_title, help_text, page_rows,
    select_next, select_prev, selection_after_delete, server_label, terminal_panel_size, centered_rect, Area,
};

#[test]
fn selection_wraps_around() {
    assert_eq!(select_next(Some(0), 3), 1);
    assert_eq!(select_next(Some(2), 3), 0);
    assert_eq!(select_next(None, 3), 0);
    assert_eq!(select_next(Some(0), 0), 0);
    assert_eq!(select_prev(Some(0), 3), 2);
    assert_eq!(select_prev(Some(2), 3), 1);
    assert_eq!(select_prev(None, 3), 0);
    assert_eq!(select_prev(Some(0), 0), 0);
    for i in 0..5 {
        assert_eq!(select_prev(Some(select_next(Some(i), 5)), 5), i);
    }
}

#[test]
fn selection_moves_up_after_deleting_the_last_entry() {
    assert_eq!(selection_after_delete(2, 2), 1);
    assert_eq!(selection_after_delete(0, 0), 0);
    assert_eq!(selection_after_delete(1, 3), 1);
}

#[test]
fn pane_sizes_keep_minimums() {
    assert_eq!(ai_pty_size(100, 40), (28, 96));
    assert_eq!(ai_pty_size(10, 5), (1, 20));
    assert_eq!(page_rows(40), 28);
    assert_eq!(page_rows(3), 1);
    assert_eq!(terminal_panel_size(50, 10), (8, 48));
    assert_eq!(terminal_panel_size(5, 1), (1, 20));
}

#[test]
fn cursor_blinks_every_half_second() {
    assert!(cursor_visible(0));
    assert!(cursor_visible(499));
    assert!(!cursor_visible(500));
    assert!(cursor_visible(1000));
}

#[test]
fn labels_and_titles() {
    let e = VpsEntry {
        name: "prod".into(),
        host: "1.2.3.4".into(),
        port: 22,
        user: "root".into(),
        password: None,
        key_path: Some("/k".into()),
        setup: None,
    };
    assert_eq!(server_label(&e), " 🔒 [prod] 1.2.3.4");
    let p = VpsEntry { key_path: None, password: Some("x".into()), ..e };
    assert_eq!(server_label(&p), " 🔑 [prod] 1.2.3.4");
    assert_eq!(
        file_label(&RemoteFile { name: "a.txt".into(), is_dir: false, size: 1024 }),
        " 📄 a.txt (1024 Bytes)"
    );
    assert_eq!(file_label(&RemoteFile { name: "bin".into(), is_dir: true, size: 7 }), " 📁 bin ");
    assert_eq!(file_panel_title("/root"), " 📂 目录: /root ");
    assert_eq!(ai_terminal_title("root", "prod", 0, false), " AI SSH: root@prod ");
    assert_eq!(ai_terminal_title("root", "prod", 12, true), " AI SSH: root@prod | 历史 +12 | 复制模式 ");
    assert!(help_text(AppMode::ServerList).contains("[i]AI SSH"));
    assert!(help_text(AppMode::FileBrowser).contains("[u]上传至当前目录"));
}

#[test]
fn popup_is_centered_in_the_screen() {
    let screen = Area { x: 0, y: 0, width: 100, height: 50 };
    assert_eq!(centered_rect(60, 40, screen), Area { x: 20, y: 15, width: 60, height: 20 });
    let full = centered_rect(100, 100, screen);
    assert_eq!(full, screen);
}
