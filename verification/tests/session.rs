use benssh::config::VpsEntry;
use benssh::keys::{KeyCode, KeyModifiers};
use benssh::session::{
    advice_is_current, ai_key_action, connect_failure, connected_advice, file_browser_action,
    needs_key_setup, pending_advice, server_list_action, AiKeyAction, FileBrowserAction,
    ServerListAction,
};

#[test]
fn server_list_keys() {
    assert_eq!(server_list_action(KeyCode::Enter), ServerListAction::OpenShell);
    assert_eq!(server_list_action(KeyCode::Char('i')), ServerListAction::OpenAiSsh);
    assert_eq!(server_list_action(KeyCode::Char('f')), ServerListAction::BrowseFiles);
    assert_eq!(server_list_action(KeyCode::Char('s')), ServerListAction::SetupKey);
    assert_eq!(server_list_action(KeyCode::Char('j')), ServerListAction::SelectNext);
    assert_eq!(server_list_action(KeyCode::Up), ServerListAction::SelectPrev);
    assert_eq!(server_list_action(KeyCode::Char('z')), ServerListAction::Nothing);
}

#[test]
fn file_browser_keys() {
    assert_eq!(file_browser_action(KeyCode::Esc), FileBrowserAction::Back);
    assert_eq!(file_browser_action(KeyCode::Char('b')), FileBrowserAction::Back);
    assert_eq!(file_browser_action(KeyCode::Enter), FileBrowserAction::Open);
    assert_eq!(file_browser_action(KeyCode::Char('d')), FileBrowserAction::Download);
    assert_eq!(file_browser_action(KeyCode::Char('u')), FileBrowserAction::Upload);
    assert_eq!(file_browser_action(KeyCode::Down), FileBrowserAction::SelectNext);
    assert_eq!(file_browser_action(KeyCode::Tab), FileBrowserAction::Nothing);
}

#[test]
fn ai_pane_keys() {
    let none = KeyModifiers::empty();
    let ctrl = KeyModifiers::with_control();
    assert_eq!(ai_key_action(KeyCode::F(2), none, false), AiKeyAction::ToggleCopyMode);
    assert_eq!(ai_key_action(KeyCode::Char('q'), ctrl, false), AiKeyAction::Exit);
    assert_eq!(ai_key_action(KeyCode::Char('q'), none, false), AiKeyAction::Type(Some("q".into())));
    assert_eq!(ai_key_action(KeyCode::PageUp, none, false), AiKeyAction::PageUp);
    assert_eq!(ai_key_action(KeyCode::Home, ctrl, false), AiKeyAction::Top);
    assert_eq!(ai_key_action(KeyCode::End, ctrl, false), AiKeyAction::Bottom);
    assert_eq!(ai_key_action(KeyCode::Home, none, true), AiKeyAction::Type(Some("\x1bOH".into())));
    assert_eq!(ai_key_action(KeyCode::Char('c'), ctrl, false), AiKeyAction::Interrupt);
    assert_eq!(ai_key_action(KeyCode::Char('d'), ctrl, false), AiKeyAction::Type(Some("\x04".into())));
    assert_eq!(ai_key_action(KeyCode::Char('1'), ctrl, false), AiKeyAction::Type(None));
    assert_eq!(ai_key_action(KeyCode::Enter, none, false), AiKeyAction::Type(Some("\n".into())));
    assert_eq!(ai_key_action(KeyCode::Backspace, none, false), AiKeyAction::Type(Some("\x7f".into())));
    assert_eq!(ai_key_action(KeyCode::Tab, none, false), AiKeyAction::Type(Some("\t".into())));
    assert_eq!(ai_key_action(KeyCode::Esc, none, false), AiKeyAction::Type(Some("\x1b".into())));
    assert_eq!(ai_key_action(KeyCode::Other, none, false), AiKeyAction::Nothing);
}

#[test]
fn ai_pane_messages() {
    let mut e = VpsEntry {
        name: "n".into(),
        host: "h".into(),
        port: 22,
        user: "u".into(),
        password: Some("p".into()),
        key_path: None,
        setup: None,
    };
    assert!(needs_key_setup(&e));
    e.key_path = Some("/k".into());
    assert!(!needs_key_setup(&e));
    assert!(connected_advice(true).contains("请求大模型"));
    assert!(connected_advice(false).contains("未配置 API Key"));
    assert_eq!(pending_advice(true), "警告: 判断中\n问题: 正在请求大模型分析\n命令: 无");
    assert_eq!(pending_advice(false), "警告: 高\n问题: 未配置 API Key，无法使用大模型判断\n命令: 无");
    assert!(advice_is_current("a\nb", "a\nb"));
    assert!(!advice_is_current("a", "b"));
    let (advice, notice) = connect_failure("timeout", false);
    assert_eq!(advice, "警告: 高\n问题: AI SSH 连接失败: timeout\n命令: 无");
    assert!(notice.starts_with("❌ AI SSH 连接失败: timeout\n\n警告: 高"));
    assert!(notice.ends_with("$env:DEEPSEEK_API_KEY=\"你的key\"。"));
}
