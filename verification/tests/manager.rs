use benssh::config::VpsEntry;
use benssh::manager::{
    apply_delete, apply_key_login, authorized_keys_command, check_password_login, delete_question,
    is_cancel, key_setup_allowed, keygen_args, AddForm, Answer, EditForm, FormStep, Prompt,
};

fn text(s: &str) -> Answer {
    Answer::Text(s.to_string())
}

fn node(name: &str) -> VpsEntry {
    VpsEntry {
        name: name.to_string(),
        host: "1.1.1.1".to_string(),
        port: 2200,
        user: "ops".to_string(),
        password: Some("old".to_string()),
        key_path: None,
        setup: Some(true),
    }
}

fn asked_text(step: &FormStep) -> (String, Option<String>) {
    match step {
        FormStep::Ask(Prompt::Text { label, default }) => (label.clone(), default.clone()),
        other => panic!("expected a text question, got {:?}", other),
    }
}

#[test]
fn add_dialog_with_password() {
    let (mut form, first) = AddForm::new("/home/u/.ssh/benssh_rsa".to_string());
    assert_eq!(asked_text(&first), ("VPS 别名 (如 阿里云)".to_string(), None));
    assert_eq!(asked_text(&form.answer(text("aliyun"))), ("IP 地址".to_string(), None));
    assert_eq!(asked_text(&form.answer(text("8.8.8.8"))), ("SSH 端口".to_string(), Some("22".to_string())));
    assert_eq!(asked_text(&form.answer(text("not a port"))), ("登录用户名".to_string(), Some("root".to_string())));
    match form.answer(text("root")) {
        FormStep::Ask(Prompt::Confirm { label, default }) => {
            assert_eq!(label, "是否使用密码登录？(选 No 则配置私钥)");
            assert!(default);
        }
        other => panic!("unexpected {:?}", other),
    }
    match form.answer(Answer::Confirm(true)) {
        FormStep::Ask(Prompt::Secret { label }) => assert_eq!(label, "登录密码 (输入时不可见)"),
        other => panic!("unexpected {:?}", other),
    }
    match form.answer(text("s3cret")) {
        FormStep::Finished(e) => {
            assert_eq!(e.name, "aliyun");
            assert_eq!(e.host, "8.8.8.8");
            assert_eq!(e.port, 22);
            assert_eq!(e.user, "root");
            assert_eq!(e.password.as_deref(), Some("s3cret"));
            assert_eq!(e.key_path, None);
            assert_eq!(e.setup, None);
        }
        other => panic!("unexpected {:?}", other),
    }
}

#[test]
fn add_dialog_with_key_and_port() {
    let (mut form, _) = AddForm::new("/home/u/.ssh/benssh_rsa".to_string());
    form.answer(text("tx"));
    form.answer(text("9.9.9.9"));
    form.answer(text("2022"));
    form.answer(text("ubuntu"));
    assert_eq!(
        asked_text(&form.answer(Answer::Confirm(false))),
        ("私钥完整路径".to_string(), Some("/home/u/.ssh/benssh_rsa".to_string()))
    );
    match form.answer(text("/keys/tx")) {
        FormStep::Finished(e) => {
            assert_eq!(e.port, 2022);
            assert_eq!(e.password, None);
            assert_eq!(e.key_path.as_deref(), Some("/keys/tx"));
        }
        other => panic!("unexpected {:?}", other),
    }
}

#[test]
fn add_dialog_cancels_on_q() {
    let (mut form, _) = AddForm::new("/k".to_string());
    form.answer(text("n"));
    match form.answer(text("!q")) {
        FormStep::Cancelled(m) => assert_eq!(m, "操作已取消"),
        other => panic!("unexpected {:?}", other),
    }
    assert!(is_cancel("!q"));
    assert!(!is_cancel("!q "));
}

#[test]
fn add_dialog_repeats_question_on_wrong_answer_kind() {
    let (mut form, _) = AddForm::new("/k".to_string());
    assert_eq!(asked_text(&form.answer(Answer::Confirm(true))), ("VPS 别名 (如 阿里云)".to_string(), None));
}

#[test]
fn edit_dialog_keeps_defaults() {
    let original = node("prod");
    let (mut form, first) = EditForm::new(original.clone());
    assert_eq!(asked_text(&first), ("VPS 别名".to_string(), Some("prod".to_string())));
    assert_eq!(asked_text(&form.answer(text("prod"))), ("IP 地址".to_string(), Some("1.1.1.1".to_string())));
    assert_eq!(asked_text(&form.answer(text("1.1.1.1"))), ("SSH 端口".to_string(), Some("2200".to_string())));
    assert_eq!(asked_text(&form.answer(text("2200"))), ("登录用户名".to_string(), Some("ops".to_string())));
    form.answer(text("ops"));
    match form.answer(Answer::Confirm(false)) {
        FormStep::Finished(e) => {
            assert_eq!(e.name, original.name);
            assert_eq!(e.host, original.host);
            assert_eq!(e.port, original.port);
            assert_eq!(e.user, original.user);
            assert_eq!(e.password, original.password);
            assert_eq!(e.key_path, original.key_path);
            assert_eq!(e.setup, original.setup);
        }
        other => panic!("unexpected {:?}", other),
    }
}

#[test]
fn edit_dialog_new_password_clears_key() {
    let mut original = node("prod");
    original.key_path = Some("/k".to_string());
    let (mut form, _) = EditForm::new(original);
    form.answer(text("p2"));
    form.answer(text("2.2.2.2"));
    form.answer(text("oops"));
    form.answer(text("admin"));
    match form.answer(Answer::Confirm(true)) {
        FormStep::Ask(Prompt::Secret { label }) => assert_eq!(label, "新密码 (输入时不可见)"),
        other => panic!("unexpected {:?}", other),
    }
    match form.answer(text("newpw")) {
        FormStep::Finished(e) => {
            assert_eq!(e.name, "p2");
            assert_eq!(e.port, 2200);
            assert_eq!(e.password.as_deref(), Some("newpw"));
            assert_eq!(e.key_path, None);
            assert_eq!(e.setup, Some(true));
        }
        other => panic!("unexpected {:?}", other),
    }
}

#[test]
fn edit_dialog_cancel_changes_nothing() {
    let (mut form, _) = EditForm::new(node("prod"));
    form.answer(text("renamed"));
    match form.answer(text("!q")) {
        FormStep::Cancelled(m) => assert_eq!(m, "编辑已取消，没有任何内容被修改"),
        other => panic!("unexpected {:?}", other),
    }
}

#[test]
fn delete_only_when_confirmed() {
    let mut entries = vec![node("a"), node("b"), node("c")];
    assert_eq!(delete_question("b"), "🚨 确定要永久删除节点 [b] 吗？");
    assert_eq!(apply_delete(&mut entries, 1, false), "已取消删除操作");
    assert_eq!(entries.len(), 3);
    assert_eq!(apply_delete(&mut entries, 1, true), "节点 [b] 已被彻底删除");
    let names: Vec<&str> = entries.iter().map(|e| e.name.as_str()).collect();
    assert_eq!(names, vec!["a", "c"]);
}

#[test]
fn key_setup_rules() {
    let mut e = node("a");
    assert_eq!(key_setup_allowed(&e), Ok(()));
    assert_eq!(check_password_login(true), Ok(()));
    assert_eq!(check_password_login(false), Err("凭证无效，登入目标机器失败".to_string()));
    apply_key_login(&mut e, "/home/u/.ssh/benssh_rsa".to_string());
    assert_eq!(e.password, None);
    assert_eq!(e.key_path.as_deref(), Some("/home/u/.ssh/benssh_rsa"));
    assert_eq!(e.port, 2200);
    assert_eq!(
        key_setup_allowed(&e),
        Err("必须配置了初始密码的节点才能下发公钥！".to_string())
    );
    assert_eq!(
        keygen_args("/k/id"),
        vec!["-t", "rsa", "-b", "2048", "-m", "PEM", "-N", "", "-f", "/k/id"]
    );
    assert_eq!(
        authorized_keys_command("  ssh-rsa AAAA user@pc \n"),
        "mkdir -p ~/.ssh && chmod 700 ~/.ssh && echo 'ssh-rsa AAAA user@pc' >> ~/.ssh/authorized_keys && chmod 600 ~/.ssh/authorized_keys"
    );
}
