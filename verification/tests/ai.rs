use benssh::ai::{analysis_from_model_text, analysis_from_reply_body, build_prompt, AiAnalysis, AiConfig};

#[test]
fn ai_config_prefers_deepseek_variables() {
    let vars = [
        ("DEEPSEEK_API_KEY", "deepseek-key"),
        ("DEEPSEEK_BASE_URL", "https://api.deepseek.com"),
        ("DEEPSEEK_MODEL", "deepseek-chat"),
        ("OPENAI_API_KEY", "openai-key"),
        ("OPENAI_BASE_URL", "https://api.openai.com/v1"),
        ("OPENAI_MODEL", "gpt-4.1-mini"),
    ];
    let config = AiConfig::from_pairs_and_dotenv(&vars, "");
    assert_eq!(config.api_key.as_deref(), Some("deepseek-key"));
    assert_eq!(config.base_url, "https://api.deepseek.com");
    assert_eq!(config.model, "deepseek-chat");
}

#[test]
fn ai_config_uses_dotenv_when_env_is_missing() {
    let dotenv = r#"
            # DeepSeek settings
            DEEPSEEK_API_KEY="dotenv-key"
            DEEPSEEK_BASE_URL=https://api.deepseek.com
            DEEPSEEK_MODEL='deepseek-chat'
        "#;

    let config = AiConfig::from_pairs_and_dotenv(&Vec::<(&str, &str)>::new(), dotenv);

    assert_eq!(config.api_key.as_deref(), Some("dotenv-key"));
    assert_eq!(config.base_url, "https://api.deepseek.com");
    assert_eq!(config.model, "deepseek-chat");
}

#[test]
fn ai_config_env_overrides_dotenv() {
    let env_vars = [("DEEPSEEK_API_KEY", "env-key")];
    let dotenv = "DEEPSEEK_API_KEY=dotenv-key";

    let config = AiConfig::from_pairs_and_dotenv(&env_vars, dotenv);

    assert_eq!(config.api_key.as_deref(), Some("env-key"));
}

#[test]
fn chat_endpoint_normalizes_base_url() {
    let config = AiConfig {
        api_key: Some("k".into()),
        base_url: "https://api.deepseek.com/".into(),
        model: "deepseek-chat".into(),
    };
    assert_eq!(
        config.chat_endpoint(),
        "https://api.deepseek.com/chat/completions"
    );
}

#[test]
fn prompt_does_not_include_secret_fields() {
    let prompt = build_prompt("prod", "root", "Permission denied", "");
    assert!(prompt.contains("prod"));
    assert!(prompt.contains("root"));
    assert!(prompt.contains("Permission denied"));
    assert!(!prompt.to_lowercase().contains("password"));
    assert!(!prompt.contains("keyPath"));
}

#[test]
fn prompt_requires_short_four_line_answer() {
    let prompt = build_prompt("prod", "root", "recent terminal output", "");
    assert!(prompt.contains("只输出 3 行"));
    assert!(prompt.contains("警告:"));
    assert!(prompt.contains("命令:"));
    assert!(prompt.contains("警告: 无"));
    assert!(prompt.contains("不要重复给同一个修复命令"));
    assert!(prompt.contains("uname -r"));
    assert!(prompt.contains("不要 Markdown"));
}

#[test]
fn prompt_includes_previous_advice_to_avoid_repeated_fix_command() {
    let prompt = build_prompt(
        "prod",
        "root",
        "Security: kernel-core is an installed security update\nSecurity: kernel-core is the currently running version",
        "警告: 高\n问题: 安全内核已安装但未生效\n命令: systemctl reboot",
    );

    assert!(prompt.contains("上一轮 AI 建议"));
    assert!(prompt.contains("systemctl reboot"));
    assert!(prompt.contains("优先给验证当前状态的命令"));
    assert!(prompt.contains("不要重复给同一个修复命令"));
}

#[test]
fn panel_text_only_contains_warning_problem_and_command() {
    let text = AiAnalysis {
        severity: "高".to_string(),
        summary: "服务端口拒绝连接。".to_string(),
        suggestions: vec!["运行 `ss -lntp` 查看监听端口。".to_string()],
    }
    .to_panel_text();

    assert_eq!(text, "警告: 高\n问题: 服务端口拒绝连接。\n命令: ss -lntp");
}

#[test]
fn model_text_is_parsed_into_short_panel() {
    let text = analysis_from_model_text(
        "警告: 高\n问题: SSH 暴力登录尝试过多。\n命令: fail2ban-client status sshd",
    )
    .to_panel_text();

    assert_eq!(
        text,
        "警告: 高\n问题: SSH 暴力登录尝试过多。\n命令: fail2ban-client status sshd"
    );
}

#[test]
fn model_text_parses_semicolon_separated_three_fields() {
    let text = analysis_from_model_text("警告: 无；问题: 无；命令: 无").to_panel_text();

    assert_eq!(text, "警告: 无\n问题: 无\n命令: 无");
}

use benssh::ai::{analysis_failure_text, analysis_from_reply, prepare_model_request};

#[test]
fn dotenv_handles_comments_quotes_and_blanks() {
    let dotenv = "# comment\nOPENAI_API_KEY = openai # trailing comment\nDEEPSEEK_MODEL=\"quoted # kept\"\nNOEQUALS\n=value\nOPENAI_BASE_URL='https://x/v1/'\n";
    let config = AiConfig::from_pairs_and_dotenv(&[], dotenv);
    assert_eq!(config.api_key.as_deref(), Some("openai"));
    assert_eq!(config.model, "quoted # kept");
    assert_eq!(config.base_url, "https://x/v1/");
    assert_eq!(config.chat_endpoint(), "https://x/v1/chat/completions");
}

#[test]
fn blank_environment_value_counts_as_unset() {
    let config = AiConfig::from_pairs_and_dotenv(&[("DEEPSEEK_API_KEY", "   "), ("OPENAI_API_KEY", "k2")], "DEEPSEEK_API_KEY=file");
    assert_eq!(config.api_key.as_deref(), Some("k2"));
    let defaults = AiConfig::from_pairs_and_dotenv(&[], "");
    assert_eq!(defaults.api_key, None);
    assert_eq!(defaults.base_url, "https://api.deepseek.com");
    assert_eq!(defaults.model, "deepseek-chat");
}

#[test]
fn model_request_needs_a_key() {
    let config = AiConfig::from_pairs_and_dotenv(&[], "");
    assert_eq!(
        prepare_model_request(&config, "n", "u", "ctx", "").unwrap_err(),
        "未配置 API Key，无法调用大模型"
    );
    let config = AiConfig::from_pairs_and_dotenv(&[("DEEPSEEK_API_KEY", "k"), ("DEEPSEEK_MODEL", "m")], "");
    let req = prepare_model_request(&config, "n", "u", "ctx", "prev").unwrap();
    assert_eq!(req.api_key, "k");
    assert_eq!(req.model, "m");
    assert_eq!(req.endpoint, "https://api.deepseek.com/chat/completions");
    assert_eq!(req.prompt, build_prompt("n", "u", "ctx", "prev"));
}

#[test]
fn prompt_shows_no_previous_advice_as_none() {
    let prompt = build_prompt("prod", "root", "ctx", "  \n ");
    assert!(prompt.contains("上一轮 AI 建议：\n无\n\n最近终端输出：\nctx"));
    assert!(prompt.starts_with("你是 Linux 运维助手。用户正在通过 BenSSH 的 AI SSH 模式连接节点 `prod`，登录用户 `root`。\n请根据"));
}

#[test]
fn reply_without_content_is_an_error() {
    assert_eq!(analysis_from_reply(None).unwrap_err(), "模型返回格式异常");
    let a = analysis_from_reply(Some("  警告: 中\n问题: 磁盘将满\n命令: df -h  ")).unwrap();
    assert_eq!(a.severity, "中");
    assert_eq!(a.summary, "磁盘将满");
    assert_eq!(a.suggestions, vec!["df -h".to_string()]);
    assert_eq!(analysis_failure_text("boom"), "警告: 高\n问题: 大模型分析失败: boom\n命令: 无");
}

#[test]
fn model_text_without_fields_keeps_the_whole_text() {
    let a = analysis_from_model_text("  something odd  ");
    assert_eq!(a.severity, "参考");
    assert_eq!(a.summary, "something odd");
    assert!(a.suggestions.is_empty());
    assert_eq!(a.to_panel_text(), "警告: 参考\n问题: something odd\n命令: 无");
}

#[test]
fn panel_command_rules() {
    let panel = |s: &str| AiAnalysis { severity: "低".into(), summary: "x".into(), suggestions: vec![s.to_string()] }.to_panel_text();
    assert!(panel("`  `").ends_with("命令: `  `"));
    assert!(panel("systemctl restart nginx。").ends_with("命令: systemctl restart nginx"));
    assert!(panel("重启服务").ends_with("命令: 无"));
    assert!(panel("   ").ends_with("命令: 无"));
    let two = AiAnalysis { severity: "低".into(), summary: "x".into(), suggestions: vec!["检查日志".into(), "`journalctl -xe`".into()] };
    assert!(two.to_panel_text().ends_with("命令: journalctl -xe"));
}

#[test]
fn canonical_answer_reads_back_unchanged() {
    let answer = "警告: 中\n问题: 磁盘将满\n命令: df -h";
    assert_eq!(analysis_from_model_text(answer).to_panel_text(), answer);
    let quiet = "警告: 无\n问题: 无\n命令: 无";
    let parsed = analysis_from_model_text(quiet);
    assert!(parsed.suggestions.is_empty());
    assert_eq!(parsed.to_panel_text(), quiet);
}

#[test]
fn reply_body_is_read_at_choices_message_content() {
    let body = r#"{"choices":[{"message":{"role":"assistant","content":"  警告: 高\n问题: 端口未监听\n命令: ss -lntp  "}}]}"#;
    let analysis = analysis_from_reply_body(body).unwrap();
    assert_eq!(analysis.to_panel_text(), "警告: 高\n问题: 端口未监听\n命令: ss -lntp");
}

#[test]
fn reply_body_that_is_not_json_or_lacks_content_is_a_format_error() {
    assert_eq!(analysis_from_reply_body("<html>bad gateway</html>").unwrap_err(), "模型返回格式异常");
    assert_eq!(analysis_from_reply_body(r#"{"choices":[]}"#).unwrap_err(), "模型返回格式异常");
    assert_eq!(
        analysis_from_reply_body(r#"{"choices":[{"message":{"content":7}}]}"#).unwrap_err(),
        "模型返回格式异常"
    );
}

#[test]
fn chat_messages_are_the_system_rule_then_the_prompt() {
    let m = benssh::ai::chat_messages("p");
    assert_eq!(m.len(), 2);
    assert_eq!(m[0].0, "system");
    assert_eq!(m[0].1, "你是谨慎的 Linux 运维诊断助手，只提供解释和建议，不自动执行命令。");
    assert_eq!(m[1], ("user".to_string(), "p".to_string()));
}
