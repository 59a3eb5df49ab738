use benssh::advice::{analysis_fingerprint, compact_advice_text, should_trigger_ai_analysis};
use std::time::Duration;

fn millis(d: Duration) -> u128 {
    d.as_millis()
}

#[test]
fn ai_analysis_does_not_trigger_on_partial_typing() {
    assert_eq!(
        should_trigger_ai_analysis("reb", "", millis(Duration::from_secs(60))),
        None
    );
}

#[test]
fn ai_analysis_triggers_on_complete_remote_output() {
    let output = "README.md\nsrc\ntarget\n";
    assert!(should_trigger_ai_analysis(output, "", millis(Duration::from_secs(60))).is_some());
}

#[test]
fn ai_analysis_deduplicates_same_output_once() {
    let output = "README.md\nsrc\ntarget\n";
    let fingerprint = should_trigger_ai_analysis(output, "", millis(Duration::from_secs(60))).unwrap();
    assert_eq!(
        should_trigger_ai_analysis(output, &fingerprint, millis(Duration::from_secs(60))),
        None
    );
}

#[test]
fn ai_analysis_respects_cooldown() {
    let output = "README.md\nsrc\ntarget\n";
    assert_eq!(
        should_trigger_ai_analysis(output, "", millis(Duration::from_secs(5))),
        None
    );
}

#[test]
fn compact_advice_text_hides_details_by_default() {
    let text = "警告: 高\n问题: 有安全更新\n命令: dnf upgrade-minimal --security\n来源: 大模型\n原因:\n- 很长";
    let compact = compact_advice_text(text, false);
    assert!(compact.contains("警告: 高"));
    assert!(compact.contains("问题: 有安全更新"));
    assert!(compact.contains("命令: dnf upgrade-minimal --security"));
    assert!(!compact.contains("来源:"));
    assert!(!compact.contains("原因:"));
    assert!(!compact.contains("[Tab]"));
}

#[test]
fn compact_advice_text_keeps_everything_when_expanded() {
    let text = "警告: 高\n来源: 大模型\n";
    assert_eq!(compact_advice_text(text, true), text);
}

#[test]
fn compact_advice_text_keeps_at_most_three_panel_lines() {
    let text = "  正在请求\n警告: 高\n\n问题: x\n命令: y\n未配置 key";
    assert_eq!(compact_advice_text(text, false), "正在请求\n警告: 高\n问题: x");
}

#[test]
fn fingerprint_takes_four_trimmed_lines() {
    assert_eq!(analysis_fingerprint("  a \n\n b\nc\nd\ne\n"), "a\nb\nc\nd");
    let long = "x".repeat(300);
    assert_eq!(analysis_fingerprint(&long).chars().count(), 240);
}

#[test]
fn long_single_line_output_triggers() {
    let line = "error: something went wrong in the build step";
    assert!(line.len() >= 40);
    assert_eq!(
        should_trigger_ai_analysis(line, "", 20_000),
        Some(line.to_string())
    );
    assert_eq!(should_trigger_ai_analysis("short but not typed", "", 20_000), None);
    assert_eq!(should_trigger_ai_analysis("\x1b[0m  \r\n", "", 60_000), None);
}

#[test]
fn cooldown_ends_at_twenty_seconds() {
    let output = "README.md\nsrc\n";
    assert_eq!(should_trigger_ai_analysis(output, "", 19_999), None);
    assert_eq!(
        should_trigger_ai_analysis(output, "", 20_000),
        Some("README.md\nsrc".to_string())
    );
}
