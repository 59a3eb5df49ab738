use benssh::config::{parse_port, port_text, VpsEntry};
use benssh::shell::{ai_ssh_args, interactive_shell_args};

fn entry(key: Option<&str>, password: Option<&str>) -> VpsEntry {
    VpsEntry {
        name: "prod".to_string(),
        host: "10.0.0.1".to_string(),
        port: 2222,
        user: "root".to_string(),
        password: password.map(|s| s.to_string()),
        key_path: key.map(|s| s.to_string()),
        setup: None,
    }
}

#[test]
fn port_parsing_follows_u16_rules() {
    assert_eq!(parse_port("22"), Some(22));
    assert_eq!(parse_port("+22"), Some(22));
    assert_eq!(parse_port("0022"), Some(22));
    assert_eq!(parse_port("65535"), Some(65535));
    assert_eq!(parse_port("65536"), None);
    assert_eq!(parse_port("99999999999"), None);
    assert_eq!(parse_port(""), None);
    assert_eq!(parse_port("+"), None);
    assert_eq!(parse_port("-1"), None);
    assert_eq!(parse_port(" 22"), None);
    assert_eq!(parse_port("2a"), None);
    for p in [0u16, 7, 22, 80, 443, 8080, 65535] {
        assert_eq!(p.to_string().parse::<u16>().ok(), parse_port(&p.to_string()));
    }
}

#[test]
fn port_text_round_trips() {
    for p in [0u16, 9, 10, 22, 2222, 65535] {
        assert_eq!(port_text(p), p.to_string());
        assert_eq!(parse_port(&port_text(p)), Some(p));
    }
}

#[test]
fn ai_ssh_args_with_and_without_key() {
    assert_eq!(
        ai_ssh_args(&entry(Some("/k/id"), None)),
        vec!["-tt", "-p", "2222", "-i", "/k/id", "root@10.0.0.1"]
    );
    assert_eq!(
        ai_ssh_args(&entry(None, Some("pw"))),
        vec!["-tt", "-p", "2222", "root@10.0.0.1"]
    );
}

#[test]
fn interactive_shell_args_open_a_titled_tab() {
    assert_eq!(
        interactive_shell_args(&entry(Some("/k/id"), None)),
        vec![
            "-w", "0", "new-tab", "--title", "prod", "--suppressApplicationTitle", "ssh", "-p", "2222",
            "-i", "/k/id", "root@10.0.0.1"
        ]
    );
    assert_eq!(
        interactive_shell_args(&entry(None, None)),
        vec![
            "-w", "0", "new-tab", "--title", "prod", "--suppressApplicationTitle", "ssh", "-p", "2222",
            "root@10.0.0.1"
        ]
    );
}
