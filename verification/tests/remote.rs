use benssh::config::VpsEntry;
use benssh::remote::{
    build_listing, check_authenticated, child_path, choose_auth, parent_path, AuthMethod, RemoteFile,
};

fn file(name: &str, is_dir: bool, size: u64) -> RemoteFile {
    RemoteFile { name: name.to_string(), is_dir, size }
}

fn names(files: &[RemoteFile]) -> Vec<String> {
    files.iter().map(|f| f.name.clone()).collect()
}

fn node(key: Option<&str>, password: Option<&str>) -> VpsEntry {
    VpsEntry {
        name: "n".to_string(),
        host: "h".to_string(),
        port: 22,
        user: "admin".to_string(),
        password: password.map(|s| s.to_string()),
        key_path: key.map(|s| s.to_string()),
        setup: None,
    }
}

#[test]
fn listing_puts_directories_first_sorted_by_name() {
    let raw = vec![
        file("zeta.txt", false, 5),
        file(".", true, 0),
        file("bin", true, 0),
        file("..", true, 0),
        file("alpha.txt", false, 9),
        file("Docs", true, 0),
    ];
    let listing = build_listing("/root", &raw);
    assert_eq!(names(&listing), vec!["..", "Docs", "bin", "alpha.txt", "zeta.txt"]);
    assert!(listing[0].is_dir && listing[0].size == 0);
    assert_eq!(listing[3].size, 9);
}

#[test]
fn listing_of_root_has_no_parent_entry() {
    let raw = vec![file("etc", true, 0), file("..", true, 0), file("a", false, 1)];
    assert_eq!(names(&build_listing("/", &raw)), vec!["etc", "a"]);
    assert_eq!(names(&build_listing("/", &Vec::new())), Vec::<String>::new());
}

#[test]
fn listing_orders_by_code_point_and_prefix() {
    let raw = vec![file("ab", false, 0), file("a", false, 0), file("B", false, 0), file("清", false, 0)];
    assert_eq!(names(&build_listing("/", &raw)), vec!["B", "a", "ab", "清"]);
}

#[test]
fn child_and_parent_paths() {
    assert_eq!(child_path("/", "etc"), "/etc");
    assert_eq!(child_path("/root", "a.txt"), "/root/a.txt");
    assert_eq!(parent_path("/root/projects"), "/root");
    assert_eq!(parent_path("/root"), "/");
    assert_eq!(parent_path("/"), "/");
    assert_eq!(parent_path("//a//b/"), "/a");
    assert_eq!(parent_path(&child_path("/var/log", "nginx")), "/var/log");
    assert_eq!(parent_path(&child_path("/", "tmp")), "/");
}

#[test]
fn authentication_prefers_the_key() {
    match choose_auth(&node(Some("/home/u/.ssh/id"), Some("pw"))) {
        Ok(AuthMethod::PublicKey { user, private_key, public_key }) => {
            assert_eq!(user, "admin");
            assert_eq!(private_key, "/home/u/.ssh/id");
            assert_eq!(public_key, "/home/u/.ssh/id.pub");
        }
        other => panic!("unexpected {:?}", other),
    }
    match choose_auth(&node(None, Some("pw"))) {
        Ok(AuthMethod::Password { user, password }) => {
            assert_eq!(user, "admin");
            assert_eq!(password, "pw");
        }
        other => panic!("unexpected {:?}", other),
    }
    match choose_auth(&node(None, None)) {
        Err(e) => assert_eq!(e, "节点未配置任何有效凭证（密码或私钥），拒绝访问"),
        other => panic!("unexpected {:?}", other),
    }
}

#[test]
fn unauthenticated_session_is_rejected() {
    assert_eq!(check_authenticated(true), Ok(()));
    assert_eq!(
        check_authenticated(false),
        Err("SFTP 拒绝访问：凭证失效，请检查密钥或密码是否被吊销".to_string())
    );
}

#[test]
fn listing_keeps_equal_entries_in_arrival_order() {
    let raw = vec![file("same", false, 2), file("b", true, 0), file("same", false, 1)];
    let listing = build_listing("/", &raw);
    assert_eq!(names(&listing), vec!["b", "same", "same"]);
    assert_eq!(listing[1].size, 2);
    assert_eq!(listing[2].size, 1);
}
