use usque::hooks::{comes_before, run_hook, HookEnv};

#[test]
fn hook_env_builder() {
    let env = HookEnv::default()
        .with("USQUE_MODE", "socks")
        .with("USQUE_EVENT", "connect");
    assert_eq!(env.get("USQUE_MODE"), Some("socks"));
    assert_eq!(env.get("USQUE_EVENT"), Some("connect"));
}

#[test]
fn empty_hook_path_is_noop() {
    assert!(run_hook("", HookEnv::default()).is_none());
}

#[test]
fn the_last_value_counts() {
    let env = HookEnv::default().with("A", "1").with("B", "2").with("A", "3");
    assert_eq!(env.len(), 2);
    assert_eq!(env.get("A"), Some("3"));
    assert_eq!(env.get("B"), Some("2"));
    assert_eq!(env.get("C"), None);
}

#[test]
fn variables_come_in_order() {
    let env = HookEnv::default()
        .with("USQUE_MODE", "m")
        .with("USQUE_EVENT", "disconnect")
        .with("USQUE", "u")
        .with("USQUE_IPV6", "6")
        .with("USQUE_IPV4", "4");
    let copied = env.copy();
    let run = run_hook("/bin/hook", env).unwrap();
    assert_eq!(run.path, "/bin/hook");
    assert_eq!(run.prefix, "hook[disconnect]");
    let names: Vec<&str> = run.env.iter().map(|pair| pair.0.as_str()).collect();
    assert_eq!(names, vec!["USQUE", "USQUE_EVENT", "USQUE_IPV4", "USQUE_IPV6", "USQUE_MODE"]);
    assert_eq!(copied.entries(), run.env);
}

#[test]
fn the_order_of_setting_does_not_matter() {
    let one = HookEnv::default().with("B", "2").with("A", "1").with("C", "3");
    let other = HookEnv::default().with("C", "3").with("A", "0").with("B", "2").with("A", "1");
    assert_eq!(one.entries(), other.entries());
}

#[test]
fn hook_without_an_event() {
    let run = run_hook("x", HookEnv::default().with("OTHER", "1")).unwrap();
    assert_eq!(run.prefix, "hook[hook]");
    assert_eq!(run.env, vec![("OTHER".to_string(), "1".to_string())]);
}

#[test]
fn order_of_names() {
    assert!(comes_before("A", "B"));
    assert!(comes_before("A", "AA"));
    assert!(comes_before("", "A"));
    assert!(!comes_before("A", "A"));
    assert!(!comes_before("B", "A"));
    assert!(!comes_before("AA", "A"));
}
