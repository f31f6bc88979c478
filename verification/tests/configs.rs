use plm::configs::{get_global_plmrc_path, parse_plmrc_contents, CliConfigs, DEFAULT_REGISTRY};

fn e(k: &str, v: &str) -> (String, String) {
    (k.to_string(), v.to_string())
}

#[test]
fn parse_plmrc_skips_comments_blank_and_malformed_lines() {
    let text = "# a comment\n\n  registry = http://r:1  \nnot a pair\nusername=me=you\r\n   # another\ntoken=\n";
    let entries = parse_plmrc_contents(text);
    assert_eq!(
        entries,
        vec![e("registry", "http://r:1"), e("username", "me=you"), e("token", "")]
    );
}

#[test]
fn parse_plmrc_empty_text() {
    assert_eq!(parse_plmrc_contents(""), vec![]);
}

#[test]
fn new_configs_use_default_registry() {
    let c = CliConfigs::new("/work".to_string());
    assert_eq!(c.registry, DEFAULT_REGISTRY);
    assert_eq!(c.current_dir, "/work");
    assert!(c.username.is_none() && c.password.is_none() && c.token.is_none());
}

#[test]
fn plmrc_contents_fill_missing_with_empty() {
    let mut c = CliConfigs::new("/w".to_string());
    c.registry = "http://reg".to_string();
    c.token = Some("tok".to_string());
    assert_eq!(c.plmrc_contents(), "registry=http://reg\nusername=\ntoken=tok");
}

#[test]
fn plmrc_round_trip() {
    let mut c = CliConfigs::new("/w".to_string());
    c.registry = "http://reg:7575".to_string();
    c.username = Some("alice".to_string());
    c.token = Some("t0k3n".to_string());
    let text = c.plmrc_contents();
    let mut fresh = CliConfigs::new("/other".to_string());
    let unsupported = fresh.load_plmrc_files(&parse_plmrc_contents(&text), None);
    assert!(unsupported.is_empty());
    assert_eq!(fresh.registry, "http://reg:7575");
    assert_eq!(fresh.username, Some("alice".to_string()));
    assert_eq!(fresh.token, Some("t0k3n".to_string()));
    assert_eq!(fresh.current_dir, "/other");
}

#[test]
fn local_file_overrides_global_but_not_token() {
    let mut c = CliConfigs::new("/w".to_string());
    let global = vec![e("registry", "g"), e("token", "gt"), e("username", "gu"), e("color", "red")];
    let local = vec![e("registry", "l"), e("token", "lt"), e("password", "lp")];
    let unsupported = c.load_plmrc_files(&global, Some(&local));
    assert_eq!(unsupported, vec!["color".to_string()]);
    assert_eq!(c.registry, "l");
    assert_eq!(c.token, Some("gt".to_string()));
    assert_eq!(c.username, Some("gu".to_string()));
    assert_eq!(c.password, Some("lp".to_string()));
}

#[test]
fn later_entry_wins() {
    let mut c = CliConfigs::new("/w".to_string());
    let global = vec![e("registry", "first"), e("registry", "second")];
    c.load_plmrc_files(&global, None);
    assert_eq!(c.registry, "second");
}

#[test]
fn set_config_only_accepts_registry() {
    let mut c = CliConfigs::new("/w".to_string());
    assert!(c.set_config("registry", "http://x".to_string()));
    assert_eq!(c.registry, "http://x");
    assert!(!c.set_config("token", "y".to_string()));
    assert_eq!(c.token, None);
    assert_eq!(c.registry, "http://x");
}

#[test]
fn dot_plmrc_copies_shown_settings() {
    let mut c = CliConfigs::new("/w".to_string());
    c.username = Some("bob".to_string());
    let d = c.to_dot_plmrc();
    assert_eq!(d.registry, DEFAULT_REGISTRY);
    assert_eq!(d.username, Some("bob".to_string()));
    assert_eq!(d.token, None);
}

#[test]
fn global_plmrc_location() {
    assert_eq!(get_global_plmrc_path("/home/u"), "/home/u/.plmrc");
    assert_eq!(get_global_plmrc_path("/home/u/"), "/home/u/.plmrc");
}

#[test]
fn unsupported_key_reported_once() {
    let mut c = CliConfigs::new("/w".to_string());
    let global = vec![e("color", "red"), e("registry", "g"), e("color", "blue"), e("theme", "x"), e("color", "z")];
    let unsupported = c.load_plmrc_files(&global, None);
    assert_eq!(unsupported, vec!["color".to_string(), "theme".to_string()]);
}
