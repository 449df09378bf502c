use std::path::{Path, PathBuf};

use comment_checker::config::{
    config_home, default_true, load_config, merge, Config, ConfigHome, ParserConfig,
};

fn cfg(allowlist: &[&str], instruction: Option<&str>, path: Option<&str>) -> Config {
    Config {
        allowlist: allowlist.iter().map(|s| s.to_string()).collect(),
        languages: Vec::new(),
        instruction: instruction.map(|s| s.to_string()),
        parsers: ParserConfig {
            path: path.map(PathBuf::from),
            auto_download: true,
        },
    }
}

#[test]
fn test_merge_appends_allowlists() {
    let merged = merge(cfg(&["A"], None, None), cfg(&["B", "C"], None, None));
    assert_eq!(merged.allowlist, vec!["A", "B", "C"]);
}

#[test]
fn test_merge_project_instruction_overrides_global() {
    let merged = merge(cfg(&[], Some("global"), None), cfg(&[], Some("project"), None));
    assert_eq!(merged.instruction.as_deref(), Some("project"));
}

#[test]
fn test_merge_falls_back_to_global_instruction() {
    let merged = merge(cfg(&[], Some("global"), None), cfg(&[], None, None));
    assert_eq!(merged.instruction.as_deref(), Some("global"));
}

#[test]
fn test_merge_project_parser_path_wins() {
    let merged = merge(
        cfg(&[], None, Some("/global/parsers")),
        cfg(&[], None, Some("/project/parsers")),
    );
    assert_eq!(
        merged.parsers.path.as_deref(),
        Some(Path::new("/project/parsers"))
    );
}

#[test]
fn test_merge_falls_back_to_global_parser_path() {
    let merged = merge(
        cfg(&[], None, Some("/global/parsers")),
        cfg(&[], None, None),
    );
    assert_eq!(
        merged.parsers.path.as_deref(),
        Some(Path::new("/global/parsers"))
    );
}

#[test]
fn test_merge_auto_download_uses_project_value() {
    let mut global = cfg(&[], None, None);
    global.parsers.auto_download = true;
    let mut project = cfg(&[], None, None);
    project.parsers.auto_download = false;
    let merged = merge(global, project);
    assert!(!merged.parsers.auto_download);
}

#[test]
fn default_config_is_empty_with_downloads_on() {
    let c = Config::default();
    assert!(c.allowlist.is_empty());
    assert!(c.languages.is_empty());
    assert!(c.instruction.is_none());
    assert!(c.parsers.path.is_none());
    assert!(c.parsers.auto_download);
    assert!(default_true());
    assert!(ParserConfig::default().auto_download);
}

#[test]
fn merge_with_default_global_is_the_project() {
    let merged = merge(Config::default(), cfg(&["X", "Y"], Some("i"), Some("/p")));
    assert_eq!(merged.allowlist, vec!["X", "Y"]);
    assert_eq!(merged.instruction.as_deref(), Some("i"));
    assert_eq!(merged.parsers.path.as_deref(), Some(Path::new("/p")));
}

#[test]
fn merge_is_associative_on_values() {
    let left = merge(merge(cfg(&["a"], Some("1"), None), cfg(&["b"], None, Some("/2"))), cfg(&["c"], None, None));
    let right = merge(cfg(&["a"], Some("1"), None), merge(cfg(&["b"], None, Some("/2")), cfg(&["c"], None, None)));
    assert_eq!(left.allowlist, right.allowlist);
    assert_eq!(left.instruction, right.instruction);
    assert_eq!(left.parsers.path, right.parsers.path);
    assert_eq!(left.parsers.auto_download, right.parsers.auto_download);
}

#[test]
fn load_config_without_project_is_global() {
    let c = load_config(cfg(&["G"], Some("g"), None), None);
    assert_eq!(c.allowlist, vec!["G"]);
    assert_eq!(c.instruction.as_deref(), Some("g"));
}

#[test]
fn load_config_first_found_wins() {
    let mut project = cfg(&["P"], None, None);
    project.languages = vec!["rust".to_string()];
    let c = load_config(cfg(&["G"], Some("g"), Some("/g")), Some(project));
    assert_eq!(c.allowlist, vec!["P"]);
    assert_eq!(c.languages, vec!["rust"]);
    assert!(c.instruction.is_none());
    assert!(c.parsers.path.is_none());
}

#[test]
fn merge_languages_project_list_wins_when_given() {
    let mut global = cfg(&[], None, None);
    global.languages = vec!["go".to_string()];
    let merged = merge(global, cfg(&[], None, None));
    assert_eq!(merged.languages, vec!["go"]);
    let mut global = cfg(&[], None, None);
    global.languages = vec!["go".to_string()];
    let mut project = cfg(&[], None, None);
    project.languages = vec!["rust".to_string(), "python".to_string()];
    let merged = merge(global, project);
    assert_eq!(merged.languages, vec!["rust", "python"]);
}

#[test]
fn config_home_prefers_non_empty_xdg() {
    match config_home(Some("/x".to_string()), Some("/h".to_string())) {
        Some(ConfigHome::Xdg(d)) => assert_eq!(d, "/x"),
        other => panic!("unexpected {other:?}"),
    }
    match config_home(Some(String::new()), Some("/h".to_string())) {
        Some(ConfigHome::Home(d)) => assert_eq!(d, "/h"),
        other => panic!("unexpected {other:?}"),
    }
    assert!(config_home(None, Some(String::new())).is_none());
    assert!(config_home(None, None).is_none());
}
