use comment_checker::setup::{
    already_installed, init_error, init_step, is_blank_settings, is_comment_checker_entry,
    own_hook_entry, settings_location, uninstall_step, HookEntryInfo, InitStep, PostToolUse,
    UninstallStep, HOOK_COMMAND, HOOK_MATCHER,
};
use comment_checker::cli::Target;

fn entry(commands: &[Option<&str>]) -> HookEntryInfo {
    HookEntryInfo {
        commands: Some(commands.iter().map(|c| c.map(|s| s.to_string())).collect()),
    }
}

#[test]
fn recognises_own_entries() {
    assert!(is_comment_checker_entry(&entry(&[Some("comment-checker --hook")])));
    assert!(is_comment_checker_entry(&entry(&[None, Some("/usr/bin/comment-checker")])));
    assert!(!is_comment_checker_entry(&entry(&[Some("prettier --write")])));
    assert!(!is_comment_checker_entry(&entry(&[None])));
    assert!(!is_comment_checker_entry(&HookEntryInfo { commands: None }));
    assert!(is_comment_checker_entry(&own_hook_entry()));
}

#[test]
fn already_installed_looks_at_every_entry() {
    assert!(!already_installed(&[]));
    assert!(already_installed(&[entry(&[Some("x")]), entry(&[Some("comment-checker")])]));
    assert!(!already_installed(&[entry(&[Some("x")]), entry(&[])]));
}

#[test]
fn init_steps() {
    assert_eq!(init_step(&PostToolUse::RootNotObject), InitStep::RootNotObject);
    assert_eq!(init_step(&PostToolUse::HooksNotObject), InitStep::HooksNotObject);
    assert_eq!(init_step(&PostToolUse::NotArray), InitStep::NotArray);
    assert_eq!(init_step(&PostToolUse::NoHooks), InitStep::Append);
    assert_eq!(init_step(&PostToolUse::NoPostToolUse), InitStep::Append);
    assert_eq!(init_step(&PostToolUse::Entries(vec![entry(&[Some("y")])])), InitStep::Append);
    assert_eq!(
        init_step(&PostToolUse::Entries(vec![own_hook_entry()])),
        InitStep::AlreadyInstalled
    );
    assert_eq!(init_error(&InitStep::RootNotObject), Some("settings file is not a JSON object"));
    assert_eq!(init_error(&InitStep::HooksNotObject), Some("hooks field is not a JSON object"));
    assert_eq!(init_error(&InitStep::NotArray), Some("PostToolUse field is not an array"));
    assert_eq!(init_error(&InitStep::Append), None);
    assert_eq!(init_error(&InitStep::AlreadyInstalled), None);
}

#[test]
fn init_twice_finds_the_hook() {
    let before = vec![entry(&[Some("lint")])];
    assert_eq!(init_step(&PostToolUse::Entries(before)), InitStep::Append);
    let after = vec![entry(&[Some("lint")]), own_hook_entry()];
    assert_eq!(init_step(&PostToolUse::Entries(after)), InitStep::AlreadyInstalled);
}

#[test]
fn uninstall_steps() {
    assert!(matches!(uninstall_step(&PostToolUse::RootNotObject), UninstallStep::NoHooks));
    assert!(matches!(uninstall_step(&PostToolUse::NoHooks), UninstallStep::NoHooks));
    assert!(matches!(uninstall_step(&PostToolUse::HooksNotObject), UninstallStep::NoPostToolUse));
    assert!(matches!(uninstall_step(&PostToolUse::NoPostToolUse), UninstallStep::NoPostToolUse));
    assert!(matches!(uninstall_step(&PostToolUse::NotArray), UninstallStep::NotArray));
    assert!(matches!(
        uninstall_step(&PostToolUse::Entries(vec![entry(&[Some("lint")])])),
        UninstallStep::NotFound
    ));
    match uninstall_step(&PostToolUse::Entries(vec![
        entry(&[Some("lint")]),
        own_hook_entry(),
        entry(&[Some("fmt")]),
        entry(&[Some("comment-checker --hook")]),
    ])) {
        UninstallStep::Remove(keep) => assert_eq!(keep, vec![true, false, true, false]),
        other => panic!("unexpected {other:?}"),
    }
}

#[test]
fn settings_files_and_hook_constants() {
    let (dir, file) = settings_location(Target::Codex, "codex");
    assert_eq!(dir, ".codex");
    assert_eq!(file, "hooks.json");
    let (_, file) = settings_location(Target::Claude, "agent");
    assert_eq!(file, "settings.json");
    assert_eq!(HOOK_MATCHER, "Write|Create|Edit|MultiEdit");
    assert_eq!(HOOK_COMMAND, "comment-checker");
}

#[test]
fn blank_settings() {
    assert!(is_blank_settings(""));
    assert!(is_blank_settings("  \n"));
    assert!(is_blank_settings(" {} \n"));
    assert!(!is_blank_settings("{ }"));
    assert!(!is_blank_settings("{\"hooks\":{}}"));
}
