use cmd_guard::preset::{apply_presets, available_preset_names};
use cmd_guard::types::{AllowEntry, AllowlistConfig};

fn s(v: &[&str]) -> Vec<String> {
    v.iter().map(|x| x.to_string()).collect()
}

fn config_with(entries: &[(&str, AllowEntry)], presets: &[&str]) -> AllowlistConfig {
    let mut c = AllowlistConfig::default();
    for (k, e) in entries {
        c.allow.insert(k.to_string(), e.copy());
    }
    c.presets = s(presets);
    c
}

fn any() -> AllowEntry {
    AllowEntry::default()
}

#[test]
fn available_presets_includes_no_coreutils() {
    let names = available_preset_names();
    assert!(names.contains(&"no-coreutils"));
    assert!(names.contains(&"bash-readonly"));
    assert!(names.contains(&"gh-readonly"));
}

#[test]
fn available_presets_count() {
    assert_eq!(available_preset_names().len(), 36);
}

fn bash_readonly() -> AllowlistConfig {
    config_with(&[("echo", any()), ("pwd", any()), ("ls", any()), ("cat", any()), ("head", any())], &[])
}

#[test]
fn no_coreutils_leaves_out_coreutils_of_bash_readonly() {
    let mut config = config_with(&[], &["bash-readonly", "no-coreutils"]);
    apply_presets(&mut config, &vec![("bash-readonly".to_string(), bash_readonly())]);
    assert!(config.allow.contains_key("echo"));
    assert!(config.allow.contains_key("pwd"));
    assert!(!config.allow.contains_key("ls"));
    assert!(!config.allow.contains_key("cat"));
    assert!(!config.allow.contains_key("head"));
}

#[test]
fn without_no_coreutils_bash_readonly_is_whole() {
    let mut config = config_with(&[], &["bash-readonly"]);
    apply_presets(&mut config, &vec![("bash-readonly".to_string(), bash_readonly())]);
    assert!(config.allow.contains_key("ls"));
    assert_eq!(config.allow.len(), 5);
}

#[test]
fn presets_merge_subs_with_config() {
    let git_readonly = config_with(
        &[("git", AllowEntry::new(s(&["diff", "log"]), vec![], vec![]))],
        &[],
    );
    let git_fetch = config_with(
        &[("git", AllowEntry::new(s(&["fetch", "pull"]), vec![], vec![]))],
        &[],
    );
    let mut config = config_with(
        &[("git", AllowEntry::new(vec![], s(&["config"]), vec![]))],
        &["git-readonly", "git-fetch"],
    );
    apply_presets(
        &mut config,
        &vec![("git-readonly".to_string(), git_readonly), ("git-fetch".to_string(), git_fetch)],
    );
    let git = config.allow.get("git").unwrap();
    assert_eq!(git.sub, vec!["diff", "fetch", "log", "pull"]);
    assert_eq!(git.deny_sub, vec!["config"]);
}

#[test]
fn unknown_preset_adds_nothing() {
    let mut config = config_with(&[("ls", any())], &["nonexistent"]);
    apply_presets(&mut config, &vec![]);
    assert_eq!(config.allow.len(), 1);
    assert_eq!(config.presets, vec!["nonexistent"]);
}
