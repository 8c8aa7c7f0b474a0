use cmd_guard::allowlist::{
    check_commands, find_entry, find_entry_with_lower, merge_configs, merge_entries, verdict_with_denial,
};
use cmd_guard::types::{AllowEntry, AllowlistConfig, ParsedCommand};

fn strings(v: Option<&toml::Value>) -> Vec<String> {
    match v {
        Some(toml::Value::Array(items)) => items
            .iter()
            .map(|i| i.as_str().expect("a string").to_string())
            .collect(),
        _ => Vec::new(),
    }
}

/// Builds an allowlist from its TOML text.
fn parse_config(toml_str: &str) -> AllowlistConfig {
    let table: toml::Table = toml::from_str(toml_str).unwrap();
    let mut config = AllowlistConfig::default();
    if let Some(toml::Value::Table(allow)) = table.get("allow") {
        for (name, rule) in allow {
            let entry = match rule {
                toml::Value::Table(t) => AllowEntry::new(
                    strings(t.get("sub")),
                    strings(t.get("deny_sub")),
                    strings(t.get("deny_pattern")),
                ),
                _ => AllowEntry::default(),
            };
            config.allow.insert(name.clone(), entry);
        }
    }
    config.presets = strings(table.get("presets"));
    config
}

fn config() -> AllowlistConfig {
    let toml_str = r#"
[allow.ls]

[allow.grep]

[allow.echo]

[allow.git]
sub = ["diff", "log", "status", "push"]
deny_pattern = ['push\s.*--force', 'push\s.*-f']

[allow.npm]
sub = ["install", "run"]
deny_pattern = ['install\s.*--global', 'install\s.*-g']
"#;
    parse_config(toml_str)
}

fn cmd(name: &str, args: &[&str]) -> ParsedCommand {
    ParsedCommand {
        name: name.to_string(),
        args: args.iter().map(|a| a.to_string()).collect(),
    }
}

#[test]
fn simple_command_allowed() {
    let c = config();
    assert!(check_commands(&[cmd("ls", &["-la"])], &c).is_none());
}

#[test]
fn simple_command_all_args_allowed() {
    let c = config();
    assert!(check_commands(&[cmd("ls", &["-la", "/tmp"])], &c).is_none());
}

#[test]
fn unknown_command_not_allowed() {
    let c = config();
    let denied = check_commands(&[cmd("rm", &["-rf", "/"])], &c).unwrap();
    assert_eq!(denied, vec!["rm -rf"]);
}

#[test]
fn git_allowed_subcommand() {
    let c = config();
    assert!(check_commands(&[cmd("git", &["diff", "--stat"])], &c).is_none());
    assert!(check_commands(&[cmd("git", &["log", "--oneline"])], &c).is_none());
    assert!(check_commands(&[cmd("git", &["status"])], &c).is_none());
}

#[test]
fn git_denied_subcommand() {
    let c = config();
    let denied = check_commands(&[cmd("git", &["commit", "-m", "msg"])], &c).unwrap();
    assert_eq!(denied, vec!["git commit"]);
}

#[test]
fn git_push_allowed() {
    let c = config();
    assert!(check_commands(&[cmd("git", &["push", "origin", "main"])], &c).is_none());
}

#[test]
fn git_push_force_denied() {
    let c = config();
    let denied = check_commands(&[cmd("git", &["push", "--force"])], &c).unwrap();
    assert!(denied[0].contains("denied"));
}

#[test]
fn git_push_force_with_remote_denied() {
    let c = config();
    let denied = check_commands(&[cmd("git", &["push", "origin", "--force"])], &c).unwrap();
    assert!(denied[0].contains("denied"));
}

#[test]
fn git_push_f_short_denied() {
    let c = config();
    let denied = check_commands(&[cmd("git", &["push", "-f"])], &c).unwrap();
    assert!(denied[0].contains("denied"));
}

#[test]
fn npm_install_allowed() {
    let c = config();
    assert!(check_commands(&[cmd("npm", &["install", "express"])], &c).is_none());
}

#[test]
fn npm_install_global_denied() {
    let c = config();
    let denied = check_commands(&[cmd("npm", &["install", "--global", "pkg"])], &c).unwrap();
    assert!(denied[0].contains("denied"));
}

#[test]
fn npm_install_g_denied() {
    let c = config();
    let denied = check_commands(&[cmd("npm", &["install", "-g", "pkg"])], &c).unwrap();
    assert!(denied[0].contains("denied"));
}

#[test]
fn case_insensitive() {
    let c = config();
    assert!(check_commands(&[cmd("LS", &[])], &c).is_none());
    assert!(check_commands(&[cmd("Git", &["Diff"])], &c).is_none());
}

#[test]
fn git_bare_not_allowed_by_subcommand_rule() {
    let c = config();
    let denied = check_commands(&[cmd("git", &[])], &c).unwrap();
    assert_eq!(denied, vec!["git"]);
}

#[test]
fn empty_commands_allowed() {
    let c = config();
    assert!(check_commands(&[], &c).is_none());
}

#[test]
fn empty_config_denies_all() {
    let c = AllowlistConfig::default();
    let denied = check_commands(&[cmd("ls", &[])], &c).unwrap();
    assert_eq!(denied, vec!["ls"]);
}

#[test]
fn mixed_allowed_and_denied() {
    let c = config();
    let cmds = vec![
        cmd("ls", &[]),
        cmd("git", &["commit", "-m", "msg"]),
        cmd("grep", &["foo"]),
    ];
    let denied = check_commands(&cmds, &c).unwrap();
    assert_eq!(denied, vec!["git commit"]);
}

#[test]
fn toml_deserialization() {
    let c = config();
    assert!(c.allow.contains_key("ls"));
    assert!(c.allow.contains_key("git"));

    let git = c.allow.get("git").unwrap();
    assert!(git.sub.contains(&"push".to_string()));
    assert!(!git.deny_pattern.is_empty());

    let ls = c.allow.get("ls").unwrap();
    assert!(ls.sub.is_empty());
    assert!(ls.deny_pattern.is_empty());
}

// --- merge_configs ---

#[test]
fn merge_both_none() {
    let result = merge_configs(None, None);
    assert!(result.allow.is_empty());
}

#[test]
fn merge_project_only() {
    let project = parse_config("[allow.ls]\n");
    let result = merge_configs(Some(project), None);
    assert!(result.allow.contains_key("ls"));
    assert_eq!(result.allow.len(), 1);
}

#[test]
fn merge_user_only() {
    let user = parse_config("[allow.cargo]\n");
    let result = merge_configs(None, Some(user));
    assert!(result.allow.contains_key("cargo"));
    assert_eq!(result.allow.len(), 1);
}

#[test]
fn merge_disjoint_keys() {
    let project = parse_config("[allow.npm]\nsub = [\"install\"]\n");
    let user = parse_config("[allow.cargo]\n");
    let result = merge_configs(Some(project), Some(user));
    assert!(result.allow.contains_key("npm"));
    assert!(result.allow.contains_key("cargo"));
    assert_eq!(result.allow.len(), 2);
}

#[test]
fn merge_overlapping_keys_union() {
    let project = parse_config(
        "[allow.git]\nsub = [\"diff\", \"log\"]\ndeny_pattern = ['push\\s.*--force']\n",
    );
    let user = parse_config("[allow.git]\nsub = [\"diff\", \"commit\"]\n");
    let result = merge_configs(Some(project), Some(user));
    let git = result.allow.get("git").unwrap();
    assert!(git.sub.contains(&"diff".to_string()));
    assert!(git.sub.contains(&"log".to_string()));
    assert!(git.sub.contains(&"commit".to_string()));
    assert!(git.deny_pattern.contains(&r"push\s.*--force".to_string()));
}

#[test]
fn merge_deny_sub_union() {
    let project = parse_config("[allow.git]\ndeny_sub = [\"push\"]\n");
    let user = parse_config("[allow.git]\nsub = [\"diff\", \"push\"]\ndeny_sub = [\"reset\"]\n");
    let result = merge_configs(Some(project), Some(user));
    let git = result.allow.get("git").unwrap();
    assert!(git.deny_sub.contains(&"push".to_string()));
    assert!(git.deny_sub.contains(&"reset".to_string()));
    assert!(git.sub.contains(&"diff".to_string()));
    assert!(git.sub.contains(&"push".to_string()));
}

#[test]
fn merge_integrated_check() {
    let project = parse_config("[allow.ls]\n[allow.git]\ndeny_sub = [\"push\"]\n");
    let user = parse_config("[allow.git]\nsub = [\"diff\", \"push\", \"log\"]\n[allow.cargo]\n");
    let merged = merge_configs(Some(project), Some(user));
    // ls allowed (from project)
    assert!(check_commands(&[cmd("ls", &["-la"])], &merged).is_none());
    // cargo allowed (from user)
    assert!(check_commands(&[cmd("cargo", &["build"])], &merged).is_none());
    // git diff allowed (sub from user, not in deny_sub)
    assert!(check_commands(&[cmd("git", &["diff"])], &merged).is_none());
    // git push denied (in sub but blocked by deny_sub from project)
    let denied = check_commands(&[cmd("git", &["push"])], &merged).unwrap();
    assert!(denied[0].contains("denied sub"));
    // rm not in either config → denied
    assert!(check_commands(&[cmd("rm", &["-rf"])], &merged).is_some());
}

#[test]
fn deny_sub_blocks_allowed_sub() {
    let c = parse_config(
        "[allow.git]\nsub = [\"diff\", \"push\", \"commit\"]\ndeny_sub = [\"push\"]\n",
    );
    assert!(check_commands(&[cmd("git", &["diff"])], &c).is_none());
    let denied = check_commands(&[cmd("git", &["push", "origin"])], &c).unwrap();
    assert!(denied[0].contains("denied sub"));
}

#[test]
fn deny_sub_empty_allows_all() {
    let c = parse_config("[allow.git]\nsub = [\"diff\", \"push\"]\ndeny_sub = []\n");
    assert!(check_commands(&[cmd("git", &["diff"])], &c).is_none());
    assert!(check_commands(&[cmd("git", &["push"])], &c).is_none());
}

#[test]
fn deny_sub_case_insensitive() {
    let c = parse_config("[allow.git]\nsub = [\"Push\"]\ndeny_sub = [\"push\"]\n");
    let denied = check_commands(&[cmd("git", &["PUSH"])], &c).unwrap();
    assert!(denied[0].contains("denied sub"));
}

// --- further cases ---

#[test]
fn deny_pattern_message_names_the_pattern() {
    let c = config();
    let denied = check_commands(&[cmd("git", &["push", "--force"])], &c).unwrap();
    assert_eq!(denied, vec![r"git push (denied: push\s.*--force)"]);
}

#[test]
fn deny_sub_message() {
    let c = parse_config("[allow.git]\ndeny_sub = [\"push\"]\n");
    let denied = check_commands(&[cmd("git", &["push"])], &c).unwrap();
    assert_eq!(denied, vec!["git push (denied sub)"]);
}

#[test]
fn invalid_deny_pattern_blocks_nothing() {
    let c = parse_config("[allow.git]\ndeny_pattern = ['push(']\n");
    assert!(check_commands(&[cmd("git", &["push("])], &c).is_none());
}

#[test]
fn deny_pattern_before_sub() {
    let c = parse_config("[allow.git]\nsub = [\"push\"]\ndeny_pattern = ['--force']\n");
    let denied = check_commands(&[cmd("git", &["push", "--force"])], &c).unwrap();
    assert_eq!(denied, vec!["git push (denied: --force)"]);
}

#[test]
fn multi_word_subcommands() {
    let c = parse_config("[allow.gh]\nsub = [\"pr list\", \"pr view\"]\n");
    assert!(check_commands(&[cmd("gh", &["pr", "list"])], &c).is_none());
    assert!(check_commands(&[cmd("gh", &["PR", "View", "12"])], &c).is_none());
    assert_eq!(check_commands(&[cmd("gh", &["pr", "merge"])], &c).unwrap(), vec!["gh pr"]);
    assert_eq!(check_commands(&[cmd("gh", &["pr"])], &c).unwrap(), vec!["gh pr"]);
}

#[test]
fn lower_case_key_found_for_upper_case_name() {
    let c = parse_config("[allow.git]\nsub = [\"diff\"]\n");
    assert!(check_commands(&[cmd("GIT", &["diff"])], &c).is_none());
    assert_eq!(check_commands(&[cmd("GIT", &["log"])], &c).unwrap(), vec!["GIT log"]);
}

#[test]
fn refusals_keep_command_order() {
    let c = config();
    let denied = check_commands(&[cmd("rm", &["-rf"]), cmd("ls", &[]), cmd("mv", &[])], &c).unwrap();
    assert_eq!(denied, vec!["rm -rf", "mv"]);
}

#[test]
fn merge_entries_sorts_and_dedups() {
    let a = AllowEntry::new(
        vec!["log".to_string(), "diff".to_string()],
        vec![],
        vec!["b".to_string()],
    );
    let b = AllowEntry::new(
        vec!["diff".to_string(), "add".to_string(), "log".to_string()],
        vec!["push".to_string()],
        vec!["a".to_string(), "b".to_string()],
    );
    let m = merge_entries(&a, &b);
    assert_eq!(m.sub, vec!["add", "diff", "log"]);
    assert_eq!(m.deny_sub, vec!["push"]);
    assert_eq!(m.deny_pattern, vec!["a", "b"]);
    let n = merge_entries(&b, &a);
    assert_eq!(n.sub, m.sub);
}

#[test]
fn merge_unites_presets() {
    let project = parse_config("presets = [\"git-readonly\", \"cargo-build\"]\n");
    let user = parse_config("presets = [\"git-readonly\", \"bash-readonly\"]\n");
    let merged = merge_configs(Some(project), Some(user));
    assert_eq!(merged.presets, vec!["bash-readonly", "cargo-build", "git-readonly"]);
}

#[test]
fn readme_merge_example() {
    let user = parse_config("[allow.git]\nsub = [\"diff\", \"log\", \"push\"]\n");
    let project = parse_config("[allow.git]\ndeny_sub = [\"push\"]\n");
    let merged = merge_configs(Some(project), Some(user));
    assert!(check_commands(&[cmd("git", &["diff"])], &merged).is_none());
    assert!(check_commands(&[cmd("git", &["push"])], &merged).is_some());
}

#[test]
fn describe_and_args_string() {
    let c = cmd("git", &["push", "origin", "main"]);
    assert_eq!(c.describe(), "git push");
    assert_eq!(c.args_string(), "push origin main");
    assert_eq!(cmd("ls", &[]).describe(), "ls");
    assert_eq!(cmd("ls", &[]).args_string(), "");
}

#[test]
fn empty_deny_sub_entry_denies_empty_first_arg() {
    let c = parse_config("[allow.git]\ndeny_sub = [\"\"]\n");
    let denied = check_commands(&[cmd("git", &["", "x"])], &c).unwrap();
    assert_eq!(denied, vec!["git  (denied sub)"]);
    assert!(check_commands(&[cmd("git", &["status"])], &c).is_none());
    assert!(check_commands(&[cmd("git", &[])], &c).is_none());
}

#[test]
fn empty_sub_entry_allows_only_empty_first_arg() {
    let c = parse_config("[allow.git]\nsub = [\"\"]\n");
    assert!(check_commands(&[cmd("git", &[""])], &c).is_none());
    let denied = check_commands(&[cmd("git", &["status"])], &c).unwrap();
    assert_eq!(denied, vec!["git status"]);
    let denied = check_commands(&[cmd("git", &[])], &c).unwrap();
    assert_eq!(denied, vec!["git"]);
}

#[test]
fn blank_sub_entry_compared_as_it_stands() {
    let c = parse_config("[allow.git]\nsub = [\" \"]\n");
    assert!(check_commands(&[cmd("git", &[" "])], &c).is_none());
    assert!(check_commands(&[cmd("git", &[""])], &c).is_some());
}

#[test]
fn ascii_name_without_rule_refused() {
    let c = parse_config("[allow.git]\n");
    let denied = check_commands(&[cmd("rm", &["-rf"])], &c).unwrap();
    assert_eq!(denied, vec!["rm -rf"]);
    assert!(check_commands(&[cmd("GIT", &[])], &c).is_none());
}

#[test]
fn rule_found_through_given_lower_case_name() {
    let c = parse_config("[allow.\"straße\"]\nsub = [\"x\"]\n");
    let e = find_entry_with_lower(&cmd("STRASSE", &[]), "straße", &c).unwrap();
    assert_eq!(e.sub, vec!["x"]);
    assert!(find_entry_with_lower(&cmd("STRASSE", &[]), "strasse", &c).is_none());
    assert!(find_entry(&cmd("Straße", &[]), &c).is_some());
    assert!(find_entry(&cmd("rm", &[]), &c).is_none());
}

#[test]
fn verdict_with_given_denying_pattern() {
    let e = AllowEntry::new(vec!["push".to_string()], vec![], vec!["a".to_string(), "b".to_string()]);
    let c = cmd("git", &["push", "x"]);
    assert_eq!(verdict_with_denial(&c, &e, Some(1)), Some("git push (denied: b)".to_string()));
    assert_eq!(verdict_with_denial(&c, &e, None), None);
    assert_eq!(verdict_with_denial(&cmd("git", &["pull"]), &e, None), Some("git pull".to_string()));
}
