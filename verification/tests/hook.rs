use cmd_guard::hook::decide;
use cmd_guard::types::{AllowEntry, AllowlistConfig, HookOutput, ParsedCommand};

fn cmd(name: &str, args: &[&str]) -> ParsedCommand {
    ParsedCommand::new(name.to_string(), args.iter().map(|a| a.to_string()).collect())
}

fn config() -> AllowlistConfig {
    let mut c = AllowlistConfig::default();
    c.allow.insert("ls".to_string(), AllowEntry::default());
    c.allow.insert("grep".to_string(), AllowEntry::default());
    c
}

#[test]
fn allow_output() {
    let o = HookOutput::allow();
    assert_eq!(o.hook_specific_output.hook_event_name, "PreToolUse");
    assert_eq!(o.hook_specific_output.permission_decision, "allow");
    assert!(o.hook_specific_output.permission_decision_reason.is_none());
}

#[test]
fn ask_output() {
    let o = HookOutput::ask("why".to_string());
    assert_eq!(o.hook_specific_output.hook_event_name, "PreToolUse");
    assert_eq!(o.hook_specific_output.permission_decision, "ask");
    assert_eq!(o.hook_specific_output.permission_decision_reason, Some("why".to_string()));
}

#[test]
fn other_tools_are_ignored() {
    assert!(decide("Read", &vec![cmd("ls", &[])], &config()).is_none());
}

#[test]
fn all_allowed_is_allowed() {
    let o = decide("Bash", &vec![cmd("ls", &[]), cmd("grep", &["foo"])], &config()).unwrap();
    assert_eq!(o.hook_specific_output.permission_decision, "allow");
}

#[test]
fn refused_commands_are_named() {
    let o = decide("Bash", &vec![cmd("ls", &[]), cmd("rm", &["-rf"]), cmd("mv", &[])], &config())
        .unwrap();
    assert_eq!(o.hook_specific_output.permission_decision, "ask");
    assert_eq!(
        o.hook_specific_output.permission_decision_reason,
        Some("Commands not in allowlist: rm -rf, mv".to_string())
    );
}

#[test]
fn nothing_parsed_asks() {
    let o = decide("Bash", &vec![], &config()).unwrap();
    assert_eq!(o.hook_specific_output.permission_decision, "ask");
    assert_eq!(
        o.hook_specific_output.permission_decision_reason,
        Some("Failed to parse command".to_string())
    );
}
