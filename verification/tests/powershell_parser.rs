use cmd_guard::parser::powershell::extract_commands;
use cmd_guard::types::ParsedCommand;

fn names(cmds: &[ParsedCommand]) -> Vec<&str> {
    cmds.iter().map(|c| c.name.as_str()).collect()
}

#[test]
fn single_cmdlet() {
    let cmds = extract_commands("Get-Process");
    assert_eq!(names(&cmds), vec!["Get-Process"]);
}

#[test]
fn powershell_pipeline() {
    let cmds = extract_commands("Get-Process | Select-Object Name");
    assert_eq!(names(&cmds), vec!["Get-Process", "Select-Object"]);
    assert_eq!(cmds[1].args, vec!["Name"]);
}

#[test]
fn powershell_semicolon_chain() {
    let cmds = extract_commands("Get-Process; Get-Service");
    assert!(names(&cmds).contains(&"Get-Process"));
    assert!(names(&cmds).contains(&"Get-Service"));
}

#[test]
fn powershell_empty_input() {
    assert!(extract_commands("").is_empty());
}
