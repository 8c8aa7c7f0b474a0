use cmd_guard::parser::bash::{extract_commands, Extracted};
use cmd_guard::types::ParsedCommand;

fn names(items: &[Extracted]) -> Vec<&str> {
    items
        .iter()
        .map(|e| match e {
            Extracted::Command(c) => c.name.as_str(),
            Extracted::Nushell(_) => "<nushell script>",
        })
        .collect()
}

fn command(items: &[Extracted], i: usize) -> &ParsedCommand {
    match &items[i] {
        Extracted::Command(c) => c,
        Extracted::Nushell(s) => panic!("expected a command, found the Nushell script {:?}", s),
    }
}

#[test]
fn bash_single_command() {
    let cmds = extract_commands("ls");
    assert_eq!(names(&cmds), vec!["ls"]);
}

#[test]
fn pipe() {
    let cmds = extract_commands("ls | grep foo");
    assert_eq!(names(&cmds), vec!["ls", "grep"]);
}

#[test]
fn chain_and() {
    let cmds = extract_commands("ls && echo done");
    assert_eq!(names(&cmds), vec!["ls", "echo"]);
}

#[test]
fn chain_or() {
    let cmds = extract_commands("ls || echo fail");
    assert_eq!(names(&cmds), vec!["ls", "echo"]);
}

#[test]
fn semicolon() {
    let cmds = extract_commands("ls; echo done");
    assert_eq!(names(&cmds), vec!["ls", "echo"]);
}

#[test]
fn pipe_in_quotes_ignored() {
    let cmds = extract_commands(r#"echo "hello | world""#);
    assert_eq!(names(&cmds), vec!["echo"]);
}

#[test]
fn command_substitution() {
    let cmds = extract_commands("echo $(ls | grep foo)");
    assert_eq!(names(&cmds), vec!["echo", "ls", "grep"]);
}

#[test]
fn path_basename() {
    let cmds = extract_commands("/usr/bin/env node");
    assert_eq!(names(&cmds), vec!["env"]);
    assert_eq!(command(&cmds, 0).args, vec!["node"]);
}

#[test]
fn variable_assignment_prefix() {
    let cmds = extract_commands("FOO=bar echo hello");
    assert_eq!(names(&cmds), vec!["echo"]);
}

#[test]
fn complex_pipeline() {
    let cmds = extract_commands("cat file.txt | sort | uniq -c | head -10");
    assert_eq!(names(&cmds), vec!["cat", "sort", "uniq", "head"]);
}

#[test]
fn redirection() {
    let cmds = extract_commands("echo foo > output.txt");
    assert_eq!(names(&cmds), vec!["echo"]);
}

#[test]
fn subshell() {
    let cmds = extract_commands("(ls | grep foo) && echo done");
    assert_eq!(names(&cmds), vec!["ls", "grep", "echo"]);
}

#[test]
fn bash_empty_input() {
    assert!(extract_commands("").is_empty());
}

#[test]
fn pwsh_second_stage() {
    let cmds = extract_commands(r#"pwsh.exe -c "Get-Process | Select-Object Name""#);
    let n = names(&cmds);
    assert!(n.contains(&"pwsh.exe"));
    assert!(n.contains(&"Get-Process"));
    assert!(n.contains(&"Select-Object"));
}

#[test]
fn pwsh_no_c_flag_no_inner_parse() {
    let cmds = extract_commands(r#"pwsh.exe -File script.ps1"#);
    assert_eq!(names(&cmds), vec!["pwsh.exe"]);
}

#[test]
fn backtick_substitution() {
    let cmds = extract_commands("echo `date`");
    assert_eq!(names(&cmds), vec!["echo", "date"]);
}

#[test]
fn nested_pipe_and_substitution() {
    let cmds = extract_commands("echo $(cat file | sort) | head");
    assert_eq!(names(&cmds), vec!["echo", "cat", "sort", "head"]);
}

#[test]
fn mixed_chain_and_pipe() {
    let cmds = extract_commands("ls | grep foo && echo done || echo fail");
    assert_eq!(names(&cmds), vec!["ls", "grep", "echo", "echo"]);
}

#[test]
fn git_subcommand_in_args() {
    let cmds = extract_commands("git diff --stat");
    assert_eq!(command(&cmds, 0).name, "git");
    assert_eq!(command(&cmds, 0).args, vec!["diff", "--stat"]);
}

#[test]
fn npm_subcommand() {
    let cmds = extract_commands("npm install express");
    assert_eq!(command(&cmds, 0).name, "npm");
    assert_eq!(command(&cmds, 0).args, vec!["install", "express"]);
}

#[test]
fn cmd_second_stage() {
    let cmds = extract_commands(r#"cmd.exe /c "dir | findstr foo""#);
    let n = names(&cmds);
    assert!(n.contains(&"cmd.exe"));
    assert!(n.contains(&"dir"));
    assert!(n.contains(&"findstr"));
}

#[test]
fn cmd_second_stage_chain() {
    let cmds = extract_commands(r#"cmd /C "echo hello && dir""#);
    let n = names(&cmds);
    assert!(n.contains(&"cmd"));
    assert!(n.contains(&"echo"));
    assert!(n.contains(&"dir"));
}

#[test]
fn cmd_no_c_flag_no_inner_parse() {
    let cmds = extract_commands(r#"cmd.exe /k "echo hello""#);
    assert_eq!(names(&cmds), vec!["cmd.exe"]);
}

#[test]
fn stderr_redirect() {
    let cmds = extract_commands("gcc main.c 2>/dev/null");
    assert_eq!(names(&cmds), vec!["gcc"]);
}

#[test]
fn stderr_to_stdout_pipe() {
    let cmds = extract_commands("gcc main.c 2>&1 | grep error");
    assert_eq!(names(&cmds), vec!["gcc", "grep"]);
}

#[test]
fn stdout_and_stderr_redirect() {
    let cmds = extract_commands("make build >out.log 2>err.log");
    assert_eq!(names(&cmds), vec!["make"]);
}

#[test]
fn stderr_append_redirect() {
    let cmds = extract_commands("cargo test 2>>errors.log");
    assert_eq!(names(&cmds), vec!["cargo"]);
}

#[test]
fn combined_redirect_and_pipe() {
    let cmds = extract_commands("cmd1 2>/dev/null | cmd2 | cmd3 >out.txt 2>&1");
    assert_eq!(names(&cmds), vec!["cmd1", "cmd2", "cmd3"]);
}

// --- further cases ---

#[test]
fn nu_launcher_hands_on_its_script() {
    let cmds = extract_commands(r#"nu.exe -c "ls | where size > 1mb | sort-by size""#);
    assert_eq!(cmds.len(), 2);
    match &cmds[0] {
        Extracted::Nushell(s) => assert_eq!(s, "ls | where size > 1mb | sort-by size"),
        Extracted::Command(c) => panic!("expected the Nushell script, found {:?}", c),
    }
    assert_eq!(command(&cmds, 1).name, "nu.exe");
}

#[test]
fn second_stage_commands_come_first() {
    let cmds = extract_commands(r#"cmd /c "dir""#);
    assert_eq!(names(&cmds), vec!["dir", "cmd"]);
}

#[test]
fn single_quotes_are_stripped() {
    let cmds = extract_commands("grep 'a b' file");
    assert_eq!(command(&cmds, 0).args, vec!["a b", "file"]);
}

#[test]
fn cmd_flag_is_case_insensitive_but_dash_c_is_not() {
    let cmds = extract_commands(r#"pwsh -C "Get-Process""#);
    assert_eq!(names(&cmds), vec!["pwsh"]);
}


fn leaf(kind: &str, text: &str) -> cmd_guard::syntax::SyntaxNode {
    cmd_guard::syntax::SyntaxNode { kind: kind.to_string(), text: text.to_string(), children: vec![] }
}

fn node(kind: &str, text: &str, children: Vec<cmd_guard::syntax::SyntaxNode>) -> cmd_guard::syntax::SyntaxNode {
    cmd_guard::syntax::SyntaxNode { kind: kind.to_string(), text: text.to_string(), children }
}

#[test]
fn commands_from_a_given_tree() {
    // echo "a b" $(ls) 'c'
    let sub = node(
        "command_substitution",
        "$(ls)",
        vec![leaf("$(", "$("), node("command", "ls", vec![node("command_name", "ls", vec![leaf("word", "ls")])]), leaf(")", ")")],
    );
    let root = node(
        "program",
        "echo \"a b\" $(ls) 'c'",
        vec![node(
            "command",
            "echo \"a b\" $(ls) 'c'",
            vec![
                node("command_name", "/bin/echo", vec![leaf("word", "/bin/echo")]),
                leaf("string", "\"a b\""),
                sub,
                leaf("raw_string", "'c'"),
            ],
        )],
    );
    let items = cmd_guard::parser::bash::extract_from_tree("echo \"a b\" $(ls) 'c'", &root);
    assert_eq!(names(&items), vec!["echo", "ls"]);
    assert_eq!(command(&items, 0).args, vec!["a b", "c"]);
}
