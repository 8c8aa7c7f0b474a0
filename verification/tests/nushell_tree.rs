use cmd_guard::parser::bash::Extracted;
use cmd_guard::parser::nushell::commands_of_tree;
use cmd_guard::parser::{expand_nushell, scripts_to_parse};
use cmd_guard::syntax::SyntaxNode;
use cmd_guard::types::ParsedCommand;

fn leaf(kind: &str, text: &str) -> SyntaxNode {
    SyntaxNode { kind: kind.to_string(), text: text.to_string(), children: vec![] }
}

fn node(kind: &str, text: &str, children: Vec<SyntaxNode>) -> SyntaxNode {
    SyntaxNode { kind: kind.to_string(), text: text.to_string(), children }
}

/// The shape of the tree of `ls | where size > 1mb`.
fn pipeline_tree() -> SyntaxNode {
    node(
        "nu_script",
        "ls | where size > 1mb",
        vec![node(
            "pipeline",
            "ls | where size > 1mb",
            vec![
                node("pipe_element", "ls", vec![node("command", "ls", vec![leaf("cmd_identifier", "ls")])]),
                leaf("|", "|"),
                node(
                    "pipe_element",
                    "where size > 1mb",
                    vec![node(
                        "where_command",
                        "where size > 1mb",
                        vec![leaf("where", "where "), leaf("where_predicate", "size > 1mb")],
                    )],
                ),
            ],
        )],
    )
}

#[test]
fn nushell_commands_from_tree() {
    let cmds = commands_of_tree(&pipeline_tree());
    let names: Vec<&str> = cmds.iter().map(|c| c.name.as_str()).collect();
    assert_eq!(names, vec!["ls", "where"]);
}

#[test]
fn nushell_arguments_follow_the_name() {
    let tree = node(
        "command",
        "open file.txt",
        vec![leaf("val_string", "stray"), leaf("cmd_identifier", " open "), leaf("val_string", "file.txt")],
    );
    let cmds = commands_of_tree(&tree);
    assert_eq!(cmds.len(), 1);
    assert_eq!(cmds[0].name, "open");
    assert_eq!(cmds[0].args, vec!["file.txt"]);
}

#[test]
fn nushell_empty_tree() {
    assert!(commands_of_tree(&leaf("nu_script", "")).is_empty());
}

#[test]
fn expanding_nushell_scripts() {
    let items = vec![
        Extracted::Nushell("ls | where x".to_string()),
        Extracted::Command(ParsedCommand::new("nu".to_string(), vec!["-c".to_string(), "ls | where x".to_string()])),
    ];
    assert_eq!(scripts_to_parse(&items), vec!["ls | where x"]);
    let inner = vec![vec![
        ParsedCommand::new("ls".to_string(), vec![]),
        ParsedCommand::new("where".to_string(), vec![]),
    ]];
    let out = expand_nushell(&items, &inner).unwrap();
    let names: Vec<&str> = out.iter().map(|c| c.name.as_str()).collect();
    assert_eq!(names, vec!["ls", "where", "nu"]);
    assert!(expand_nushell(&items, &vec![]).is_none());
}

/// The shape of the tree of `ls | where size > 1mb | sort-by size`.
fn long_pipeline_tree() -> SyntaxNode {
    let text = "ls | where size > 1mb | sort-by size";
    node(
        "nu_script",
        text,
        vec![node(
            "pipeline",
            text,
            vec![
                node("pipe_element", "ls", vec![node("command", "ls", vec![leaf("cmd_identifier", "ls")])]),
                leaf("|", "|"),
                node(
                    "pipe_element",
                    "where size > 1mb",
                    vec![node(
                        "where_command",
                        "where size > 1mb",
                        vec![leaf("where", "where "), leaf("where_predicate", "size > 1mb")],
                    )],
                ),
                leaf("|", "|"),
                node(
                    "pipe_element",
                    "sort-by size",
                    vec![node(
                        "command",
                        "sort-by size",
                        vec![leaf("cmd_identifier", "sort-by"), leaf("val_string", "size")],
                    )],
                ),
            ],
        )],
    )
}

#[test]
fn nu_second_stage() {
    let items = cmd_guard::parser::extract_commands(r#"nu.exe -c "ls | where size > 1mb | sort-by size""#);
    let scripts = scripts_to_parse(&items);
    assert_eq!(scripts, vec!["ls | where size > 1mb | sort-by size"]);
    let inner = vec![commands_of_tree(&long_pipeline_tree())];
    let cmds = expand_nushell(&items, &inner).unwrap();
    let n: Vec<&str> = cmds.iter().map(|c| c.name.as_str()).collect();
    assert!(n.contains(&"nu.exe"));
    assert!(n.contains(&"ls"));
    assert!(n.contains(&"where"));
    assert!(n.contains(&"sort-by"));
}
