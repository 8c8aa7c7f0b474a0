//! The commands of a PowerShell command line.
use vstd::prelude::*;

use crate::syntax::{parse_powershell, powershell_syntax_tree, SyntaxNode, SyntaxTree};
use crate::text::{str_eq, trim, trim_string};
use crate::types::{command_views, CommandView, ParsedCommand};

verus! {

/// The trimmed, non-empty texts of the `generic_token` nodes among `cs`.
pub open spec fn element_tokens(cs: Seq<SyntaxTree>) -> Seq<Seq<char>>
    decreases cs.len(),
{
    if cs.len() == 0 {
        Seq::empty()
    } else {
        let before = element_tokens(cs.drop_last());
        let c = cs.last();
        if c.kind == "generic_token"@ && trim(c.text).len() > 0 {
            before.push(trim(c.text))
        } else {
            before
        }
    }
}

/// The name and arguments found among the children of a `command` node: the
/// last non-empty trimmed `command_name`, and the tokens of every
/// `command_elements` node in order.
pub open spec fn command_parts(cs: Seq<SyntaxTree>) -> (Option<Seq<char>>, Seq<Seq<char>>)
    decreases cs.len(),
{
    if cs.len() == 0 {
        (None, Seq::empty())
    } else {
        let (name, args) = command_parts(cs.drop_last());
        let c = cs.last();
        if c.kind == "command_name"@ {
            if trim(c.text).len() > 0 {
                (Some(trim(c.text)), args)
            } else {
                (name, args)
            }
        } else if c.kind == "command_elements"@ {
            (name, args + element_tokens(c.children))
        } else {
            (name, args)
        }
    }
}

/// The command of a `command` node, where it has a name.
pub open spec fn command_of(node: SyntaxTree) -> Seq<CommandView> {
    let (name, args) = command_parts(node.children);
    match name {
        Some(n) => seq![CommandView { name: n, args }],
        None => Seq::empty(),
    }
}

/// The commands of a PowerShell syntax tree, in document order: every
/// `command` node contributes its command, and its children are searched too.
pub open spec fn tree_commands(node: SyntaxTree) -> Seq<CommandView>
    decreases node,
{
    (if node.kind == "command"@ {
        command_of(node)
    } else {
        Seq::empty()
    }) + forest_commands(node.children)
}

/// The commands of a sequence of trees, in order.
pub open spec fn forest_commands(s: Seq<SyntaxTree>) -> Seq<CommandView>
    decreases s,
{
    if s.len() == 0 {
        Seq::empty()
    } else {
        forest_commands(s.drop_last()) + tree_commands(s.last())
    }
}

/// The commands of a PowerShell command line: none where it has no tree.
pub open spec fn powershell_commands(input: Seq<char>) -> Seq<CommandView> {
    match powershell_syntax_tree(input) {
        Some(t) => tree_commands(t),
        None => Seq::empty(),
    }
}

/// Appends the trimmed non-empty `generic_token` texts of `node`'s children.
fn push_tokens(node: &SyntaxNode, args: &mut Vec<String>)
    ensures
        crate::text::views(final(args)@) == crate::text::views(old(args)@) + element_tokens(
            node@.children,
        ),
{
    let ghost base = crate::text::views(args@);
    let ghost cs = node@.children;
    for j in 0..node.children.len()
        invariant
            cs == node@.children,
            crate::text::views(args@) == base + element_tokens(cs.take(j as int)),
    {
        let child = &node.children[j];
        assert(cs[j as int] == child@);
        assert(cs.take(j + 1).drop_last() =~= cs.take(j as int));
        if str_eq(child.kind.as_str(), "generic_token") {
            let t = trim_string(child.text.as_str());
            if !t.as_str().is_empty() {
                let ghost before = crate::text::views(args@);
                args.push(t);
                assert(crate::text::views(args@) =~= before.push(t@));
            } else {
                assert(t@.len() == 0);
            }
        }
        assert(crate::text::views(args@) =~= base + element_tokens(cs.take(j + 1)));
    }
    assert(cs.take(cs.len() as int) =~= cs);
}

/// Appends the command of the `command` node `node`, if it has a name.
fn extract_from_command(node: &SyntaxNode, out: &mut Vec<ParsedCommand>)
    ensures
        command_views(final(out)@) == command_views(old(out)@) + command_of(node@),
{
    let ghost cs = node@.children;
    let mut name: Option<String> = None;
    let mut args: Vec<String> = Vec::new();
    for i in 0..node.children.len()
        invariant
            cs == node@.children,
            ((match name {
                Some(n) => Some(n@),
                None => None,
            }), crate::text::views(args@)) == command_parts(cs.take(i as int)),
    {
        let child = &node.children[i];
        assert(cs[i as int] == child@);
        assert(cs.take(i + 1).drop_last() =~= cs.take(i as int));
        if str_eq(child.kind.as_str(), "command_name") {
            let t = trim_string(child.text.as_str());
            if !t.as_str().is_empty() {
                name = Some(t);
            } else {
                assert(t@.len() == 0);
            }
        } else if str_eq(child.kind.as_str(), "command_elements") {
            push_tokens(child, &mut args);
        }
    }
    assert(cs.take(cs.len() as int) =~= cs);
    match name {
        Some(n) => {
            let ghost before = command_views(out@);
            let c = ParsedCommand { name: n, args };
            out.push(c);
            assert(command_views(out@) =~= before + command_of(node@));
        },
        None => {
            assert(command_of(node@) =~= Seq::<CommandView>::empty());
            assert(command_views(out@) =~= command_views(out@) + command_of(node@));
        },
    }
}

/// Appends the commands of the tree `node`, in document order.
fn collect_commands(node: &SyntaxNode, out: &mut Vec<ParsedCommand>)
    ensures
        command_views(final(out)@) == command_views(old(out)@) + tree_commands(node@),
    decreases node,
{
    let ghost base = command_views(out@);
    if str_eq(node.kind.as_str(), "command") {
        extract_from_command(node, out);
    } else {
        assert(command_views(out@) =~= base + Seq::<CommandView>::empty());
    }
    let ghost mid = command_views(out@);
    let ghost cs = node@.children;
    assert(forest_commands(cs.take(0)) =~= Seq::<CommandView>::empty());
    for i in 0..node.children.len()
        invariant
            cs == node@.children,
            command_views(out@) == mid + forest_commands(cs.take(i as int)),
    {
        let child = &node.children[i];
        assert(cs[i as int] == child@);
        assert(cs.take(i + 1).drop_last() =~= cs.take(i as int));
        collect_commands(child, out);
        assert(command_views(out@) =~= mid + forest_commands(cs.take(i + 1)));
    }
    assert(cs.take(cs.len() as int) =~= cs);
    assert(command_views(out@) =~= base + tree_commands(node@));
}

/// The commands of a PowerShell syntax tree, in document order.
pub fn commands_of_tree(root: &SyntaxNode) -> (r: Vec<ParsedCommand>)
    ensures
        command_views(r@) == tree_commands(root@),
{
    let mut out: Vec<ParsedCommand> = Vec::new();
    assert(command_views(out@) =~= Seq::<CommandView>::empty());
    collect_commands(root, &mut out);
    assert(command_views(out@) =~= tree_commands(root@));
    out
}

/// Extracts all commands from a PowerShell command string: every `command`
/// node of its syntax tree gives its `command_name` (trimmed) and the trimmed
/// `generic_token` arguments of its `command_elements`.
pub fn extract_commands(input: &str) -> (r: Vec<ParsedCommand>)
    ensures
        command_views(r@) == powershell_commands(input@),
{
    match parse_powershell(input) {
        Some(tree) => commands_of_tree(&tree),
        None => Vec::new(),
    }
}

} // verus!
