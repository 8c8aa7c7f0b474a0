//! The commands of a Nushell command line, read from its syntax tree.
//!
//! The Nushell grammar is parsed outside this library; these functions take
//! the tree it produced.
use vstd::prelude::*;

use crate::syntax::{SyntaxNode, SyntaxTree};
use crate::text::{str_eq, trim, trim_string, views};
use crate::types::{command_views, CommandView, ParsedCommand};

verus! {

/// The node kinds whose first child is a keyword that names a command.
pub open spec fn is_keyword_command_kind(k: Seq<char>) -> bool {
    ||| k == "where_command"@
    ||| k == "overlay_hide"@
    ||| k == "overlay_use"@
    ||| k == "overlay_new"@
    ||| k == "hide_command"@
    ||| k == "module_command"@
    ||| k == "use_command"@
    ||| k == "export_command"@
}

/// The node kinds that give an argument of a command.
pub open spec fn is_value_kind(k: Seq<char>) -> bool {
    ||| k == "val_string"@
    ||| k == "val_number"@
    ||| k == "val_variable"@
    ||| k == "path"@
}

fn keyword_command_kind(k: &str) -> (r: bool)
    ensures
        r == is_keyword_command_kind(k@),
{
    str_eq(k, "where_command") || str_eq(k, "overlay_hide") || str_eq(k, "overlay_use") || str_eq(
        k,
        "overlay_new",
    ) || str_eq(k, "hide_command") || str_eq(k, "module_command") || str_eq(k, "use_command")
        || str_eq(k, "export_command")
}

fn value_kind(k: &str) -> (r: bool)
    ensures
        r == is_value_kind(k@),
{
    str_eq(k, "val_string") || str_eq(k, "val_number") || str_eq(k, "val_variable") || str_eq(
        k,
        "path",
    )
}

/// The name and arguments found among the children of a `command` node: the
/// last non-empty trimmed `cmd_identifier`, and the non-empty trimmed values
/// that follow a name.
pub open spec fn command_parts(cs: Seq<SyntaxTree>) -> (Option<Seq<char>>, Seq<Seq<char>>)
    decreases cs.len(),
{
    if cs.len() == 0 {
        (None, Seq::empty())
    } else {
        let (name, args) = command_parts(cs.drop_last());
        let c = cs.last();
        let t = trim(c.text);
        if c.kind == "cmd_identifier"@ {
            if t.len() > 0 {
                (Some(t), args)
            } else {
                (name, args)
            }
        } else if is_value_kind(c.kind) && t.len() > 0 && name is Some {
            (name, args.push(t))
        } else {
            (name, args)
        }
    }
}

/// The command a node gives by itself: a `command` node its named command, a
/// keyword node its keyword without arguments.
pub open spec fn own_commands(node: SyntaxTree) -> Seq<CommandView> {
    if node.kind == "command"@ {
        let (name, args) = command_parts(node.children);
        match name {
            Some(n) => seq![CommandView { name: n, args }],
            None => Seq::empty(),
        }
    } else if is_keyword_command_kind(node.kind) && node.children.len() > 0 && trim(
        node.children[0].text,
    ).len() > 0 {
        seq![CommandView { name: trim(node.children[0].text), args: Seq::empty() }]
    } else {
        Seq::empty()
    }
}

/// The commands of a Nushell syntax tree, in document order: each node's own
/// command, then those of its children.
pub open spec fn tree_commands(node: SyntaxTree) -> Seq<CommandView>
    decreases node,
{
    own_commands(node) + forest_commands(node.children)
}

/// The commands of a sequence of trees, in order.
pub open spec fn forest_commands(s: Seq<SyntaxTree>) -> Seq<CommandView>
    decreases s,
{
    if s.len() == 0 {
        Seq::empty()
    } else {
        forest_commands(s.drop_last()) + tree_commands(s.last())
    }
}

/// Appends the command the node gives by itself.
fn push_own(node: &SyntaxNode, out: &mut Vec<ParsedCommand>)
    ensures
        command_views(final(out)@) == command_views(old(out)@) + own_commands(node@),
{
    let ghost base = command_views(out@);
    let ghost cs = node@.children;
    if str_eq(node.kind.as_str(), "command") {
        let mut name: Option<String> = None;
        let mut args: Vec<String> = Vec::new();
        for i in 0..node.children.len()
            invariant
                cs == node@.children,
                ((match name {
                    Some(n) => Some(n@),
                    None => None,
                }), views(args@)) == command_parts(cs.take(i as int)),
        {
            let child = &node.children[i];
            assert(cs[i as int] == child@);
            assert(cs.take(i + 1).drop_last() =~= cs.take(i as int));
            let t = trim_string(child.text.as_str());
            if str_eq(child.kind.as_str(), "cmd_identifier") {
                if !t.as_str().is_empty() {
                    name = Some(t);
                }
            } else if value_kind(child.kind.as_str()) && !t.as_str().is_empty() && name.is_some() {
                let ghost before = views(args@);
                args.push(t);
                assert(views(args@) =~= before.push(t@));
            }
        }
        assert(cs.take(cs.len() as int) =~= cs);
        match name {
            Some(n) => {
                out.push(ParsedCommand { name: n, args });
                assert(command_views(out@) =~= base + own_commands(node@));
            },
            None => {
                assert(command_views(out@) =~= base + own_commands(node@));
            },
        }
    } else if keyword_command_kind(node.kind.as_str()) && node.children.len() > 0 {
        assert(cs[0] == node.children@[0]@);
        let t = trim_string(node.children[0].text.as_str());
        if !t.as_str().is_empty() {
            let args: Vec<String> = Vec::new();
            assert(views(args@) =~= Seq::<Seq<char>>::empty());
            out.push(ParsedCommand { name: t, args });
        }
        assert(command_views(out@) =~= base + own_commands(node@));
    } else {
        assert(command_views(out@) =~= base + own_commands(node@));
    }
}

/// Appends the commands of the tree `node`, in document order.
fn collect_commands(node: &SyntaxNode, out: &mut Vec<ParsedCommand>)
    ensures
        command_views(final(out)@) == command_views(old(out)@) + tree_commands(node@),
    decreases node,
{
    let ghost base = command_views(out@);
    push_own(node, out);
    let ghost mid = command_views(out@);
    let ghost cs = node@.children;
    assert(forest_commands(cs.take(0)) =~= Seq::<CommandView>::empty());
    for i in 0..node.children.len()
        invariant
            cs == node@.children,
            command_views(out@) == mid + forest_commands(cs.take(i as int)),
    {
        let child = &node.children[i];
        assert(cs[i as int] == child@);
        assert(cs.take(i + 1).drop_last() =~= cs.take(i as int));
        collect_commands(child, out);
        assert(command_views(out@) =~= mid + forest_commands(cs.take(i + 1)));
    }
    assert(cs.take(cs.len() as int) =~= cs);
    assert(command_views(out@) =~= base + tree_commands(node@));
}

/// Extracts all commands from the syntax tree of a Nushell command string:
/// every `command` node gives its `cmd_identifier` and the values after it,
/// and keyword nodes (`where`, `use`, `hide`, ...) give their keyword.
pub fn commands_of_tree(root: &SyntaxNode) -> (r: Vec<ParsedCommand>)
    ensures
        command_views(r@) == tree_commands(root@),
{
    let mut out: Vec<ParsedCommand> = Vec::new();
    assert(command_views(out@) =~= Seq::<CommandView>::empty());
    collect_commands(root, &mut out);
    assert(command_views(out@) =~= tree_commands(root@));
    out
}

} // verus!
