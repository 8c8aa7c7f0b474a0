//! The commands of a bash command line, with the command lines that
//! `cmd /c`, `pwsh -c` and `nu -c` run parsed in a second stage.
use vstd::prelude::*;

use crate::parser::powershell;
use crate::syntax::{bash_syntax_tree, parse_bash, SyntaxNode, SyntaxTree};
use crate::text::{
    ascii_ci_eq, basename, chars_of, eq_ignore_ascii_case, spec_basename, spec_unquote, str_eq,
    unquote, views, is_lone_quote, trim_string,
};
use crate::types::{command_views, CommandView, ParsedCommand};

verus! {

/// What the bash parser finds: a command, or the script of a `nu -c` launcher,
/// which is Nushell and is parsed with the Nushell grammar.
#[derive(Debug)]
pub enum Extracted {
    Command(ParsedCommand),
    Nushell(String),
}

/// What the bash parser finds, as a value.
pub enum ExtractedView {
    Command(CommandView),
    Nushell(Seq<char>),
}

impl View for Extracted {
    type V = ExtractedView;

    open spec fn view(&self) -> ExtractedView {
        match self {
            Extracted::Command(c) => ExtractedView::Command(c@),
            Extracted::Nushell(s) => ExtractedView::Nushell(s@),
        }
    }
}

/// The views of a list of findings.
pub open spec fn extracted_views(v: Seq<Extracted>) -> Seq<ExtractedView> {
    v.map_values(|e: Extracted| e@)
}

/// The node kinds that give an argument of a command.
pub open spec fn is_argument_kind(k: Seq<char>) -> bool {
    ||| k == "word"@
    ||| k == "string"@
    ||| k == "raw_string"@
    ||| k == "concatenation"@
    ||| k == "simple_expansion"@
    ||| k == "expansion"@
}

/// Whether `kind` is a node kind that gives an argument.
pub fn is_argument_node(kind: &str) -> (r: bool)
    ensures
        r == is_argument_kind(kind@),
{
    str_eq(kind, "word") || str_eq(kind, "string") || str_eq(kind, "raw_string") || str_eq(
        kind,
        "concatenation",
    ) || str_eq(kind, "simple_expansion") || str_eq(kind, "expansion")
}

/// The launchers of `cmd.exe`.
pub open spec fn is_cmd_launcher(n: Seq<char>) -> bool {
    n == "cmd"@ || n == "cmd.exe"@
}

/// The launchers of Nushell.
pub open spec fn is_nu_launcher(n: Seq<char>) -> bool {
    n == "nu"@ || n == "nu.exe"@
}

/// The launchers of PowerShell.
pub open spec fn is_ps_launcher(n: Seq<char>) -> bool {
    n == "pwsh"@ || n == "pwsh.exe"@ || n == "powershell"@ || n == "powershell.exe"@
}

/// The name and arguments found among the children of a `command` node: the
/// base name of the first child of the last `command_name`, and the unquoted
/// texts of the argument nodes that follow a name.
pub open spec fn command_parts(cs: Seq<SyntaxTree>) -> (Option<Seq<char>>, Seq<Seq<char>>)
    decreases cs.len(),
{
    if cs.len() == 0 {
        (None, Seq::empty())
    } else {
        let (name, args) = command_parts(cs.drop_last());
        let c = cs.last();
        if c.kind == "command_name"@ {
            if c.children.len() > 0 {
                (Some(spec_basename(c.children[0].text)), args)
            } else {
                (name, args)
            }
        } else if name is Some && is_argument_kind(c.kind) {
            (name, args.push(spec_unquote(c.text)))
        } else {
            (name, args)
        }
    }
}

/// The position of the first argument equal to `flag` up to ASCII case, or -1.
pub open spec fn first_ci(args: Seq<Seq<char>>, flag: Seq<char>) -> int
    decreases args.len(),
{
    if args.len() == 0 {
        -1
    } else if ascii_ci_eq(args[0], flag) {
        0
    } else {
        let p = first_ci(args.drop_first(), flag);
        if p < 0 {
            -1
        } else {
            p + 1
        }
    }
}

/// The position of the first argument equal to `flag`, or -1.
pub open spec fn first_exact(args: Seq<Seq<char>>, flag: Seq<char>) -> int
    decreases args.len(),
{
    if args.len() == 0 {
        -1
    } else if args[0] == flag {
        0
    } else {
        let p = first_exact(args.drop_first(), flag);
        if p < 0 {
            -1
        } else {
            p + 1
        }
    }
}

/// The argument after position `p`, where there is one.
pub open spec fn script_after(args: Seq<Seq<char>>, p: int) -> Option<Seq<char>> {
    if 0 <= p && p + 1 < args.len() {
        Some(args[p + 1])
    } else {
        None
    }
}

/// The findings of a bash syntax tree of `input`, in document order: a
/// `command` node gives its findings; any other node those of its children.
pub open spec fn tree_items(input: Seq<char>, node: SyntaxTree) -> Seq<ExtractedView>
    decreases input.len(), node, 2int,
{
    if node.kind == "command"@ {
        command_items(input, node)
    } else {
        forest_items(input, node.children)
    }
}

/// The findings of a sequence of trees, in order.
pub open spec fn forest_items(input: Seq<char>, s: Seq<SyntaxTree>) -> Seq<ExtractedView>
    decreases input.len(), s, 0int,
{
    if s.len() == 0 {
        Seq::empty()
    } else {
        forest_items(input, s.drop_last()) + tree_items(input, s.last())
    }
}

/// The findings of the `command_substitution` nodes among `s`, in order.
pub open spec fn substitution_items(input: Seq<char>, s: Seq<SyntaxTree>) -> Seq<ExtractedView>
    decreases input.len(), s, 0int,
{
    if s.len() == 0 {
        Seq::empty()
    } else {
        substitution_items(input, s.drop_last()) + (if s.last().kind == "command_substitution"@ {
            tree_items(input, s.last())
        } else {
            Seq::empty()
        })
    }
}

/// The commands of a PowerShell script, as findings.
pub open spec fn powershell_items(script: Seq<char>) -> Seq<ExtractedView> {
    powershell::powershell_commands(script).map_values(|c: CommandView| ExtractedView::Command(c))
}

/// The findings of the script that the command `name args` launches, where
/// it is a shell launcher: for `cmd /c` (the flag in any case) the script
/// parsed as bash again; for `pwsh -c` the script parsed as PowerShell; for
/// `nu -c` the script handed on as Nushell. A `cmd /c` script is parsed only
/// where it is shorter than the line it comes from, as an argument of a
/// command always is. `node` is the command node the launcher comes from.
pub open spec fn second_stage_items(
    input: Seq<char>,
    node: SyntaxTree,
    name: Seq<char>,
    args: Seq<Seq<char>>,
) -> Seq<ExtractedView>
    decreases input.len(), node, 0int,
{
    if is_cmd_launcher(name) {
        match script_after(args, first_ci(args, "/c"@)) {
            Some(inner) => if inner.len() < input.len() {
                match bash_syntax_tree(inner) {
                    Some(t) => tree_items(inner, t),
                    None => Seq::empty(),
                }
            } else {
                Seq::empty()
            },
            None => Seq::empty(),
        }
    } else {
        match script_after(args, first_exact(args, "-c"@)) {
            Some(inner) => if is_nu_launcher(name) {
                seq![ExtractedView::Nushell(inner)]
            } else if is_ps_launcher(name) {
                powershell_items(inner)
            } else {
                Seq::empty()
            },
            None => Seq::empty(),
        }
    }
}

/// The findings of a `command` node: where it has a name, first those of the
/// script it launches, then the command itself; last those of its command
/// substitutions.
pub open spec fn command_items(input: Seq<char>, node: SyntaxTree) -> Seq<ExtractedView>
    decreases input.len(), node, 1int,
{
    let (name, args) = command_parts(node.children);
    let subs = substitution_items(input, node.children);
    match name {
        None => subs,
        Some(n) => second_stage_items(input, node, n, args) + seq![
            ExtractedView::Command(CommandView { name: n, args }),
        ] + subs,
    }
}

/// The findings of a bash command line: none where it has no tree.
pub open spec fn bash_items(input: Seq<char>) -> Seq<ExtractedView> {
    match bash_syntax_tree(input) {
        Some(t) => tree_items(input, t),
        None => Seq::empty(),
    }
}


/// `first_ci` is the least position of an argument equal to the flag up to
/// ASCII case, or -1 where there is none.
pub proof fn lemma_first_ci(args: Seq<Seq<char>>, flag: Seq<char>, i: int)
    requires
        0 <= i <= args.len(),
        forall|j: int| 0 <= j < i ==> !ascii_ci_eq(#[trigger] args[j], flag),
    ensures
        i < args.len() && ascii_ci_eq(args[i], flag) ==> first_ci(args, flag) == i,
        i == args.len() ==> first_ci(args, flag) == -1,
    decreases i,
{
    if i > 0 {
        let rest = args.drop_first();
        assert forall|j: int| 0 <= j < i - 1 implies !ascii_ci_eq(#[trigger] rest[j], flag) by {
            assert(rest[j] == args[j + 1]);
        }
        lemma_first_ci(rest, flag, i - 1);
        assert(!ascii_ci_eq(args[0], flag));
    }
}

/// `first_exact` is the least position of an argument equal to the flag, or
/// -1 where there is none.
pub proof fn lemma_first_exact(args: Seq<Seq<char>>, flag: Seq<char>, i: int)
    requires
        0 <= i <= args.len(),
        forall|j: int| 0 <= j < i ==> #[trigger] args[j] != flag,
    ensures
        i < args.len() && args[i] == flag ==> first_exact(args, flag) == i,
        i == args.len() ==> first_exact(args, flag) == -1,
    decreases i,
{
    if i > 0 {
        let rest = args.drop_first();
        assert forall|j: int| 0 <= j < i - 1 implies #[trigger] rest[j] != flag by {
            assert(rest[j] == args[j + 1]);
        }
        lemma_first_exact(rest, flag, i - 1);
        assert(args[0] != flag);
    }
}

/// The script after the first argument equal to `flag` up to ASCII case.
fn script_after_ci<'a>(args: &'a Vec<String>, flag: &str) -> (r: Option<&'a String>)
    ensures
        match r {
            Some(s) => script_after(views(args@), first_ci(views(args@), flag@)) == Some(s@),
            None => script_after(views(args@), first_ci(views(args@), flag@)) is None,
        },
{
    let ghost av = views(args@);
    for i in 0..args.len()
        invariant
            av == views(args@),
            forall|j: int| 0 <= j < i ==> !ascii_ci_eq(#[trigger] av[j], flag@),
    {
        assert(av[i as int] == args@[i as int]@);
        if eq_ignore_ascii_case(args[i].as_str(), flag) {
            proof {
                lemma_first_ci(av, flag@, i as int);
            }
            if i + 1 < args.len() {
                assert(av[i + 1] == args@[i + 1]@);
                return Some(&args[i + 1]);
            } else {
                return None;
            }
        }
    }
    proof {
        lemma_first_ci(av, flag@, av.len() as int);
    }
    None
}

/// The script after the first argument equal to `flag`.
fn script_after_exact<'a>(args: &'a Vec<String>, flag: &str) -> (r: Option<&'a String>)
    ensures
        match r {
            Some(s) => script_after(views(args@), first_exact(views(args@), flag@)) == Some(s@),
            None => script_after(views(args@), first_exact(views(args@), flag@)) is None,
        },
{
    let ghost av = views(args@);
    for i in 0..args.len()
        invariant
            av == views(args@),
            forall|j: int| 0 <= j < i ==> #[trigger] av[j] != flag@,
    {
        assert(av[i as int] == args@[i as int]@);
        if str_eq(args[i].as_str(), flag) {
            proof {
                lemma_first_exact(av, flag@, i as int);
            }
            if i + 1 < args.len() {
                assert(av[i + 1] == args@[i + 1]@);
                return Some(&args[i + 1]);
            } else {
                return None;
            }
        }
    }
    proof {
        lemma_first_exact(av, flag@, av.len() as int);
    }
    None
}

/// Appends the findings of the tree `node` of `input`, in document order.
fn collect_commands(input: &str, node: &SyntaxNode, out: &mut Vec<Extracted>)
    ensures
        extracted_views(final(out)@) == extracted_views(old(out)@) + tree_items(input@, node@),
    decreases input@.len(), node, 2int,
{
    if str_eq(node.kind.as_str(), "command") {
        extract_from_command(input, node, out);
    } else {
        let ghost base = extracted_views(out@);
        let ghost cs = node@.children;
        assert(forest_items(input@, cs.take(0)) =~= Seq::<ExtractedView>::empty());
        for i in 0..node.children.len()
            invariant
                cs == node@.children,
                extracted_views(out@) == base + forest_items(input@, cs.take(i as int)),
        {
            let child = &node.children[i];
            assert(cs[i as int] == child@);
            assert(cs.take(i + 1).drop_last() =~= cs.take(i as int));
            collect_commands(input, child, out);
            assert(extracted_views(out@) =~= base + forest_items(input@, cs.take(i + 1)));
        }
        assert(cs.take(cs.len() as int) =~= cs);
    }
}

/// Appends the findings of the script that the command `command_name args`
/// launches; `node` is the command node it comes from.
pub fn try_second_stage(
    input: &str,
    node: &SyntaxNode,
    command_name: &String,
    args: &Vec<String>,
    out: &mut Vec<Extracted>,
)
    ensures
        extracted_views(final(out)@) == extracted_views(old(out)@) + second_stage_items(
            input@,
            node@,
            command_name@,
            views(args@),
        ),
    decreases input@.len(), node, 0int,
{
    let ghost base = extracted_views(out@);
    // cmd.exe uses /c (case-insensitive), others use -c
    if str_eq(command_name.as_str(), "cmd") || str_eq(command_name.as_str(), "cmd.exe") {
        match script_after_ci(args, "/c") {
            Some(inner) => {
                let inner_len = chars_of(inner.as_str()).len();
                let input_len = chars_of(input).len();
                if inner_len < input_len {
                    match parse_bash(inner.as_str()) {
                        Some(tree) => {
                            collect_commands(inner.as_str(), &tree, out);
                        },
                        None => {},
                    }
                }
            },
            None => {},
        }
    } else {
        match script_after_exact(args, "-c") {
            Some(inner) => {
                if str_eq(command_name.as_str(), "nu") || str_eq(command_name.as_str(), "nu.exe") {
                    out.push(Extracted::Nushell(inner.clone()));
                    assert(extracted_views(out@) =~= base + seq![ExtractedView::Nushell(inner@)]);
                } else if str_eq(command_name.as_str(), "pwsh") || str_eq(
                    command_name.as_str(),
                    "pwsh.exe",
                ) || str_eq(command_name.as_str(), "powershell") || str_eq(
                    command_name.as_str(),
                    "powershell.exe",
                ) {
                    let found = powershell::extract_commands(inner.as_str());
                    let ghost pc = command_views(found@);
                    let mut k: usize = 0;
                    while k < found.len()
                        invariant
                            k <= found@.len(),
                            pc == command_views(found@),
                            extracted_views(out@) == base + pc.take(k as int).map_values(
                                |c: CommandView| ExtractedView::Command(c),
                            ),
                        decreases found@.len() - k,
                    {
                        let c = found[k].copy();
                        assert(c@ == pc[k as int]);
                        let ghost prev = extracted_views(out@);
                        out.push(Extracted::Command(c));
                        assert(extracted_views(out@) =~= prev.push(ExtractedView::Command(pc[k as int])));
                        assert(pc.take(k + 1).map_values(|c: CommandView| ExtractedView::Command(c))
                            =~= pc.take(k as int).map_values(
                            |c: CommandView| ExtractedView::Command(c),
                        ).push(ExtractedView::Command(pc[k as int])));
                        k = k + 1;
                    }
                    assert(pc.take(found@.len() as int) =~= pc);
                } else {
                    assert(extracted_views(out@) =~= base + Seq::<ExtractedView>::empty());
                }
            },
            None => {
                assert(extracted_views(out@) =~= base + Seq::<ExtractedView>::empty());
            },
        }
    }
}

/// Appends the findings of the `command` node `node` of `input`.
fn extract_from_command(input: &str, node: &SyntaxNode, out: &mut Vec<Extracted>)
    ensures
        extracted_views(final(out)@) == extracted_views(old(out)@) + command_items(
            input@,
            node@,
        ),
    decreases input@.len(), node, 1int,
{
    let ghost base = extracted_views(out@);
    let ghost cs = node@.children;
    let mut command_name: Option<String> = None;
    let mut args: Vec<String> = Vec::new();
    for i in 0..node.children.len()
        invariant
            cs == node@.children,
            ((match command_name {
                Some(n) => Some(n@),
                None => None,
            }), views(args@)) == command_parts(cs.take(i as int)),
    {
        let child = &node.children[i];
        assert(cs[i as int] == child@);
        assert(cs.take(i + 1).drop_last() =~= cs.take(i as int));
        if str_eq(child.kind.as_str(), "command_name") {
            if child.children.len() > 0 {
                assert(child@.children[0] == child.children@[0]@);
                command_name = Some(basename(child.children[0].text.as_str()));
            }
        } else if command_name.is_some() && is_argument_node(child.kind.as_str()) {
            let ghost before = views(args@);
            if is_lone_quote(child.text.as_str()) {
                args.push(trim_string(child.text.as_str()));
            } else {
                args.push(unquote(child.text.as_str()));
            }
            assert(views(args@) =~= before.push(spec_unquote(child@.text)));
        }
    }
    assert(cs.take(cs.len() as int) =~= cs);
    match command_name {
        Some(name) => {
            let ghost n = name@;
            let ghost av = views(args@);
            try_second_stage(input, node, &name, &args, out);
            let ghost before = extracted_views(out@);
            out.push(Extracted::Command(ParsedCommand { name, args }));
            assert(extracted_views(out@) =~= before + seq![
                ExtractedView::Command(CommandView { name: n, args: av }),
            ]);
        },
        None => {},
    }
    let ghost mid = extracted_views(out@);
    assert(substitution_items(input@, cs.take(0)) =~= Seq::<ExtractedView>::empty());
    for i in 0..node.children.len()
        invariant
            cs == node@.children,
            extracted_views(out@) == mid + substitution_items(input@, cs.take(i as int)),
    {
        let child = &node.children[i];
        assert(cs[i as int] == child@);
        assert(cs.take(i + 1).drop_last() =~= cs.take(i as int));
        if str_eq(child.kind.as_str(), "command_substitution") {
            collect_commands(input, child, out);
        }
        assert(extracted_views(out@) =~= mid + substitution_items(input@, cs.take(i + 1)));
    }
    assert(cs.take(cs.len() as int) =~= cs);
    assert(extracted_views(out@) =~= base + command_items(input@, node@));
}

/// The findings of the bash syntax tree `root` of `input`, in document order.
pub fn extract_from_tree(input: &str, root: &SyntaxNode) -> (r: Vec<Extracted>)
    ensures
        extracted_views(r@) == tree_items(input@, root@),
{
    let mut out: Vec<Extracted> = Vec::new();
    assert(extracted_views(out@) =~= Seq::<ExtractedView>::empty());
    collect_commands(input, root, &mut out);
    assert(extracted_views(out@) =~= tree_items(input@, root@));
    out
}

/// Extracts everything a bash command string runs, in document order: each
/// command with its base name and unquoted arguments, preceded by the
/// commands of the script it launches (`cmd /c` and `pwsh -c` are parsed at
/// once; a `nu -c` script is handed on as Nushell) and followed by the
/// commands of its command substitutions. Nothing where the line has no
/// syntax tree.
pub fn extract_commands(input: &str) -> (r: Vec<Extracted>)
    ensures
        extracted_views(r@) == bash_items(input@),
{
    match parse_bash(input) {
        Some(tree) => extract_from_tree(input, &tree),
        None => {
            let out: Vec<Extracted> = Vec::new();
            assert(extracted_views(out@) =~= bash_items(input@));
            out
        },
    }
}

} // verus!
