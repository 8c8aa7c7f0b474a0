//! Concrete syntax trees, as tree-sitter builds them, held as plain values.
use vstd::prelude::*;

verus! {

/// `tree_sitter::Node`, carried opaquely while a tree is converted.
#[verifier::external_type_specification]
#[verifier::external_body]
pub struct ExNode<'tree>(tree_sitter::Node<'tree>);

/// A node of a concrete syntax tree: its kind (the grammar symbol, or the
/// token text for an anonymous node), the source text it spans, and all its
/// children in order.
#[derive(Debug)]
pub struct SyntaxNode {
    pub kind: String,
    pub text: String,
    pub children: Vec<SyntaxNode>,
}

/// A syntax tree as a value.
pub struct SyntaxTree {
    pub kind: Seq<char>,
    pub text: Seq<char>,
    pub children: Seq<SyntaxTree>,
}

impl View for SyntaxNode {
    type V = SyntaxTree;

    open spec fn view(&self) -> SyntaxTree
        decreases self,
    {
        SyntaxTree {
            kind: self.kind@,
            text: self.text@,
            children: Seq::new(
                self.children@.len(),
                |i: int| {
                    if 0 <= i < self.children@.len() {
                        self.children@[i].view()
                    } else {
                        SyntaxTree { kind: Seq::empty(), text: Seq::empty(), children: Seq::empty() }
                    }
                },
            ),
        }
    }
}


/// The node reached from `t` by following `path`, one child position per
/// step; `None` where a position is out of range.
pub open spec fn subtree_at(t: SyntaxTree, path: Seq<int>) -> Option<SyntaxTree>
    decreases path.len(),
{
    if path.len() == 0 {
        Some(t)
    } else if 0 <= path[0] < t.children.len() {
        subtree_at(t.children[path[0]], path.drop_first())
    } else {
        None
    }
}

/// The view of an optional tree.
pub open spec fn tree_of(r: Option<SyntaxNode>) -> Option<SyntaxTree> {
    match r {
        Some(n) => Some(n@),
        None => None,
    }
}

/// `tree_sitter::Node`: the node with its kind, its text (`utf8_text` over the
/// source, empty where that fails) and its children, converted one for one.
#[verifier::external_body]
fn syntax_node_of(node: tree_sitter::Node, source: &[u8]) -> SyntaxNode {
    let mut children = Vec::new();
    for i in 0..node.child_count() {
        if let Some(child) = node.child(i) {
            children.push(syntax_node_of(child, source));
        }
    }
    let text = node.utf8_text(source).unwrap_or("").to_owned();
    SyntaxNode { kind: node.kind().to_owned(), text, children }
}

/// `tree_sitter::Parser::parse` with the grammar of `tree_sitter_bash`: the
/// concrete syntax tree of `input`, or `None` where no tree is produced.
pub uninterp spec fn bash_syntax_tree(input: Seq<char>) -> Option<SyntaxTree>;

/// `tree_sitter::Parser::parse` with the grammar of `tree_sitter_powershell`.
pub uninterp spec fn powershell_syntax_tree(input: Seq<char>) -> Option<SyntaxTree>;

/// `tree_sitter::Parser::parse` with the bash grammar (after
/// `Parser::new` and `Parser::set_language`), converted to a `SyntaxNode`.
/// Claimed: the result is `bash_syntax_tree` of the input, a function of the
/// input alone. `None` where the grammar cannot be loaded or no tree is made.
#[verifier::external_body]
pub(crate) fn parse_bash(input: &str) -> (r: Option<SyntaxNode>)
    ensures
        tree_of(r) == bash_syntax_tree(input@),
{
    let mut parser = tree_sitter::Parser::new();
    if parser.set_language(&tree_sitter_bash::LANGUAGE.into()).is_err() {
        return None;
    }
    match parser.parse(input, None) {
        Some(tree) => Some(syntax_node_of(tree.root_node(), input.as_bytes())),
        None => None,
    }
}

/// `tree_sitter::Parser::parse` with the PowerShell grammar (after
/// `Parser::new` and `Parser::set_language`), converted to a `SyntaxNode`.
/// Claimed: the result is `powershell_syntax_tree` of the input, a function of
/// the input alone. `None` where the grammar cannot be loaded or no tree is
/// made.
#[verifier::external_body]
pub(crate) fn parse_powershell(input: &str) -> (r: Option<SyntaxNode>)
    ensures
        tree_of(r) == powershell_syntax_tree(input@),
{
    let mut parser = tree_sitter::Parser::new();
    if parser.set_language(&tree_sitter_powershell::LANGUAGE.into()).is_err() {
        return None;
    }
    match parser.parse(input, None) {
        Some(tree) => Some(syntax_node_of(tree.root_node(), input.as_bytes())),
        None => None,
    }
}

} // verus!
