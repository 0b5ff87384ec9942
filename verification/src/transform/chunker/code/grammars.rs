//! The tree-sitter side of the code chunker: grammars, parsing, and the
//! top-level nodes of a parse tree. What a parse of a text produces is named
//! by [`ts_top_level_nodes`], the children of a tree's root node by
//! [`root_children`].
use vstd::prelude::*;
use super::query::Lang;

verus! {

/// A tree-sitter grammar handle.
#[verifier::external_type_specification]
#[verifier::external_body]
pub struct ExLanguage(tree_sitter::Language);

/// A tree-sitter parse tree.
#[verifier::external_type_specification]
#[verifier::external_body]
pub struct ExTree(tree_sitter::Tree);

/// A top-level node of a parse tree: its node type and byte range.
#[derive(Debug, Clone, PartialEq, Eq)]
pub struct TsNode {
    pub kind: String,
    pub start_byte: usize,
    pub end_byte: usize,
}

/// Converts the grammar crate's `LANGUAGE` constant for `lang` into a
/// `tree_sitter::Language`.
#[verifier::external_body]
fn language_for(lang: Lang) -> tree_sitter::Language {
    match lang {
        Lang::Rust => tree_sitter_rust::LANGUAGE.into(),
        Lang::Python => tree_sitter_python::LANGUAGE.into(),
        Lang::JavaScript => tree_sitter_javascript::LANGUAGE.into(),
        Lang::TypeScript => tree_sitter_typescript::LANGUAGE_TYPESCRIPT.into(),
        Lang::Tsx => tree_sitter_typescript::LANGUAGE_TSX.into(),
        Lang::Go => tree_sitter_go::LANGUAGE.into(),
        Lang::Java => tree_sitter_java::LANGUAGE.into(),
        Lang::C => tree_sitter_c::LANGUAGE.into(),
        Lang::Cpp => tree_sitter_cpp::LANGUAGE.into(),
        Lang::Ruby => tree_sitter_ruby::LANGUAGE.into(),
        Lang::Bash => tree_sitter_bash::LANGUAGE.into(),
    }
}

/// The children of the root node of the tree that tree-sitter parses from
/// `text` with the grammar of `lang`, in order, each as its node type and byte
/// range.
pub uninterp spec fn ts_top_level_nodes(lang: Lang, text: Seq<char>) -> Seq<(Seq<char>, usize, usize)>;

/// The rendering of the error `Parser::set_language` gives for the grammar
/// of `lang` (whose ABI version it does not support), `None` when it accepts
/// the grammar.
pub uninterp spec fn ts_language_error(lang: Lang) -> Option<Seq<char>>;

/// Parses `text` with a new `tree_sitter::Parser` set to the grammar of
/// `lang` (`Parser::new`, `Parser::set_language`, `Parser::parse` without an
/// old tree). When `set_language` refuses the grammar, its error, rendered;
/// otherwise the tree, whose root node's children are
/// [`ts_top_level_nodes`]. `parse` gives no tree only without a language, or
/// on a timeout or cancellation, none of which is set here, so a tree comes
/// back whenever the grammar is accepted.
#[verifier::external_body]
pub(crate) fn parse_with_grammar(lang: Lang, text: &str) -> (r: Result<Option<tree_sitter::Tree>, String>)
    ensures
        r is Err <==> ts_language_error(lang) is Some,
        r matches Err(m) ==> ts_language_error(lang) == Some(m@),
        r matches Ok(t) ==> t is Some,
        r matches Ok(Some(t)) ==> root_children(t) == ts_top_level_nodes(lang, text@),
{
    let mut parser = tree_sitter::Parser::new();
    if let Err(e) = parser.set_language(&language_for(lang)) {
        return Err(e.to_string());
    }
    Ok(parser.parse(text, None))
}

/// The children of the root node of a parse tree (`Tree::root_node`), in
/// order, each as its node type (`Node::kind`) and byte range (`start_byte`,
/// `end_byte`).
pub uninterp spec fn root_children(tree: tree_sitter::Tree) -> Seq<(Seq<char>, usize, usize)>;

/// `node` is the top-level node described by `child`.
pub open spec fn describes(node: TsNode, child: (Seq<char>, usize, usize)) -> bool {
    node.kind@ == child.0 && node.start_byte == child.1 && node.end_byte == child.2
}

/// `Node::child_count` of the tree's root node (`Tree::root_node`): the
/// number of its children.
#[verifier::external_body]
fn root_child_count(tree: &tree_sitter::Tree) -> (n: usize)
    ensures
        n == root_children(*tree).len(),
{
    tree.root_node().child_count()
}

/// `Node::child` number `i` of the tree's root node, as its node type
/// (`Node::kind`) and byte range (`start_byte`, `end_byte`): for `i` below
/// the child count it is that child.
#[verifier::external_body]
fn root_child(tree: &tree_sitter::Tree, i: usize) -> (r: Option<TsNode>)
    requires
        i < root_children(*tree).len(),
    ensures
        r is Some,
        describes(r.unwrap(), root_children(*tree)[i as int]),
{
    match tree.root_node().child(i) {
        Some(c) => Some(TsNode { kind: c.kind().to_string(), start_byte: c.start_byte(), end_byte: c.end_byte() }),
        None => None,
    }
}

/// The children of the root node of `tree`, in order.
pub(crate) fn top_level_nodes(tree: &tree_sitter::Tree) -> (out: Vec<TsNode>)
    ensures
        out@.len() == root_children(*tree).len(),
        forall|k: int| 0 <= k < out@.len() ==> describes(#[trigger] out@[k], root_children(*tree)[k]),
{
    let n = root_child_count(tree);
    let mut out: Vec<TsNode> = Vec::new();
    let mut i: usize = 0;
    while i < n
        invariant
            i <= n,
            n == root_children(*tree).len(),
            out@.len() == i,
            forall|k: int| 0 <= k < out@.len() ==> describes(#[trigger] out@[k], root_children(*tree)[k]),
        decreases n - i,
    {
        match root_child(tree, i) {
            Some(node) => out.push(node),
            None => {},
        }
        i += 1;
    }
    out
}

} // verus!
