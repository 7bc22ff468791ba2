//! Parsing with tree-sitter, and the conversion of its trees into the
//! syntax trees that the transpiler walks.

use vstd::prelude::*;

use crate::compiler::constants::node_kind::{kind_named, NodeKind};
use crate::compiler::tree::{
    entries_wf, entry_fits, entry_wf, first_child_of, leaves_in_order, next_sibling_of, parent_of,
    switches_have_children, SyntaxNode, SyntaxTree, TreeEntry,
};
use crate::compiler::customizer::is_customized;
use crate::compiler::output_model::{
    copies_verbatim, is_leaf, lemma_tokens_well_shaped, nothing_to_rewrite, translates_tokens, walk_refused, well_shaped,
};
use vstd::string::StringSliceAdditionalSpecFns;
use crate::compiler::walker::{compile, compiled};

verus! {

/// A tree-sitter language, such as the grammar of the source language.
#[verifier::external_type_specification]
#[verifier::external_body]
pub struct ExLanguage(tree_sitter::Language);

/// Why tree-sitter refused a language.
#[verifier::external_type_specification]
#[verifier::external_body]
pub struct ExLanguageError(tree_sitter::LanguageError);

/// A tree-sitter parser.
#[verifier::external_type_specification]
#[verifier::external_body]
pub struct ExParser(tree_sitter::Parser);

/// A syntax tree that tree-sitter built.
#[verifier::external_type_specification]
#[verifier::external_body]
pub struct ExTree(tree_sitter::Tree);

/// A node of a syntax tree that tree-sitter built.
#[verifier::external_type_specification]
#[verifier::external_body]
pub struct ExNode<'tree>(tree_sitter::Node<'tree>);

/// A tree-sitter cursor on a node of a tree.
#[verifier::external_type_specification]
#[verifier::external_body]
pub struct ExTreeCursor<'cursor>(tree_sitter::TreeCursor<'cursor>);

/// Whether tree-sitter accepts `language` for parsing: its ABI version is
/// one that this tree-sitter supports, and it can be parsed with.
pub uninterp spec fn language_accepted(language: tree_sitter::Language) -> bool;

/// The language that `parser` parses with, if one was set.
pub uninterp spec fn parser_language(parser: tree_sitter::Parser) -> Option<tree_sitter::Language>;

/// Whether every option of `parser` but its language (ranges, timeout,
/// cancellation, logger) is as a new parser has it.
pub uninterp spec fn parser_plain(parser: tree_sitter::Parser) -> bool;

/// The tree that tree-sitter parses `source` into with `language`, with no
/// earlier tree and the default options; none if it gives none.
pub uninterp spec fn parsed(language: tree_sitter::Language, source: Seq<u8>) -> Option<tree_sitter::Tree>;

/// The nodes of `tree` in preorder, each with the kind that its kind name
/// denotes (`kind_named`), its byte range, the index of its parent, the index
/// one past its last descendant, and its depth.
pub uninterp spec fn tree_entries(tree: tree_sitter::Tree) -> Seq<TreeEntry>;

/// The nodes that `cursor` walks (the node it was made on and its
/// descendants) in preorder, as `tree_entries` gives them.
pub uninterp spec fn cursor_entries(cursor: tree_sitter::TreeCursor) -> Seq<TreeEntry>;

/// The index in `cursor_entries` of the node that `cursor` is on (its
/// descendant index).
pub uninterp spec fn cursor_position(cursor: tree_sitter::TreeCursor) -> int;

/// The kind that the kind name of `node` denotes, and its byte range.
pub uninterp spec fn node_syntax(node: tree_sitter::Node) -> SyntaxNode;

/// The number of nodes in the subtree of `node`, itself included.
pub uninterp spec fn node_descendants(node: tree_sitter::Node) -> int;

/// `Parser::new`: a parser with no language and the default options.
#[verifier::external_body]
fn parser_new() -> (parser: tree_sitter::Parser)
    ensures
        parser_language(parser) is None,
        parser_plain(parser),
{
    tree_sitter::Parser::new()
}

/// `Parser::set_language`: succeeds exactly when tree-sitter accepts the
/// language, and then sets it; other options stay as they were, and a
/// refused language leaves the parser as it was.
#[verifier::external_body]
fn parser_set_language(parser: &mut tree_sitter::Parser, language: &tree_sitter::Language) -> (result: Result<
    (),
    tree_sitter::LanguageError,
>)
    ensures
        result is Ok == language_accepted(*language),
        result is Ok ==> parser_language(*final(parser)) == Some(*language),
        result is Err ==> parser_language(*final(parser)) == parser_language(*old(parser)),
        parser_plain(*final(parser)) == parser_plain(*old(parser)),
{
    parser.set_language(language)
}

/// `Parser::parse` of `source` with no earlier tree: with a language set
/// and the default options, the tree that `parsed` names.
#[verifier::external_body]
fn parser_parse(parser: &mut tree_sitter::Parser, source: &[u8]) -> (tree: Option<tree_sitter::Tree>)
    ensures
        parser_plain(*old(parser)) ==> (parser_language(*old(parser)) matches Some(language) ==> tree == parsed(
            language,
            source@,
        )),
{
    parser.parse(source, None)
}

/// `Tree::walk`: a cursor on the root of `tree`, which walks all of its
/// nodes; they form a tree in preorder, whose leaves lie in the source in
/// order, without overlapping.
#[verifier::external_body]
fn tree_walk<'tree>(tree: &'tree tree_sitter::Tree) -> (cursor: tree_sitter::TreeCursor<'tree>)
    ensures
        cursor_entries(cursor) == tree_entries(*tree),
        cursor_position(cursor) == 0,
        entries_wf(cursor_entries(cursor)),
        leaves_in_order(cursor_entries(cursor)),
{
    tree.walk()
}

/// `Node::descendant_count`: the number of nodes in the subtree of `node`,
/// itself included.
#[verifier::external_body]
fn node_descendant_count(node: &tree_sitter::Node) -> (count: usize)
    ensures
        count == node_descendants(*node),
{
    node.descendant_count()
}

/// `Node::kind`: the name of the node's kind in the grammar, which denotes
/// its kind.
#[verifier::external_body]
fn node_kind<'tree>(node: &tree_sitter::Node<'tree>) -> (name: &'tree str)
    ensures
        kind_named(name.spec_bytes()) == node_syntax(*node).kind,
{
    node.kind()
}

/// `Node::start_byte`.
#[verifier::external_body]
fn node_start_byte(node: &tree_sitter::Node) -> (start: usize)
    ensures
        start == node_syntax(*node).start_byte,
{
    node.start_byte()
}

/// `Node::end_byte`.
#[verifier::external_body]
fn node_end_byte(node: &tree_sitter::Node) -> (end: usize)
    ensures
        end == node_syntax(*node).end_byte,
{
    node.end_byte()
}

/// `TreeCursor::node`: the node under the cursor, which is the entry at
/// the cursor's position.
#[verifier::external_body]
fn cursor_node<'tree>(cursor: &tree_sitter::TreeCursor<'tree>) -> (node: tree_sitter::Node<'tree>)
    ensures
        ({
            let es = cursor_entries(*cursor);
            let i = cursor_position(*cursor);
            0 <= i < es.len() ==> node_syntax(node) == es[i].node && node_descendants(node) == es[i].subtree_end - i
        }),
{
    cursor.node()
}

/// `TreeCursor::goto_first_child`: moves to the first child of the node
/// under the cursor, if it has one.
#[verifier::external_body]
fn cursor_goto_first_child(cursor: &mut tree_sitter::TreeCursor) -> (moved: bool)
    ensures
        cursor_entries(*final(cursor)) == cursor_entries(*old(cursor)),
        moved == first_child_of(cursor_entries(*old(cursor)), cursor_position(*old(cursor))) is Some,
        cursor_position(*final(cursor)) == match first_child_of(
            cursor_entries(*old(cursor)),
            cursor_position(*old(cursor)),
        ) {
            Some(c) => c,
            None => cursor_position(*old(cursor)),
        },
{
    cursor.goto_first_child()
}

/// `TreeCursor::goto_next_sibling`: moves to the next sibling of the node
/// under the cursor, if it has one.
#[verifier::external_body]
fn cursor_goto_next_sibling(cursor: &mut tree_sitter::TreeCursor) -> (moved: bool)
    ensures
        cursor_entries(*final(cursor)) == cursor_entries(*old(cursor)),
        moved == next_sibling_of(cursor_entries(*old(cursor)), cursor_position(*old(cursor))) is Some,
        cursor_position(*final(cursor)) == match next_sibling_of(
            cursor_entries(*old(cursor)),
            cursor_position(*old(cursor)),
        ) {
            Some(s) => s,
            None => cursor_position(*old(cursor)),
        },
{
    cursor.goto_next_sibling()
}

/// `TreeCursor::goto_parent`: moves to the parent of the node under the
/// cursor, unless it is on the node the cursor was made on.
#[verifier::external_body]
fn cursor_goto_parent(cursor: &mut tree_sitter::TreeCursor) -> (moved: bool)
    ensures
        cursor_entries(*final(cursor)) == cursor_entries(*old(cursor)),
        moved == parent_of(cursor_entries(*old(cursor)), cursor_position(*old(cursor))) is Some,
        cursor_position(*final(cursor)) == match parent_of(
            cursor_entries(*old(cursor)),
            cursor_position(*old(cursor)),
        ) {
            Some(p) => p,
            None => cursor_position(*old(cursor)),
        },
{
    cursor.goto_parent()
}

/// The node under a tree-sitter cursor, with its kind read from its name:
/// the node of the entry at the cursor's position.
fn current_node(cursor: &tree_sitter::TreeCursor) -> (node: SyntaxNode)
    ensures
        ({
            let es = cursor_entries(*cursor);
            let i = cursor_position(*cursor);
            0 <= i < es.len() ==> node == es[i].node
        }),
{
    let node = cursor_node(cursor);
    let name = node_kind(&node);
    SyntaxNode { kind: NodeKind::from_name(name), start_byte: node_start_byte(&node), end_byte: node_end_byte(&node) }
}

/// The indices of the ancestors of entry `i`, outermost first.
pub open spec fn ancestors(es: Seq<TreeEntry>, i: int) -> Seq<usize>
    decreases i,
{
    if 0 <= i < es.len() {
        match es[i].parent {
            Some(p) => if p < i {
                ancestors(es, p as int).push(p)
            } else {
                Seq::empty()
            },
            None => Seq::empty(),
        }
    } else {
        Seq::empty()
    }
}

/// In a well-formed tree, an entry has as many ancestors as its depth.
proof fn lemma_ancestors_depth(es: Seq<TreeEntry>, i: int)
    requires
        entries_wf(es),
        0 <= i < es.len(),
    ensures
        ancestors(es, i).len() == es[i].depth,
    decreases i,
{
    assert(entry_wf(es, i));
    if let Some(p) = es[i].parent {
        assert(entry_wf(es, p as int));
        lemma_ancestors_depth(es, p as int);
    }
}

/// Why a source could not be transpiled.
#[derive(Debug, Clone, Copy, PartialEq, Eq, Structural)]
pub enum TranspileError {
    /// The parser could not be set to the language.
    LanguageRefused,
    /// The parser gave no tree.
    NoTree,
    /// The parser's nodes do not form a well-formed tree.
    MalformedTree,
    /// A node of the tree lies outside the source.
    TreeOutsideSource,
    /// A `switch` statement of the tree has no children.
    ChildlessSwitch,
    /// The walk met a block whose `begin` line has no level of indentation
    /// to be written one level less deep at.
    UnindentableBlock,
}

impl SyntaxTree {
    /// The tree that tree-sitter built, read node by node in preorder.
    pub fn from_tree_sitter(tree: &tree_sitter::Tree) -> (syntax_tree: Option<SyntaxTree>)
        ensures
            syntax_tree is Some,
            syntax_tree->Some_0.wf(),
            syntax_tree->Some_0.entries() == tree_entries(*tree),
            leaves_in_order(tree_entries(*tree)),
    {
        let mut cursor = tree_walk(tree);
        let ghost es = cursor_entries(cursor);
        let mut entries: Vec<TreeEntry> = Vec::new();
        let mut open: Vec<usize> = Vec::new();
        let mut entering = true;
        loop
            invariant
                es == tree_entries(*tree),
                es == cursor_entries(cursor),
                entries_wf(es),
                0 <= cursor_position(cursor) < es.len(),
                open@ == ancestors(es, cursor_position(cursor)),
                entering ==> entries@.len() == cursor_position(cursor),
                !entering ==> entries@.len() == es[cursor_position(cursor)].subtree_end,
                entries@ == es.subrange(0, entries@.len() as int),
            ensures
                entries@ == es,
            decreases 3 * (es.len() - entries@.len()) + open@.len() + (if entering {
                0int
            } else {
                1int
            }),
        {
            let ghost i = cursor_position(cursor);
            proof {
                assert(entry_wf(es, i));
                lemma_ancestors_depth(es, i);
                if let Some(p) = es[i].parent {
                    assert(entry_wf(es, p as int));
                }
            }
            if entering {
                let syntax = current_node(&cursor);
                let node = cursor_node(&cursor);
                let count = node_descendant_count(&node);
                let index = entries.len();
                let parent = if open.len() > 0 {
                    Some(open[open.len() - 1])
                } else {
                    None
                };
                entries.push(TreeEntry { node: syntax, parent, subtree_end: index + count, depth: open.len() });
                proof {
                    assert(entries@ =~= es.subrange(0, entries@.len() as int));
                }
                if cursor_goto_first_child(&mut cursor) {
                    open.push(index);
                    proof {
                        assert(entry_wf(es, i + 1));
                        assert(open@ =~= ancestors(es, i + 1));
                    }
                } else {
                    entering = false;
                }
            } else if cursor_goto_next_sibling(&mut cursor) {
                entering = true;
                proof {
                    let s = cursor_position(cursor);
                    assert(entry_wf(es, s));
                }
            } else if cursor_goto_parent(&mut cursor) {
                open.pop();
                proof {
                    let p = cursor_position(cursor);
                    assert(open@ =~= ancestors(es, p));
                }
            } else {
                proof {
                    assert(i == 0);
                    assert(entries@ =~= es);
                }
                break;
            }
        }
        SyntaxTree::from_entries(entries)
    }
}

/// Transpiles `source` with the syntax tree that the parser gave, if any:
/// `MalformedTree` where there is none, `TreeOutsideSource` where a node lies
/// outside the source, `ChildlessSwitch` where a `switch` statement has no
/// children, `UnindentableBlock` where the walk meets a block that it cannot
/// indent, else what `compile` writes.
pub fn transpile_tree(tree: Option<SyntaxTree>, source: &Vec<u8>) -> (output: Result<Vec<u8>, TranspileError>)
    requires
        tree matches Some(t) ==> t.wf(),
    ensures
        tree is None <==> output == Err::<Vec<u8>, TranspileError>(TranspileError::MalformedTree),
        (tree is Some && !tree->Some_0.fits(source@.len() as int)) <==> output == Err::<Vec<u8>, TranspileError>(
            TranspileError::TreeOutsideSource,
        ),
        (tree is Some && tree->Some_0.fits(source@.len() as int) && !switches_have_children(tree->Some_0.entries()))
            <==> output == Err::<Vec<u8>, TranspileError>(TranspileError::ChildlessSwitch),
        tree is Some && tree->Some_0.fits(source@.len() as int) && switches_have_children(tree->Some_0.entries())
            ==> output is Ok || output == Err::<Vec<u8>, TranspileError>(TranspileError::UnindentableBlock),
        output is Ok ==> tree is Some && compiled(tree->Some_0.entries(), source@, output->Ok_0@),
        tree is Some && tree->Some_0.fits(source@.len() as int) && switches_have_children(tree->Some_0.entries())
            && well_shaped(tree->Some_0.entries()) && 2 * tree->Some_0.entries().len() + 2 <= usize::MAX ==> (
        output is Ok <==> !walk_refused(tree->Some_0.entries(), source@)),
        tree is Some && tree->Some_0.fits(source@.len() as int) && translates_tokens(tree->Some_0.entries()) && 2
            * tree->Some_0.entries().len() + 2 <= usize::MAX ==> output is Ok,
{
    let syntax_tree = match tree {
        Some(t) => t,
        None => return Err(TranspileError::MalformedTree),
    };
    if !syntax_tree.fits_source(source.len()) {
        return Err(TranspileError::TreeOutsideSource);
    }
    if !syntax_tree.has_switch_children() {
        proof {
            if translates_tokens(syntax_tree.entries()) {
                lemma_tokens_well_shaped(syntax_tree.entries());
            }
        }
        return Err(TranspileError::ChildlessSwitch);
    }
    match compile(&syntax_tree, source) {
        Some(output) => Ok(output),
        None => Err(TranspileError::UnindentableBlock),
    }
}

/// Every entry of `es` lies in a source text of `len` bytes.
pub open spec fn entries_fit(es: Seq<TreeEntry>, len: int) -> bool {
    forall|i: int| 0 <= i < es.len() ==> #[trigger] entry_fits(es, i, len)
}

/// Parses `source` with `language` and transpiles it: `LanguageRefused`
/// exactly when tree-sitter refuses the language, else `NoTree` exactly
/// when it parses the source into no tree, else `TreeOutsideSource` exactly
/// when a node of that tree lies outside the source, else `ChildlessSwitch`
/// exactly when a `switch` statement of it has no children, else
/// `UnindentableBlock` where the walk meets a block that it cannot indent,
/// else what `compile` writes with that tree; on a tree with nothing to
/// rewrite, the source itself.
pub fn transpile(language: &tree_sitter::Language, source: &Vec<u8>) -> (output: Result<Vec<u8>, TranspileError>)
    ensures
        output == Err::<Vec<u8>, TranspileError>(TranspileError::LanguageRefused) <==> !language_accepted(*language),
        language_accepted(*language) ==> (output == Err::<Vec<u8>, TranspileError>(TranspileError::NoTree) <==> parsed(
            *language,
            source@,
        ) is None),
        language_accepted(*language) && parsed(*language, source@) is Some ==> ({
            let es = tree_entries(parsed(*language, source@)->Some_0);
            &&& output == Err::<Vec<u8>, TranspileError>(TranspileError::TreeOutsideSource) <==> !entries_fit(
                es,
                source@.len() as int,
            )
            &&& entries_fit(es, source@.len() as int) && !switches_have_children(es) <==> output == Err::<
                Vec<u8>,
                TranspileError,
            >(TranspileError::ChildlessSwitch)
            &&& entries_fit(es, source@.len() as int) && switches_have_children(es) ==> output is Ok || output
                == Err::<Vec<u8>, TranspileError>(TranspileError::UnindentableBlock)
            &&& output is Ok ==> compiled(es, source@, output->Ok_0@)
            &&& entries_fit(es, source@.len() as int) && switches_have_children(es) && well_shaped(es) && 2 * es.len()
                + 2 <= usize::MAX ==> (output is Ok <==> !walk_refused(es, source@))
            &&& entries_fit(es, source@.len() as int) && nothing_to_rewrite(es) && 2 * es.len() + 2 <= usize::MAX
                ==> output is Ok && output->Ok_0@ == source@
        }),
{
    let mut parser = parser_new();
    if parser_set_language(&mut parser, language).is_err() {
        return Err(TranspileError::LanguageRefused);
    }
    let tree = match parser_parse(&mut parser, source.as_slice()) {
        Some(tree) => tree,
        None => return Err(TranspileError::NoTree),
    };
    let syntax_tree = SyntaxTree::from_tree_sitter(&tree);
    let ghost es = tree_entries(tree);
    proof {
        if nothing_to_rewrite(es) {
            assert forall|i: int|
                0 <= i < es.len() && #[trigger] es[i].node.kind == NodeKind::SwitchStatement implies first_child_of(
                es,
                i,
            ) is Some by {
                assert(!is_customized(es[i].node.kind));
            }
            assert forall|i: int, j: int|
                0 <= i < j < es.len() && #[trigger] is_leaf(es, i) && #[trigger] is_leaf(es, j) implies es[i].node.end_byte
                <= es[j].node.start_byte by {
                assert(es[i].node.end_byte <= es[j].node.start_byte);
            }
            assert(copies_verbatim(es));
        }
    }
    transpile_tree(syntax_tree, source)
}

} // verus!
