use alic::compiler::constants::node_kind::NodeKind;
use alic::compiler::syntax::{transpile_tree, TranspileError};
use alic::compiler::tree::{SyntaxNode, SyntaxTree, TreeBuilder, TreeEntry};

fn node(kind: NodeKind, start_byte: usize, end_byte: usize) -> SyntaxNode {
    SyntaxNode { kind, start_byte, end_byte }
}

/// A root with two children, the first of which has one child.
fn small_tree() -> SyntaxTree {
    let mut builder = TreeBuilder::new();
    builder.open_node(node(NodeKind::SourceFile, 0, 6));
    builder.open_node(node(NodeKind::CodeBlock, 0, 3));
    builder.open_node(node(NodeKind::Other, 0, 3));
    assert!(builder.close_node());
    assert!(builder.close_node());
    builder.open_node(node(NodeKind::Other, 4, 6));
    builder.finish().unwrap()
}

#[test]
fn builder_makes_a_preorder_tree() {
    let tree = small_tree();
    assert_eq!(tree.len(), 4);
    assert!(tree.fits_source(6));
    assert!(!tree.fits_source(5));
}

#[test]
fn cursor_moves_through_the_tree() {
    let tree = small_tree();
    let mut cursor = tree.walk();
    assert_eq!(cursor.node().kind, NodeKind::SourceFile);
    assert!(!cursor.goto_next_sibling());
    assert!(!cursor.goto_parent());
    assert!(cursor.goto_first_child());
    assert_eq!(cursor.node().kind, NodeKind::CodeBlock);
    assert!(cursor.goto_first_child());
    assert_eq!(cursor.node().end_byte, 3);
    assert!(!cursor.goto_first_child());
    assert!(!cursor.goto_next_sibling());
    assert!(cursor.goto_parent());
    assert!(cursor.goto_next_sibling());
    assert_eq!(cursor.node().start_byte, 4);
    assert!(!cursor.goto_next_sibling());
    assert!(cursor.goto_parent());
    assert_eq!(cursor.node().kind, NodeKind::SourceFile);
}

#[test]
fn builder_with_two_roots_fails() {
    let mut builder = TreeBuilder::new();
    builder.open_node(node(NodeKind::Other, 0, 1));
    assert!(builder.close_node());
    builder.open_node(node(NodeKind::Other, 1, 2));
    assert!(builder.finish().is_none());
}

#[test]
fn builder_with_no_node_fails() {
    let mut builder = TreeBuilder::new();
    assert!(!builder.close_node());
    assert!(builder.finish().is_none());
}

#[test]
fn from_entries_checks_the_shape() {
    let leaf = node(NodeKind::Other, 0, 1);
    let good = vec![
        TreeEntry { node: leaf, parent: None, subtree_end: 2, depth: 0 },
        TreeEntry { node: leaf, parent: Some(0), subtree_end: 2, depth: 1 },
    ];
    assert!(SyntaxTree::from_entries(good).is_some());
    let bad_depth = vec![
        TreeEntry { node: leaf, parent: None, subtree_end: 2, depth: 0 },
        TreeEntry { node: leaf, parent: Some(0), subtree_end: 2, depth: 2 },
    ];
    assert!(SyntaxTree::from_entries(bad_depth).is_none());
    let bad_end = vec![
        TreeEntry { node: leaf, parent: None, subtree_end: 1, depth: 0 },
        TreeEntry { node: leaf, parent: Some(0), subtree_end: 2, depth: 1 },
    ];
    assert!(SyntaxTree::from_entries(bad_end).is_none());
    assert!(SyntaxTree::from_entries(Vec::new()).is_none());
}

#[test]
fn node_kinds_from_names() {
    assert_eq!(NodeKind::from_name("code_block"), NodeKind::CodeBlock);
    assert_eq!(NodeKind::from_name("source_file"), NodeKind::SourceFile);
    assert_eq!(NodeKind::from_name("return_statement"), NodeKind::ReturnStatement);
    assert_eq!(NodeKind::from_name("return_statement_with_expression"), NodeKind::ReturnStatementWithExpression);
    assert_eq!(NodeKind::from_name("mod_op"), NodeKind::ModOp);
    assert_eq!(NodeKind::from_name("identifier"), NodeKind::Other);
    assert_eq!(NodeKind::from_name(""), NodeKind::Other);
}

#[test]
fn transpile_tree_without_a_tree_fails() {
    let source = b"abc = 1".to_vec();
    assert_eq!(transpile_tree(None, &source), Err(TranspileError::MalformedTree));
}

#[test]
fn transpile_tree_outside_the_source_fails() {
    let source = b"abc =".to_vec();
    assert_eq!(transpile_tree(Some(small_tree()), &source), Err(TranspileError::TreeOutsideSource));
}

#[test]
fn transpile_tree_copies_a_plain_tree() {
    let source = b"abc de".to_vec();
    assert_eq!(transpile_tree(Some(small_tree()), &source), Ok(b"abc de".to_vec()));
}
