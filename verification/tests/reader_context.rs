use alic::compiler::constants::node_kind::NodeKind;
use alic::compiler::reader::Reader;
use alic::compiler::tree::SyntaxNode;
use alic::compiler::walker::{Context, ContextType};

fn node(start_byte: usize, end_byte: usize) -> SyntaxNode {
    SyntaxNode { kind: NodeKind::Other, start_byte, end_byte }
}

#[test]
fn reader_reads_whitespace_and_content() {
    let source = b"  ab  cd";
    let mut reader = Reader::new(source);
    assert_eq!(reader.read_leading_whitespace(&node(2, 4)), b"  ");
    assert_eq!(reader.read_content(&node(2, 4)), b"ab");
    assert_eq!(reader.read_leading_whitespace(&node(6, 8)), b"  ");
    assert_eq!(reader.read_content(&node(6, 8)), b"cd");
    assert!(reader.read_rest_of_source().is_empty());
}

#[test]
fn reader_whitespace_before_the_position_is_empty() {
    let source = b"abcdef";
    let mut reader = Reader::new(source);
    reader.skip_content(&node(2, 4));
    assert!(reader.read_leading_whitespace(&node(3, 4)).is_empty());
    assert!(reader.read_leading_whitespace(&node(9, 9)).is_empty());
}

#[test]
fn reader_skip_and_rest() {
    let source = b"abc def";
    let mut reader = Reader::new(source);
    reader.skip_content(&node(0, 3));
    assert_eq!(reader.read_rest_of_source(), b" def");
    assert_eq!(reader.read_rest_of_source(), b" def");
}

#[test]
fn context_tracks_mapped_kinds() {
    let mut context = Context::new();
    assert_eq!(context.get_current_context(), None);
    context.push_context(NodeKind::MethodDefinition);
    context.push_context(NodeKind::Other);
    assert_eq!(context.get_current_context(), Some(ContextType::Method));
    assert_eq!(context.get_parent_context(), None);
    context.push_context(NodeKind::CodeBlock);
    context.push_context(NodeKind::BinaryExpression);
    assert_eq!(context.get_current_context(), Some(ContextType::BinaryExpr));
    assert_eq!(context.get_parent_context(), Some(ContextType::Code));
    context.pop_context(NodeKind::Other);
    assert_eq!(context.get_current_context(), Some(ContextType::BinaryExpr));
    context.pop_context(NodeKind::BinaryExpression);
    assert_eq!(context.get_current_context(), Some(ContextType::Code));
    context.push_context(NodeKind::ParenthesizedExpression);
    assert_eq!(context.get_current_context(), Some(ContextType::ParenthesizedExpr));
}

#[test]
fn context_pop_on_empty_stack() {
    let mut context = Context::default();
    context.pop_context(NodeKind::CodeBlock);
    assert_eq!(context.get_current_context(), None);
    assert_eq!(context.get_parent_context(), None);
}
