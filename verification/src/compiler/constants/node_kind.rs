//! The kinds of syntax nodes that the transpiler treats specially.
use crate::compiler::bytes::bytes_eq;
use vstd::string::StringSliceAdditionalSpecFns;

use vstd::prelude::*;

verus! {

/// The kind of a syntax node. Every kind of the grammar that the transpiler
/// does not look at is `Other`.
#[derive(Clone, Copy, Debug, PartialEq, Eq, Structural)]
pub enum NodeKind {
    /// The root of every tree.
    SourceFile,
    /// Several statements that stand where the target language takes one.
    MultipleStatements,
    /// A block of statements in braces.
    CodeBlock,
    /// The opening brace of a block.
    CodeBegin,
    /// The closing brace of a block.
    CodeEnd,
    /// The assignment operator.
    AssignOp,
    /// The remainder operator.
    ModOp,
    /// The equality operator.
    EqualsOp,
    /// The inequality operator.
    NotEqualsOp,
    /// A procedure or trigger with its body.
    MethodDefinition,
    /// An `if` statement.
    IfStatement,
    /// A `while` loop.
    WhileLoop,
    /// A `repeat ... until` loop.
    RepeatUntilLoop,
    /// A `for` loop.
    ForLoop,
    /// A `foreach` loop.
    ForeachLoop,
    /// An operator applied to two operands.
    BinaryExpression,
    /// An expression in parentheses.
    ParenthesizedExpression,
    /// An expression.
    Expression,
    /// A `return` without a value.
    ReturnStatement,
    /// A `return` with a value.
    ReturnStatementWithExpression,
    /// The keyword `return`.
    ReturnKeyword,
    /// The semicolon that ends a statement.
    StatementEnd,
    /// A `switch` statement.
    SwitchStatement,
    /// The keyword `switch`.
    SwitchKeyword,
    /// The opening brace of a `switch`.
    SwitchBegin,
    /// The closing brace of a `switch`.
    SwitchEnd,
    /// The keyword `case`.
    CaseKeyword,
    /// The keyword `default`.
    CaseDefaultKeyword,
    /// The colon after `default`.
    CaseDefaultBegin,
    /// A local variable declaration.
    VarDeclaration,
    /// A local variable declaration with an initial value.
    VarDeclarationWithAssignment,
    /// The keyword `var`.
    DeclarationKeyword,
    /// The type part of a variable declaration.
    VarTypeDeclaration,
    /// Any other kind of node.
    Other,
}

/// The kind that a node with the grammar name `name` (its bytes) has.
pub open spec fn kind_named(name: Seq<u8>) -> NodeKind {
    if name == "source_file".spec_bytes() {
        NodeKind::SourceFile
    } else if name == "multiple_statements".spec_bytes() {
        NodeKind::MultipleStatements
    } else if name == "code_block".spec_bytes() {
        NodeKind::CodeBlock
    } else if name == "code_begin".spec_bytes() {
        NodeKind::CodeBegin
    } else if name == "code_end".spec_bytes() {
        NodeKind::CodeEnd
    } else if name == "assign_op".spec_bytes() {
        NodeKind::AssignOp
    } else if name == "mod_op".spec_bytes() {
        NodeKind::ModOp
    } else if name == "equals_op".spec_bytes() {
        NodeKind::EqualsOp
    } else if name == "not_equals_op".spec_bytes() {
        NodeKind::NotEqualsOp
    } else if name == "method_definition".spec_bytes() {
        NodeKind::MethodDefinition
    } else if name == "if_statement".spec_bytes() {
        NodeKind::IfStatement
    } else if name == "while_loop".spec_bytes() {
        NodeKind::WhileLoop
    } else if name == "repeat_until_loop".spec_bytes() {
        NodeKind::RepeatUntilLoop
    } else if name == "for_loop".spec_bytes() {
        NodeKind::ForLoop
    } else if name == "foreach_loop".spec_bytes() {
        NodeKind::ForeachLoop
    } else if name == "binary_expression".spec_bytes() {
        NodeKind::BinaryExpression
    } else if name == "parenthesized_expression".spec_bytes() {
        NodeKind::ParenthesizedExpression
    } else if name == "expression".spec_bytes() {
        NodeKind::Expression
    } else if name == "return_statement".spec_bytes() {
        NodeKind::ReturnStatement
    } else if name == "return_statement_with_expression".spec_bytes() {
        NodeKind::ReturnStatementWithExpression
    } else if name == "return_keyword".spec_bytes() {
        NodeKind::ReturnKeyword
    } else if name == "statement_end".spec_bytes() {
        NodeKind::StatementEnd
    } else if name == "switch_statement".spec_bytes() {
        NodeKind::SwitchStatement
    } else if name == "switch_keyword".spec_bytes() {
        NodeKind::SwitchKeyword
    } else if name == "switch_begin".spec_bytes() {
        NodeKind::SwitchBegin
    } else if name == "switch_end".spec_bytes() {
        NodeKind::SwitchEnd
    } else if name == "case_keyword".spec_bytes() {
        NodeKind::CaseKeyword
    } else if name == "case_default_keyword".spec_bytes() {
        NodeKind::CaseDefaultKeyword
    } else if name == "case_default_begin".spec_bytes() {
        NodeKind::CaseDefaultBegin
    } else if name == "var_declaration".spec_bytes() {
        NodeKind::VarDeclaration
    } else if name == "var_declaration_with_assignment".spec_bytes() {
        NodeKind::VarDeclarationWithAssignment
    } else if name == "declaration_keyword".spec_bytes() {
        NodeKind::DeclarationKeyword
    } else if name == "var_type_declaration".spec_bytes() {
        NodeKind::VarTypeDeclaration
    } else {
        NodeKind::Other
    }
}

impl NodeKind {
    /// The kind of a node from its name in the grammar.
    pub fn from_name(name: &str) -> (kind: NodeKind)
        ensures
            kind == kind_named(name.spec_bytes()),
    {
        let name = name.as_bytes();
        if bytes_eq(name, "source_file".as_bytes()) {
            NodeKind::SourceFile
        } else if bytes_eq(name, "multiple_statements".as_bytes()) {
            NodeKind::MultipleStatements
        } else if bytes_eq(name, "code_block".as_bytes()) {
            NodeKind::CodeBlock
        } else if bytes_eq(name, "code_begin".as_bytes()) {
            NodeKind::CodeBegin
        } else if bytes_eq(name, "code_end".as_bytes()) {
            NodeKind::CodeEnd
        } else if bytes_eq(name, "assign_op".as_bytes()) {
            NodeKind::AssignOp
        } else if bytes_eq(name, "mod_op".as_bytes()) {
            NodeKind::ModOp
        } else if bytes_eq(name, "equals_op".as_bytes()) {
            NodeKind::EqualsOp
        } else if bytes_eq(name, "not_equals_op".as_bytes()) {
            NodeKind::NotEqualsOp
        } else if bytes_eq(name, "method_definition".as_bytes()) {
            NodeKind::MethodDefinition
        } else if bytes_eq(name, "if_statement".as_bytes()) {
            NodeKind::IfStatement
        } else if bytes_eq(name, "while_loop".as_bytes()) {
            NodeKind::WhileLoop
        } else if bytes_eq(name, "repeat_until_loop".as_bytes()) {
            NodeKind::RepeatUntilLoop
        } else if bytes_eq(name, "for_loop".as_bytes()) {
            NodeKind::ForLoop
        } else if bytes_eq(name, "foreach_loop".as_bytes()) {
            NodeKind::ForeachLoop
        } else if bytes_eq(name, "binary_expression".as_bytes()) {
            NodeKind::BinaryExpression
        } else if bytes_eq(name, "parenthesized_expression".as_bytes()) {
            NodeKind::ParenthesizedExpression
        } else if bytes_eq(name, "expression".as_bytes()) {
            NodeKind::Expression
        } else if bytes_eq(name, "return_statement".as_bytes()) {
            NodeKind::ReturnStatement
        } else if bytes_eq(name, "return_statement_with_expression".as_bytes()) {
            NodeKind::ReturnStatementWithExpression
        } else if bytes_eq(name, "return_keyword".as_bytes()) {
            NodeKind::ReturnKeyword
        } else if bytes_eq(name, "statement_end".as_bytes()) {
            NodeKind::StatementEnd
        } else if bytes_eq(name, "switch_statement".as_bytes()) {
            NodeKind::SwitchStatement
        } else if bytes_eq(name, "switch_keyword".as_bytes()) {
            NodeKind::SwitchKeyword
        } else if bytes_eq(name, "switch_begin".as_bytes()) {
            NodeKind::SwitchBegin
        } else if bytes_eq(name, "switch_end".as_bytes()) {
            NodeKind::SwitchEnd
        } else if bytes_eq(name, "case_keyword".as_bytes()) {
            NodeKind::CaseKeyword
        } else if bytes_eq(name, "case_default_keyword".as_bytes()) {
            NodeKind::CaseDefaultKeyword
        } else if bytes_eq(name, "case_default_begin".as_bytes()) {
            NodeKind::CaseDefaultBegin
        } else if bytes_eq(name, "var_declaration".as_bytes()) {
            NodeKind::VarDeclaration
        } else if bytes_eq(name, "var_declaration_with_assignment".as_bytes()) {
            NodeKind::VarDeclarationWithAssignment
        } else if bytes_eq(name, "declaration_keyword".as_bytes()) {
            NodeKind::DeclarationKeyword
        } else if bytes_eq(name, "var_type_declaration".as_bytes()) {
            NodeKind::VarTypeDeclaration
        } else {
            NodeKind::Other
        }
    }
}

} // verus!
