//! The rules that rewrite the source language into the target language:
//! blocks, operators, control flow, `return`, `switch` and local variables.

use vstd::prelude::*;

use crate::compiler::bytes::append_bytes;
use crate::compiler::constants::content;
use crate::compiler::constants::node_kind::NodeKind;
use crate::compiler::tree::entry_fits;
use crate::compiler::chunk::ChunkView;
use crate::compiler::walker::{current_context, lemma_chunk_write, lemma_emit_node, parent_context, ContextType, Walker};
use crate::compiler::output_model::{
    block_begun, block_ended, block_statement_walked, block_wrapped, declaration_saved, declaration_start, emit,
    emit_node,
    initial_value_walked, lemma_walked_to_stops, next_or_same, node_rewritten, node_walked, parenthesized,
    repeat_block_walked, repeat_shaped, repeat_walked, return_walked, switch_walked, value_walked, walked, walked_to,
    lemma_shaped_within, lemma_walk_end_of_child, shaped_from, with_pending, without_unindentable_line, Progress,
};
use crate::compiler::tree::{entry_wf, first_child_of, parent_of};
use crate::compiler::writer::{indentation, lemma_last_newline, line_prefix, WriterView};

verus! {

/// The kinds of nodes that the customizer rewrites.
pub open spec fn is_customized(kind: NodeKind) -> bool {
    match kind {
        NodeKind::MultipleStatements | NodeKind::CodeBegin | NodeKind::CodeEnd | NodeKind::AssignOp
        | NodeKind::ModOp | NodeKind::EqualsOp | NodeKind::NotEqualsOp | NodeKind::MethodDefinition
        | NodeKind::IfStatement | NodeKind::WhileLoop | NodeKind::RepeatUntilLoop | NodeKind::ForLoop
        | NodeKind::ForeachLoop | NodeKind::BinaryExpression | NodeKind::ReturnStatement
        | NodeKind::ReturnStatementWithExpression | NodeKind::ReturnKeyword | NodeKind::SwitchStatement
        | NodeKind::SwitchKeyword | NodeKind::SwitchBegin | NodeKind::SwitchEnd | NodeKind::CaseKeyword
        | NodeKind::CaseDefaultKeyword | NodeKind::CaseDefaultBegin | NodeKind::VarDeclaration
        | NodeKind::VarDeclarationWithAssignment => true,
        _ => false,
    }
}

/// The text that a token of kind `kind` becomes, for the kinds that are
/// replaced by a fixed text.
pub open spec fn token_text(kind: NodeKind) -> Option<Seq<u8>> {
    match kind {
        NodeKind::ModOp => Some(content::mod_op_text()),
        NodeKind::EqualsOp => Some(content::equals_op_text()),
        NodeKind::NotEqualsOp => Some(content::not_equals_op_text()),
        NodeKind::ReturnKeyword => Some(content::exit_text()),
        NodeKind::SwitchKeyword => Some(content::case_text()),
        NodeKind::SwitchBegin => Some(content::of_text()),
        NodeKind::SwitchEnd => Some(content::separated_end_text()),
        NodeKind::CaseKeyword => Some(Seq::empty()),
        NodeKind::CaseDefaultKeyword => Some(content::else_keyword_text()),
        NodeKind::CaseDefaultBegin => Some(Seq::empty()),
        _ => None,
    }
}

/// `s` ends with `suffix`.
pub open spec fn ends_with(s: Seq<u8>, suffix: Seq<u8>) -> bool {
    s.len() >= suffix.len() && s.subrange(s.len() - suffix.len(), s.len() as int) == suffix
}

/// A sequence followed by `suffix` ends with it.
pub proof fn lemma_ends_with_append(s: Seq<u8>, suffix: Seq<u8>)
    ensures
        ends_with(s + suffix, suffix),
{
    assert((s + suffix).subrange(s.len() as int, (s + suffix).len() as int) =~= suffix);
}

/// `next` has a statement separator pending before its next chunk.
pub open spec fn separator_pending<'s>(next: &Walker<'s>) -> bool {
    ends_with(next.writer@.prev_chunk_append, content::statement_separator_text())
}

/// The declarations, each on a line of its own: the newline whitespace, one
/// level of indentation, the declaration.
pub open spec fn declaration_lines(newline_whitespace: Seq<u8>, declarations: Seq<Seq<u8>>) -> Seq<u8>
    decreases declarations.len(),
{
    if declarations.len() == 0 {
        Seq::empty()
    } else {
        declaration_lines(newline_whitespace, declarations.drop_last()) + newline_whitespace
            + content::indent_text() + declarations.last()
    }
}

/// The variable section of a method: `var` on a line of its own, then the
/// declarations.
pub open spec fn declarations_section(newline_whitespace: Seq<u8>, declarations: Seq<Seq<u8>>) -> Seq<u8> {
    newline_whitespace + content::var_text() + declaration_lines(newline_whitespace, declarations)
}

/// `next` is `walker` after the saved declarations went into the output at
/// the saved position, and were forgotten; nothing changes if none was saved.
pub open spec fn writes_declarations<'s>(walker: &Walker<'s>, next: &Walker<'s>) -> bool {
    let declarations = walker.customizer.saved_var_declarations();
    let position = walker.customizer.var_declarations_position();
    let output = walker.writer@.output;
    if declarations.len() == 0 {
        *next == *walker
    } else {
        &&& next.writer@ == (WriterView {
            output: output.subrange(0, position) + declarations_section(
                walker.customizer.newline_whitespace_at_var_declarations(),
                declarations,
            ) + output.subrange(position, output.len() as int),
            ..walker.writer@
        })
        &&& next.customizer.var_declarations_position() == 0
        &&& next.customizer.newline_whitespace_at_var_declarations() == Seq::<u8>::empty()
        &&& next.customizer.saved_var_declarations() == Seq::<Seq<u8>>::empty()
        &&& next.cursor == walker.cursor
        &&& next.reader == walker.reader
        &&& next.context == walker.context
        &&& next.unindentable_block == walker.unindentable_block
    }
}

/// `next` is `walker` after the opening of a block under the cursor: in a
/// method body, `begin` on a new line, with the output position and the
/// newline whitespace saved for the declarations; elsewhere `begin` in
/// place of the node.
pub open spec fn writes_block_begin<'s>(walker: &Walker<'s>, next: &Walker<'s>) -> bool {
    let w = walker.writer@;
    let newline = w.current_newline_whitespace;
    if parent_context(walker.context.stack()) == Some(ContextType::Method) {
        &&& w.emitted(
            next.writer@,
            w.chunk_text(newline, newline + indentation(w.additional_indent), content::begin_text()),
        )
        &&& next.writer@ == (WriterView {
            output: next.writer@.output,
            temp_output: next.writer@.temp_output,
            prev_chunk_append: Seq::empty(),
            chunk: ChunkView { prepend: Seq::empty(), ..w.chunk },
            ..w
        })
        &&& next.customizer.var_declarations_position() == w.output.len()
        &&& next.customizer.newline_whitespace_at_var_declarations() == newline
        &&& next.customizer.saved_var_declarations() == walker.customizer.saved_var_declarations()
        &&& next.reader.source() == walker.reader.source()
        &&& next.reader.position() == walker.cursor.current_node().end_byte
        &&& next.cursor == walker.cursor
        &&& next.context == walker.context
        &&& next.unindentable_block == walker.unindentable_block
    } else {
        walker.writes_node_as(next, content::begin_text())
    }
}

/// `next` is `walker` after `end` in place of the node under the cursor,
/// followed in a method body by the method's declarations.
pub open spec fn writes_block_end<'s>(walker: &Walker<'s>, next: &Walker<'s>) -> bool {
    exists|middle: Walker<'s>|
        {
            &&& walker.writes_node_as(&middle, content::end_text())
            &&& if parent_context(walker.context.stack()) == Some(ContextType::Method) {
                writes_declarations(&middle, next)
            } else {
                *next == middle
            }
        }
}

/// What the customizer does to the node under the cursor, kind by kind:
/// a token becomes its fixed text, `=` becomes `:=` in code, the braces of a
/// block become `begin` and `end` (with the variable section of a method),
/// a method or a statement with a block leaves a statement separator
/// pending, a binary expression inside another gets a closing parenthesis
/// pending, several statements become a block that ends with `end;`, and a
/// variable declaration is saved with the outputs set back.
pub open spec fn rewrites_node<'s>(walker: &Walker<'s>, next: &Walker<'s>) -> bool {
    let kind = walker.current_kind();
    let w = next.writer@;
    &&& token_text(kind) matches Some(text) ==> walker.writes_node_as(next, text)
    &&& kind == NodeKind::AssignOp && current_context(walker.context.stack()) == Some(ContextType::Code)
        ==> walker.writes_node_as(next, content::assign_op_text())
    &&& kind == NodeKind::CodeBegin ==> writes_block_begin(walker, next)
    &&& kind == NodeKind::CodeEnd ==> writes_block_end(walker, next)
    &&& kind == NodeKind::MethodDefinition ==> separator_pending(next)
    &&& kind == NodeKind::IfStatement || kind == NodeKind::WhileLoop || kind == NodeKind::ForLoop || kind
        == NodeKind::ForeachLoop ==> separator_pending(next)
    &&& kind == NodeKind::BinaryExpression && parent_context(walker.context.stack()) == Some(
        ContextType::BinaryExpr,
    ) ==> ends_with(w.prev_chunk_append, seq![41u8])
    &&& kind == NodeKind::MultipleStatements ==> w.prev_chunk_append == Seq::<u8>::empty() && (w.save_to_output
        ==> ends_with(w.output, content::separated_end_text()))
    &&& kind == NodeKind::VarDeclaration || kind == NodeKind::VarDeclarationWithAssignment ==> w.save_to_output
        && !w.save_to_temp_output && next.customizer.saved_var_declarations().len() > 0
}

/// What the customizer keeps while it rewrites a method: where its variable
/// declarations go, the newline whitespace there, and the declarations seen.
#[derive(Debug)]
pub struct Customizer<'source> {
    var_declarations_pos: usize,
    newline_whitespace_at_var_declarations: &'source [u8],
    saved_var_declarations: Vec<Vec<u8>>,
}

impl<'source> Customizer<'source> {
    /// The output position where the variable declarations of the current
    /// method go.
    pub closed spec fn var_declarations_position(&self) -> int {
        self.var_declarations_pos as int
    }

    /// The newline whitespace before the `begin` of the current method.
    pub closed spec fn newline_whitespace_at_var_declarations(&self) -> Seq<u8> {
        self.newline_whitespace_at_var_declarations@
    }

    /// The variable declarations of the current method, in order.
    pub closed spec fn saved_var_declarations(&self) -> Seq<Seq<u8>> {
        self.saved_var_declarations@.map_values(|d: Vec<u8>| d@)
    }

    /// A customizer with nothing saved.
    pub fn new() -> (customizer: Self)
        ensures
            customizer.var_declarations_position() == 0,
            customizer.newline_whitespace_at_var_declarations() == Seq::<u8>::empty(),
            customizer.saved_var_declarations() == Seq::<Seq<u8>>::empty(),
    {
        let nothing: &'source [u8] = &[];
        let customizer = Self {
            var_declarations_pos: 0,
            newline_whitespace_at_var_declarations: nothing,
            saved_var_declarations: Vec::new(),
        };
        assert(customizer.saved_var_declarations() =~= Seq::<Seq<u8>>::empty());
        assert(customizer.newline_whitespace_at_var_declarations() =~= Seq::<u8>::empty());
        customizer
    }

    /// Rewrites the node under the cursor if it is of a kind that the
    /// target language writes otherwise; says whether it did.
    pub fn match_node(walker: &mut Walker<'source>) -> (have_matched: bool)
        requires
            old(walker).wf(),
            old(walker).writer@.additional_indent < usize::MAX,
        ensures
            old(walker).steps_to(final(walker)),
            have_matched == is_customized(old(walker).current_kind()),
            !have_matched ==> *final(walker) == *old(walker),
            rewrites_node(old(walker), final(walker)),
            ({
                let es = old(walker).cursor.entries();
                shaped_from(es, old(walker).cursor.position()) && old(walker).in_context() && 2 * es.len() + 2 + old(walker).writer@.additional_indent
                    <= usize::MAX ==> {
                    &&& final(walker).cursor.position() == old(walker).cursor.position()
                    &&& final(walker).in_context()
                    &&& final(walker).progress() == node_rewritten(
                        es,
                        old(walker).reader.source(),
                        old(walker).cursor.position(),
                        old(walker).progress(),
                    )
                }
            }),
    {
        let budget = usize::MAX - walker.writer.additional_indent;
        Self::match_node_in(walker, budget)
    }

    /// `match_node` with at most `budget` nested steps.
    #[verifier::spinoff_prover]
    pub fn match_node_in(walker: &mut Walker<'source>, budget: usize) -> (have_matched: bool)
        requires
            old(walker).wf(),
            1 <= budget,
            old(walker).writer@.additional_indent + budget <= usize::MAX,
        ensures
            old(walker).steps_to(final(walker)),
            have_matched == is_customized(old(walker).current_kind()),
            !have_matched ==> *final(walker) == *old(walker),
            rewrites_node(old(walker), final(walker)),
            old(walker).modeled_with(budget as int, 2) ==> {
                &&& final(walker).cursor.position() == old(walker).cursor.position()
                &&& final(walker).in_context()
                &&& final(walker).progress() == node_rewritten(
                    old(walker).cursor.entries(),
                    old(walker).reader.source(),
                    old(walker).cursor.position(),
                    old(walker).progress(),
                )
            },
        decreases budget, 3int,
    {
        let ghost es = walker.cursor.entries();
        let ghost n = walker.cursor.position();
        proof {
            if walker.modeled_with(budget as int, 2) {
                assert(entry_wf(es, n));
            }
        }
        let mut have_matched = true;
        let node = walker.cursor.node();
        match node.kind {
            // general
            NodeKind::MultipleStatements => Self::write_wrapped_in_block(walker, budget),
            NodeKind::CodeBegin => Self::write_begin(walker),
            NodeKind::CodeEnd => Self::write_end(walker),

            // operators
            NodeKind::AssignOp => Self::write_assign_op(walker, budget),
            NodeKind::ModOp => Self::write_token(walker, content::mod_op()),
            NodeKind::EqualsOp => Self::write_token(walker, content::equals_op()),
            NodeKind::NotEqualsOp => Self::write_token(walker, content::not_equals_op()),

            // misc
            NodeKind::MethodDefinition => Self::write_with_semicolon(walker, budget),
            NodeKind::IfStatement => Self::write_control_flow_statement(walker, content::then_keyword(), budget),
            NodeKind::WhileLoop => Self::write_control_flow_statement(walker, content::do_keyword(), budget),
            NodeKind::RepeatUntilLoop => Self::write_repeat_until_loop(walker, budget),
            NodeKind::ForLoop => Self::write_control_flow_statement(walker, content::do_keyword(), budget),
            NodeKind::ForeachLoop => Self::write_control_flow_statement(walker, content::do_keyword(), budget),
            NodeKind::BinaryExpression => Self::write_binary_expression(walker, budget),

            // return statement
            NodeKind::ReturnStatement => Self::write_return_statement(walker, false, budget),
            NodeKind::ReturnStatementWithExpression => Self::write_return_statement(walker, true, budget),
            NodeKind::ReturnKeyword => Self::write_token(walker, content::exit()),

            // switch statement
            NodeKind::SwitchStatement => Self::write_switch_statement(walker, budget),
            NodeKind::SwitchKeyword => Self::write_token(walker, content::case()),
            NodeKind::SwitchBegin => Self::write_token(walker, content::of()),
            NodeKind::SwitchEnd => Self::write_token(walker, content::separated_end()),
            NodeKind::CaseKeyword => Self::write_token(walker, nothing()),
            NodeKind::CaseDefaultKeyword => Self::write_token(walker, content::else_keyword()),
            NodeKind::CaseDefaultBegin => Self::write_token(walker, nothing()),

            // vars
            NodeKind::VarDeclaration => Self::save_var_declaration(walker, false, budget),
            NodeKind::VarDeclarationWithAssignment => Self::save_var_declaration(walker, true, budget),
            _ => {
                have_matched = false;
            },
        }
        have_matched
    }

    /// A token that becomes `text`.
    fn write_token(walker: &mut Walker<'source>, text: &'source [u8])
        requires
            old(walker).wf(),
        ensures
            old(walker).steps_to(final(walker)),
            old(walker).writes_node_as(final(walker), text@),
            final(walker).progress() == emit_node(
                old(walker).progress(),
                old(walker).reader.source(),
                old(walker).cursor.current_node(),
                text@,
            ),
    {
        let ghost before = *walker;
        walker.step_mapped_node(text);
        proof {
            lemma_emit_node(&before, walker, text@);
        }
    }

    /// Forgets the variable declarations of the current method.
    pub fn clear_saved_vars(&mut self)
        ensures
            final(self).var_declarations_position() == 0,
            final(self).newline_whitespace_at_var_declarations() == Seq::<u8>::empty(),
            final(self).saved_var_declarations() == Seq::<Seq<u8>>::empty(),
    {
        let nothing: &'source [u8] = &[];
        self.var_declarations_pos = 0;
        self.newline_whitespace_at_var_declarations = nothing;
        self.saved_var_declarations.clear();
        assert(final(self).saved_var_declarations() =~= Seq::<Seq<u8>>::empty());
        assert(final(self).newline_whitespace_at_var_declarations() =~= Seq::<u8>::empty());
    }

    /// The `begin` of a block: at the start of a method body it goes on a
    /// line of its own and marks where the variable declarations go.
    fn write_begin(walker: &mut Walker<'source>)
        requires
            old(walker).wf(),
        ensures
            old(walker).steps_to(final(walker)),
            writes_block_begin(old(walker), final(walker)),
            final(walker).progress() == block_begun(
                old(walker).progress(),
                old(walker).reader.source(),
                old(walker).cursor.current_node(),
                parent_context(old(walker).context.stack()) == Some(ContextType::Method),
            ),
    {
        let parent_context = walker.context.get_parent_context();
        let ghost before = *walker;

        match parent_context {
            Some(ContextType::Method) => {
                walker.customizer.var_declarations_pos = walker.writer.get_output_len();
                walker.writer.write_new_line_content(content::begin());
                walker.customizer.newline_whitespace_at_var_declarations = walker.writer.current_newline_whitespace;

            },
            _ => {
                walker.step_mapped_node(content::begin());
                proof {
                    lemma_emit_node(&before, walker, content::begin_text());
                }
            },
        }
        let node = walker.cursor.node();
        walker.reader.skip_content(&node);
        proof {
            assert(entry_fits(walker.cursor.entries(), walker.cursor.position(), walker.reader.source().len() as int));
        }
    }

    /// The `end` of a block: at the end of a method body the variable
    /// declarations are written where the body began.
    fn write_end(walker: &mut Walker<'source>)
        requires
            old(walker).wf(),
        ensures
            old(walker).steps_to(final(walker)),
            writes_block_end(old(walker), final(walker)),
            final(walker).progress() == block_ended(
                old(walker).progress(),
                old(walker).reader.source(),
                old(walker).cursor.current_node(),
                parent_context(old(walker).context.stack()) == Some(ContextType::Method),
            ),
    {
        let parent_context = walker.context.get_parent_context();
        let ghost before = *walker;
        walker.step_mapped_node(content::end());
        let ghost middle = *walker;
        proof {
            lemma_emit_node(&before, walker, content::end_text());
        }

        if parent_context == Some(ContextType::Method) {
            Self::write_var_declarations(walker);
        }
        assert(old(walker).writes_node_as(&middle, content::end_text()));
    }

    /// `=` is assignment in code and stays as it is elsewhere.
    fn write_assign_op(walker: &mut Walker<'source>, budget: usize)
        requires
            old(walker).wf(),
            old(walker).current_kind() == NodeKind::AssignOp,
            1 <= budget,
            old(walker).writer@.additional_indent + budget <= usize::MAX,
        ensures
            old(walker).steps_to(final(walker)),
            current_context(old(walker).context.stack()) == Some(ContextType::Code) ==> old(
                walker,
            ).writes_node_as(final(walker), content::assign_op_text()),
            old(walker).modeled_with(budget as int, 2) ==> {
                &&& final(walker).cursor.position() == old(walker).cursor.position()
                &&& final(walker).in_context()
                &&& final(walker).progress() == if current_context(old(walker).context.stack()) == Some(
                    ContextType::Code,
                ) {
                    emit_node(
                        old(walker).progress(),
                        old(walker).reader.source(),
                        old(walker).cursor.current_node(),
                        content::assign_op_text(),
                    )
                } else {
                    node_walked(
                        old(walker).cursor.entries(),
                        old(walker).reader.source(),
                        old(walker).cursor.position(),
                        false,
                        old(walker).progress(),
                    )
                }
            },
        decreases budget, 2int,
    {
        if walker.context.get_current_context() == Some(ContextType::Code) {
            Self::write_token(walker, content::assign_op());
        } else {
            walker.walk_node_in(false, budget - 1);
        }
    }

    /// A statement with a block: the keyword that opens the block goes after
    /// its header, and a statement separator after it.
    #[verifier::spinoff_prover]
    fn write_control_flow_statement(walker: &mut Walker<'source>, begin_keyword: &'static [u8], budget: usize)
        requires
            old(walker).wf(),
            1 <= budget,
            old(walker).writer@.additional_indent + budget <= usize::MAX,
        ensures
            old(walker).steps_to(final(walker)),
            separator_pending(final(walker)),
            old(walker).modeled_with(budget as int, 2) && first_child_of(
                old(walker).cursor.entries(),
                old(walker).cursor.position(),
            ) is Some ==> {
                &&& final(walker).cursor.position() == old(walker).cursor.position()
                &&& final(walker).in_context()
                &&& final(walker).progress() == block_statement_walked(
                    old(walker).cursor.entries(),
                    old(walker).reader.source(),
                    old(walker).cursor.position(),
                    begin_keyword@,
                    old(walker).progress(),
                )
            },
        decreases budget, 2int,
    {
        let ghost es = walker.cursor.entries();
        let ghost n = walker.cursor.position();
        let ghost model = walker.modeled_with(budget as int, 2) && first_child_of(es, n) is Some;
        proof {
            if model {
                assert(entry_wf(es, n));
                assert(entry_wf(es, n + 1));
            }
        }
        let ghost src = walker.reader.source();
        let ghost p = walker.progress();
        walker.skip_to_first_child();
        walker.try_walk_to_sibling_in(NodeKind::CodeBlock, budget - 1);
        let ghost reached = walker.progress();
        let ghost j = walker.cursor.position();
        proof {
            if model {
                assert((reached, j) == walked_to(es, src, n + 1, NodeKind::CodeBlock, p));
                assert(n < j < es.len());
            }
        }
        walker.writer.chunk.leading_whitespace = space();
        walker.writer.chunk.content = begin_keyword;
        let ghost w = walker.writer@;
        walker.writer.write_chunk();
        proof {
            if model {
                lemma_last_newline(seq![32u8], -1);
                lemma_chunk_write(
                    w,
                    walker.writer@,
                    walker.reader.position() as int,
                    walker.customizer.saved_var_declarations(),
                    walker.customizer.var_declarations_position(),
                    walker.customizer.newline_whitespace_at_var_declarations(),
                    walker.unindentable_block,
                );
                assert(walker.progress() == emit(reached, seq![32u8], begin_keyword@));
                assert(entry_wf(es, j));
            }
        }
        let ghost written = walker.progress();
        walker.walk_in(budget - 1);
        proof {
            if model {
                assert(entry_wf(es, walker.cursor.position()));
                assert(walker.progress() == walked(es, src, j, written));
            }
        }

        walker.skip_to_parent();
        let ghost before = walker.writer@.prev_chunk_append;
        walker.writer.set_prev_chunk_append(content::statement_separator());
        proof {
            lemma_ends_with_append(before, content::statement_separator_text());
        }
    }

    /// `repeat { ... } until c` becomes `repeat ... until c`: the braces go.
    #[verifier::spinoff_prover]
    fn write_repeat_until_loop(walker: &mut Walker<'source>, budget: usize)
        requires
            old(walker).wf(),
            1 <= budget,
            old(walker).writer@.additional_indent + budget <= usize::MAX,
        ensures
            old(walker).steps_to(final(walker)),
            old(walker).modeled_with(budget as int, 2) && repeat_shaped(
                old(walker).cursor.entries(),
                old(walker).cursor.position(),
            ) ==> {
                &&& final(walker).cursor.position() == old(walker).cursor.position()
                &&& final(walker).in_context()
                &&& final(walker).progress() == repeat_walked(
                    old(walker).cursor.entries(),
                    old(walker).reader.source(),
                    old(walker).cursor.position(),
                    old(walker).progress(),
                )
            },
        decreases budget, 2int,
    {
        let ghost es = walker.cursor.entries();
        let ghost src = walker.reader.source();
        let ghost n = walker.cursor.position();
        let ghost model = walker.modeled_with(budget as int, 2) && repeat_shaped(es, n);
        proof {
            if model {
                assert(entry_wf(es, n));
                assert(entry_wf(es, n + 1));
                lemma_walked_to_stops(es, src, n + 1, NodeKind::CodeBlock, walker.progress());
                lemma_walk_end_of_child(es, n, n + 1);
                lemma_shaped_within(es, n, n + 1);
            }
        }
        walker.skip_to_first_child();
        walker.try_walk_to_sibling_in(NodeKind::CodeBlock, budget - 1);
        let ghost j = walker.cursor.position();
        proof {
            if model {
                assert(entry_wf(es, j));
                assert(entry_wf(es, j + 1));
                lemma_walk_end_of_child(es, n, j);
                lemma_shaped_within(es, n, j);
            }
        }
        let code_end_leading_whitespace = Self::write_repeat_block(walker, budget);
        walker.skip_to_next_sibling();
        let ghost u = walker.cursor.position();
        let node = walker.cursor.node();
        proof {
            assert(entry_fits(walker.cursor.entries(), walker.cursor.position(), walker.reader.source().len() as int));
            if model {
                assert(entry_wf(es, u));
            }
        }
        let content_after_code_end = walker.reader.read_content(&node);
        walker.writer.chunk.leading_whitespace = code_end_leading_whitespace;
        walker.writer.chunk.content = content_after_code_end;
        let ghost w = walker.writer@;
        walker.writer.write_chunk();
        proof {
            lemma_chunk_write(
                w,
                walker.writer@,
                walker.reader.position() as int,
                walker.customizer.saved_var_declarations(),
                walker.customizer.var_declarations_position(),
                walker.customizer.newline_whitespace_at_var_declarations(),
                walker.unindentable_block,
            );
        }
        walker.reader.skip_content(&node);
        walker.skip_to_next_node();
        proof {
            if model {
                let w = walker.cursor.position();
                assert(entry_wf(es, w));
                assert(parent_of(es, w) == Some(n));
                lemma_walk_end_of_child(es, n, w);
                lemma_shaped_within(es, n, w);
            }
        }

        walker.walk_in(budget - 1);
        proof {
            if model {
                assert(entry_wf(es, walker.cursor.position()));
            }
        }
        walker.skip_to_parent();
    }

    /// The block of a `repeat` loop loses its braces; returns the whitespace
    /// before the closing brace, which goes before the keyword after the
    /// block.
    fn write_repeat_block(walker: &mut Walker<'source>, budget: usize) -> (code_end_leading_whitespace: &'source [u8])
        requires
            old(walker).wf(),
            1 <= budget,
            old(walker).writer@.additional_indent + budget <= usize::MAX,
        ensures
            old(walker).steps_to(final(walker)),
            old(walker).modeled_with(budget as int, 4) && first_child_of(
                old(walker).cursor.entries(),
                old(walker).cursor.position(),
            ) is Some ==> {
                &&& final(walker).cursor.position() == old(walker).cursor.position()
                &&& final(walker).in_context()
                &&& (final(walker).progress(), code_end_leading_whitespace@) == repeat_block_walked(
                    old(walker).cursor.entries(),
                    old(walker).reader.source(),
                    old(walker).cursor.position(),
                    old(walker).progress(),
                )
            },
        decreases budget, 1int,
    {
        let ghost es = walker.cursor.entries();
        let ghost j = walker.cursor.position();
        let ghost model = walker.modeled_with(budget as int, 4) && first_child_of(es, j) is Some;
        proof {
            if model {
                assert(entry_wf(es, j));
                assert(entry_wf(es, j + 1));
                lemma_walk_end_of_child(es, j, j + 1);
                lemma_shaped_within(es, j, j + 1);
            }
        }
        walker.skip_to_first_child();
        walker.try_walk_to_sibling_in(NodeKind::CodeBegin, budget - 1);
        let node = walker.cursor.node();
        walker.reader.skip_content(&node);
        proof {
            assert(entry_fits(walker.cursor.entries(), walker.cursor.position(), walker.reader.source().len() as int));
            if model {
                assert(entry_wf(es, walker.cursor.position()));
            }
        }
        walker.skip_to_next_sibling();
        proof {
            if model {
                let k = walker.cursor.position();
                assert(parent_of(es, k) == Some(j));
                lemma_walk_end_of_child(es, j, k);
                lemma_shaped_within(es, j, k);
            }
        }

        walker.try_walk_to_sibling_in(NodeKind::CodeEnd, budget - 1);
        let node = walker.cursor.node();
        let code_end_leading_whitespace = walker.reader.read_leading_whitespace(&node);
        walker.reader.skip_content(&node);
        proof {
            assert(entry_fits(walker.cursor.entries(), walker.cursor.position(), walker.reader.source().len() as int));
        }

        walker.skip_to_parent();
        code_end_leading_whitespace
    }

    /// A binary expression inside another gets parentheses.
    fn write_binary_expression(walker: &mut Walker<'source>, budget: usize)
        requires
            old(walker).wf(),
            1 <= budget,
            old(walker).writer@.additional_indent + budget <= usize::MAX,
        ensures
            old(walker).steps_to(final(walker)),
            parent_context(old(walker).context.stack()) == Some(ContextType::BinaryExpr) ==> ends_with(
                final(walker).writer@.prev_chunk_append,
                seq![41u8],
            ),
            old(walker).modeled_with(budget as int, 2) ==> {
                &&& final(walker).cursor.position() == old(walker).cursor.position()
                &&& final(walker).in_context()
                &&& final(walker).progress() == if parent_context(old(walker).context.stack()) == Some(
                    ContextType::BinaryExpr,
                ) {
                    parenthesized(old(walker).cursor.entries(), old(walker).reader.source(), old(walker).cursor.position(), old(walker).progress())
                } else {
                    node_walked(
                        old(walker).cursor.entries(),
                        old(walker).reader.source(),
                        old(walker).cursor.position(),
                        false,
                        old(walker).progress(),
                    )
                }
            },
        decreases budget, 2int,
    {
        let parent_context = walker.context.get_parent_context();
        if parent_context == Some(ContextType::BinaryExpr) {
            Self::write_wrapped_in_parenthesis(walker, budget);
        } else {
            walker.walk_node_in(false, budget - 1);
        }
    }

    /// `return` becomes `exit`, and its value goes in parentheses.
    #[verifier::spinoff_prover]
    fn write_return_statement(walker: &mut Walker<'source>, is_with_expression: bool, budget: usize)
        requires
            old(walker).wf(),
            1 <= budget,
            old(walker).writer@.additional_indent + budget <= usize::MAX,
        ensures
            old(walker).steps_to(final(walker)),
            old(walker).modeled_with(budget as int, 2) && first_child_of(
                old(walker).cursor.entries(),
                old(walker).cursor.position(),
            ) is Some ==> {
                &&& final(walker).cursor.position() == old(walker).cursor.position()
                &&& final(walker).in_context()
                &&& final(walker).progress() == return_walked(
                    old(walker).cursor.entries(),
                    old(walker).reader.source(),
                    old(walker).cursor.position(),
                    is_with_expression,
                    old(walker).progress(),
                )
            },
        decreases budget, 2int,
    {
        let ghost es = walker.cursor.entries();
        let ghost n = walker.cursor.position();
        let ghost model = walker.modeled_with(budget as int, 2) && first_child_of(es, n) is Some;
        let ghost src = walker.reader.source();
        proof {
            if model {
                assert(entry_wf(es, n));
                assert(entry_wf(es, n + 1));
                lemma_walk_end_of_child(es, n, n + 1);
                lemma_shaped_within(es, n, n + 1);
            }
        }
        walker.skip_to_first_child();

        let found = walker.try_walk_to_sibling_in(NodeKind::ReturnKeyword, budget - 1);
        let ghost q = walker.progress();
        let ghost j = walker.cursor.position();
        proof {
            if model {
                lemma_walk_end_of_child(es, n, j);
                lemma_shaped_within(es, n, j);
            }
        }
        if found {
            walker.walk_node_in(true, budget - 1);
            proof {
                if model {
                    assert(entry_wf(es, walker.cursor.position()));
                }
            }
            walker.skip_to_next_sibling();
        }
        let ghost r = walker.progress();
        let ghost k = walker.cursor.position();
        proof {
            if model {
                assert(n < j < es.len());
                assert((r, k) == (if n < j < es.len() && es[j].node.kind == NodeKind::ReturnKeyword {
                    (node_walked(es, src, j, true, q), next_or_same(es, j))
                } else {
                    (q, j)
                }));
                assert(entry_wf(es, j));
                assert(n < k < es.len());
                assert(parent_of(es, k) == Some(n));
                lemma_walk_end_of_child(es, n, k);
                lemma_shaped_within(es, n, k);
            }
        }

        if is_with_expression {
            Self::write_return_value(walker, budget);
        } else {
            walker.try_walk_to_sibling_in(NodeKind::StatementEnd, budget - 1);
        }
        let ghost t = walker.progress();
        let ghost m = walker.cursor.position();
        proof {
            if model {
                assert(n < m < es.len());
                assert(entry_wf(es, m));
                lemma_walk_end_of_child(es, n, m);
                lemma_shaped_within(es, n, m);
            }
        }

        walker.walk_in(budget - 1);
        proof {
            if model {
                assert(entry_wf(es, walker.cursor.position()));
                assert(walker.progress() == walked(es, src, m, t));
            }
        }
        walker.skip_to_parent();
    }

    /// The value of a `return` statement: the whitespace before it goes, and
    /// the expression goes in parentheses.
    fn write_return_value(walker: &mut Walker<'source>, budget: usize)
        requires
            old(walker).wf(),
            1 <= budget,
            old(walker).writer@.additional_indent + budget <= usize::MAX,
        ensures
            old(walker).steps_to(final(walker)),
            ({
                let es = old(walker).cursor.entries();
                let k = old(walker).cursor.position();
                let m = final(walker).cursor.position();
                old(walker).modeled_with(budget as int, 4) ==> {
                    &&& k <= m
                    &&& parent_of(es, m) == parent_of(es, k)
                    &&& final(walker).in_context()
                    &&& (final(walker).progress(), m) == value_walked(
                        es,
                        old(walker).reader.source(),
                        k,
                        old(walker).progress(),
                    )
                }
            }),
        decreases budget, 1int,
    {
        let ghost es = walker.cursor.entries();
        let ghost model = walker.modeled_with(budget as int, 4);
        let node = walker.cursor.node();
        walker.reader.skip_content(&node);
        proof {
            assert(entry_fits(walker.cursor.entries(), walker.cursor.position(), walker.reader.source().len() as int));
        }
        walker.writer.chunk.set_prepend(open_parenthesis());
        walker.try_walk_to_sibling_in(NodeKind::Expression, budget - 1);
        walker.walk_node_in(true, budget - 1);
        proof {
            if model {
                assert(entry_wf(es, walker.cursor.position()));
            }
        }
        walker.skip_to_next_sibling();
        walker.writer.set_prev_chunk_append(close_parenthesis());
    }

    /// `switch` becomes `case ... of`, its branches one level deeper.
    #[verifier::spinoff_prover]
    fn write_switch_statement(walker: &mut Walker<'source>, budget: usize)
        requires
            old(walker).wf(),
            old(walker).current_kind() == NodeKind::SwitchStatement,
            1 <= budget,
            old(walker).writer@.additional_indent + budget <= usize::MAX,
        ensures
            old(walker).steps_to(final(walker)),
            old(walker).modeled_with(budget as int, 2) ==> {
                &&& final(walker).cursor.position() == old(walker).cursor.position()
                &&& final(walker).in_context()
                &&& final(walker).progress() == switch_walked(
                    old(walker).cursor.entries(),
                    old(walker).reader.source(),
                    old(walker).cursor.position(),
                    old(walker).progress(),
                )
            },
        decreases budget, 2int,
    {
        let ghost es = walker.cursor.entries();
        let ghost n = walker.cursor.position();
        let ghost model = walker.modeled_with(budget as int, 2);
        proof {
            if model {
                assert(entry_wf(es, n));
            }
        }
        let moved = walker.skip_to_first_child();
        proof {
            assert(es[n].node.kind == NodeKind::SwitchStatement);
            assert(moved);
            if model {
                assert(entry_wf(es, n + 1));
            }
        }
        let ghost src = walker.reader.source();
        let ghost p = walker.progress();
        walker.try_walk_to_sibling_in(NodeKind::SwitchBegin, budget - 1);
        let ghost q = walker.progress();
        let ghost j = walker.cursor.position();
        proof {
            if model {
                assert((q, j) == walked_to(es, src, n + 1, NodeKind::SwitchBegin, p));
                assert(n < j < es.len());
            }
        }
        walker.writer.push_indent();
        walker.try_walk_to_sibling_in(NodeKind::SwitchEnd, budget - 1);
        let ghost r = walker.progress();
        let ghost k = walker.cursor.position();
        proof {
            if model {
                assert((r, k) == walked_to(es, src, j, NodeKind::SwitchEnd, Progress { indent: q.indent + 1, ..q }));
                assert(n < k < es.len());
            }
        }
        walker.writer.pop_indent();
        Self::drop_unindentable_line(walker);
        proof {
            if model {
                assert(walker.progress() == without_unindentable_line(
                    Progress { indent: (r.indent - 1) as nat, ..r },
                ));
                assert(entry_wf(es, k));
            }
        }

        walker.walk_in(budget - 1);
        proof {
            if model {
                assert(entry_wf(es, walker.cursor.position()));
            }
        }
        walker.skip_to_parent();
    }

    /// A variable declaration is moved to the declarations of its method; an
    /// initial value stays in place as an assignment.
    #[verifier::spinoff_prover]
    fn save_var_declaration(walker: &mut Walker<'source>, is_also_assignment: bool, budget: usize)
        requires
            old(walker).wf(),
            1 <= budget,
            old(walker).writer@.additional_indent + budget <= usize::MAX,
        ensures
            old(walker).steps_to(final(walker)),
            final(walker).writer@.save_to_output,
            !final(walker).writer@.save_to_temp_output,
            final(walker).customizer.saved_var_declarations().len() > 0,
            old(walker).modeled_with(budget as int, 2) && first_child_of(
                old(walker).cursor.entries(),
                old(walker).cursor.position(),
            ) is Some ==> {
                &&& final(walker).cursor.position() == old(walker).cursor.position()
                &&& final(walker).in_context()
                &&& final(walker).progress() == declaration_saved(
                    old(walker).cursor.entries(),
                    old(walker).reader.source(),
                    old(walker).cursor.position(),
                    is_also_assignment,
                    old(walker).progress(),
                )
            },
        decreases budget, 2int,
    {
        let ghost es = walker.cursor.entries();
        let ghost n = walker.cursor.position();
        let ghost src = walker.reader.source();
        let ghost model = walker.modeled_with(budget as int, 2) && first_child_of(es, n) is Some;
        Self::write_declaration_start(walker, is_also_assignment, budget);
        let ghost k = walker.cursor.position();
        proof {
            if model {
                assert(entry_wf(es, k));
                lemma_walk_end_of_child(es, n, k);
                lemma_shaped_within(es, n, k);
            }
        }

        if is_also_assignment {
            Self::write_initial_value(walker, budget);
        }
        let ghost t = walker.progress();
        let ghost m = walker.cursor.position();
        proof {
            if model {
                assert(entry_wf(es, m));
                assert(parent_of(es, m) == Some(n));
                lemma_walk_end_of_child(es, n, m);
                lemma_shaped_within(es, n, m);
                assert(n < m < es.len());
            }
        }

        walker.walk_in(budget - 1);
        proof {
            if model {
                assert(entry_wf(es, walker.cursor.position()));
                assert(walker.progress() == walked(es, src, m, t));
            }
        }
        walker.skip_to_parent();

        let ghost declarations = walker.customizer.saved_var_declarations();
        let var_declaration = walker.writer.get_temp_output();
        walker.writer.set_write_to_temp_output(false);
        walker.writer.set_write_to_normal_output(true);

        walker.customizer.saved_var_declarations.push(var_declaration);
        proof {
            assert(walker.customizer.saved_var_declarations() =~= declarations.push(var_declaration@));
        }
    }

    /// The start of a variable declaration, up to its name: the keyword goes,
    /// and so does the whitespace before the name.
    fn write_declaration_start(walker: &mut Walker<'source>, is_also_assignment: bool, budget: usize)
        requires
            old(walker).wf(),
            1 <= budget,
            old(walker).writer@.additional_indent + budget <= usize::MAX,
        ensures
            old(walker).steps_to(final(walker)),
            ({
                let es = old(walker).cursor.entries();
                let n = old(walker).cursor.position();
                let k = final(walker).cursor.position();
                old(walker).modeled_with(budget as int, 2) && first_child_of(es, n) is Some ==> {
                    &&& n < k < es.len()
                    &&& parent_of(es, k) == Some(n)
                    &&& final(walker).in_context()
                    &&& (final(walker).progress(), k) == declaration_start(
                        es,
                        old(walker).reader.source(),
                        n,
                        is_also_assignment,
                        old(walker).progress(),
                    )
                }
            }),
        decreases budget, 1int,
    {
        let ghost es = walker.cursor.entries();
        let ghost n = walker.cursor.position();
        let ghost model = walker.modeled_with(budget as int, 2) && first_child_of(es, n) is Some;
        proof {
            if model {
                assert(entry_wf(es, n));
                assert(entry_wf(es, n + 1));
            }
        }
        walker.skip_to_first_child();

        walker.writer.set_write_to_temp_output(true);
        walker.writer.set_write_to_normal_output(is_also_assignment);

        walker.try_walk_to_sibling_in(NodeKind::DeclarationKeyword, budget - 1);
        let ghost j = walker.cursor.position();
        if is_also_assignment {
            walker.writer.set_write_to_temp_output(false);
            let ghost before = *walker;
            walker.step_mapped_node(nothing());
            proof {
                lemma_emit_node(&before, walker, Seq::<u8>::empty());
            }
            walker.writer.set_write_to_temp_output(true);
        }
        proof {
            if model {
                assert(entry_wf(es, j));
            }
        }
        walker.skip_to_next_sibling();
        let node = walker.cursor.node();
        walker.reader.skip_content(&node);
        proof {
            assert(entry_fits(walker.cursor.entries(), walker.cursor.position(), walker.reader.source().len() as int));
        }
    }

    /// The initial value of a variable declaration: the type goes to the
    /// declaration only, the rest up to the semicolon to the output only.
    fn write_initial_value(walker: &mut Walker<'source>, budget: usize)
        requires
            old(walker).wf(),
            1 <= budget,
            old(walker).writer@.additional_indent + budget <= usize::MAX,
        ensures
            old(walker).steps_to(final(walker)),
            ({
                let es = old(walker).cursor.entries();
                let k = old(walker).cursor.position();
                let m = final(walker).cursor.position();
                old(walker).modeled_with(budget as int, 4) ==> {
                    &&& k <= m
                    &&& parent_of(es, m) == parent_of(es, k)
                    &&& final(walker).in_context()
                    &&& (final(walker).progress(), m) == initial_value_walked(
                        es,
                        old(walker).reader.source(),
                        k,
                        old(walker).progress(),
                    )
                }
            }),
        decreases budget, 1int,
    {
        let ghost es = walker.cursor.entries();
        let ghost model = walker.modeled_with(budget as int, 4);
        walker.try_walk_to_sibling_in(NodeKind::VarTypeDeclaration, budget - 1);
        walker.writer.set_write_to_normal_output(false);
        walker.walk_node_in(false, budget - 1);
        proof {
            if model {
                assert(entry_wf(es, walker.cursor.position()));
            }
        }
        walker.skip_to_next_sibling();

        walker.writer.set_write_to_normal_output(true);
        walker.writer.set_write_to_temp_output(false);
        walker.try_walk_to_sibling_in(NodeKind::StatementEnd, budget - 1);
        walker.writer.set_write_to_temp_output(true);
    }

    /// Writes the saved variable declarations, each on a line of its own
    /// under `var`, where the current method's body begins, and forgets them.
    fn write_var_declarations(walker: &mut Walker<'source>)
        requires
            old(walker).wf(),
        ensures
            old(walker).steps_to(final(walker)),
            writes_declarations(old(walker), final(walker)),
    {
        if walker.customizer.saved_var_declarations.len() == 0 {
            return;
        }

        let newline_whitespace = walker.customizer.newline_whitespace_at_var_declarations;
        let ghost declarations = walker.customizer.saved_var_declarations();

        let mut content: Vec<u8> = Vec::new();
        append_bytes(&mut content, newline_whitespace);
        append_bytes(&mut content, content::var());
        let mut i: usize = 0;
        while i < walker.customizer.saved_var_declarations.len()
            invariant
                i <= walker.customizer.saved_var_declarations@.len(),
                declarations == walker.customizer.saved_var_declarations(),
                content@ == newline_whitespace@ + content::var_text() + declaration_lines(
                    newline_whitespace@,
                    declarations.take(i as int),
                ),
            decreases walker.customizer.saved_var_declarations@.len() - i,
        {
            append_bytes(&mut content, newline_whitespace);
            append_bytes(&mut content, content::indent());
            append_bytes(&mut content, walker.customizer.saved_var_declarations[i].as_slice());
            proof {
                assert(declarations.take(i + 1).drop_last() =~= declarations.take(i as int));
                assert(declarations[i as int] == walker.customizer.saved_var_declarations@[i as int]@);
            }
            i += 1;
        }
        proof {
            assert(declarations.take(i as int) =~= declarations);
        }
        walker.writer.insert_to_output(walker.customizer.var_declarations_pos, content.as_slice());
        walker.customizer.clear_saved_vars();
    }

    /// A method definition is followed by a semicolon.
    fn write_with_semicolon(walker: &mut Walker<'source>, budget: usize)
        requires
            old(walker).wf(),
            1 <= budget,
            old(walker).writer@.additional_indent + budget <= usize::MAX,
        ensures
            old(walker).steps_to(final(walker)),
            separator_pending(final(walker)),
            old(walker).modeled_with(budget as int, 2) ==> {
                &&& final(walker).cursor.position() == old(walker).cursor.position()
                &&& final(walker).in_context()
                &&& final(walker).progress() == with_pending(
                    node_walked(
                        old(walker).cursor.entries(),
                        old(walker).reader.source(),
                        old(walker).cursor.position(),
                        false,
                        old(walker).progress(),
                    ),
                    content::statement_separator_text(),
                )
            },
        decreases budget, 2int,
    {
        walker.walk_node_in(false, budget - 1);
        let ghost before = walker.writer@.prev_chunk_append;
        walker.writer.set_prev_chunk_append(content::statement_separator());
        proof {
            lemma_ends_with_append(before, content::statement_separator_text());
        }
    }

    /// Writes the node under the cursor in parentheses.
    fn write_wrapped_in_parenthesis(walker: &mut Walker<'source>, budget: usize)
        requires
            old(walker).wf(),
            1 <= budget,
            old(walker).writer@.additional_indent + budget <= usize::MAX,
        ensures
            old(walker).steps_to(final(walker)),
            ends_with(final(walker).writer@.prev_chunk_append, seq![41u8]),
            old(walker).modeled_with(budget as int, 2) ==> {
                &&& final(walker).cursor.position() == old(walker).cursor.position()
                &&& final(walker).in_context()
                &&& final(walker).progress() == parenthesized(
                    old(walker).cursor.entries(),
                    old(walker).reader.source(),
                    old(walker).cursor.position(),
                    old(walker).progress(),
                )
            },
        decreases budget, 1int,
    {
        walker.writer.chunk.set_prepend(open_parenthesis());
        walker.walk_node_in(false, budget - 1);
        let ghost before = walker.writer@.prev_chunk_append;
        walker.writer.set_prev_chunk_append(close_parenthesis());
        proof {
            lemma_ends_with_append(before, seq![41u8]);
        }
    }

    /// Writes the node under the cursor as a block: `begin` on a line of its
    /// own before it, its lines one level deeper, `end;` on a line after it.
    fn write_wrapped_in_block(walker: &mut Walker<'source>, budget: usize)
        requires
            old(walker).wf(),
            1 <= budget,
            old(walker).writer@.additional_indent + budget <= usize::MAX,
        ensures
            old(walker).steps_to(final(walker)),
            final(walker).writer@.prev_chunk_append == Seq::<u8>::empty(),
            final(walker).writer@.save_to_output ==> ends_with(final(walker).writer@.output, content::separated_end_text()),
            old(walker).modeled_with(budget as int, 2) ==> {
                &&& final(walker).cursor.position() == old(walker).cursor.position()
                &&& final(walker).in_context()
                &&& final(walker).progress() == block_wrapped(
                    old(walker).cursor.entries(),
                    old(walker).reader.source(),
                    old(walker).cursor.position(),
                    old(walker).progress(),
                )
            },
        decreases budget, 2int,
    {
        walker.writer.chunk.set_prepend_line_content(content::begin());
        walker.writer.push_indent();
        walker.walk_node_in(false, budget - 1);
        walker.writer.pop_indent();
        Self::drop_unindentable_line(walker);
        let ghost w = walker.writer@;
        walker.writer.write_new_line_content(content::separated_end());
        proof {
            let text = w.chunk_text(
                w.current_newline_whitespace,
                w.current_newline_whitespace + indentation(w.additional_indent),
                content::separated_end_text(),
            );
            let front = w.prev_chunk_append + line_prefix(
                w.current_newline_whitespace,
                w.additional_indent,
                w.chunk.prepend_line_content,
            ) + (w.current_newline_whitespace + indentation(w.additional_indent)) + w.chunk.prepend;
            assert(w.output + text =~= (w.output + front) + content::separated_end_text());
            lemma_ends_with_append(w.output + front, content::separated_end_text());
        }
    }

    /// A pending prefix line is written one level less deep than the code
    /// after it; at the outermost level there is no level to take off: the
    /// walk is marked as having met an unindentable block, which leaves the
    /// transpiler with no output, and the line is dropped so that the walk
    /// can go on.
    fn drop_unindentable_line(walker: &mut Walker<'source>)
        requires
            old(walker).cursor.wf(),
        ensures
            final(walker).writer@.can_prepend_line(),
            final(walker).writer@ == (WriterView {
                chunk: (ChunkView {
                    prepend_line_content: final(walker).writer@.chunk.prepend_line_content,
                    ..old(walker).writer@.chunk
                }),
                ..old(walker).writer@
            }),
            old(walker).writer@.can_prepend_line() ==> final(walker).writer@ == old(walker).writer@,
            final(walker).writer@.chunk.prepend_line_content == if old(walker).writer@.additional_indent == 0 && old(
                walker,
            ).writer@.chunk.prepend_line_content.len() > 0 {
                Seq::<u8>::empty()
            } else {
                old(walker).writer@.chunk.prepend_line_content
            },
            final(walker).cursor == old(walker).cursor,
            final(walker).reader == old(walker).reader,
            final(walker).context == old(walker).context,
            final(walker).customizer == old(walker).customizer,
            final(walker).unindentable_block == (old(walker).unindentable_block || (old(walker).writer@.additional_indent
                == 0 && old(walker).writer@.chunk.prepend_line_content.len() > 0)),
    {
        if walker.writer.additional_indent == 0 && walker.writer.chunk.prepend_line_content.len() != 0 {
            walker.unindentable_block = true;
            walker.writer.chunk.prepend_line_content.clear();
            assert(walker.writer@.chunk.prepend_line_content =~= Seq::<u8>::empty());
        }
    }
}

/// No bytes.
fn nothing() -> (bytes: &'static [u8])
    ensures
        bytes@ == Seq::<u8>::empty(),
{
    let bytes: &'static [u8] = &[];
    bytes
}

/// A single space.
fn space() -> (bytes: &'static [u8])
    ensures
        bytes@ == seq![32u8],
{
    let bytes: &'static [u8] = &[32];
    bytes
}

/// An opening parenthesis.
fn open_parenthesis() -> (bytes: &'static [u8])
    ensures
        bytes@ == seq![40u8],
{
    let bytes: &'static [u8] = &[40];
    bytes
}

/// A closing parenthesis.
fn close_parenthesis() -> (bytes: &'static [u8])
    ensures
        bytes@ == seq![41u8],
{
    let bytes: &'static [u8] = &[41];
    bytes
}

} // verus!
