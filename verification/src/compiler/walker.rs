//! Walks the syntax tree in order and writes every node: as it stands in the
//! source, or as the customizer rewrites it.

use vstd::prelude::*;

use crate::compiler::bytes::copy_bytes;
use crate::compiler::constants::content;
use crate::compiler::constants::node_kind::NodeKind;
use crate::compiler::chunk::{empty_chunk_view, ChunkView};
use crate::compiler::customizer::Customizer;
use crate::compiler::reader::{bytes_between, Reader};
use crate::compiler::tree::{entry_fits, entry_wf, switches_have_children, first_child_of, next_sibling_of, parent_of, SyntaxTree, SyntaxCursor, TreeEntry};
use crate::compiler::output_model::{
    copies_verbatim, emit, emit_node, lemma_copies_translate, lemma_tokens_well_shaped, lemma_transpiled_copies,
    lemma_transpiled_translates, node_walked, root_walked, siblings_walked, siblings_walked_to, translates_tokens,
    translation, transpiled, ends_nested, lemma_node_walk_ends, plain_subtree, shaped_from, walk_refused, walked, walked_to, well_shaped, Progress,
};
use crate::compiler::writer::{Writer, WriterView};

verus! {

/// The kinds of enclosing nodes that the customizer looks at.
#[derive(Debug, Clone, Copy, PartialEq, Eq, Structural)]
pub enum ContextType {
    Code,
    BinaryExpr,
    ParenthesizedExpr,
    Method,
}

/// The context that a node of kind `kind` opens, if any.
pub open spec fn context_of(kind: NodeKind) -> Option<ContextType> {
    match kind {
        NodeKind::CodeBlock => Some(ContextType::Code),
        NodeKind::BinaryExpression => Some(ContextType::BinaryExpr),
        NodeKind::ParenthesizedExpression => Some(ContextType::ParenthesizedExpr),
        NodeKind::MethodDefinition => Some(ContextType::Method),
        _ => None,
    }
}

/// The context that a node of kind `kind` opens, if any.
pub fn context_type_of(kind: NodeKind) -> (context: Option<ContextType>)
    ensures
        context == context_of(kind),
{
    match kind {
        NodeKind::CodeBlock => Some(ContextType::Code),
        NodeKind::BinaryExpression => Some(ContextType::BinaryExpr),
        NodeKind::ParenthesizedExpression => Some(ContextType::ParenthesizedExpr),
        NodeKind::MethodDefinition => Some(ContextType::Method),
        _ => None,
    }
}

/// `stack` after entering a node of kind `kind`.
pub open spec fn pushed(stack: Seq<ContextType>, kind: NodeKind) -> Seq<ContextType> {
    match context_of(kind) {
        Some(c) => stack.push(c),
        None => stack,
    }
}

/// `stack` after leaving a node of kind `kind`.
pub open spec fn popped(stack: Seq<ContextType>, kind: NodeKind) -> Seq<ContextType> {
    if context_of(kind) is Some && stack.len() > 0 {
        stack.drop_last()
    } else {
        stack
    }
}

/// The innermost context of `stack`.
pub open spec fn current_context(stack: Seq<ContextType>) -> Option<ContextType> {
    if stack.len() > 0 {
        Some(stack.last())
    } else {
        None
    }
}

/// The context just outside the innermost one.
pub open spec fn parent_context(stack: Seq<ContextType>) -> Option<ContextType> {
    if stack.len() >= 2 {
        Some(stack[stack.len() - 2])
    } else {
        None
    }
}

/// `output` is what the transpiler writes for `source` with the syntax tree
/// `es`: on a well-shaped tree, the text of the model; on a tree whose only
/// rewritten nodes are tokens, the source with the tokens translated; on a
/// tree with nothing to rewrite, the source itself. The entries must number
/// less than half of what `usize` holds.
pub open spec fn compiled(es: Seq<TreeEntry>, source: Seq<u8>, output: Seq<u8>) -> bool {
    &&& well_shaped(es) && 2 * es.len() + 2 <= usize::MAX ==> output == transpiled(es, source)
    &&& translates_tokens(es) && 2 * es.len() + 2 <= usize::MAX ==> output == translation(es, source, 0, 0)
    &&& copies_verbatim(es) && 2 * es.len() + 2 <= usize::MAX ==> output == source
}

/// Transpiles `source`, whose syntax tree is `tree`: walks the tree from its
/// root and returns what was written; none if the walk met a block whose
/// `begin` line had no level of indentation to be written at.
pub fn compile(tree: &SyntaxTree, source: &Vec<u8>) -> (output: Option<Vec<u8>>)
    requires
        tree.wf(),
        switches_have_children(tree.entries()),
        tree.fits(source@.len() as int),
    ensures
        output matches Some(o) ==> compiled(tree.entries(), source@, o@),
        well_shaped(tree.entries()) && 2 * tree.entries().len() + 2 <= usize::MAX ==> (output is None <==> walk_refused(
            tree.entries(),
            source@,
        )),
        translates_tokens(tree.entries()) && 2 * tree.entries().len() + 2 <= usize::MAX ==> output is Some,
{
    let cursor = tree.walk();
    let mut walker = Walker::new(cursor, source);
    walker.walk();
    proof {
        let es = tree.entries();
        if copies_verbatim(es) {
            lemma_copies_translate(es);
            lemma_transpiled_copies(es, source@);
        }
        if translates_tokens(es) {
            lemma_tokens_well_shaped(es);
            lemma_transpiled_translates(es, source@);
        }
    }
    if walker.unindentable_block {
        return None;
    }
    let output = walker.writer.get_output();
    Some(copy_bytes(output.as_slice()))
}

/// The contexts of the nodes on the path from the root, which is left out,
/// to entry `i`, outermost first.
pub open spec fn path_contexts(es: Seq<TreeEntry>, i: int) -> Seq<ContextType>
    decreases i,
{
    if i <= 0 || i >= es.len() {
        Seq::empty()
    } else {
        match es[i].parent {
            Some(p) => if p < i {
                pushed(path_contexts(es, p as int), es[i].node.kind)
            } else {
                Seq::empty()
            },
            None => Seq::empty(),
        }
    }
}

/// Leaving a node of kind `kind` undoes entering it.
pub proof fn lemma_popped_pushed(stack: Seq<ContextType>, kind: NodeKind)
    ensures
        popped(pushed(stack, kind), kind) == stack,
{
    if context_of(kind) is Some {
        assert(pushed(stack, kind).drop_last() =~= stack);
    }
}

/// What a writer in state `w` has written and carries to its next write,
/// with the source read up to `position`, the variable declarations
/// `declarations` saved to go at `at` after `newline_whitespace`, and
/// `unindentable_block` for whether an unindentable block was met.
pub open spec fn writer_progress(
    w: WriterView,
    position: int,
    declarations: Seq<Seq<u8>>,
    at: int,
    newline_whitespace: Seq<u8>,
    unindentable_block: bool,
) -> Progress {
    Progress {
        output: w.output,
        to_output: w.save_to_output,
        temp_output: w.temp_output,
        to_temp_output: w.save_to_temp_output,
        position,
        pending: w.prev_chunk_append,
        prepend: w.chunk.prepend,
        line: w.chunk.prepend_line_content,
        newline_whitespace: w.current_newline_whitespace,
        ignore_whitespace: w.should_ignore_next_leading_whitespace,
        indent: w.additional_indent,
        declarations,
        declarations_at: at,
        declarations_newline: newline_whitespace,
        unindentable_block,
    }
}

/// Writing the chunk is the model's `emit` of its whitespace and content.
pub proof fn lemma_chunk_write(
    w: WriterView,
    next: WriterView,
    position: int,
    declarations: Seq<Seq<u8>>,
    at: int,
    newline_whitespace: Seq<u8>,
    unindentable_block: bool,
)
    requires
        w.after_chunk_write(next),
    ensures
        writer_progress(next, position, declarations, at, newline_whitespace, unindentable_block) == emit(
            writer_progress(w, position, declarations, at, newline_whitespace, unindentable_block),
            w.chunk.leading_whitespace,
            w.chunk.content,
        ),
{
    let e = emit(writer_progress(w, position, declarations, at, newline_whitespace, unindentable_block), w.chunk.leading_whitespace, w.chunk.content);
    assert(next.output =~= e.output);
    assert(next.temp_output =~= e.temp_output);
}

/// Writing `text` in place of the node under the cursor is the model's
/// `emit_node`.
pub proof fn lemma_emit_node<'c>(walker: &Walker<'c>, next: &Walker<'c>, text: Seq<u8>)
    requires
        walker.writes_node_as(next, text),
    ensures
        walker.in_context() ==> next.in_context(),
        next.progress() == emit_node(
            walker.progress(),
            walker.reader.source(),
            walker.cursor.current_node(),
            text,
        ),
{
    let node = walker.cursor.current_node();
    let src = walker.reader.source();
    let w = walker.writer@;
    let ws = bytes_between(src, walker.reader.position() as int, node.start_byte as int);
    let w0 = WriterView { chunk: ChunkView { leading_whitespace: ws, content: text, ..w.chunk }, ..w };
    lemma_chunk_write(
        w0,
        next.writer@,
        walker.reader.position() as int,
        walker.customizer.saved_var_declarations(),
        walker.customizer.var_declarations_position(),
        walker.customizer.newline_whitespace_at_var_declarations(),
        walker.unindentable_block,
    );
}

/// The context stack after `skip_to_next_node` from entry `i` with `stack`:
/// the context of each node left is popped, and that of the next sibling
/// reached, if any, pushed.
pub open spec fn next_node_stack(es: Seq<TreeEntry>, i: int, stack: Seq<ContextType>) -> Seq<ContextType>
    decreases es[i].depth,
{
    let left = popped(stack, es[i].node.kind);
    match next_sibling_of(es, i) {
        Some(s) => pushed(left, es[s].node.kind),
        None => match parent_of(es, i) {
            Some(p) => if 0 <= p < es.len() && es[p].depth < es[i].depth {
                next_node_stack(es, p, left)
            } else {
                left
            },
            None => left,
        },
    }
}

/// The stack of contexts that the walk is in, innermost last.
#[derive(Debug)]
pub struct Context {
    context: Vec<ContextType>,
}

impl Context {
    /// The contexts, innermost last.
    pub closed spec fn stack(&self) -> Seq<ContextType> {
        self.context@
    }

    /// No context.
    pub fn new() -> (context: Self)
        ensures
            context.stack() == Seq::<ContextType>::empty(),
    {
        Self { context: Vec::new() }
    }

    /// Enters a node of kind `node_type`.
    pub fn push_context(&mut self, node_type: NodeKind)
        ensures
            final(self).stack() == pushed(old(self).stack(), node_type),
    {
        if let Some(context) = context_type_of(node_type) {
            self.context.push(context);
        }
    }

    /// Leaves a node of kind `node_type`.
    pub fn pop_context(&mut self, node_type: NodeKind)
        ensures
            final(self).stack() == popped(old(self).stack(), node_type),
    {
        if context_type_of(node_type).is_some() {
            self.context.pop();
        }
    }

    /// The context just outside the innermost one.
    pub fn get_parent_context(&self) -> (context: Option<ContextType>)
        ensures
            context == parent_context(self.stack()),
    {
        if self.context.len() >= 2 {
            Some(self.context[self.context.len() - 2])
        } else {
            None
        }
    }

    /// The innermost context.
    pub fn get_current_context(&self) -> (context: Option<ContextType>)
        ensures
            context == current_context(self.stack()),
    {
        if self.context.len() > 0 {
            Some(self.context[self.context.len() - 1])
        } else {
            None
        }
    }
}

impl Default for Context {
    fn default() -> (context: Self)
        ensures
            context.stack() == Seq::<ContextType>::empty(),
    {
        Self::new()
    }
}

/// The transpiler's state: where it is in the tree and in the source, what
/// it has written, and the contexts it is in.
pub struct Walker<'cursor> {
    pub cursor: SyntaxCursor<'cursor>,
    pub writer: Writer<'cursor>,
    pub reader: Reader<'cursor>,
    pub context: Context,
    pub customizer: Customizer<'cursor>,
    /// Whether the walk met a block whose `begin` line had no level of
    /// indentation to be written one level less deep at.
    pub unindentable_block: bool,
}

impl<'cursor> Walker<'cursor> {
    /// The cursor is on a node of a well-formed tree that lies in the source,
    /// the reader's position is in the source, the writer can write a pending
    /// line, and the place saved for variable declarations is in the output.
    pub open spec fn wf(&self) -> bool {
        &&& self.cursor.wf()
        &&& switches_have_children(self.cursor.entries())
        &&& self.cursor.tree().fits(self.reader.source().len() as int)
        &&& self.reader.position() <= self.reader.source().len()
        &&& self.writer@.can_prepend_line()
        &&& self.customizer.var_declarations_position() <= self.writer@.output.len()
    }

    /// The kind of the node that the cursor is on.
    pub open spec fn current_kind(&self) -> NodeKind {
        self.cursor.current_node().kind
    }

    /// `next` is `self` after writing `text` in place of the node under the
    /// cursor, after the source between the reader's position and the node,
    /// with the reader moved to the end of the node.
    pub open spec fn writes_node_as(&self, next: &Walker<'cursor>, text: Seq<u8>) -> bool {
        let node = self.cursor.current_node();
        let source = self.reader.source();
        &&& (WriterView {
            chunk: ChunkView {
                leading_whitespace: bytes_between(source, self.reader.position() as int, node.start_byte as int),
                content: text,
                ..self.writer@.chunk
            },
            ..self.writer@
        }).after_chunk_write(next.writer@)
        &&& next.reader.source() == source
        &&& next.reader.position() == node.end_byte
        &&& next.cursor == self.cursor
        &&& next.context == self.context
        &&& next.customizer == self.customizer
        &&& next.unindentable_block == self.unindentable_block
    }

    /// The context stack holds the contexts on the path from the root to the
    /// cursor.
    pub open spec fn in_context(&self) -> bool {
        self.context.stack() == path_contexts(self.cursor.entries(), self.cursor.position())
    }

    /// `next` is a state that a walk can leave from `self`: well formed, on
    /// the same tree and source, at the same indentation, with no less output.
    pub open spec fn steps_to(&self, next: &Walker<'cursor>) -> bool {
        &&& next.wf()
        &&& self.in_context() ==> next.in_context()
        &&& next.cursor.tree() == self.cursor.tree()
        &&& next.reader.source() == self.reader.source()
        &&& next.writer@.additional_indent == self.writer@.additional_indent
        &&& next.writer@.output.len() >= self.writer@.output.len()
    }

    /// `next` differs from `self` in the cursor and the context only.
    pub open spec fn moves_to(&self, next: &Walker<'cursor>) -> bool {
        &&& next.cursor.tree() == self.cursor.tree()
        &&& next.cursor.wf()
        &&& next.writer@ == self.writer@
        &&& next.reader == self.reader
        &&& next.customizer == self.customizer
        &&& next.unindentable_block == self.unindentable_block
    }

    /// What the walker has written and carries to its next write.
    pub open spec fn progress(&self) -> Progress {
        writer_progress(
            self.writer@,
            self.reader.position() as int,
            self.customizer.saved_var_declarations(),
            self.customizer.var_declarations_position(),
            self.customizer.newline_whitespace_at_var_declarations(),
            self.unindentable_block,
        )
    }

    /// The walk from here follows the model: the tree is shaped from the
    /// cursor on, the contexts are those of the cursor, and the budget exceeds twice the
    /// number of entries from the cursor on by at least `extra`.
    pub open spec fn modeled_with(&self, budget: int, extra: int) -> bool {
        &&& shaped_from(self.cursor.entries(), self.cursor.position())
        &&& self.in_context()
        &&& budget >= 2 * (self.cursor.entries().len() - self.cursor.position()) + extra
    }

    /// A walker at the start of `source`, with the cursor where it is.
    pub fn new(cursor: SyntaxCursor<'cursor>, source: &'cursor Vec<u8>) -> (walker: Self)
        requires
            cursor.wf(),
            switches_have_children(cursor.entries()),
            cursor.tree().fits(source@.len() as int),
        ensures
            walker.wf(),
            walker.cursor == cursor,
            walker.reader.source() == source@,
            walker.reader.position() == 0,
            walker.writer@ == (WriterView {
                output: Seq::empty(),
                save_to_output: true,
                temp_output: Seq::empty(),
                save_to_temp_output: false,
                chunk: empty_chunk_view(),
                prev_chunk_append: Seq::empty(),
                additional_indent: 0,
                current_newline_whitespace: Seq::empty(),
                should_ignore_next_leading_whitespace: false,
            }),
            walker.customizer.var_declarations_position() == 0,
            walker.customizer.saved_var_declarations() == Seq::<Seq<u8>>::empty(),
            walker.customizer.newline_whitespace_at_var_declarations() == Seq::<u8>::empty(),
            walker.context.stack() == Seq::<ContextType>::empty(),
            !walker.unindentable_block,
            cursor.position() == 0 ==> walker.in_context(),
    {
        Self {
            cursor,
            writer: Writer::new(source.len()),
            reader: Reader::new(source.as_slice()),
            context: Context::new(),
            customizer: Customizer::new(),
            unindentable_block: false,
        }
    }

    /// Walks the node under the cursor and its following siblings, and at the
    /// root also copies what is left of the source.
    pub fn walk(&mut self)
        requires
            old(self).wf(),
        ensures
            old(self).steps_to(final(self)),
            ({
                let es = old(self).cursor.entries();
                let src = old(self).reader.source();
                let s = old(self).cursor.position();
                shaped_from(es, old(self).cursor.position()) && old(self).in_context() && 2 * es.len() + 2 + old(self).writer@.additional_indent
                    <= usize::MAX ==> {
                    &&& final(self).in_context()
                    &&& s == 0 ==> final(self).progress() == root_walked(es, src, old(self).progress())
                    &&& s != 0 ==> final(self).progress() == walked(es, src, s, old(self).progress())
                }
            }),
    {
        let budget = usize::MAX - self.writer.additional_indent;
        self.walk_in(budget);
    }

    /// `walk` with at most `budget` nested steps, and at most `budget`
    /// siblings on one level.
    #[verifier::spinoff_prover]
    pub fn walk_in(&mut self, budget: usize)
        requires
            old(self).wf(),
            old(self).writer@.additional_indent + budget <= usize::MAX,
        ensures
            old(self).steps_to(final(self)),
            ({
                let es = old(self).cursor.entries();
                let src = old(self).reader.source();
                let s = old(self).cursor.position();
                let q = final(self).cursor.position();
                old(self).modeled_with(budget as int, 2) ==> {
                    &&& s <= q
                    &&& parent_of(es, q) == parent_of(es, s)
                    &&& next_sibling_of(es, q) is None
                    &&& final(self).in_context()
                    &&& s == 0 ==> final(self).progress() == root_walked(es, src, old(self).progress())
                    &&& s != 0 ==> final(self).progress() == walked(es, src, s, old(self).progress())
                }
            }),
        decreases budget, 5int,
    {
        if budget == 0 {
            return;
        }
        let ghost es = self.cursor.entries();
        let ghost src = self.reader.source();
        let ghost s = self.cursor.position();
        let ghost model = self.modeled_with(budget as int, 2);
        let ghost target = walked(es, src, s, self.progress());
        proof {
            if model {
                assert(entry_wf(es, s));
            }
        }
        self.walk_node_in(true, budget);
        let mut rounds: usize = budget;
        loop
            invariant
                old(self).steps_to(self),
                model == old(self).modeled_with(budget as int, 2),
                model ==> {
                    &&& s <= self.cursor.position()
                    &&& parent_of(es, self.cursor.position()) == parent_of(es, s)
                    &&& self.in_context()
                    &&& siblings_walked(es, src, self.cursor.position(), self.progress()) == target
                    &&& rounds >= es.len() - self.cursor.position()
                },
                1 <= budget,
                old(self).writer@.additional_indent + budget <= usize::MAX,
                es == self.cursor.entries(),
                src == self.reader.source(),
                s == old(self).cursor.position(),
            ensures
                old(self).steps_to(self),
                es == self.cursor.entries(),
                src == self.reader.source(),
                model ==> {
                    &&& s <= self.cursor.position()
                    &&& parent_of(es, self.cursor.position()) == parent_of(es, s)
                    &&& self.in_context()
                    &&& self.progress() == target
                    &&& next_sibling_of(es, self.cursor.position()) is None
                },
            decreases rounds,
        {
            let ghost before = self.cursor.position();
            if rounds == 0 || !self.skip_to_next_sibling() {
                break;
            }
            proof {
                if model {
                    assert(entry_wf(es, before));
                }
            }
            rounds -= 1;
            self.walk_in(budget - 1);
        }
        proof {
            if model {
                assert(entry_wf(es, self.cursor.position()));
                if s == 0 {
                    assert(entry_wf(es, 0));
                }
            }
        }
        let ghost reached = self.progress();
        if self.cursor.node().kind == NodeKind::SourceFile {
            let rest = self.reader.read_rest_of_source();
            self.writer.extend_output(rest);
            proof {
                if model {
                    assert(self.cursor.position() == 0);
                    assert(s == 0);
                    assert(rest@ == bytes_between(src, reached.position, src.len() as int));
                }
            }
        }
    }

    /// Writes the node under the cursor: through the customizer if
    /// `customize_node` and it handles the node, else child by child, or as
    /// it stands in the source if it has no children.
    pub fn walk_node(&mut self, customize_node: bool)
        requires
            old(self).wf(),
        ensures
            old(self).steps_to(final(self)),
            ({
                let es = old(self).cursor.entries();
                let n = old(self).cursor.position();
                shaped_from(es, old(self).cursor.position()) && old(self).in_context() && 2 * es.len() + 2 + old(self).writer@.additional_indent
                    <= usize::MAX ==> {
                    &&& final(self).cursor.position() == n
                    &&& final(self).in_context()
                    &&& final(self).progress() == node_walked(
                        es,
                        old(self).reader.source(),
                        n,
                        customize_node,
                        old(self).progress(),
                    )
                }
            }),
            ({
                let es = old(self).cursor.entries();
                let n = old(self).cursor.position();
                shaped_from(es, n) && old(self).in_context() && 2 * es.len() + 2 + old(self).writer@.additional_indent
                    <= usize::MAX && plain_subtree(es, n, customize_node) && ends_nested(
                    es,
                    n + 1,
                    es[n].subtree_end as int,
                ) ==> final(self).reader.position() == es[n].node.end_byte
            }),
    {
        let ghost es = self.cursor.entries();
        let ghost n = self.cursor.position();
        let ghost src = self.reader.source();
        let ghost p = self.progress();
        let budget = usize::MAX - self.writer.additional_indent;
        self.walk_node_in(customize_node, budget);
        proof {
            if plain_subtree(es, n, customize_node) && ends_nested(es, n + 1, es[n].subtree_end as int) {
                lemma_node_walk_ends(es, src, n, customize_node, p);
            }
        }
    }

    /// `walk_node` with at most `budget` nested steps.
    #[verifier::spinoff_prover]
    pub fn walk_node_in(&mut self, customize_node: bool, budget: usize)
        requires
            old(self).wf(),
            old(self).writer@.additional_indent + budget <= usize::MAX,
        ensures
            old(self).steps_to(final(self)),
            old(self).modeled_with(
                budget as int,
                if customize_node {
                    2int
                } else {
                    1int
                },
            ) ==> {
                &&& final(self).cursor.position() == old(self).cursor.position()
                &&& final(self).in_context()
                &&& final(self).progress() == node_walked(
                    old(self).cursor.entries(),
                    old(self).reader.source(),
                    old(self).cursor.position(),
                    customize_node,
                    old(self).progress(),
                )
            },
        decreases budget, 4int,
    {
        if budget == 0 {
            return;
        }
        let ghost es = self.cursor.entries();
        let ghost src = self.reader.source();
        let ghost n = self.cursor.position();
        let ghost model = self.modeled_with(
            budget as int,
            if customize_node {
                2int
            } else {
                1int
            },
        );
        proof {
            if model {
                assert(entry_wf(es, n));
                assert(entry_fits(es, n, src.len() as int));
            }
        }
        if customize_node && Customizer::match_node_in(self, budget) {
            return;
        }
        if self.skip_to_first_child() {
            proof {
                if model {
                    assert(entry_wf(es, n + 1));
                }
            }
            self.walk_in(budget - 1);
            proof {
                if model {
                    assert(entry_wf(es, self.cursor.position()));
                }
            }
            self.skip_to_parent();
        } else {
            let ghost before = *self;
            self.step_node();
            proof {
                if model {
                    assert(first_child_of(es, n) is None);
                    lemma_emit_node(&before, self, src.subrange(es[n].node.start_byte as int, es[n].node.end_byte as int));
                }
            }
        }
    }

    /// Writes the node under the cursor as it stands in the source, after
    /// the source between the last node read and this one.
    fn step_node(&mut self)
        requires
            old(self).wf(),
        ensures
            old(self).steps_to(final(self)),
            old(self).writes_node_as(
                final(self),
                old(self).reader.source().subrange(
                    old(self).cursor.current_node().start_byte as int,
                    old(self).cursor.current_node().end_byte as int,
                ),
            ),
    {
        let node = self.cursor.node();
        proof {
            assert(entry_fits(self.cursor.entries(), self.cursor.position(), self.reader.source().len() as int));
        }
        self.writer.chunk.leading_whitespace = self.reader.read_leading_whitespace(&node);
        self.writer.chunk.content = self.reader.read_content(&node);
        self.writer.write_chunk();
    }

    /// Writes `new_content` in place of the node under the cursor, after the
    /// source between the last node read and this one.
    pub fn step_mapped_node(&mut self, new_content: &'cursor [u8])
        requires
            old(self).wf(),
        ensures
            old(self).steps_to(final(self)),
            old(self).writes_node_as(final(self), new_content@),
    {
        let node = self.cursor.node();
        proof {
            assert(entry_fits(self.cursor.entries(), self.cursor.position(), self.reader.source().len() as int));
        }
        self.writer.chunk.leading_whitespace = self.reader.read_leading_whitespace(&node);
        self.writer.chunk.content = new_content;
        self.writer.write_chunk();
        self.reader.skip_content(&node);
    }

    /// Moves to the next sibling, if there is one, leaving the context of
    /// the node it leaves and entering that of the sibling.
    pub fn skip_to_next_sibling(&mut self) -> (moved: bool)
        requires
            old(self).wf(),
        ensures
            final(self).wf(),
            old(self).moves_to(final(self)),
            old(self).in_context() ==> final(self).in_context(),
            moved == next_sibling_of(old(self).cursor.entries(), old(self).cursor.position()) is Some,
            final(self).cursor.position() == match next_sibling_of(
                old(self).cursor.entries(),
                old(self).cursor.position(),
            ) {
                Some(s) => s,
                None => old(self).cursor.position(),
            },
            final(self).context.stack() == if moved {
                pushed(popped(old(self).context.stack(), old(self).current_kind()), final(self).current_kind())
            } else {
                old(self).context.stack()
            },
    {
        let prev_context = self.cursor.node().kind;
        let ghost n = self.cursor.position();
        let ghost es = self.cursor.entries();
        proof {
            assert(entry_wf(es, n));
        }
        if self.cursor.goto_next_sibling() {
            self.context.pop_context(prev_context);
            self.context.push_context(self.cursor.node().kind);
            proof {
                if old(self).in_context() {
                    let p = es[n].parent.unwrap() as int;
                    assert(entry_wf(es, self.cursor.position()));
                    lemma_popped_pushed(path_contexts(es, p), prev_context);
                }
            }
            return true;
        }
        false
    }

    /// Moves to the first child, if there is one, entering its context.
    pub fn skip_to_first_child(&mut self) -> (moved: bool)
        requires
            old(self).wf(),
        ensures
            final(self).wf(),
            old(self).moves_to(final(self)),
            old(self).in_context() ==> final(self).in_context(),
            moved == first_child_of(old(self).cursor.entries(), old(self).cursor.position()) is Some,
            final(self).cursor.position() == match first_child_of(
                old(self).cursor.entries(),
                old(self).cursor.position(),
            ) {
                Some(c) => c,
                None => old(self).cursor.position(),
            },
            final(self).context.stack() == if moved {
                pushed(old(self).context.stack(), final(self).current_kind())
            } else {
                old(self).context.stack()
            },
    {
        let ghost n = self.cursor.position();
        let ghost es = self.cursor.entries();
        proof {
            assert(entry_wf(es, n));
        }
        if self.cursor.goto_first_child() {
            self.context.push_context(self.cursor.node().kind);
            proof {
                assert(entry_wf(es, n + 1));
            }
            return true;
        }
        false
    }

    /// Leaves the context of the node under the cursor and moves to its
    /// parent, if it has one.
    pub fn skip_to_parent(&mut self) -> (moved: bool)
        requires
            old(self).wf(),
        ensures
            final(self).wf(),
            old(self).moves_to(final(self)),
            old(self).in_context() ==> final(self).in_context(),
            moved == parent_of(old(self).cursor.entries(), old(self).cursor.position()) is Some,
            final(self).cursor.position() == match parent_of(old(self).cursor.entries(), old(self).cursor.position()) {
                Some(p) => p,
                None => old(self).cursor.position(),
            },
            final(self).context.stack() == popped(old(self).context.stack(), old(self).current_kind()),
    {
        let ghost n = self.cursor.position();
        let ghost es = self.cursor.entries();
        proof {
            assert(entry_wf(es, n));
            if n > 0 {
                lemma_popped_pushed(path_contexts(es, es[n].parent.unwrap() as int), es[n].node.kind);
            }
        }
        self.context.pop_context(self.cursor.node().kind);
        self.cursor.goto_parent()
    }

    /// Moves to the next node after the subtree under the cursor: its next
    /// sibling, or that of its nearest ancestor that has one. Returns false
    /// at the root, where it ends if there is no such node.
    pub fn skip_to_next_node(&mut self) -> (moved: bool)
        requires
            old(self).wf(),
        ensures
            final(self).wf(),
            old(self).moves_to(final(self)),
            old(self).in_context() ==> final(self).in_context(),
            moved ==> final(self).cursor.position() == old(self).cursor.entries()[old(self).cursor.position()].subtree_end,
            !moved ==> final(self).cursor.position() == 0,
            next_sibling_of(old(self).cursor.entries(), old(self).cursor.position()) matches Some(s) ==> moved
                && final(self).cursor.position() == s,
            moved == (old(self).cursor.entries()[old(self).cursor.position()].subtree_end < old(
                self,
            ).cursor.entries().len()),
            final(self).context.stack() == next_node_stack(
                old(self).cursor.entries(),
                old(self).cursor.position(),
                old(self).context.stack(),
            ),
        decreases old(self).cursor.entries()[old(self).cursor.position()].depth,
    {
        proof {
            let es = self.cursor.entries();
            let n = self.cursor.position();
            assert(entry_wf(es, n));
            if let Some(p) = es[n].parent {
                assert(entry_wf(es, p as int));
            }
        }
        if self.skip_to_next_sibling() {
            return true;
        }
        if self.skip_to_parent() {
            proof {
                assert(entry_wf(self.cursor.entries(), self.cursor.position()));
            }
            let moved = self.skip_to_next_node();
            moved
        } else {
            false
        }
    }

    /// Walks node after node from the cursor until one of kind
    /// `sibling_type`, and stays there; returns whether it found one.
    pub fn try_walk_to_sibling(&mut self, sibling_type: NodeKind) -> (found: bool)
        requires
            old(self).wf(),
        ensures
            old(self).steps_to(final(self)),
            found ==> final(self).current_kind() == sibling_type,
            ({
                let es = old(self).cursor.entries();
                let k = old(self).cursor.position();
                let q = final(self).cursor.position();
                shaped_from(es, old(self).cursor.position()) && old(self).in_context() && 2 * es.len() + 3 + old(self).writer@.additional_indent
                    <= usize::MAX ==> {
                    &&& found == (es[q].node.kind == sibling_type)
                    &&& k <= q
                    &&& parent_of(es, q) == parent_of(es, k)
                    &&& final(self).in_context()
                    &&& (final(self).progress(), q) == walked_to(
                        es,
                        old(self).reader.source(),
                        k,
                        sibling_type,
                        old(self).progress(),
                    )
                }
            }),
    {
        let budget = usize::MAX - self.writer.additional_indent;
        self.try_walk_to_sibling_in(sibling_type, budget)
    }

    /// `try_walk_to_sibling` with at most `budget` nested steps, through at
    /// most `budget` siblings.
    #[verifier::spinoff_prover]
    pub fn try_walk_to_sibling_in(&mut self, sibling_type: NodeKind, budget: usize) -> (found: bool)
        requires
            old(self).wf(),
            old(self).writer@.additional_indent + budget <= usize::MAX,
        ensures
            old(self).steps_to(final(self)),
            found ==> final(self).current_kind() == sibling_type,
            ({
                let es = old(self).cursor.entries();
                let k = old(self).cursor.position();
                let q = final(self).cursor.position();
                old(self).modeled_with(budget as int, 3) ==> {
                    &&& found == (es[q].node.kind == sibling_type)
                    &&& k <= q
                    &&& parent_of(es, q) == parent_of(es, k)
                    &&& final(self).in_context()
                    &&& (final(self).progress(), q) == walked_to(
                        es,
                        old(self).reader.source(),
                        k,
                        sibling_type,
                        old(self).progress(),
                    )
                }
            }),
        decreases budget, 0int,
    {
        let ghost es = self.cursor.entries();
        let ghost src = self.reader.source();
        let ghost k = self.cursor.position();
        let ghost model = self.modeled_with(budget as int, 3);
        let ghost target = walked_to(es, src, k, sibling_type, self.progress());
        if self.cursor.node().kind == sibling_type {
            return true;
        }
        if budget == 0 {
            return false;
        }
        self.walk_node_in(true, budget - 1);
        let mut rounds: usize = budget;
        loop
            invariant
                old(self).steps_to(self),
                1 <= budget,
                old(self).writer@.additional_indent + budget <= usize::MAX,
                es == self.cursor.entries(),
                src == self.reader.source(),
                k == old(self).cursor.position(),
                model == old(self).modeled_with(budget as int, 3),
                target == walked_to(es, src, k, sibling_type, old(self).progress()),
                model ==> self.current_kind() != sibling_type,
                model ==> {
                    &&& k <= self.cursor.position()
                    &&& parent_of(es, self.cursor.position()) == parent_of(es, k)
                    &&& self.in_context()
                    &&& siblings_walked_to(es, src, self.cursor.position(), sibling_type, self.progress()) == target
                    &&& rounds >= es.len() - self.cursor.position()
                },
            decreases rounds,
        {
            let ghost before = self.cursor.position();
            proof {
                if model {
                    assert(entry_wf(es, before));
                }
            }
            if rounds == 0 || !self.skip_to_next_sibling() {
                return false;
            }
            rounds -= 1;
            if self.cursor.node().kind == sibling_type {
                return true;
            }
            self.walk_node_in(true, budget - 1);
        }
    }
}

} // verus!
