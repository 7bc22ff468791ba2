//! What a walk writes, stated over the syntax tree: the state that it carries
//! from node to node, and what each kind of node does to that state.

use vstd::prelude::*;

use crate::compiler::constants::content;
use crate::compiler::constants::node_kind::NodeKind;
use crate::compiler::customizer::{declarations_section, is_customized, token_text};
use crate::compiler::reader::bytes_between;
use crate::compiler::tree::{
    entries_wf, entry_fits, entry_wf, first_child_of, next_sibling_of, parent_of, SyntaxNode, TreeEntry,
};
use crate::compiler::walker::{current_context, parent_context, path_contexts, ContextType};
use crate::compiler::writer::{indentation, last_newline, line_prefix};

verus! {

/// What a walk has written, and what it carries to its next write: the
/// output and the temporary output with the switches that send text to
/// them, the position up to which the source has been read, the text
/// pending before the next write, the text to put right before the next
/// content, the line to put before the next write, the whitespace from the
/// last newline written on, whether the next leading whitespace is dropped,
/// the indentation level, the variable declarations of the current method
/// with the output position and the newline whitespace where they go, and
/// whether a block was met whose `begin` line had no level of indentation to
/// be written one level less deep at.
pub struct Progress {
    pub output: Seq<u8>,
    pub to_output: bool,
    pub temp_output: Seq<u8>,
    pub to_temp_output: bool,
    pub position: int,
    pub pending: Seq<u8>,
    pub prepend: Seq<u8>,
    pub line: Seq<u8>,
    pub newline_whitespace: Seq<u8>,
    pub ignore_whitespace: bool,
    pub indent: nat,
    pub declarations: Seq<Seq<u8>>,
    pub declarations_at: int,
    pub declarations_newline: Seq<u8>,
    pub unindentable_block: bool,
}

/// The progress of a walk that has written nothing, at the start of the
/// source.
pub open spec fn start_progress() -> Progress {
    Progress {
        output: Seq::empty(),
        to_output: true,
        temp_output: Seq::empty(),
        to_temp_output: false,
        position: 0,
        pending: Seq::empty(),
        prepend: Seq::empty(),
        line: Seq::empty(),
        newline_whitespace: Seq::empty(),
        ignore_whitespace: false,
        indent: 0,
        declarations: Seq::empty(),
        declarations_at: 0,
        declarations_newline: Seq::empty(),
        unindentable_block: false,
    }
}

/// `p` after `text` went to each output that is switched on.
pub open spec fn emitted(p: Progress, text: Seq<u8>) -> Progress {
    Progress {
        output: if p.to_output {
            p.output + text
        } else {
            p.output
        },
        temp_output: if p.to_temp_output {
            p.temp_output + text
        } else {
            p.temp_output
        },
        ..p
    }
}

/// `p` after writing `text` after the whitespace `ws` (none if the next
/// whitespace is dropped): the pending text, the pending line, the
/// whitespace (followed by the indentation where it holds a newline), the
/// text to prepend, and `text`. Whitespace without text after it drops the
/// next whitespace.
pub open spec fn emit(p: Progress, ws: Seq<u8>, text: Seq<u8>) -> Progress {
    let written = if p.ignore_whitespace {
        Seq::empty()
    } else {
        ws
    };
    let nl = last_newline(written);
    let newline = if nl >= 0 {
        written.subrange(nl, written.len() as int)
    } else {
        p.newline_whitespace
    };
    let leading = if nl >= 0 {
        written + indentation(p.indent)
    } else {
        written
    };
    Progress {
        pending: Seq::empty(),
        prepend: Seq::empty(),
        line: Seq::empty(),
        newline_whitespace: newline,
        ignore_whitespace: text.len() == 0 && written.len() > 0,
        ..emitted(p, p.pending + line_prefix(newline, p.indent, p.line) + leading + p.prepend + text)
    }
}

/// `p` after writing `text` on a new line: the pending text, the pending
/// line, the newline whitespace and the indentation, the text to prepend,
/// and `text`.
pub open spec fn new_line(p: Progress, text: Seq<u8>) -> Progress {
    Progress {
        pending: Seq::empty(),
        prepend: Seq::empty(),
        ..emitted(
            p,
            p.pending + line_prefix(p.newline_whitespace, p.indent, p.line) + (p.newline_whitespace
                + indentation(p.indent)) + p.prepend + text,
        )
    }
}

/// `p` after writing `text` in place of `node`, after the source between the
/// position and the node; the position moves to the end of the node.
pub open spec fn emit_node(p: Progress, src: Seq<u8>, node: SyntaxNode, text: Seq<u8>) -> Progress {
    Progress {
        position: node.end_byte as int,
        ..emit(p, bytes_between(src, p.position, node.start_byte as int), text)
    }
}

/// `p` with `text` added to the text pending before the next write.
pub open spec fn with_pending(p: Progress, text: Seq<u8>) -> Progress {
    Progress { pending: p.pending + text, ..p }
}

/// `p` after the opening brace `node` of a block: in a method body, `begin`
/// on a new line, with the output position before it and the newline
/// whitespace kept for the method's variable declarations; elsewhere
/// `begin` in place of the brace.
pub open spec fn block_begun(p: Progress, src: Seq<u8>, node: SyntaxNode, in_method: bool) -> Progress {
    if in_method {
        Progress {
            position: node.end_byte as int,
            declarations_at: p.output.len() as int,
            declarations_newline: p.newline_whitespace,
            ..new_line(p, content::begin_text())
        }
    } else {
        emit_node(p, src, node, content::begin_text())
    }
}

/// `p` after the closing brace `node` of a block: `end` in place of the
/// brace; in a method body, the method's variable declarations, if there
/// are any, then go into the output where its body began, and are
/// forgotten.
pub open spec fn block_ended(p: Progress, src: Seq<u8>, node: SyntaxNode, in_method: bool) -> Progress {
    let q = emit_node(p, src, node, content::end_text());
    if in_method && q.declarations.len() > 0 {
        Progress {
            output: q.output.subrange(0, q.declarations_at) + declarations_section(
                q.declarations_newline,
                q.declarations,
            ) + q.output.subrange(q.declarations_at, q.output.len() as int),
            declarations: Seq::empty(),
            declarations_at: 0,
            declarations_newline: Seq::empty(),
            ..q
        }
    } else {
        q
    }
}

/// `p` without its pending line, and marked as having met an unindentable
/// block, if there is no level of indentation to take off for the line.
pub open spec fn without_unindentable_line(p: Progress) -> Progress {
    if p.indent == 0 && p.line.len() > 0 {
        Progress { line: Seq::empty(), unindentable_block: true, ..p }
    } else {
        p
    }
}

/// The keyword that opens the block of a statement of kind `kind`, for the
/// statements that have one.
pub open spec fn block_keyword(kind: NodeKind) -> Option<Seq<u8>> {
    match kind {
        NodeKind::IfStatement => Some(content::then_keyword_text()),
        NodeKind::WhileLoop | NodeKind::ForLoop | NodeKind::ForeachLoop => Some(content::do_keyword_text()),
        _ => None,
    }
}

/// The kinds of statements that the rewriting walks part by part: those
/// with a block, `switch` and `return` statements, and variable
/// declarations.
pub open spec fn has_parts(kind: NodeKind) -> bool {
    ||| block_keyword(kind) is Some
    ||| kind == NodeKind::SwitchStatement
    ||| kind == NodeKind::ReturnStatement
    ||| kind == NodeKind::ReturnStatementWithExpression
    ||| kind == NodeKind::VarDeclaration
    ||| kind == NodeKind::VarDeclarationWithAssignment
}

/// A tree with the shape that the rewriting reads: `shaped_from` its root.
pub open spec fn well_shaped(es: Seq<TreeEntry>) -> bool {
    shaped_from(es, 0)
}

/// The index one past the last entry that a walk from entry `k` reads: the
/// end of its parent's subtree, or of the tree at the root.
pub open spec fn walk_end(es: Seq<TreeEntry>, k: int) -> int {
    match parent_of(es, k) {
        Some(p) => if 0 <= p < es.len() {
            es[p].subtree_end as int
        } else {
            es.len() as int
        },
        None => es.len() as int,
    }
}

/// The entries that a walk from entry `k` reads (`k` and its following
/// siblings, with their subtrees) have the shape that the rewriting reads:
/// from the root on, the root is a source file; no entry read but the root
/// that is the last of its siblings is a source file; every statement read
/// that is walked part by part has parts; and every `repeat` loop read has
/// the parts that its rewriting reads.
pub open spec fn shaped_from(es: Seq<TreeEntry>, k: int) -> bool {
    &&& k == 0 ==> es.len() > 0 && es[0].node.kind == NodeKind::SourceFile
    &&& forall|i: int|
        k <= i < es.len() && i < walk_end(es, k) && 0 < i && next_sibling_of(es, i) is None
            ==> #[trigger] es[i].node.kind != NodeKind::SourceFile
    &&& forall|i: int|
        k <= i < es.len() && i < walk_end(es, k) && has_parts(#[trigger] es[i].node.kind) ==> first_child_of(es, i)
            is Some
    &&& forall|i: int|
        k <= i < es.len() && i < walk_end(es, k) && #[trigger] es[i].node.kind == NodeKind::RepeatUntilLoop
            ==> repeat_shaped(es, i)
}

/// A walk from an entry `m` that a walk from `k` reads, and that reads no
/// entry past what the walk from `k` reads, is shaped if that from `k` is.
pub proof fn lemma_shaped_within(es: Seq<TreeEntry>, k: int, m: int)
    requires
        shaped_from(es, k),
        0 <= k <= m,
        m == 0 ==> k == 0,
        walk_end(es, m) <= walk_end(es, k),
    ensures
        shaped_from(es, m),
{
}

/// The walk from a child of entry `n` reads no entry past the subtree of
/// `n`, which the walk from `n` reads.
pub proof fn lemma_walk_end_of_child(es: Seq<TreeEntry>, n: int, m: int)
    requires
        entries_wf(es),
        0 <= n < es.len(),
        0 <= m < es.len(),
        parent_of(es, m) == Some(n),
    ensures
        n < m,
        walk_end(es, m) == es[n].subtree_end,
        walk_end(es, m) <= walk_end(es, n),
{
    assert(entry_wf(es, m));
    assert(entry_wf(es, n));
    if let Some(p) = es[n].parent {
        assert(entry_wf(es, p as int));
    }
}

/// The walk over entry `i` and its following siblings, from `p`.
pub open spec fn walked(es: Seq<TreeEntry>, src: Seq<u8>, i: int, p: Progress) -> Progress
    decreases es.len() - i, 5int,
{
    if 0 <= i < es.len() {
        let q = node_walked(es, src, i, true, p);
        match next_sibling_of(es, i) {
            Some(s) => if i < s < es.len() {
                walked(es, src, s, q)
            } else {
                q
            },
            None => q,
        }
    } else {
        p
    }
}

/// The walk over the siblings that follow entry `i`, from `q`.
pub open spec fn siblings_walked(es: Seq<TreeEntry>, src: Seq<u8>, i: int, q: Progress) -> Progress {
    match next_sibling_of(es, i) {
        Some(s) => if i < s < es.len() {
            walked(es, src, s, q)
        } else {
            q
        },
        None => q,
    }
}

/// `walked_to` over the siblings that follow entry `i`, from `q`; with `i`
/// if there are none.
pub open spec fn siblings_walked_to(es: Seq<TreeEntry>, src: Seq<u8>, i: int, kind: NodeKind, q: Progress) -> (
    Progress,
    int,
) {
    match next_sibling_of(es, i) {
        Some(s) => if i < s < es.len() {
            walked_to(es, src, s, kind, q)
        } else {
            (q, i)
        },
        None => (q, i),
    }
}

/// The walk over entry `i`: rewritten if `customize` and its kind is
/// rewritten, else child by child, or as it stands in the source if it has
/// no children.
pub open spec fn node_walked(es: Seq<TreeEntry>, src: Seq<u8>, i: int, customize: bool, p: Progress) -> Progress
    decreases es.len() - i, if customize {
        4int
    } else {
        1int
    },
{
    if 0 <= i < es.len() {
        if customize && is_customized(es[i].node.kind) {
            node_rewritten(es, src, i, p)
        } else {
            match first_child_of(es, i) {
                Some(c) => if i < c < es.len() {
                    walked(es, src, c, p)
                } else {
                    p
                },
                None => emit_node(
                    p,
                    src,
                    es[i].node,
                    src.subrange(es[i].node.start_byte as int, es[i].node.end_byte as int),
                ),
            }
        }
    } else {
        p
    }
}

/// The walk over the siblings from entry `k` on up to the first of kind
/// `kind`, which it does not walk; with the entry where it stops: that one,
/// or the last sibling if none is of kind `kind`.
pub open spec fn walked_to(es: Seq<TreeEntry>, src: Seq<u8>, k: int, kind: NodeKind, p: Progress) -> (
    Progress,
    int,
)
    decreases es.len() - k, 5int,
{
    if 0 <= k < es.len() {
        if es[k].node.kind == kind {
            (p, k)
        } else {
            let q = node_walked(es, src, k, true, p);
            match next_sibling_of(es, k) {
                Some(s) => if k < s < es.len() {
                    walked_to(es, src, s, kind, q)
                } else {
                    (q, k)
                },
                None => (q, k),
            }
        }
    } else {
        (p, k)
    }
}

/// Entry `i` walked child by child in parentheses: an opening parenthesis
/// before its first write, a closing one pending after it.
pub open spec fn parenthesized(es: Seq<TreeEntry>, src: Seq<u8>, i: int, p: Progress) -> Progress
    decreases es.len() - i, 2int,
{
    with_pending(node_walked(es, src, i, false, Progress { prepend: seq![40u8] + p.prepend, ..p }), seq![41u8])
}

/// Entry `i` walked child by child as a block: `begin` on a line of its
/// own before its first write, its lines one level deeper, `end;` on a new
/// line after it.
pub open spec fn block_wrapped(es: Seq<TreeEntry>, src: Seq<u8>, i: int, p: Progress) -> Progress
    decreases es.len() - i, 2int,
{
    let q = node_walked(es, src, i, false, Progress { line: content::begin_text(), indent: p.indent + 1, ..p });
    new_line(
        without_unindentable_line(Progress { indent: (q.indent - 1) as nat, ..q }),
        content::separated_end_text(),
    )
}

/// A `switch` statement at entry `i`: its header up to the opening brace,
/// its branches one level deeper up to the closing brace, and the rest; a
/// `switch` without children is left as it is.
pub open spec fn switch_walked(es: Seq<TreeEntry>, src: Seq<u8>, i: int, p: Progress) -> Progress
    decreases es.len() - i, 0int,
{
    if 0 <= i && i + 1 < es.len() && first_child_of(es, i) is Some {
        let (q, j) = walked_to(es, src, i + 1, NodeKind::SwitchBegin, p);
        if i < j < es.len() {
            let (r, k) = walked_to(es, src, j, NodeKind::SwitchEnd, Progress { indent: q.indent + 1, ..q });
            if i < k < es.len() {
                walked(es, src, k, without_unindentable_line(Progress { indent: (r.indent - 1) as nat, ..r }))
            } else {
                p
            }
        } else {
            p
        }
    } else {
        p
    }
}

/// The next sibling of entry `j`, or `j` if it has none.
pub open spec fn next_or_same(es: Seq<TreeEntry>, j: int) -> int {
    match next_sibling_of(es, j) {
        Some(s) => s,
        None => j,
    }
}

/// A `return` statement at entry `i`, with a value if `with_value`: the
/// walk up to the keyword, the keyword (which becomes `exit`); then, with a
/// value, the value as `value_walked` writes it, else the walk up to the
/// semicolon; then the rest.
pub open spec fn return_walked(es: Seq<TreeEntry>, src: Seq<u8>, i: int, with_value: bool, p: Progress) -> Progress
    decreases es.len() - i, 0int,
{
    if 0 <= i && i + 1 < es.len() {
        let (q, j) = walked_to(es, src, i + 1, NodeKind::ReturnKeyword, p);
        let (r, k) = if i < j < es.len() && es[j].node.kind == NodeKind::ReturnKeyword {
            (node_walked(es, src, j, true, q), next_or_same(es, j))
        } else {
            (q, j)
        };
        let (t, m) = if i < k < es.len() {
            if with_value {
                value_walked(es, src, k, r)
            } else {
                walked_to(es, src, k, NodeKind::StatementEnd, r)
            }
        } else {
            (r, k)
        };
        if i < m < es.len() {
            walked(es, src, m, t)
        } else {
            p
        }
    } else {
        p
    }
}

/// The value of a `return` statement, from entry `k` on: the whitespace
/// before it dropped, the walk up to the expression, the expression in
/// parentheses; with the entry after the expression.
pub open spec fn value_walked(es: Seq<TreeEntry>, src: Seq<u8>, k: int, r: Progress) -> (Progress, int)
    decreases es.len() - k, 6int,
{
    if 0 <= k < es.len() {
        let (u, l) = walked_to(
            es,
            src,
            k,
            NodeKind::Expression,
            Progress { position: es[k].node.end_byte as int, prepend: seq![40u8] + r.prepend, ..r },
        );
        if k <= l < es.len() {
            (with_pending(node_walked(es, src, l, true, u), seq![41u8]), next_or_same(es, l))
        } else {
            (u, l)
        }
    } else {
        (r, k)
    }
}

/// A variable declaration at entry `i`, with an initial value if
/// `with_value`: its text goes to the temporary output, and the temporary
/// output then joins the method's declarations. The start as
/// `declaration_start` writes it, the initial value as
/// `initial_value_walked` writes it, then the rest.
pub open spec fn declaration_saved(es: Seq<TreeEntry>, src: Seq<u8>, i: int, with_value: bool, p: Progress) -> Progress
    decreases es.len() - i, 2int,
{
    if 0 <= i && i + 1 < es.len() {
        let (u, k) = declaration_start(es, src, i, with_value, p);
        let (t, m) = if i < k < es.len() && with_value {
            initial_value_walked(es, src, k, u)
        } else {
            (u, k)
        };
        if i < m < es.len() {
            let v = walked(es, src, m, t);
            Progress {
                temp_output: Seq::empty(),
                to_temp_output: false,
                to_output: true,
                declarations: v.declarations.push(v.temp_output),
                ..v
            }
        } else {
            p
        }
    } else {
        p
    }
}

/// The start of a variable declaration at entry `i`: the walk up to the
/// keyword `var`, to the temporary output, and to the output too if there
/// is a value; the keyword goes (as nothing) to the output only, if there is
/// a value; the whitespace before the name is dropped. With the entry of
/// the name.
pub open spec fn declaration_start(es: Seq<TreeEntry>, src: Seq<u8>, i: int, with_value: bool, p: Progress) -> (
    Progress,
    int,
)
    decreases es.len() - i, 1int,
{
    if 0 <= i && i + 1 < es.len() {
        let (q, j) = walked_to(
            es,
            src,
            i + 1,
            NodeKind::DeclarationKeyword,
            Progress { to_temp_output: true, to_output: with_value, ..p },
        );
        let r = if with_value && 0 <= j < es.len() {
            Progress {
                to_temp_output: true,
                ..emit_node(Progress { to_temp_output: false, ..q }, src, es[j].node, Seq::empty())
            }
        } else {
            q
        };
        let k = if 0 <= j < es.len() {
            next_or_same(es, j)
        } else {
            j
        };
        if 0 <= k < es.len() {
            (Progress { position: es[k].node.end_byte as int, ..r }, k)
        } else {
            (r, k)
        }
    } else {
        (p, i)
    }
}

/// The initial value of a variable declaration, from entry `k` on: the walk
/// up to the type, the type to the temporary output only, then the walk up
/// to the semicolon to the output only; with the entry where it stops.
pub open spec fn initial_value_walked(es: Seq<TreeEntry>, src: Seq<u8>, k: int, r: Progress) -> (Progress, int)
    decreases es.len() - k, 6int,
{
    if 0 <= k < es.len() {
        let (u, l) = walked_to(es, src, k, NodeKind::VarTypeDeclaration, r);
        if k <= l < es.len() {
            let v = node_walked(es, src, l, false, Progress { to_output: false, ..u });
            let l2 = next_or_same(es, l);
            if k <= l2 < es.len() {
                let (w, l3) = walked_to(
                    es,
                    src,
                    l2,
                    NodeKind::StatementEnd,
                    Progress { to_output: true, to_temp_output: false, ..v },
                );
                (Progress { to_temp_output: true, ..w }, l3)
            } else {
                (v, l2)
            }
        } else {
            (u, l)
        }
    } else {
        (r, k)
    }
}

/// The first of the siblings from entry `k` on that is of kind `kind`, or
/// the last sibling if none is.
pub open spec fn sibling_to(es: Seq<TreeEntry>, k: int, kind: NodeKind) -> int
    decreases es.len() - k,
{
    if 0 <= k < es.len() && es[k].node.kind != kind {
        match next_sibling_of(es, k) {
            Some(s) => if k < s < es.len() {
                sibling_to(es, s, kind)
            } else {
                k
            },
            None => k,
        }
    } else {
        k
    }
}

/// `walked_to` stops at `sibling_to`, whatever it writes.
pub proof fn lemma_walked_to_stops(es: Seq<TreeEntry>, src: Seq<u8>, k: int, kind: NodeKind, p: Progress)
    ensures
        walked_to(es, src, k, kind, p).1 == sibling_to(es, k, kind),
    decreases es.len() - k,
{
    if 0 <= k < es.len() && es[k].node.kind != kind {
        if let Some(s) = next_sibling_of(es, k) {
            if k < s < es.len() {
                lemma_walked_to_stops(es, src, s, kind, node_walked(es, src, k, true, p));
            }
        }
    }
}

/// A `repeat` loop at entry `i` has the parts that its rewriting reads: a
/// block with children, and two siblings after the block (the keyword
/// `until` and what follows it).
pub open spec fn repeat_shaped(es: Seq<TreeEntry>, i: int) -> bool {
    let j = sibling_to(es, i + 1, NodeKind::CodeBlock);
    &&& first_child_of(es, i) is Some
    &&& 0 <= j < es.len()
    &&& first_child_of(es, j) is Some
    &&& next_sibling_of(es, j) matches Some(u) && 0 <= u < es.len() && next_sibling_of(es, u) is Some
}

/// A `repeat` loop at entry `i`: the walk up to its block; the block as
/// `repeat_block_walked` writes it; the keyword after the block, as it
/// stands, after the whitespace before the block's closing brace; then what
/// follows the keyword.
pub open spec fn repeat_walked(es: Seq<TreeEntry>, src: Seq<u8>, i: int, p: Progress) -> Progress
    decreases es.len() - i, 0int,
{
    if 0 <= i && i + 1 < es.len() {
        let (q, j) = walked_to(es, src, i + 1, NodeKind::CodeBlock, p);
        if i < j && j + 1 < es.len() {
            let (t, ws) = repeat_block_walked(es, src, j, q);
            match next_sibling_of(es, j) {
                Some(u) => if i < u < es.len() {
                    let keyword = src.subrange(es[u].node.start_byte as int, es[u].node.end_byte as int);
                    let v = Progress { position: es[u].node.end_byte as int, ..emit(t, ws, keyword) };
                    match next_sibling_of(es, u) {
                        Some(w) => if i < w < es.len() {
                            walked(es, src, w, v)
                        } else {
                            p
                        },
                        None => p,
                    }
                } else {
                    p
                },
                None => p,
            }
        } else {
            p
        }
    } else {
        p
    }
}

/// Inside the block at entry `j` of a `repeat` loop: the walk up to the
/// opening brace, which goes, and from there up to the closing brace, which
/// goes too; with the whitespace before the closing brace.
pub open spec fn repeat_block_walked(es: Seq<TreeEntry>, src: Seq<u8>, j: int, q: Progress) -> (Progress, Seq<u8>)
    decreases es.len() - j, 6int,
{
    if 0 <= j && j + 1 < es.len() {
        let (r, k) = walked_to(es, src, j + 1, NodeKind::CodeBegin, q);
        if j < k < es.len() && j < next_or_same(es, k) < es.len() {
            let (t, m) = walked_to(
                es,
                src,
                next_or_same(es, k),
                NodeKind::CodeEnd,
                Progress { position: es[k].node.end_byte as int, ..r },
            );
            if 0 <= m < es.len() {
                (
                    Progress { position: es[m].node.end_byte as int, ..t },
                    bytes_between(src, t.position, es[m].node.start_byte as int),
                )
            } else {
                (t, Seq::empty())
            }
        } else {
            (q, Seq::empty())
        }
    } else {
        (q, Seq::empty())
    }
}

/// A statement with a block at entry `i`: its header up to the block, a
/// space and `keyword`, the block and what follows it, and a statement
/// separator pending.
pub open spec fn block_statement_walked(
    es: Seq<TreeEntry>,
    src: Seq<u8>,
    i: int,
    keyword: Seq<u8>,
    p: Progress,
) -> Progress
    decreases es.len() - i, 0int,
{
    if 0 <= i && i + 1 < es.len() {
        let (q, j) = walked_to(es, src, i + 1, NodeKind::CodeBlock, p);
        if i < j < es.len() {
            with_pending(walked(es, src, j, emit(q, seq![32u8], keyword)), content::statement_separator_text())
        } else {
            p
        }
    } else {
        p
    }
}

/// The rewriting of entry `i`, by its kind.
pub open spec fn node_rewritten(es: Seq<TreeEntry>, src: Seq<u8>, i: int, p: Progress) -> Progress
    decreases es.len() - i, 3int,
{
    if 0 <= i < es.len() {
        let node = es[i].node;
        let stack = path_contexts(es, i);
        match token_text(node.kind) {
            Some(t) => emit_node(p, src, node, t),
            None => match node.kind {
                NodeKind::AssignOp => if current_context(stack) == Some(ContextType::Code) {
                    emit_node(p, src, node, content::assign_op_text())
                } else {
                    node_walked(es, src, i, false, p)
                },
                NodeKind::CodeBegin => block_begun(p, src, node, parent_context(stack) == Some(ContextType::Method)),
                NodeKind::CodeEnd => block_ended(p, src, node, parent_context(stack) == Some(ContextType::Method)),
                NodeKind::BinaryExpression => if parent_context(stack) == Some(ContextType::BinaryExpr) {
                    parenthesized(es, src, i, p)
                } else {
                    node_walked(es, src, i, false, p)
                },
                NodeKind::MultipleStatements => block_wrapped(es, src, i, p),
                NodeKind::RepeatUntilLoop => repeat_walked(es, src, i, p),
                NodeKind::VarDeclaration => declaration_saved(es, src, i, false, p),
                NodeKind::VarDeclarationWithAssignment => declaration_saved(es, src, i, true, p),
                NodeKind::ReturnStatement => return_walked(es, src, i, false, p),
                NodeKind::ReturnStatementWithExpression => return_walked(es, src, i, true, p),
                NodeKind::SwitchStatement => switch_walked(es, src, i, p),
                NodeKind::MethodDefinition => with_pending(
                    node_walked(es, src, i, false, p),
                    content::statement_separator_text(),
                ),
                _ => match block_keyword(node.kind) {
                    Some(keyword) => if i + 1 < es.len() {
                        block_statement_walked(es, src, i, keyword, p)
                    } else {
                        p
                    },
                    None => p,
                },
            },
        }
    } else {
        p
    }
}

/// The walk from the root, followed by what is left of the source.
pub open spec fn root_walked(es: Seq<TreeEntry>, src: Seq<u8>, p: Progress) -> Progress {
    let q = walked(es, src, 0, p);
    Progress { output: q.output + bytes_between(src, q.position, src.len() as int), ..q }
}

/// Whether the walk over `es` from the start meets a block whose `begin`
/// line has no level of indentation to be written one level less deep at,
/// where the transpiler has no output to give.
pub open spec fn walk_refused(es: Seq<TreeEntry>, src: Seq<u8>) -> bool {
    root_walked(es, src, start_progress()).unindentable_block
}

/// The text that the transpiler writes for `src` with the syntax tree `es`,
/// on a well-shaped tree.
pub open spec fn transpiled(es: Seq<TreeEntry>, src: Seq<u8>) -> Seq<u8> {
    root_walked(es, src, start_progress()).output
}

/// Entry `i` of `es` has no children.
pub open spec fn is_leaf(es: Seq<TreeEntry>, i: int) -> bool {
    first_child_of(es, i) is None
}

/// A tree with nothing to rewrite: the root is a source file, no other last
/// child is, no node is of a kind that the customizer rewrites, and every
/// leaf covers a non-empty byte range.
pub open spec fn nothing_to_rewrite(es: Seq<TreeEntry>) -> bool {
    &&& es.len() > 0
    &&& es[0].node.kind == NodeKind::SourceFile
    &&& forall|i: int| 0 <= i < es.len() ==> !is_customized(#[trigger] es[i].node.kind)
    &&& forall|i: int|
        0 < i < es.len() && next_sibling_of(es, i) is None ==> #[trigger] es[i].node.kind != NodeKind::SourceFile
    &&& forall|i: int|
        0 <= i < es.len() && #[trigger] is_leaf(es, i) ==> es[i].node.start_byte < es[i].node.end_byte
}

/// A tree that the transpiler copies as it stands: the root is a source
/// file, no other last child is, no node is of a kind that the customizer
/// rewrites, and the leaves cover disjoint, non-empty byte ranges in order.
pub open spec fn copies_verbatim(es: Seq<TreeEntry>) -> bool {
    &&& es[0].node.kind == NodeKind::SourceFile
    &&& forall|i: int| 0 <= i < es.len() ==> !is_customized(#[trigger] es[i].node.kind)
    &&& forall|i: int|
        0 < i < es.len() && next_sibling_of(es, i) is None ==> #[trigger] es[i].node.kind != NodeKind::SourceFile
    &&& forall|i: int|
        0 <= i < es.len() && #[trigger] is_leaf(es, i) ==> es[i].node.start_byte < es[i].node.end_byte
    &&& forall|i: int, j: int|
        0 <= i < j < es.len() && #[trigger] is_leaf(es, i) && #[trigger] is_leaf(es, j)
            ==> es[i].node.end_byte <= es[j].node.start_byte
}

/// The fixed text that the walk writes in place of entry `i` and its
/// subtree, if any: a token's text, or `:=` for an assignment operator in
/// code.
pub open spec fn fixed_text(es: Seq<TreeEntry>, i: int) -> Option<Seq<u8>> {
    match token_text(es[i].node.kind) {
        Some(t) => Some(t),
        None => if es[i].node.kind == NodeKind::AssignOp && current_context(path_contexts(es, i)) == Some(
            ContextType::Code,
        ) {
            Some(content::assign_op_text())
        } else {
            None
        },
    }
}

/// A tree whose only rewritten nodes are tokens that become a fixed,
/// non-empty text and assignment operators: the root is a source file, no
/// other last child is, every node of a kind that the customizer rewrites is such
/// a node, and every leaf without a fixed text covers a non-empty byte range.
pub open spec fn translates_tokens(es: Seq<TreeEntry>) -> bool {
    &&& es[0].node.kind == NodeKind::SourceFile
    &&& forall|i: int|
        0 < i < es.len() && next_sibling_of(es, i) is None ==> #[trigger] es[i].node.kind != NodeKind::SourceFile
    &&& forall|i: int|
        0 <= i < es.len() && is_customized(#[trigger] es[i].node.kind) ==> (es[i].node.kind == NodeKind::AssignOp
            || (token_text(es[i].node.kind) matches Some(t) && t.len() > 0))
    &&& forall|i: int|
        0 <= i < es.len() && #[trigger] is_leaf(es, i) && fixed_text(es, i) is None
            ==> es[i].node.start_byte < es[i].node.end_byte
}

/// The text that the walk writes for the token or leaf at entry `i`: its
/// fixed text, or the source that it covers.
pub open spec fn node_text(es: Seq<TreeEntry>, src: Seq<u8>, i: int) -> Seq<u8> {
    match fixed_text(es, i) {
        Some(t) => t,
        None => src.subrange(es[i].node.start_byte as int, es[i].node.end_byte as int),
    }
}

/// What the walk writes for entries `i..` of `es` with the reader at `pos`:
/// for each token (with its subtree) and each other leaf in order, the
/// source from the position to the node and the node's text, the position
/// moving to the node's end; then the rest of the source.
pub open spec fn translation(es: Seq<TreeEntry>, src: Seq<u8>, i: int, pos: int) -> Seq<u8>
    decreases es.len() - i,
{
    if i < 0 || i >= es.len() {
        bytes_between(src, pos, src.len() as int)
    } else if fixed_text(es, i) is Some || is_leaf(es, i) {
        let next = if i < es[i].subtree_end <= es.len() {
            es[i].subtree_end as int
        } else {
            i + 1
        };
        bytes_between(src, pos, es[i].node.start_byte as int) + node_text(es, src, i) + translation(
            es,
            src,
            next,
            es[i].node.end_byte as int,
        )
    } else {
        translation(es, src, i + 1, pos)
    }
}

/// On a tree that `copies_verbatim`, from an entry `i` and a position `pos`
/// at or before every leaf from `i` on, the walk writes the source from
/// `pos` on.
pub proof fn lemma_translation_copies(es: Seq<TreeEntry>, src: Seq<u8>, i: int, pos: int)
    requires
        0 < es.len(),
        copies_verbatim(es),
        forall|j: int| 0 <= j < es.len() ==> #[trigger] entry_fits(es, j, src.len() as int),
        0 <= i <= es.len(),
        0 <= pos <= src.len(),
        forall|j: int| i <= j < es.len() && #[trigger] is_leaf(es, j) ==> pos <= es[j].node.start_byte,
    ensures
        translation(es, src, i, pos) == src.subrange(pos, src.len() as int),
    decreases es.len() - i,
{
    if i < es.len() {
        assert(!is_customized(es[i].node.kind));
        assert(entry_fits(es, i, src.len() as int));
        if is_leaf(es, i) {
            let node = es[i].node;
            assert forall|j: int| i + 1 <= j < es.len() && #[trigger] is_leaf(es, j) implies node.end_byte
                <= es[j].node.start_byte by {}
            lemma_translation_copies(es, src, i + 1, node.end_byte as int);
            assert(src.subrange(pos, src.len() as int) =~= src.subrange(pos, node.start_byte as int)
                + src.subrange(node.start_byte as int, node.end_byte as int) + src.subrange(
                node.end_byte as int,
                src.len() as int,
            ));
        } else {
            lemma_translation_copies(es, src, i + 1, pos);
        }
    }
}

/// No entry of the subtree of entry `i` is of a kind that the customizer
/// rewrites, except `i` itself where `customize` is off.
pub open spec fn plain_subtree(es: Seq<TreeEntry>, i: int, customize: bool) -> bool {
    &&& customize ==> !is_customized(es[i].node.kind)
    &&& forall|j: int| i < j < es[i].subtree_end && j < es.len() ==> !is_customized(#[trigger] es[j].node.kind)
}

/// Every entry from `i` up to `end` that is the last of its siblings ends
/// where its parent ends.
pub open spec fn ends_nested(es: Seq<TreeEntry>, i: int, end: int) -> bool {
    forall|j: int|
        i <= j < end && j < es.len() && 0 < j && next_sibling_of(es, j) is None ==> #[trigger] es[j].node.end_byte
            == es[es[j].parent.unwrap() as int].node.end_byte
}

/// The walk over entry `i` of a subtree with nothing to rewrite, whose last
/// children end where their parents end, leaves the reader at the end of
/// entry `i`.
pub proof fn lemma_node_walk_ends(es: Seq<TreeEntry>, src: Seq<u8>, i: int, customize: bool, p: Progress)
    requires
        entries_wf(es),
        0 <= i < es.len(),
        plain_subtree(es, i, customize),
        ends_nested(es, i + 1, es[i].subtree_end as int),
    ensures
        node_walked(es, src, i, customize, p).position == es[i].node.end_byte,
    decreases es.len() - i, 0int,
{
    assert(entry_wf(es, i));
    if first_child_of(es, i) is Some {
        assert(entry_wf(es, i + 1));
        lemma_siblings_walk_ends(es, src, i + 1, p);
    }
}

/// The walk over entry `i` and its following siblings, in a subtree with
/// nothing to rewrite whose last children end where their parents end,
/// leaves the reader at the end of their parent.
pub proof fn lemma_siblings_walk_ends(es: Seq<TreeEntry>, src: Seq<u8>, i: int, p: Progress)
    requires
        entries_wf(es),
        0 < i < es.len(),
        forall|j: int|
            i <= j < es[es[i].parent.unwrap() as int].subtree_end && j < es.len() ==> !is_customized(
                #[trigger] es[j].node.kind,
            ),
        ends_nested(es, i, es[es[i].parent.unwrap() as int].subtree_end as int),
    ensures
        walked(es, src, i, p).position == es[es[i].parent.unwrap() as int].node.end_byte,
    decreases es.len() - i, 1int,
{
    assert(entry_wf(es, i));
    let k = es[i].parent.unwrap() as int;
    assert(entry_wf(es, k));
    assert(!is_customized(es[i].node.kind));
    lemma_node_walk_ends(es, src, i, true, p);
    let q = node_walked(es, src, i, true, p);
    if let Some(s) = next_sibling_of(es, i) {
        assert(entry_wf(es, s));
        lemma_siblings_walk_ends(es, src, s, q);
    }
}

/// A progress that adds nothing of its own to the next write: text goes to
/// the output only, nothing is pending, there is no indentation, and the
/// next whitespace is kept.
pub open spec fn plain(p: Progress) -> bool {
    &&& p.to_output
    &&& !p.to_temp_output
    &&& p.pending == Seq::<u8>::empty()
    &&& p.prepend == Seq::<u8>::empty()
    &&& p.line == Seq::<u8>::empty()
    &&& !p.ignore_whitespace
    &&& p.indent == 0
    &&& !p.unindentable_block
}

/// On a tree whose only rewritten nodes are tokens, the walk over entry `i`
/// (rewritten where `customize` lets it be) writes from a plain progress what
/// `translation` writes for the entries from `i` up to the end of its
/// subtree, and leaves a plain progress.
pub proof fn lemma_node_translates(es: Seq<TreeEntry>, src: Seq<u8>, i: int, customize: bool, p: Progress)
    requires
        entries_wf(es),
        translates_tokens(es),
        forall|j: int| 0 <= j < es.len() ==> #[trigger] entry_fits(es, j, src.len() as int),
        0 <= i < es.len(),
        plain(p),
        customize || fixed_text(es, i) is None,
    ensures
        plain(node_walked(es, src, i, customize, p)),
        node_walked(es, src, i, customize, p).output + translation(
            es,
            src,
            es[i].subtree_end as int,
            node_walked(es, src, i, customize, p).position,
        ) == p.output + translation(es, src, i, p.position),
    decreases es.len() - i, if customize {
        2int
    } else {
        1int
    },
{
    assert(entry_wf(es, i));
    assert(entry_fits(es, i, src.len() as int));
    let node = es[i].node;
    let q = node_walked(es, src, i, customize, p);
    let ws = bytes_between(src, p.position, node.start_byte as int);
    assert(indentation(0) =~= Seq::<u8>::empty());
    if customize && is_customized(node.kind) {
        if fixed_text(es, i) is Some {
            let t = fixed_text(es, i).unwrap();
            assert(q.output =~= p.output + ws + t);
            let rest = translation(es, src, es[i].subtree_end as int, node.end_byte as int);
            assert(p.output + ws + t + rest =~= p.output + (ws + t + rest));
        } else {
            lemma_node_translates(es, src, i, false, p);
        }
    } else if first_child_of(es, i) is Some {
        assert(entry_wf(es, i + 1));
        lemma_siblings_translate(es, src, i + 1, p);
    } else {
        assert(is_leaf(es, i));
        let t = src.subrange(node.start_byte as int, node.end_byte as int);
        assert(q.output =~= p.output + ws + t);
        let rest = translation(es, src, i + 1, node.end_byte as int);
        assert(p.output + ws + t + rest =~= p.output + (ws + t + rest));
    }
}

/// On a tree whose only rewritten nodes are tokens, the walk over entry `i`
/// and its following siblings writes from a plain progress what
/// `translation` writes for the entries from `i` up to the end of its
/// parent's subtree, and leaves a plain progress.
pub proof fn lemma_siblings_translate(es: Seq<TreeEntry>, src: Seq<u8>, i: int, p: Progress)
    requires
        entries_wf(es),
        translates_tokens(es),
        forall|j: int| 0 <= j < es.len() ==> #[trigger] entry_fits(es, j, src.len() as int),
        0 < i < es.len(),
        plain(p),
    ensures
        plain(walked(es, src, i, p)),
        walked(es, src, i, p).output + translation(
            es,
            src,
            es[es[i].parent.unwrap() as int].subtree_end as int,
            walked(es, src, i, p).position,
        ) == p.output + translation(es, src, i, p.position),
    decreases es.len() - i, 3int,
{
    assert(entry_wf(es, i));
    lemma_node_translates(es, src, i, true, p);
    let q = node_walked(es, src, i, true, p);
    assert(entry_wf(es, es[i].parent.unwrap() as int));
    if let Some(s) = next_sibling_of(es, i) {
        assert(entry_wf(es, s));
        lemma_siblings_translate(es, src, s, q);
    }
}

/// On a tree whose only rewritten nodes are tokens, the model's text is the
/// source with each token replaced by its fixed text.
pub proof fn lemma_transpiled_translates(es: Seq<TreeEntry>, src: Seq<u8>)
    requires
        entries_wf(es),
        translates_tokens(es),
        forall|j: int| 0 <= j < es.len() ==> #[trigger] entry_fits(es, j, src.len() as int),
    ensures
        transpiled(es, src) == translation(es, src, 0, 0),
        !walk_refused(es, src),
{
    assert(entry_wf(es, 0));
    lemma_node_translates(es, src, 0, true, start_progress());
}

/// A tree with nothing to rewrite is one whose only rewritten nodes are
/// tokens.
pub proof fn lemma_copies_translate(es: Seq<TreeEntry>)
    requires
        copies_verbatim(es),
    ensures
        translates_tokens(es),
{
    assert forall|i: int| 0 <= i < es.len() && is_customized(#[trigger] es[i].node.kind) implies (es[i].node.kind
        == NodeKind::AssignOp || (token_text(es[i].node.kind) matches Some(t) && t.len() > 0)) by {}
    assert forall|i: int| 0 <= i < es.len() && #[trigger] is_leaf(es, i) && fixed_text(es, i) is None implies es[
        i
    ].node.start_byte < es[i].node.end_byte by {}
}

/// A tree whose only rewritten nodes are tokens is well shaped.
pub proof fn lemma_tokens_well_shaped(es: Seq<TreeEntry>)
    requires
        es.len() > 0,
        translates_tokens(es),
    ensures
        well_shaped(es),
{
    assert forall|i: int| 0 <= i < es.len() && has_parts(#[trigger] es[i].node.kind) implies first_child_of(
        es,
        i,
    ) is Some by {
        assert(is_customized(es[i].node.kind));
    }
    assert forall|i: int| 0 <= i < es.len() && #[trigger] es[i].node.kind == NodeKind::RepeatUntilLoop implies repeat_shaped(
        es,
        i,
    ) by {
        assert(is_customized(es[i].node.kind));
    }
}

/// On a tree with nothing to rewrite, whose leaves cover disjoint ranges of
/// the source in order, the model's text is the source itself.
pub proof fn lemma_transpiled_copies(es: Seq<TreeEntry>, src: Seq<u8>)
    requires
        entries_wf(es),
        copies_verbatim(es),
        forall|j: int| 0 <= j < es.len() ==> #[trigger] entry_fits(es, j, src.len() as int),
    ensures
        transpiled(es, src) == src,
{
    lemma_copies_translate(es);
    lemma_transpiled_translates(es, src);
    lemma_translation_copies(es, src, 0, 0);
    assert(src.subrange(0, src.len() as int) =~= src);
}

/// Laws of the rewriting rules. Each holds for every tree, source, entry
/// and progress: what a rule writes depends on the kind of the node alone,
/// never on the contexts around it, except where the rule itself is about a
/// context (the braces of a method body, `=` in code, nested binary
/// expressions).
///
/// The closing brace of a block that is not a method body writes `end` in
/// place of the brace and changes nothing else: the variable declarations
/// saved so far stay saved, for the method's closing brace to write.
pub proof fn lemma_inner_block_end_keeps_declarations(es: Seq<TreeEntry>, src: Seq<u8>, i: int, p: Progress)
    requires
        0 <= i < es.len(),
        es[i].node.kind == NodeKind::CodeEnd,
        parent_context(path_contexts(es, i)) != Some(ContextType::Method),
    ensures
        node_rewritten(es, src, i, p) == emit_node(p, src, es[i].node, content::end_text()),
        node_rewritten(es, src, i, p).declarations == p.declarations,
{
}

/// The closing brace of a method body writes `end` in place of the brace,
/// then puts every variable declaration saved in the method, in the order
/// in which they were met, under `var` at the place where the body began,
/// and forgets them.
pub proof fn lemma_method_end_writes_declarations(es: Seq<TreeEntry>, src: Seq<u8>, i: int, p: Progress)
    requires
        0 <= i < es.len(),
        es[i].node.kind == NodeKind::CodeEnd,
        parent_context(path_contexts(es, i)) == Some(ContextType::Method),
    ensures
        ({
            let q = emit_node(p, src, es[i].node, content::end_text());
            let r = node_rewritten(es, src, i, p);
            &&& q.declarations == p.declarations
            &&& r.declarations == Seq::<Seq<u8>>::empty()
            &&& r.output == if p.declarations.len() > 0 {
                q.output.subrange(0, p.declarations_at) + declarations_section(
                    p.declarations_newline,
                    p.declarations,
                ) + q.output.subrange(p.declarations_at, q.output.len() as int)
            } else {
                q.output
            }
        }),
{
}

/// The opening brace of a block keeps the variable declarations saved so
/// far.
pub proof fn lemma_block_begin_keeps_declarations(es: Seq<TreeEntry>, src: Seq<u8>, i: int, p: Progress)
    requires
        0 <= i < es.len(),
        es[i].node.kind == NodeKind::CodeBegin,
    ensures
        node_rewritten(es, src, i, p).declarations == p.declarations,
{
}

/// An `if` statement, wherever it stands: its header walked up to its
/// block, then a space and `then`, then the block and what follows it, and
/// a statement separator pending.
pub proof fn lemma_if_writes_then(es: Seq<TreeEntry>, src: Seq<u8>, i: int, p: Progress)
    requires
        0 <= i && i + 1 < es.len(),
        es[i].node.kind == NodeKind::IfStatement,
    ensures
        ({
            let (q, j) = walked_to(es, src, i + 1, NodeKind::CodeBlock, p);
            i < j < es.len() ==> node_rewritten(es, src, i, p) == with_pending(
                walked(es, src, j, emit(q, seq![32u8], content::then_keyword_text())),
                content::statement_separator_text(),
            )
        }),
{
}

/// A `while`, `for` or `foreach` loop, wherever it stands: its header
/// walked up to its block, then a space and `do`, then the block and what
/// follows it, and a statement separator pending.
pub proof fn lemma_loops_write_do(es: Seq<TreeEntry>, src: Seq<u8>, i: int, p: Progress)
    requires
        0 <= i && i + 1 < es.len(),
        es[i].node.kind == NodeKind::WhileLoop || es[i].node.kind == NodeKind::ForLoop || es[i].node.kind
            == NodeKind::ForeachLoop,
    ensures
        ({
            let (q, j) = walked_to(es, src, i + 1, NodeKind::CodeBlock, p);
            i < j < es.len() ==> node_rewritten(es, src, i, p) == with_pending(
                walked(es, src, j, emit(q, seq![32u8], content::do_keyword_text())),
                content::statement_separator_text(),
            )
        }),
{
}

/// A `return` with a value, wherever it stands: the walk up to the keyword
/// and the keyword (which becomes `exit`); then, with the whitespace before
/// the value dropped, the walk up to the expression, an opening parenthesis
/// before its first write, the expression, a closing parenthesis pending
/// after it; then the rest.
pub proof fn lemma_return_value_in_parentheses(es: Seq<TreeEntry>, src: Seq<u8>, i: int, p: Progress)
    requires
        0 <= i && i + 1 < es.len(),
        es[i].node.kind == NodeKind::ReturnStatementWithExpression,
    ensures
        ({
            let (q, j) = walked_to(es, src, i + 1, NodeKind::ReturnKeyword, p);
            let (r, k) = if i < j < es.len() && es[j].node.kind == NodeKind::ReturnKeyword {
                (node_walked(es, src, j, true, q), next_or_same(es, j))
            } else {
                (q, j)
            };
            i < k < es.len() ==> {
                let (u, l) = walked_to(
                    es,
                    src,
                    k,
                    NodeKind::Expression,
                    Progress { position: es[k].node.end_byte as int, prepend: seq![40u8] + r.prepend, ..r },
                );
                k <= l < es.len() && i < next_or_same(es, l) < es.len() ==> node_rewritten(es, src, i, p) == walked(
                    es,
                    src,
                    next_or_same(es, l),
                    with_pending(node_walked(es, src, l, true, u), seq![41u8]),
                )
            }
        }),
{
    let (q, j) = walked_to(es, src, i + 1, NodeKind::ReturnKeyword, p);
    let (r, k) = if i < j < es.len() && es[j].node.kind == NodeKind::ReturnKeyword {
        (node_walked(es, src, j, true, q), next_or_same(es, j))
    } else {
        (q, j)
    };
    if i < k < es.len() {
        let (u, l) = walked_to(
            es,
            src,
            k,
            NodeKind::Expression,
            Progress { position: es[k].node.end_byte as int, prepend: seq![40u8] + r.prepend, ..r },
        );
        if k <= l < es.len() && i < next_or_same(es, l) < es.len() {
            assert(value_walked(es, src, k, r) == (
                with_pending(node_walked(es, src, l, true, u), seq![41u8]),
                next_or_same(es, l),
            ));
            assert(node_rewritten(es, src, i, p) == return_walked(es, src, i, true, p));
        }
    }
}

/// Several statements in place of one, wherever they stand: a `begin` line
/// pending before their first write, their lines one level deeper, then
/// `end;` on a new line.
pub proof fn lemma_statements_wrapped_in_block(es: Seq<TreeEntry>, src: Seq<u8>, i: int, p: Progress)
    requires
        0 <= i < es.len(),
        es[i].node.kind == NodeKind::MultipleStatements,
    ensures
        ({
            let q = node_walked(es, src, i, false, Progress { line: content::begin_text(), indent: p.indent + 1, ..p });
            node_rewritten(es, src, i, p) == new_line(
                without_unindentable_line(Progress { indent: (q.indent - 1) as nat, ..q }),
                content::separated_end_text(),
            )
        }),
{
}

/// A variable declaration with an initial value, wherever it stands: the
/// text up to the keyword `var` goes to the output and to the declaration,
/// the keyword goes as nothing to the output only, the whitespace before the
/// name goes; the name, the walk up to the type and the type go to the
/// declaration only; the rest up to the semicolon goes to the output only,
/// as the assignment; what follows goes to both; then the declaration joins
/// the method's declarations, after those saved before it.
pub proof fn lemma_declaration_with_value_split(es: Seq<TreeEntry>, src: Seq<u8>, i: int, p: Progress)
    requires
        0 <= i && i + 1 < es.len(),
        es[i].node.kind == NodeKind::VarDeclarationWithAssignment,
    ensures
        ({
            let (q, j) = walked_to(
                es,
                src,
                i + 1,
                NodeKind::DeclarationKeyword,
                Progress { to_temp_output: true, to_output: true, ..p },
            );
            0 <= j < es.len() && i < next_or_same(es, j) < es.len() ==> {
                let k = next_or_same(es, j);
                let r = Progress {
                    to_temp_output: true,
                    ..emit_node(Progress { to_temp_output: false, ..q }, src, es[j].node, Seq::empty())
                };
                let (u, l) = walked_to(
                    es,
                    src,
                    k,
                    NodeKind::VarTypeDeclaration,
                    Progress { position: es[k].node.end_byte as int, ..r },
                );
                k <= l < es.len() && k <= next_or_same(es, l) < es.len() ==> {
                    let v = node_walked(es, src, l, false, Progress { to_output: false, ..u });
                    let (w, m) = walked_to(
                        es,
                        src,
                        next_or_same(es, l),
                        NodeKind::StatementEnd,
                        Progress { to_output: true, to_temp_output: false, ..v },
                    );
                    i < m < es.len() ==> {
                        let z = walked(es, src, m, Progress { to_temp_output: true, ..w });
                        node_rewritten(es, src, i, p) == Progress {
                            temp_output: Seq::empty(),
                            to_temp_output: false,
                            to_output: true,
                            declarations: z.declarations.push(z.temp_output),
                            ..z
                        }
                    }
                }
            }
        }),
{
    let (q, j) = walked_to(
        es,
        src,
        i + 1,
        NodeKind::DeclarationKeyword,
        Progress { to_temp_output: true, to_output: true, ..p },
    );
    if 0 <= j < es.len() && i < next_or_same(es, j) < es.len() {
        let k = next_or_same(es, j);
        let r = Progress {
            to_temp_output: true,
            ..emit_node(Progress { to_temp_output: false, ..q }, src, es[j].node, Seq::empty())
        };
        let u0 = Progress { position: es[k].node.end_byte as int, ..r };
        assert(declaration_start(es, src, i, true, p) == (u0, k));
        let (u, l) = walked_to(es, src, k, NodeKind::VarTypeDeclaration, u0);
        if k <= l < es.len() && k <= next_or_same(es, l) < es.len() {
            let v = node_walked(es, src, l, false, Progress { to_output: false, ..u });
            let (w, m) = walked_to(
                es,
                src,
                next_or_same(es, l),
                NodeKind::StatementEnd,
                Progress { to_output: true, to_temp_output: false, ..v },
            );
            assert(initial_value_walked(es, src, k, u0) == (Progress { to_temp_output: true, ..w }, m));
            assert(node_rewritten(es, src, i, p) == declaration_saved(es, src, i, true, p));
        }
    }
}

} // verus!
