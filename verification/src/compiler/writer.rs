//! The output buffer of the transpiler: chunks of text, their whitespace and
//! the indentation that the generated code adds.

use vstd::prelude::*;

use crate::compiler::bytes::{append_bytes, copy_bytes};
use crate::compiler::chunk::{empty_chunk_view, Chunk, ChunkView};
use crate::compiler::constants::content;

verus! {

/// `levels` levels of indentation.
pub open spec fn indentation(levels: nat) -> Seq<u8>
    decreases levels,
{
    if levels == 0 {
        Seq::empty()
    } else {
        indentation((levels - 1) as nat) + content::indent_text()
    }
}

/// The index of the last newline byte in `ws`, or -1 if it holds none.
pub open spec fn last_newline(ws: Seq<u8>) -> int
    decreases ws.len(),
{
    if ws.len() == 0 {
        -1
    } else if ws.last() == 10u8 {
        ws.len() - 1
    } else {
        last_newline(ws.drop_last())
    }
}

/// `last_newline` is the position of the last newline.
pub proof fn lemma_last_newline(ws: Seq<u8>, k: int)
    requires
        -1 <= k < ws.len(),
        k >= 0 ==> ws[k] == 10u8,
        forall|j: int| k < j < ws.len() ==> ws[j] != 10u8,
    ensures
        last_newline(ws) == k,
    decreases ws.len(),
{
    if ws.len() > 0 && ws.last() != 10u8 {
        lemma_last_newline(ws.drop_last(), k);
    }
}

/// The line that a pending `line` becomes: the saved newline whitespace, one
/// level of indentation less than the current one, and the line itself.
pub open spec fn line_prefix(newline_whitespace: Seq<u8>, indent: nat, line: Seq<u8>) -> Seq<u8> {
    if line.len() > 0 {
        newline_whitespace + indentation((indent - 1) as nat) + line
    } else {
        Seq::empty()
    }
}

/// The state of a writer as plain values.
pub struct WriterView {
    pub output: Seq<u8>,
    pub save_to_output: bool,
    pub temp_output: Seq<u8>,
    pub save_to_temp_output: bool,
    pub chunk: ChunkView,
    pub prev_chunk_append: Seq<u8>,
    pub additional_indent: nat,
    pub current_newline_whitespace: Seq<u8>,
    pub should_ignore_next_leading_whitespace: bool,
}

impl WriterView {
    /// A pending prefix line can be indented: it needs at least one level.
    pub open spec fn can_prepend_line(self) -> bool {
        self.chunk.prepend_line_content.len() > 0 ==> self.additional_indent >= 1
    }

    /// The bytes that one write of `content` after `leading` adds, when the
    /// newline whitespace is `newline_whitespace`.
    pub open spec fn chunk_text(self, newline_whitespace: Seq<u8>, leading: Seq<u8>, content: Seq<u8>) -> Seq<u8> {
        self.prev_chunk_append + line_prefix(
            newline_whitespace,
            self.additional_indent,
            self.chunk.prepend_line_content,
        ) + leading + self.chunk.prepend + content
    }

    /// `next` is `self` after `text` went to each output that is switched on.
    pub open spec fn emitted(self, next: WriterView, text: Seq<u8>) -> bool {
        &&& next.output == (if self.save_to_output { self.output + text } else { self.output })
        &&& next.temp_output == (if self.save_to_temp_output {
            self.temp_output + text
        } else {
            self.temp_output
        })
    }

    /// The leading whitespace that the next write uses.
    pub open spec fn written_whitespace(self) -> Seq<u8> {
        if self.should_ignore_next_leading_whitespace {
            Seq::empty()
        } else {
            self.chunk.leading_whitespace
        }
    }

    /// The newline whitespace after the next write of the chunk.
    pub open spec fn next_newline_whitespace(self) -> Seq<u8> {
        let ws = self.written_whitespace();
        let nl = last_newline(ws);
        if nl >= 0 {
            ws.subrange(nl, ws.len() as int)
        } else {
            self.current_newline_whitespace
        }
    }

    /// The leading whitespace of the next write as it is written: with the
    /// current indentation after it when it holds a newline.
    pub open spec fn indented_whitespace(self) -> Seq<u8> {
        let ws = self.written_whitespace();
        if last_newline(ws) >= 0 {
            ws + indentation(self.additional_indent)
        } else {
            ws
        }
    }

    /// The bytes that writing the current chunk adds.
    pub open spec fn chunk_write_text(self) -> Seq<u8> {
        self.chunk_text(self.next_newline_whitespace(), self.indented_whitespace(), self.chunk.content)
    }

    /// The state after writing the current chunk.
    pub open spec fn after_chunk_write(self, next: WriterView) -> bool {
        &&& self.emitted(next, self.chunk_write_text())
        &&& next.save_to_output == self.save_to_output
        &&& next.save_to_temp_output == self.save_to_temp_output
        &&& next.chunk == empty_chunk_view()
        &&& next.prev_chunk_append == Seq::<u8>::empty()
        &&& next.additional_indent == self.additional_indent
        &&& next.current_newline_whitespace == self.next_newline_whitespace()
        &&& next.should_ignore_next_leading_whitespace == (self.chunk.content.len() == 0
            && self.written_whitespace().len() > 0)
    }
}

/// `w` one level of indentation deeper.
pub open spec fn indented(w: WriterView) -> WriterView {
    WriterView { additional_indent: w.additional_indent + 1, ..w }
}

/// `w` one level of indentation less deep.
pub open spec fn outdented(w: WriterView) -> WriterView {
    WriterView { additional_indent: (w.additional_indent - 1) as nat, ..w }
}

/// Indenting one level deeper and then one level less deep leaves a writer
/// as it was.
pub proof fn lemma_indent_round_trip(w: WriterView)
    ensures
        outdented(indented(w)) == w,
{
}

/// Collects the generated code. Text goes to the output, to a temporary
/// output, or to both; a chunk is written with the text pending before it.
#[derive(Debug)]
pub struct Writer<'source> {
    pub output: Vec<u8>,
    pub save_to_output: bool,
    pub temp_output: Vec<u8>,
    pub save_to_temp_output: bool,
    pub chunk: Chunk<'source>,
    pub prev_chunk_append: Vec<u8>,
    pub additional_indent: usize,
    pub current_newline_whitespace: &'source [u8],
    pub should_ignore_next_leading_whitespace: bool,
}

impl<'source> View for Writer<'source> {
    type V = WriterView;

    open spec fn view(&self) -> WriterView {
        WriterView {
            output: self.output@,
            save_to_output: self.save_to_output,
            temp_output: self.temp_output@,
            save_to_temp_output: self.save_to_temp_output,
            chunk: self.chunk@,
            prev_chunk_append: self.prev_chunk_append@,
            additional_indent: self.additional_indent as nat,
            current_newline_whitespace: self.current_newline_whitespace@,
            should_ignore_next_leading_whitespace: self.should_ignore_next_leading_whitespace,
        }
    }
}

/// `levels` levels of indentation, as a vector.
fn indentation_bytes(levels: usize) -> (bytes: Vec<u8>)
    ensures
        bytes@ == indentation(levels as nat),
{
    let mut bytes: Vec<u8> = Vec::new();
    let mut i: usize = 0;
    while i < levels
        invariant
            i <= levels,
            bytes@ == indentation(i as nat),
        decreases levels - i,
    {
        append_bytes(&mut bytes, content::indent());
        i += 1;
    }
    bytes
}

impl<'source> Writer<'source> {
    /// A writer with empty outputs that writes to the output only.
    pub fn new(source_len: usize) -> (writer: Self)
        ensures
            writer@ == (WriterView {
                output: Seq::empty(),
                save_to_output: true,
                temp_output: Seq::empty(),
                save_to_temp_output: false,
                chunk: empty_chunk_view(),
                prev_chunk_append: Seq::empty(),
                additional_indent: 0,
                current_newline_whitespace: Seq::empty(),
                should_ignore_next_leading_whitespace: false,
            }),
    {
        let nothing: &'source [u8] = &[];
        let writer = Self {
            output: Vec::with_capacity(source_len),
            save_to_output: true,
            temp_output: Vec::new(),
            save_to_temp_output: false,
            chunk: Chunk::new_empty(),
            prev_chunk_append: Vec::new(),
            additional_indent: 0,
            current_newline_whitespace: nothing,
            should_ignore_next_leading_whitespace: false,
        };
        assert(writer@.current_newline_whitespace =~= Seq::<u8>::empty());
        writer
    }

    /// Switches writing to the temporary output on or off.
    pub fn set_write_to_temp_output(&mut self, should_save: bool)
        ensures
            final(self)@ == (WriterView { save_to_temp_output: should_save, ..old(self)@ }),
    {
        self.save_to_temp_output = should_save;
    }

    /// Switches writing to the output on or off.
    pub fn set_write_to_normal_output(&mut self, should_save: bool)
        ensures
            final(self)@ == (WriterView { save_to_output: should_save, ..old(self)@ }),
    {
        self.save_to_output = should_save;
    }

    /// Hands out the temporary output and empties it.
    pub fn get_temp_output(&mut self) -> (taken: Vec<u8>)
        ensures
            taken@ == old(self)@.temp_output,
            final(self)@ == (WriterView { temp_output: Seq::empty(), ..old(self)@ }),
    {
        let mut taken: Vec<u8> = Vec::new();
        std::mem::swap(&mut taken, &mut self.temp_output);
        taken
    }

    /// Adds `append` to the text that goes before the next chunk.
    pub fn set_prev_chunk_append(&mut self, append: &'source [u8])
        ensures
            final(self)@ == (WriterView {
                prev_chunk_append: old(self)@.prev_chunk_append + append@,
                ..old(self)@
            }),
    {
        append_bytes(&mut self.prev_chunk_append, append);
    }

    /// Writes the current chunk: its whitespace (indented where it holds a
    /// newline), with the pending text around it, then empties the chunk.
    pub fn write_chunk(&mut self)
        requires
            old(self)@.can_prepend_line(),
        ensures
            old(self)@.after_chunk_write(final(self)@),
    {
        let nothing: &'source [u8] = &[];
        let leading_whitespace = if self.should_ignore_next_leading_whitespace {
            self.should_ignore_next_leading_whitespace = false;
            nothing
        } else {
            self.chunk.leading_whitespace
        };
        assert(leading_whitespace@ == old(self)@.written_whitespace());
        let content = self.chunk.content;

        if self.try_save_newline_whitespace(leading_whitespace) {
            let indented_newline = self.get_indented(leading_whitespace);
            self.extend_output_with_chunk(indented_newline.as_slice(), content);
        } else {
            self.extend_output_with_chunk(leading_whitespace, content);
        }

        self.should_ignore_next_leading_whitespace = content.len() == 0 && leading_whitespace.len() != 0;
        self.chunk = Chunk::new_empty();
    }

    /// Saves the whitespace from the last newline of `leading_whitespace` on
    /// as the newline whitespace; says whether there was a newline.
    pub fn try_save_newline_whitespace(&mut self, leading_whitespace: &'source [u8]) -> (saved: bool)
        ensures
            saved == (last_newline(leading_whitespace@) >= 0),
            final(self)@ == (WriterView {
                current_newline_whitespace: if saved {
                    leading_whitespace@.subrange(
                        last_newline(leading_whitespace@),
                        leading_whitespace@.len() as int,
                    )
                } else {
                    old(self)@.current_newline_whitespace
                },
                ..old(self)@
            }),
    {
        let len = leading_whitespace.len();
        let mut i: usize = len;
        while i > 0
            invariant
                i <= len,
                len == leading_whitespace@.len(),
                forall|j: int| i <= j < len ==> leading_whitespace@[j] != 10u8,
                self@ == old(self)@,
            decreases i,
        {
            if leading_whitespace[i - 1] == 10u8 {
                proof {
                    lemma_last_newline(leading_whitespace@, i - 1);
                }
                self.current_newline_whitespace = vstd::slice::slice_subrange(leading_whitespace, i - 1, len);
                return true;
            }
            i -= 1;
        }
        proof {
            lemma_last_newline(leading_whitespace@, -1);
        }
        false
    }

    /// Writes `content` on a new line: the newline whitespace, the current
    /// indentation, the pending text, then `content`.
    pub fn write_new_line_content(&mut self, content: &'source [u8])
        requires
            old(self)@.can_prepend_line(),
        ensures
            old(self)@.emitted(
                final(self)@,
                old(self)@.chunk_text(
                    old(self)@.current_newline_whitespace,
                    old(self)@.current_newline_whitespace + indentation(old(self)@.additional_indent),
                    content@,
                ),
            ),
            final(self)@ == (WriterView {
                output: final(self)@.output,
                temp_output: final(self)@.temp_output,
                prev_chunk_append: Seq::empty(),
                chunk: ChunkView { prepend: Seq::empty(), ..old(self)@.chunk },
                ..old(self)@
            }),
    {
        let indented_newline = self.get_indented(self.current_newline_whitespace);
        self.extend_output_with_chunk(indented_newline.as_slice(), content);
    }

    /// Writes the pending text, `leading_indented_whitespace` and `content`
    /// to the outputs that are switched on, then drops the pending text.
    fn extend_output_with_chunk(&mut self, leading_indented_whitespace: &[u8], content: &[u8])
        requires
            old(self)@.can_prepend_line(),
        ensures
            old(self)@.emitted(
                final(self)@,
                old(self)@.chunk_text(
                    old(self)@.current_newline_whitespace,
                    leading_indented_whitespace@,
                    content@,
                ),
            ),
            final(self)@ == (WriterView {
                output: final(self)@.output,
                temp_output: final(self)@.temp_output,
                prev_chunk_append: Seq::empty(),
                chunk: ChunkView { prepend: Seq::empty(), ..old(self)@.chunk },
                ..old(self)@
            }),
    {
        let prepend_line = self.get_prepend_line();
        let mut extend_content: Vec<u8> = Vec::new();
        append_bytes(&mut extend_content, self.prev_chunk_append.as_slice());
        append_bytes(&mut extend_content, prepend_line.as_slice());
        append_bytes(&mut extend_content, leading_indented_whitespace);
        append_bytes(&mut extend_content, self.chunk.get_prepend());
        append_bytes(&mut extend_content, content);
        if self.save_to_output {
            append_bytes(&mut self.output, extend_content.as_slice());
        }
        if self.save_to_temp_output {
            append_bytes(&mut self.temp_output, extend_content.as_slice());
        }
        self.prev_chunk_append.clear();
        self.chunk.clear_prepend();
        assert(final(self)@.prev_chunk_append =~= Seq::<u8>::empty());
    }

    /// The line that the chunk's prefix line becomes, or nothing.
    fn get_prepend_line(&self) -> (prepend_line: Vec<u8>)
        requires
            self@.can_prepend_line(),
        ensures
            prepend_line@ == line_prefix(
                self@.current_newline_whitespace,
                self@.additional_indent,
                self@.chunk.prepend_line_content,
            ),
    {
        let mut prepend_line: Vec<u8> = Vec::new();
        if self.chunk.prepend_line_content.len() != 0 {
            append_bytes(&mut prepend_line, self.current_newline_whitespace);
            let indentation = indentation_bytes(self.additional_indent - 1);
            append_bytes(&mut prepend_line, indentation.as_slice());
            append_bytes(&mut prepend_line, self.chunk.prepend_line_content.as_slice());
        }
        assert(prepend_line@ =~= line_prefix(
            self@.current_newline_whitespace,
            self@.additional_indent,
            self@.chunk.prepend_line_content,
        ));
        prepend_line
    }

    /// `whitespace` followed by the current indentation.
    fn get_indented(&self, whitespace: &[u8]) -> (indented: Vec<u8>)
        ensures
            indented@ == whitespace@ + indentation(self@.additional_indent),
    {
        let mut indented_whitespace = copy_bytes(whitespace);
        let indentation = indentation_bytes(self.additional_indent);
        append_bytes(&mut indented_whitespace, indentation.as_slice());
        indented_whitespace
    }

    /// Inserts `content` into the output at `index`.
    pub fn insert_to_output(&mut self, index: usize, content: &[u8])
        requires
            index <= old(self)@.output.len(),
        ensures
            final(self)@ == (WriterView {
                output: old(self)@.output.subrange(0, index as int) + content@
                    + old(self)@.output.subrange(index as int, old(self)@.output.len() as int),
                ..old(self)@
            }),
    {
        let mut tail = self.output.split_off(index);
        append_bytes(&mut self.output, content);
        self.output.append(&mut tail);
    }

    /// Appends `content` to the output, whatever the switches say.
    pub fn extend_output(&mut self, content: &'source [u8])
        ensures
            final(self)@ == (WriterView { output: old(self)@.output + content@, ..old(self)@ }),
    {
        append_bytes(&mut self.output, content);
    }

    /// Indents what follows one level deeper.
    pub fn push_indent(&mut self)
        requires
            old(self)@.additional_indent < usize::MAX,
        ensures
            final(self)@ == indented(old(self)@),
    {
        self.additional_indent += 1;
    }

    /// Indents what follows one level less deep.
    pub fn pop_indent(&mut self)
        requires
            old(self)@.additional_indent >= 1,
        ensures
            final(self)@ == outdented(old(self)@),
    {
        self.additional_indent -= 1;
    }

    /// The whitespace from the last newline written on.
    pub fn get_newline_whitespace(&self) -> (whitespace: &'source [u8])
        ensures
            whitespace@ == self@.current_newline_whitespace,
    {
        self.current_newline_whitespace
    }

    /// The length of the output.
    pub fn get_output_len(&self) -> (len: usize)
        ensures
            len == self@.output.len(),
    {
        self.output.len()
    }

    /// The output.
    pub fn get_output(&self) -> (output: &Vec<u8>)
        ensures
            output@ == self@.output,
    {
        &self.output
    }
}

} // verus!
