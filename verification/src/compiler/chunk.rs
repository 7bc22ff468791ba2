//! A piece of output that is about to be written.

use vstd::prelude::*;

use crate::compiler::bytes::{append_bytes, copy_bytes};

verus! {

/// What a chunk holds, as plain byte sequences.
pub struct ChunkView {
    pub content: Seq<u8>,
    pub leading_whitespace: Seq<u8>,
    pub prepend_line_content: Seq<u8>,
    pub prepend: Seq<u8>,
}

/// The next piece of output: its content, the whitespace before it, text to
/// put right before the content, and a line to put before the whitespace.
#[derive(Debug)]
pub struct Chunk<'source> {
    pub content: &'source [u8],
    pub leading_whitespace: &'source [u8],
    pub prepend_line_content: Vec<u8>,
    pub prepend: Vec<u8>,
}

/// The view of a chunk with nothing in it.
pub open spec fn empty_chunk_view() -> ChunkView {
    ChunkView {
        content: Seq::empty(),
        leading_whitespace: Seq::empty(),
        prepend_line_content: Seq::empty(),
        prepend: Seq::empty(),
    }
}

impl<'source> View for Chunk<'source> {
    type V = ChunkView;

    open spec fn view(&self) -> ChunkView {
        ChunkView {
            content: self.content@,
            leading_whitespace: self.leading_whitespace@,
            prepend_line_content: self.prepend_line_content@,
            prepend: self.prepend@,
        }
    }
}

impl<'source> Chunk<'source> {
    /// A chunk of `content` after `leading_whitespace`, with nothing to prepend.
    pub fn new(content: &'source [u8], leading_whitespace: &'source [u8]) -> (chunk: Self)
        ensures
            chunk.content == content,
            chunk.leading_whitespace == leading_whitespace,
            chunk@.prepend_line_content == Seq::<u8>::empty(),
            chunk@.prepend == Seq::<u8>::empty(),
    {
        Self { content, leading_whitespace, prepend: Vec::new(), prepend_line_content: Vec::new() }
    }

    /// A chunk with nothing in it.
    pub fn new_empty() -> (chunk: Self)
        ensures
            chunk@ == empty_chunk_view(),
    {
        let nothing: &'source [u8] = &[];
        let chunk = Self::new(nothing, nothing);
        assert(chunk@.content =~= Seq::<u8>::empty());
        chunk
    }

    /// Puts `prepend` in front of what is already to be prepended.
    pub fn set_prepend(&mut self, prepend: &'source [u8])
        ensures
            final(self)@ == (ChunkView { prepend: prepend@ + old(self)@.prepend, ..old(self)@ }),
    {
        let mut joined: Vec<u8> = Vec::new();
        append_bytes(&mut joined, prepend);
        append_bytes(&mut joined, self.prepend.as_slice());
        self.prepend = joined;
        assert(final(self)@.prepend =~= prepend@ + old(self)@.prepend);
    }

    /// The text that goes right before the content.
    pub fn get_prepend(&self) -> (prepend: &[u8])
        ensures
            prepend@ == self@.prepend,
    {
        self.prepend.as_slice()
    }

    /// Drops the text that was to go before the content.
    pub fn clear_prepend(&mut self)
        ensures
            final(self)@ == (ChunkView { prepend: Seq::empty(), ..old(self)@ }),
    {
        self.prepend.clear();
    }

    /// Sets the line that goes before the chunk's whitespace.
    pub fn set_prepend_line_content(&mut self, line: &[u8])
        ensures
            final(self)@ == (ChunkView { prepend_line_content: line@, ..old(self)@ }),
    {
        self.prepend_line_content = copy_bytes(line);
    }
}

} // verus!
