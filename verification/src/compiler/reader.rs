//! Reads the source text node by node, keeping the position up to which it
//! has been read.

use vstd::prelude::*;

use crate::compiler::tree::SyntaxNode;

verus! {

/// The source text and the position up to which it has been read.
#[derive(Debug)]
pub struct Reader<'source> {
    source: &'source [u8],
    cursor_pos: usize,
}

/// The bytes of `source` from `from` to `to`, or none where that range does
/// not lie in `source`.
pub open spec fn bytes_between(source: Seq<u8>, from: int, to: int) -> Seq<u8> {
    if 0 <= from <= to <= source.len() {
        source.subrange(from, to)
    } else {
        Seq::empty()
    }
}

impl<'source> Reader<'source> {
    /// The source text.
    pub closed spec fn source(&self) -> Seq<u8> {
        self.source@
    }

    /// The position up to which the source has been read.
    pub closed spec fn position(&self) -> nat {
        self.cursor_pos as nat
    }

    /// A reader at the start of `source`.
    pub fn new(source: &'source [u8]) -> (reader: Self)
        ensures
            reader.source() == source@,
            reader.position() == 0,
    {
        Self { source, cursor_pos: 0 }
    }

    /// The source between the position and the start of `node` (nothing if
    /// the node starts before the position); moves to the start of `node`.
    pub fn read_leading_whitespace(&mut self, node: &SyntaxNode) -> (whitespace: &'source [u8])
        ensures
            whitespace@ == bytes_between(old(self).source(), old(self).position() as int, node.start_byte as int),
            final(self).source() == old(self).source(),
            final(self).position() == node.start_byte,
    {
        let nothing: &'source [u8] = &[];
        let leading_whitespace = if self.cursor_pos <= node.start_byte && node.start_byte <= self.source.len() {
            vstd::slice::slice_subrange(self.source, self.cursor_pos, node.start_byte)
        } else {
            nothing
        };
        self.cursor_pos = node.start_byte;
        leading_whitespace
    }

    /// The source that `node` covers; moves to the end of `node`.
    pub fn read_content(&mut self, node: &SyntaxNode) -> (content: &'source [u8])
        requires
            node.start_byte <= node.end_byte <= old(self).source().len(),
        ensures
            content@ == old(self).source().subrange(node.start_byte as int, node.end_byte as int),
            final(self).source() == old(self).source(),
            final(self).position() == node.end_byte,
    {
        let content = vstd::slice::slice_subrange(self.source, node.start_byte, node.end_byte);
        self.cursor_pos = node.end_byte;
        content
    }

    /// Moves to the end of `node` without reading it.
    pub fn skip_content(&mut self, node: &SyntaxNode)
        ensures
            final(self).source() == old(self).source(),
            final(self).position() == node.end_byte,
    {
        self.cursor_pos = node.end_byte;
    }

    /// The source from the position to its end.
    pub fn read_rest_of_source(&mut self) -> (rest: &'source [u8])
        requires
            old(self).position() <= old(self).source().len(),
        ensures
            rest@ == old(self).source().subrange(old(self).position() as int, old(self).source().len() as int),
            final(self).source() == old(self).source(),
            final(self).position() == old(self).position(),
    {
        vstd::slice::slice_subrange(self.source, self.cursor_pos, self.source.len())
    }
}

} // verus!
