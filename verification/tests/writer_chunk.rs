use alic::compiler::chunk::Chunk;
use alic::compiler::writer::Writer;

#[test]
fn chunk_new_holds_content_and_whitespace() {
    let chunk = Chunk::new(b"abc", b" \n");
    assert_eq!(chunk.content, b"abc");
    assert_eq!(chunk.leading_whitespace, b" \n");
    assert!(chunk.prepend_line_content.is_empty());
    assert!(chunk.get_prepend().is_empty());
}

#[test]
fn chunk_new_empty_is_empty() {
    let chunk = Chunk::new_empty();
    assert!(chunk.content.is_empty());
    assert!(chunk.leading_whitespace.is_empty());
    assert!(chunk.get_prepend().is_empty());
}

#[test]
fn chunk_later_prepend_goes_first() {
    let mut chunk = Chunk::new(b"x", b"");
    chunk.set_prepend(b"(");
    chunk.set_prepend(b"[");
    assert_eq!(chunk.get_prepend(), b"[(");
    chunk.clear_prepend();
    assert!(chunk.get_prepend().is_empty());
    assert_eq!(chunk.content, b"x");
}

#[test]
fn chunk_prepend_line_is_copied() {
    let mut chunk = Chunk::new_empty();
    chunk.set_prepend_line_content(b"begin");
    assert_eq!(chunk.prepend_line_content, b"begin".to_vec());
}

#[test]
fn writer_new_is_empty() {
    let writer = Writer::new(10);
    assert_eq!(writer.get_output_len(), 0);
    assert!(writer.get_output().is_empty());
    assert!(writer.get_newline_whitespace().is_empty());
    assert_eq!(writer.additional_indent, 0);
    assert!(writer.save_to_output);
    assert!(!writer.save_to_temp_output);
}

#[test]
fn writer_writes_whitespace_then_content() {
    let mut writer = Writer::new(0);
    writer.chunk = Chunk::new(b"foo", b"  ");
    writer.write_chunk();
    assert_eq!(writer.get_output(), &b"  foo".to_vec());
    assert!(writer.chunk.content.is_empty());
}

#[test]
fn writer_indents_after_a_newline() {
    let mut writer = Writer::new(0);
    writer.push_indent();
    writer.chunk = Chunk::new(b"x", b" \n  ");
    writer.write_chunk();
    assert_eq!(writer.get_output(), &b" \n      x".to_vec());
    assert_eq!(writer.get_newline_whitespace(), b"\n  ");
    writer.pop_indent();
    assert_eq!(writer.additional_indent, 0);
}

#[test]
fn writer_keeps_newline_whitespace_without_newline() {
    let mut writer = Writer::new(0);
    writer.chunk = Chunk::new(b"a", b"\n ");
    writer.write_chunk();
    writer.chunk = Chunk::new(b"b", b"  ");
    writer.write_chunk();
    assert_eq!(writer.get_newline_whitespace(), b"\n ");
    assert_eq!(writer.get_output(), &b"\n a  b".to_vec());
}

#[test]
fn writer_drops_whitespace_after_empty_content() {
    let mut writer = Writer::new(0);
    writer.chunk = Chunk::new(b"", b" ");
    writer.write_chunk();
    assert!(writer.should_ignore_next_leading_whitespace);
    writer.chunk = Chunk::new(b"x", b"   ");
    writer.write_chunk();
    assert_eq!(writer.get_output(), &b" x".to_vec());
    assert!(!writer.should_ignore_next_leading_whitespace);
}

#[test]
fn writer_writes_pending_append_and_prepend() {
    let mut writer = Writer::new(0);
    writer.set_prev_chunk_append(b")");
    writer.set_prev_chunk_append(b";");
    writer.chunk = Chunk::new(b"x", b" ");
    writer.chunk.set_prepend(b"(");
    writer.write_chunk();
    assert_eq!(writer.get_output(), &b"); (x".to_vec());
    assert!(writer.prev_chunk_append.is_empty());
}

#[test]
fn writer_writes_prepend_line_one_level_less_deep() {
    let mut writer = Writer::new(0);
    writer.chunk = Chunk::new(b"a", b"\n  ");
    writer.write_chunk();
    writer.push_indent();
    writer.push_indent();
    writer.chunk = Chunk::new(b"b", b"\n  ");
    writer.chunk.set_prepend_line_content(b"begin");
    writer.write_chunk();
    assert_eq!(writer.get_output(), &b"\n  a\n      begin\n          b".to_vec());
}

#[test]
fn writer_new_line_content() {
    let mut writer = Writer::new(0);
    writer.chunk = Chunk::new(b"a", b"\n ");
    writer.write_chunk();
    writer.push_indent();
    writer.write_new_line_content(b"end;");
    assert_eq!(writer.get_output(), &b"\n a\n     end;".to_vec());
}

#[test]
fn writer_temp_output_only() {
    let mut writer = Writer::new(0);
    writer.set_write_to_temp_output(true);
    writer.set_write_to_normal_output(false);
    writer.chunk = Chunk::new(b"decl", b" ");
    writer.write_chunk();
    assert!(writer.get_output().is_empty());
    assert_eq!(writer.get_temp_output(), b" decl".to_vec());
    assert!(writer.get_temp_output().is_empty());
}

#[test]
fn writer_both_outputs() {
    let mut writer = Writer::new(0);
    writer.set_write_to_temp_output(true);
    writer.chunk = Chunk::new(b"x", b"");
    writer.write_chunk();
    assert_eq!(writer.get_output(), &b"x".to_vec());
    assert_eq!(writer.get_temp_output(), b"x".to_vec());
}

#[test]
fn writer_insert_to_output() {
    let mut writer = Writer::new(0);
    writer.extend_output(b"abef");
    writer.insert_to_output(2, b"cd");
    assert_eq!(writer.get_output(), &b"abcdef".to_vec());
    writer.insert_to_output(6, b"!");
    assert_eq!(writer.get_output(), &b"abcdef!".to_vec());
    writer.insert_to_output(0, b"");
    assert_eq!(writer.get_output_len(), 7);
}

#[test]
fn writer_try_save_newline_whitespace() {
    let mut writer = Writer::new(0);
    assert!(!writer.try_save_newline_whitespace(b"   "));
    assert!(writer.get_newline_whitespace().is_empty());
    assert!(writer.try_save_newline_whitespace(b" \n a\n  "));
    assert_eq!(writer.get_newline_whitespace(), b"\n  ");
}
