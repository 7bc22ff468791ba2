//! The fixed pieces of text that the generated code is made of.

use vstd::prelude::*;

verus! {

/// The bytes of `    `: one level of indentation in the generated code.
pub open spec fn indent_text() -> Seq<u8> {
    seq![32u8, 32, 32, 32]
}

/// One level of indentation in the generated code.
pub fn indent() -> (bytes: &'static [u8])
    ensures
        bytes@ == indent_text(),
{
    let bytes: &'static [u8] = &[32, 32, 32, 32];
    bytes
}

/// The bytes of `begin`: opens a block of statements.
pub open spec fn begin_text() -> Seq<u8> {
    seq![98u8, 101, 103, 105, 110]
}

/// Opens a block of statements.
pub fn begin() -> (bytes: &'static [u8])
    ensures
        bytes@ == begin_text(),
{
    let bytes: &'static [u8] = &[98, 101, 103, 105, 110];
    bytes
}

/// The bytes of `end`: closes a block of statements.
pub open spec fn end_text() -> Seq<u8> {
    seq![101u8, 110, 100]
}

/// Closes a block of statements.
pub fn end() -> (bytes: &'static [u8])
    ensures
        bytes@ == end_text(),
{
    let bytes: &'static [u8] = &[101, 110, 100];
    bytes
}

/// The bytes of `end;`: closes a block of statements that is itself a statement.
pub open spec fn separated_end_text() -> Seq<u8> {
    seq![101u8, 110, 100, 59]
}

/// Closes a block of statements that is itself a statement.
pub fn separated_end() -> (bytes: &'static [u8])
    ensures
        bytes@ == separated_end_text(),
{
    let bytes: &'static [u8] = &[101, 110, 100, 59];
    bytes
}

/// The bytes of `then`: follows the condition of an `if`.
pub open spec fn then_keyword_text() -> Seq<u8> {
    seq![116u8, 104, 101, 110]
}

/// Follows the condition of an `if`.
pub fn then_keyword() -> (bytes: &'static [u8])
    ensures
        bytes@ == then_keyword_text(),
{
    let bytes: &'static [u8] = &[116, 104, 101, 110];
    bytes
}

/// The bytes of `do`: follows the header of a loop.
pub open spec fn do_keyword_text() -> Seq<u8> {
    seq![100u8, 111]
}

/// Follows the header of a loop.
pub fn do_keyword() -> (bytes: &'static [u8])
    ensures
        bytes@ == do_keyword_text(),
{
    let bytes: &'static [u8] = &[100, 111];
    bytes
}

/// The bytes of `exit`: leaves the current method.
pub open spec fn exit_text() -> Seq<u8> {
    seq![101u8, 120, 105, 116]
}

/// Leaves the current method.
pub fn exit() -> (bytes: &'static [u8])
    ensures
        bytes@ == exit_text(),
{
    let bytes: &'static [u8] = &[101, 120, 105, 116];
    bytes
}

/// The bytes of `case`: opens a `case` statement.
pub open spec fn case_text() -> Seq<u8> {
    seq![99u8, 97, 115, 101]
}

/// Opens a `case` statement.
pub fn case() -> (bytes: &'static [u8])
    ensures
        bytes@ == case_text(),
{
    let bytes: &'static [u8] = &[99, 97, 115, 101];
    bytes
}

/// The bytes of `of`: follows the selector of a `case` statement.
pub open spec fn of_text() -> Seq<u8> {
    seq![111u8, 102]
}

/// Follows the selector of a `case` statement.
pub fn of() -> (bytes: &'static [u8])
    ensures
        bytes@ == of_text(),
{
    let bytes: &'static [u8] = &[111, 102];
    bytes
}

/// The bytes of `else`: introduces the default branch of a `case` statement.
pub open spec fn else_keyword_text() -> Seq<u8> {
    seq![101u8, 108, 115, 101]
}

/// Introduces the default branch of a `case` statement.
pub fn else_keyword() -> (bytes: &'static [u8])
    ensures
        bytes@ == else_keyword_text(),
{
    let bytes: &'static [u8] = &[101, 108, 115, 101];
    bytes
}

/// The bytes of `var`: opens the section of local variable declarations.
pub open spec fn var_text() -> Seq<u8> {
    seq![118u8, 97, 114]
}

/// Opens the section of local variable declarations.
pub fn var() -> (bytes: &'static [u8])
    ensures
        bytes@ == var_text(),
{
    let bytes: &'static [u8] = &[118, 97, 114];
    bytes
}

/// The bytes of `:=`: assignment.
pub open spec fn assign_op_text() -> Seq<u8> {
    seq![58u8, 61]
}

/// Assignment.
pub fn assign_op() -> (bytes: &'static [u8])
    ensures
        bytes@ == assign_op_text(),
{
    let bytes: &'static [u8] = &[58, 61];
    bytes
}

/// The bytes of `mod`: remainder.
pub open spec fn mod_op_text() -> Seq<u8> {
    seq![109u8, 111, 100]
}

/// Remainder.
pub fn mod_op() -> (bytes: &'static [u8])
    ensures
        bytes@ == mod_op_text(),
{
    let bytes: &'static [u8] = &[109, 111, 100];
    bytes
}

/// The bytes of `=`: comparison for equality.
pub open spec fn equals_op_text() -> Seq<u8> {
    seq![61u8]
}

/// Comparison for equality.
pub fn equals_op() -> (bytes: &'static [u8])
    ensures
        bytes@ == equals_op_text(),
{
    let bytes: &'static [u8] = &[61];
    bytes
}

/// The bytes of `<>`: comparison for inequality.
pub open spec fn not_equals_op_text() -> Seq<u8> {
    seq![60u8, 62]
}

/// Comparison for inequality.
pub fn not_equals_op() -> (bytes: &'static [u8])
    ensures
        bytes@ == not_equals_op_text(),
{
    let bytes: &'static [u8] = &[60, 62];
    bytes
}

/// The bytes of `;`: ends a statement.
pub open spec fn statement_separator_text() -> Seq<u8> {
    seq![59u8]
}

/// Ends a statement.
pub fn statement_separator() -> (bytes: &'static [u8])
    ensures
        bytes@ == statement_separator_text(),
{
    let bytes: &'static [u8] = &[59];
    bytes
}

} // verus!
