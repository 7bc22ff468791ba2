use alic::compiler::constants::node_kind::NodeKind;
use alic::compiler::tree::{SyntaxNode, SyntaxTree, TreeBuilder};
use alic::compiler::customizer::Customizer;
use alic::compiler::syntax::{transpile_tree, TranspileError};
use alic::compiler::walker::{compile, Walker};
use std::str;

/// The shape of a syntax tree as the grammar of the source language gives
/// it: `(kind child ...)` for an inner node, `` kind`text` `` for a leaf of a
/// named kind, `` `text` `` for a leaf of any other kind. Leaves are found in
/// the source in order.
enum Shape {
    Inner(NodeKind, Vec<Shape>),
    Leaf(NodeKind, Vec<u8>),
}

struct Placed {
    kind: NodeKind,
    start: usize,
    end: usize,
    children: Vec<Placed>,
}

fn skip_spaces(text: &[u8], at: &mut usize) {
    while *at < text.len() && (text[*at] == b' ' || text[*at] == b'\n') {
        *at += 1;
    }
}

fn read_name(text: &[u8], at: &mut usize) -> String {
    let start = *at;
    while *at < text.len() && (text[*at].is_ascii_alphanumeric() || text[*at] == b'_') {
        *at += 1;
    }
    String::from_utf8(text[start..*at].to_vec()).unwrap()
}

fn parse_shape(text: &[u8], at: &mut usize) -> Shape {
    skip_spaces(text, at);
    if text[*at] == b'(' {
        *at += 1;
        let name = read_name(text, at);
        let mut children = Vec::new();
        loop {
            skip_spaces(text, at);
            if text[*at] == b')' {
                *at += 1;
                break;
            }
            children.push(parse_shape(text, at));
        }
        Shape::Inner(NodeKind::from_name(&name), children)
    } else {
        let name = read_name(text, at);
        assert_eq!(text[*at], b'`');
        *at += 1;
        let start = *at;
        while text[*at] != b'`' {
            *at += 1;
        }
        let token = text[start..*at].to_vec();
        *at += 1;
        let kind = if name.is_empty() { NodeKind::Other } else { NodeKind::from_name(&name) };
        Shape::Leaf(kind, token)
    }
}

fn place(shape: &Shape, source: &[u8], cursor: &mut usize) -> Placed {
    match shape {
        Shape::Leaf(kind, token) => {
            let mut start = *cursor;
            while &source[start..start + token.len()] != token.as_slice() {
                start += 1;
            }
            *cursor = start + token.len();
            Placed { kind: *kind, start, end: *cursor, children: Vec::new() }
        }
        Shape::Inner(kind, shapes) => {
            let first = *cursor;
            let children: Vec<Placed> = shapes.iter().map(|s| place(s, source, cursor)).collect();
            let start = children.first().map(|c| c.start).unwrap_or(first);
            let end = children.last().map(|c| c.end).unwrap_or(first);
            Placed { kind: *kind, start, end, children }
        }
    }
}

fn emit(placed: &Placed, builder: &mut TreeBuilder) {
    builder.open_node(SyntaxNode { kind: placed.kind, start_byte: placed.start, end_byte: placed.end });
    for child in &placed.children {
        emit(child, builder);
    }
    assert!(builder.close_node());
}

/// The syntax tree of `source` with the shape `shape`.
pub fn tree_of(source: &[u8], shape: &str) -> SyntaxTree {
    let mut at = 0;
    let shape = parse_shape(shape.as_bytes(), &mut at);
    let mut cursor = 0;
    let placed = place(&shape, source, &mut cursor);
    let mut builder = TreeBuilder::new();
    emit(&placed, &mut builder);
    builder.finish().unwrap()
}

fn test_writer_output_is_target(source: &[u8], shape: &str, target: &[u8]) {
    let source = source.to_vec();
    let tree = tree_of(&source, shape);
    assert!(tree.fits_source(source.len()));
    assert!(tree.has_switch_children());
    let output = compile(&tree, &source).unwrap();
    if output != target {
        panic!(
            "output not equal to target.\noutput: [{}]\ntarget: [{}]",
            str::from_utf8(&output).unwrap(),
            str::from_utf8(target).unwrap()
        );
    }
    assert!(output == target);
}

#[test]
fn hello_world() {
    let source = br#"
pageextension 70074160 MS_CustomerListExt extends "Customer List"
{
    trigger OnOpenPage() {
        Message('Hello world');
    }
}"#;

    let shape = r#"(source_file (object `pageextension` `70074160` `MS_CustomerListExt` `extends` `"Customer List"` `{`
        (method_definition `trigger` `OnOpenPage` `(` `)`
            (code_block code_begin`{`
                (statement `Message` `(` `'Hello world'` `)` `;`)
                code_end`}`))
        `}`))"#;

    let target = br#"
pageextension 70074160 MS_CustomerListExt extends "Customer List"
{
    trigger OnOpenPage()
    begin
        Message('Hello world');
    end;
}"#;
    test_writer_output_is_target(source, shape, target);
}

#[test]
fn if_statements() {
    let source = br#"
page 70074160 MS_CustomerListExt
{
    trigger OnOpenPage() {
        if a == true and 6 * 5 + 1 == 4 {
            DoSomething();
        } else {
            DoSomethingElse();
        }

        if a == true {
            DoSomething();
        }
    }
}"#;

    let shape = r#"(source_file (object `page` `70074160` `MS_CustomerListExt` `{`
        (method_definition `trigger` `OnOpenPage` `(` `)`
            (code_block code_begin`{`
                (if_statement `if`
                    (binary_expression
                        (binary_expression `a` equals_op`==` `true`)
                        `and`
                        (binary_expression
                            (binary_expression (binary_expression `6` `*` `5`) `+` `1`)
                            equals_op`==` `4`))
                    (code_block code_begin`{` (statement `DoSomething` `(` `)` `;`) code_end`}`)
                    `else`
                    (code_block code_begin`{` (statement `DoSomethingElse` `(` `)` `;`) code_end`}`))
                (if_statement `if`
                    (binary_expression `a` equals_op`==` `true`)
                    (code_block code_begin`{` (statement `DoSomething` `(` `)` `;`) code_end`}`))
                code_end`}`))
        `}`))"#;

    let target = br#"
page 70074160 MS_CustomerListExt
{
    trigger OnOpenPage()
    begin
        if (a = true) and (((6 * 5) + 1) = 4) then begin
            DoSomething();
        end else begin
            DoSomethingElse();
        end;

        if a = true then begin
            DoSomething();
        end;
    end;
}"#;
    test_writer_output_is_target(source, shape, target);
}

#[test]
fn return_statements() {
    let source = br#"
page 70074160 MS_CustomerListExt
{
    trigger OnOpenPage() {
        return a - 1 * 7;
        return;
        return /* test comment */;
    }
}"#;

    let shape = r#"(source_file (object `page` `70074160` `MS_CustomerListExt` `{`
        (method_definition `trigger` `OnOpenPage` `(` `)`
            (code_block code_begin`{`
                (return_statement_with_expression return_keyword`return`
                    (expression (binary_expression `a` `-` (binary_expression `1` `*` `7`)))
                    statement_end`;`)
                (return_statement return_keyword`return` statement_end`;`)
                (return_statement return_keyword`return` `/* test comment */` statement_end`;`)
                code_end`}`))
        `}`))"#;

    let target = br#"
page 70074160 MS_CustomerListExt
{
    trigger OnOpenPage()
    begin
        exit(a - (1 * 7));
        exit;
        exit /* test comment */;
    end;
}"#;
    test_writer_output_is_target(source, shape, target);
}

#[test]
fn switch_statements() {
    let source = br#"
page 70074160 MS_CustomerListExt
{
    trigger OnOpenPage() {
        switch 7 * 4 / 4 {
        case 4:
            DoOne();
            switch 3 {
            case 3:
                DoInner();
            }
            DoTwo();
        /* comment 1 */ case /* comment2 */ 3 /* comment3 */:
            DoOnlyOne();
        default:
            DoOne();
            DoTwo();
        }
    }
}"#;

    let shape = r#"(source_file (object `page` `70074160` `MS_CustomerListExt` `{`
        (method_definition `trigger` `OnOpenPage` `(` `)`
            (code_block code_begin`{`
                (switch_statement switch_keyword`switch`
                    (binary_expression (binary_expression `7` `*` `4`) `/` `4`)
                    switch_begin`{`
                    (case_clause case_keyword`case` `4` `:`
                        (multiple_statements
                            (statement `DoOne` `(` `)` `;`)
                            (switch_statement switch_keyword`switch` `3` switch_begin`{`
                                (case_clause case_keyword`case` `3` `:`
                                    (statement `DoInner` `(` `)` `;`))
                                switch_end`}`)
                            (statement `DoTwo` `(` `)` `;`)))
                    `/* comment 1 */`
                    (case_clause case_keyword`case` `/* comment2 */` `3` `/* comment3 */` `:`
                        (statement `DoOnlyOne` `(` `)` `;`))
                    (default_clause case_default_keyword`default` case_default_begin`:`
                        (multiple_statements
                            (statement `DoOne` `(` `)` `;`)
                            (statement `DoTwo` `(` `)` `;`)))
                    switch_end`}`)
                code_end`}`))
        `}`))"#;

    let target = br#"
page 70074160 MS_CustomerListExt
{
    trigger OnOpenPage()
    begin
        case (7 * 4) / 4 of
            4:
                begin
                    DoOne();
                    case 3 of
                        3:
                            DoInner();
                    end;
                    DoTwo();
                end;
            /* comment 1 */ /* comment2 */ 3 /* comment3 */:
                DoOnlyOne();
            else
                begin
                    DoOne();
                    DoTwo();
                end;
        end;
    end;
}"#;
    test_writer_output_is_target(source, shape, target);
}

#[test]
fn vars() {
    let source = br#"
page 70074160 MS_CustomerListExt
{
    trigger OnOpenPage() {
        MoreContent0();
        var/* test */ a: Integer /* test */;
        MoreContent1();
        var "Quoted Name": Label "test label";
    }
    trigger OnBeforeGetRecord() {
        var IsRecordSaved:/* test1 */ Boolean /* test2 */ = false;
    }
}"#;

    let shape = r#"(source_file (object `page` `70074160` `MS_CustomerListExt` `{`
        (method_definition `trigger` `OnOpenPage` `(` `)`
            (code_block code_begin`{`
                (statement `MoreContent0` `(` `)` `;`)
                (var_declaration declaration_keyword`var` `/* test */` `a` `:`
                    (var_type_declaration `Integer`) `/* test */` statement_end`;`)
                (statement `MoreContent1` `(` `)` `;`)
                (var_declaration declaration_keyword`var` `"Quoted Name"` `:`
                    (var_type_declaration `Label` `"test label"`) statement_end`;`)
                code_end`}`))
        (method_definition `trigger` `OnBeforeGetRecord` `(` `)`
            (code_block code_begin`{`
                (var_declaration_with_assignment declaration_keyword`var` `IsRecordSaved`
                    (var_type_declaration `:` `/* test1 */` `Boolean`)
                    `/* test2 */` assign_op`=` `false` statement_end`;`)
                code_end`}`))
        `}`))"#;

    let target = br#"
page 70074160 MS_CustomerListExt
{
    trigger OnOpenPage()
    var
        /* test */ a: Integer /* test */;
        "Quoted Name": Label "test label";
    begin
        MoreContent0();
        MoreContent1();
    end;
    trigger OnBeforeGetRecord()
    var
        IsRecordSaved:/* test1 */ Boolean;
    begin
        IsRecordSaved /* test2 */ := false;
    end;
}"#;
    test_writer_output_is_target(source, shape, target);
}

#[test]
fn operators() {
    let source = br#"
page 70074160 MS_CustomerListExt
{
    trigger OnOpenPage() {
        a = (5 == 7 % 4 div 2) != true;
    }
}"#;

    let shape = r#"(source_file (object `page` `70074160` `MS_CustomerListExt` `{`
        (method_definition `trigger` `OnOpenPage` `(` `)`
            (code_block code_begin`{`
                (assignment `a` assign_op`=`
                    (binary_expression
                        (parenthesized_expression `(`
                            (binary_expression `5` equals_op`==`
                                (binary_expression (binary_expression `7` mod_op`%` `4`) `div` `2`))
                            `)`)
                        not_equals_op`!=` `true`)
                    `;`)
                code_end`}`))
        `}`))"#;

    let target = br#"
page 70074160 MS_CustomerListExt
{
    trigger OnOpenPage()
    begin
        a := (5 = ((7 mod 4) div 2)) <> true;
    end;
}"#;
    test_writer_output_is_target(source, shape, target);
}

#[test]
fn loops() {
    let source = br#"
page 70074160 MS_CustomerListExt
{
    trigger OnOpenPage() {
        for a = 1 to 5 {
            a += 1;
        }
        foreach a in b {
            a += 1;
        }
        while true {
            a += 1;
        }
        repeat {
            Hello();
        } until Bye();
    }
}"#;

    let shape = r#"(source_file (object `page` `70074160` `MS_CustomerListExt` `{`
        (method_definition `trigger` `OnOpenPage` `(` `)`
            (code_block code_begin`{`
                (for_loop `for` `a` assign_op`=` `1` `to` `5`
                    (code_block code_begin`{` (statement `a` `+=` `1` `;`) code_end`}`))
                (foreach_loop `foreach` `a` `in` `b`
                    (code_block code_begin`{` (statement `a` `+=` `1` `;`) code_end`}`))
                (while_loop `while` `true`
                    (code_block code_begin`{` (statement `a` `+=` `1` `;`) code_end`}`))
                (repeat_until_loop `repeat`
                    (code_block code_begin`{` (statement `Hello` `(` `)` `;`) code_end`}`)
                    `until` (call `Bye` `(` `)`) `;`)
                code_end`}`))
        `}`))"#;

    let target = br#"
page 70074160 MS_CustomerListExt
{
    trigger OnOpenPage()
    begin
        for a := 1 to 5 do begin
            a += 1;
        end;
        foreach a in b do begin
            a += 1;
        end;
        while true do begin
            a += 1;
        end;
        repeat
            Hello();
        until Bye();
    end;
}"#;
    test_writer_output_is_target(source, shape, target);
}

#[test]
fn global_vars() {
    let source = br#"
pageextension 70074160 MS_CustomerListExt extends "Customer List"
{
    var
        a: Boolean;
    protected var
        a: Boolean;
        b: Label 'test';

    trigger OnOpenPage() {
        Message('Hello world');
    }
}"#;

    let shape = r#"(source_file (object `pageextension` `70074160` `MS_CustomerListExt` `extends` `"Customer List"` `{`
        (var_section `var` (variable `a` `:` `Boolean` `;`))
        (var_section `protected` `var` (variable `a` `:` `Boolean` `;`) (variable `b` `:` `Label` `'test'` `;`))
        (method_definition `trigger` `OnOpenPage` `(` `)`
            (code_block code_begin`{`
                (statement `Message` `(` `'Hello world'` `)` `;`)
                code_end`}`))
        `}`))"#;

    let target = br#"
pageextension 70074160 MS_CustomerListExt extends "Customer List"
{
    var
        a: Boolean;
    protected var
        a: Boolean;
        b: Label 'test';

    trigger OnOpenPage()
    begin
        Message('Hello world');
    end;
}"#;
    test_writer_output_is_target(source, shape, target);
}

#[test]
fn object_with_property() {
    let source = br#"
table 50100 "Main Vendors"
{
    TableRelation = Vendor."No." where ("Balance (LCY)" == filter (!= 10000));
}"#;

    let shape = r#"(source_file (object `table` `50100` `"Main Vendors"` `{`
        (property `TableRelation` assign_op`=` `Vendor` `.` `"No."` `where` `(` `"Balance (LCY)"`
            equals_op`==` `filter` `(` not_equals_op`!=` `10000` `)` `)` `;`)
        `}`))"#;

    let target = br#"
table 50100 "Main Vendors"
{
    TableRelation = Vendor."No." where ("Balance (LCY)" = filter (<> 10000));
}"#;
    test_writer_output_is_target(source, shape, target);
}

fn compile_shape(source: &[u8], shape: &str) -> Vec<u8> {
    let source = source.to_vec();
    let tree = tree_of(&source, shape);
    assert!(tree.fits_source(source.len()));
    assert!(tree.has_switch_children());
    compile(&tree, &source).unwrap()
}

#[test]
fn plain_tree_is_copied_verbatim() {
    let source = b"  table 1 { x; }\n";
    let shape = "(source_file (object `table` `1` `{` (statement `x` `;`) `}`))";
    assert_eq!(compile_shape(source, shape), source.to_vec());
}

#[test]
fn tokens_are_translated_and_other_text_copied() {
    let source = b"a == b % c != d";
    let shape = "(source_file (expr `a` equals_op`==` `b` mod_op`%` `c` not_equals_op`!=` `d`))";
    assert_eq!(compile_shape(source, shape), b"a = b mod c <> d".to_vec());
}

#[test]
fn assignment_outside_code_stays() {
    let source = b"x = 1;";
    let shape = "(source_file (property `x` assign_op`=` `1` `;`))";
    assert_eq!(compile_shape(source, shape), b"x = 1;".to_vec());
}

#[test]
fn assignment_in_code_becomes_colon_equals() {
    let source = b"{ x = 1; }";
    let shape = "(source_file (code_block code_begin`{` (statement `x` assign_op`=` `1` `;`) code_end`}`))";
    assert_eq!(compile_shape(source, shape), b"begin x := 1; end".to_vec());
}

#[test]
fn empty_source_file_copies_the_source() {
    let source = b"just text";
    let mut builder = TreeBuilder::new();
    builder.open_node(SyntaxNode { kind: NodeKind::SourceFile, start_byte: 0, end_byte: 0 });
    let tree = builder.finish().unwrap();
    assert_eq!(compile(&tree, &source.to_vec()), Some(source.to_vec()));
}

#[test]
fn method_declarations_go_before_begin() {
    let source = b"\n  m() {\n    var x: Integer;\n    y();\n  }\n}";
    let shape = r#"(source_file (method_definition `m` `(` `)`
        (code_block code_begin`{`
            (var_declaration declaration_keyword`var` `x` `:` (var_type_declaration `Integer`) statement_end`;`)
            (statement `y` `(` `)` `;`)
            code_end`}`)) `}`)"#;
    assert_eq!(
        compile_shape(source, shape),
        b"\n  m()\n  var\n      x: Integer;\n  begin\n    y();\n  end;\n}".to_vec()
    );
}

#[test]
fn nested_binary_expressions_get_parentheses() {
    let source = b"x(1 + 2 * 3)";
    let shape = r#"(source_file (call `x` `(` (binary_expression `1` `+` (binary_expression `2` `*` `3`)) `)`))"#;
    assert_eq!(compile_shape(source, shape), b"x(1 + (2 * 3))".to_vec());
}

#[test]
fn switch_without_children_is_refused() {
    let source = b"a s b".to_vec();
    let shape = "(source_file (statement `a`) (switch_statement) (statement `b`))";
    let tree = tree_of(&source, shape);
    assert!(!tree.has_switch_children());
    assert_eq!(transpile_tree(Some(tree), &source), Err(TranspileError::ChildlessSwitch));
}

#[test]
fn block_without_indentation_is_refused() {
    let source = b"\nm() {\n}".to_vec();
    let shape = r#"(source_file (method_definition `m` `(` `)`
        (multiple_statements (code_block code_begin`{`))
        code_end`}`))"#;
    let tree = tree_of(&source, shape);
    assert_eq!(compile(&tree, &source), None);
    assert_eq!(transpile_tree(Some(tree), &source), Err(TranspileError::UnindentableBlock));
}

#[test]
fn walker_moves_and_skips() {
    let source = b"a b c".to_vec();
    let tree = tree_of(&source, "(source_file (x `a` (y `b`)) `c`)");
    let mut walker = Walker::new(tree.walk(), &source);
    assert!(walker.skip_to_first_child());
    assert!(walker.skip_to_first_child());
    assert_eq!(walker.cursor.node().start_byte, 0);
    assert!(walker.skip_to_next_sibling());
    assert!(walker.skip_to_first_child());
    assert_eq!(walker.cursor.node().start_byte, 2);
    assert!(walker.skip_to_next_node());
    assert_eq!(walker.cursor.node().start_byte, 4);
    assert!(!walker.skip_to_next_node());
    assert_eq!(walker.cursor.node().kind, NodeKind::SourceFile);
    assert!(!walker.skip_to_parent());
}

#[test]
fn walker_try_walk_to_sibling_writes_what_it_passes() {
    let source = b"a b c".to_vec();
    let tree = tree_of(&source, "(source_file `a` `b` statement_end`c`)");
    let mut walker = Walker::new(tree.walk(), &source);
    assert!(walker.skip_to_first_child());
    assert!(walker.try_walk_to_sibling(NodeKind::StatementEnd));
    assert_eq!(walker.writer.get_output(), &b"a b".to_vec());
    assert_eq!(walker.cursor.node().start_byte, 4);
    assert!(!walker.try_walk_to_sibling(NodeKind::CodeBlock));
    assert_eq!(walker.writer.get_output(), &b"a b c".to_vec());
}

#[test]
fn walker_step_mapped_node_replaces_the_node() {
    let source = b"  x y".to_vec();
    let tree = tree_of(&source, "(source_file `x` `y`)");
    let mut walker = Walker::new(tree.walk(), &source);
    assert!(walker.skip_to_first_child());
    walker.step_mapped_node(b"zz");
    assert_eq!(walker.writer.get_output(), &b"  zz".to_vec());
    assert!(walker.skip_to_next_sibling());
    walker.walk_node(true);
    assert_eq!(walker.writer.get_output(), &b"  zz y".to_vec());
}

#[test]
fn customizer_matches_only_its_kinds() {
    let source = b"a % b".to_vec();
    let tree = tree_of(&source, "(source_file `a` mod_op`%` `b`)");
    let mut walker = Walker::new(tree.walk(), &source);
    assert!(walker.skip_to_first_child());
    assert!(!Customizer::match_node(&mut walker));
    assert!(walker.writer.get_output().is_empty());
    walker.walk_node(true);
    assert!(walker.skip_to_next_sibling());
    assert!(Customizer::match_node(&mut walker));
    assert_eq!(walker.writer.get_output(), &b"a mod".to_vec());
}

#[test]
fn customizer_clears_saved_vars() {
    let mut customizer = Customizer::new();
    customizer.clear_saved_vars();
}

#[test]
fn walk_with_no_budget_does_nothing() {
    let source = b"a".to_vec();
    let tree = tree_of(&source, "(source_file `a`)");
    let mut walker = Walker::new(tree.walk(), &source);
    walker.walk_in(0);
    walker.walk_node_in(true, 0);
    assert!(walker.writer.get_output().is_empty());
    walker.walk_in(5);
    assert_eq!(walker.writer.get_output(), &b"a".to_vec());
}
