use x86gen::{lex, Compiler, InBuiltFn, Literal, Node, Op, Parser};

fn names(n: usize) -> Vec<String> {
    (0..n).map(|i| format!("t{}", i)).collect()
}

fn text_of(code: &[&str], data: &[&str], bss: &[&str]) -> String {
    format!(
        "\nsection\t.text\n  global _start\n\n{}\nsection .data\n{}\nsegment .bss\n{}",
        code.join("\n"),
        data.join("\n"),
        bss.join("\n")
    )
}

fn section<'a>(text: &'a str, from: &str, to: Option<&str>) -> Vec<&'a str> {
    let start = text.find(from).unwrap() + from.len();
    let end = match to {
        Some(to) => text.find(to).unwrap(),
        None => text.len(),
    };
    if start >= end {
        return vec![];
    }
    text[start..end].split('\n').collect()
}

fn code_of(text: &str) -> Vec<&str> {
    section(text, "  global _start\n\n", Some("\nsection .data\n"))
}

fn data_of(text: &str) -> Vec<&str> {
    section(text, "\nsection .data\n", Some("\nsegment .bss\n"))
}

fn bss_of(text: &str) -> Vec<&str> {
    section(text, "\nsegment .bss\n", None)
}

fn temp_of(bss_line: &str) -> &str {
    bss_line
        .strip_prefix("  ")
        .unwrap()
        .strip_suffix(" resb 1")
        .unwrap()
}

/// Replaces every generated name by the rank of the node that took it.
fn normalized(text: &str) -> String {
    let mut out = text.to_string();
    for (rank, line) in bss_of(text).iter().enumerate() {
        out = out.replace(temp_of(line), &format!("#{}", rank));
    }
    out
}

fn compile_text(source: &str) -> String {
    let mut compiler = Compiler::default();
    compiler.compile(Parser::parse(lex(source)))
}

fn compile_named(source: &str, n: usize) -> String {
    let mut compiler = Compiler::default();
    compiler.compile_with_names(Parser::parse(lex(source)), names(n))
}

#[test]
fn compile_sum_with_given_names_gives_exact_text() {
    assert_eq!(
        compile_named("1 + 1", 3),
        text_of(
            &[
                "_start:",
                "  mov ecx, '1'",
                "  sub ecx, '0'",
                "  mov edx, '1'",
                "  sub edx, '0'",
                "  mov eax, ecx",
                "  add eax, edx",
                "  add eax, '0'",
                "  mov [t0], eax",
                "  mov eax, 1",
                "  int 0x80",
            ],
            &[],
            &["  t0 resb 1"],
        )
    );
}

#[test]
fn compile_sum_has_one_label_the_exit_sequence_and_one_byte() {
    let text = compile_text("1 + 1");
    let code = code_of(&text);
    assert_eq!(code.iter().filter(|l| **l == "_start:").count(), 1);
    assert_eq!(code[0], "_start:");
    assert_eq!(code.iter().filter(|l| l.ends_with(':')).count(), 1);
    assert_eq!(code[code.len() - 2..], ["  mov eax, 1", "  int 0x80"]);
    let bss = bss_of(&text);
    assert_eq!(bss.len(), 1);
    let temp = temp_of(bss[0]);
    assert_eq!(temp.len(), 10);
    assert!(temp.chars().all(|c| c.is_ascii_alphanumeric()));
    assert_eq!(
        text,
        text_of(
            &[
                "_start:",
                "  mov ecx, '1'",
                "  sub ecx, '0'",
                "  mov edx, '1'",
                "  sub edx, '0'",
                "  mov eax, ecx",
                "  add eax, edx",
                "  add eax, '0'",
                &format!("  mov [{}], eax", temp),
                "  mov eax, 1",
                "  int 0x80",
            ],
            &[],
            &[&format!("  {} resb 1", temp)],
        )
    );
}

#[test]
fn compile_nested_sums_reserve_one_byte_for_each_sum() {
    let text = compile_text("1 + 2 + 3");
    assert_eq!(bss_of(&text).len(), 2);
    let text = compile_text("1 + 2 + 3 + 4");
    assert_eq!(bss_of(&text).len(), 3);
}

#[test]
fn compile_binding_of_a_sum_records_a_substitution() {
    let mut compiler = Compiler::default();
    let program = Parser::parse(lex("let x = 1 + 1; print(x)"));
    let text = compiler.compile(program);
    let bss = bss_of(&text);
    assert_eq!(bss.len(), 3);
    let sum_temp = temp_of(bss[0]);
    let held = compiler.assembler().substitution("x");
    assert_eq!(held, Some(format!("[{}]", sum_temp)));
    assert_eq!(
        compiler.assembler().variables.get("x"),
        Some(&format!("[{}]", sum_temp))
    );
    assert_eq!(data_of(&text), Vec::<&str>::new());
    let code = code_of(&text);
    let print_at = code.len() - 2 - 5;
    assert_eq!(code[print_at], format!("  mov ecx, {}", held.unwrap()));
    assert_eq!(
        code[print_at + 1..print_at + 5],
        ["  mov edx, 2", "  mov ebx, 1", "  mov eax, 4", "  int 0x80"]
    );
}

#[test]
fn compile_binding_and_print_with_given_names_gives_exact_text() {
    let mut compiler = Compiler::default();
    let program = Parser::parse(lex("let x = 1 + 1; print(x)"));
    let text = compiler.compile_with_names(program, names(6));
    assert_eq!(
        text,
        text_of(
            &[
                "_start:",
                "  mov ecx, '1'",
                "  sub ecx, '0'",
                "  mov edx, '1'",
                "  sub edx, '0'",
                "  mov eax, ecx",
                "  add eax, edx",
                "  add eax, '0'",
                "  mov [t1], eax",
                "  mov ecx, [t1]",
                "  mov edx, 2",
                "  mov ebx, 1",
                "  mov eax, 4",
                "  int 0x80",
                "  mov eax, 1",
                "  int 0x80",
            ],
            &[],
            &["  t1 resb 1", "  t0 resb 1", "  t4 resb 1"],
        )
    );
    assert_eq!(
        compiler.assembler().substitution("x"),
        Some("[t1]".to_string())
    );
    assert_eq!(compiler.assembler().finalize(), text);
}

#[test]
fn compile_single_digit_literal_is_a_quoted_character() {
    assert_eq!(
        compile_named("print(5)", 2),
        text_of(
            &[
                "_start:",
                "  mov ecx, '5'",
                "  mov edx, 2",
                "  mov ebx, 1",
                "  mov eax, 4",
                "  int 0x80",
                "  mov eax, 1",
                "  int 0x80",
            ],
            &[],
            &["  t0 resb 1"],
        )
    );
    assert_eq!(data_of(&compile_named("let d = 5", 2)), ["  d db '5'"]);
    assert_eq!(
        compile_named("5", 1),
        text_of(&["_start:", "  mov eax, 1", "  int 0x80"], &[], &[])
    );
}

#[test]
fn compile_longer_literal_is_quoted_as_it_stands() {
    assert_eq!(data_of(&compile_named("let d = 42", 2)), ["  d db '42'"]);
    assert_eq!(code_of(&compile_named("print(42)", 2))[1], "  mov ecx, '42'");
    assert_eq!(
        code_of(&compile_named("print(9223372036854775807)", 2))[1],
        "  mov ecx, '9223372036854775807'"
    );
    let mut compiler = Compiler::default();
    let negative = vec![Node::Fn(InBuiltFn::Print(Box::new(Node::Literal(
        Literal::Int(-17),
    ))))];
    let text = compiler.compile_with_names(negative, names(2));
    assert_eq!(code_of(&text)[1], "  mov ecx, '-17'");
}

#[test]
fn compile_binding_of_a_literal_declares_an_initialized_byte() {
    let mut compiler = Compiler::default();
    let text = compiler.compile_with_names(Parser::parse(lex("let x = 7; print(x)")), names(4));
    assert_eq!(data_of(&text), ["  x db '7'"]);
    assert_eq!(compiler.assembler().substitution("x"), None);
    assert_eq!(code_of(&text)[1], "  mov ecx, x");
    assert_eq!(bss_of(&text), ["  t0 resb 1", "  t2 resb 1"]);
}

#[test]
fn compile_later_binding_replaces_the_substitution() {
    let mut compiler = Compiler::default();
    let source = "let x = 1 + 1; let x = 2 + 2; print(x)";
    let text = compiler.compile_with_names(Parser::parse(lex(source)), names(10));
    assert_eq!(
        compiler.assembler().substitution("x"),
        Some("[t5]".to_string())
    );
    assert_eq!(compiler.assembler().variables.len(), 1);
    let code = code_of(&text);
    assert_eq!(code[code.len() - 7], "  mov ecx, [t5]");
}

#[test]
fn compile_binding_to_a_bound_name_copies_its_substitution() {
    let mut compiler = Compiler::default();
    let source = "let x = 1 + 1; let y = x; print(y)";
    let text = compiler.compile_with_names(Parser::parse(lex(source)), names(8));
    assert_eq!(
        compiler.assembler().substitution("y"),
        Some("[t1]".to_string())
    );
    let code = code_of(&text);
    assert_eq!(code[code.len() - 7], "  mov ecx, [t1]");
}

#[test]
fn compile_unbound_name_stands_for_itself() {
    assert_eq!(code_of(&compile_named("print(y)", 2))[1], "  mov ecx, y");
    let text = compile_named("a + b", 3);
    assert_eq!(code_of(&text)[1], "  mov ecx, a");
    assert_eq!(code_of(&text)[3], "  mov edx, b");
}

#[test]
fn compile_operand_that_begins_with_a_quote_counts_as_a_literal() {
    let mut compiler = Compiler::default();
    let program = vec![Node::Assign(
        "x".to_string(),
        Box::new(Node::Ident("'q".to_string())),
    )];
    let text = compiler.compile_with_names(program, names(2));
    assert_eq!(data_of(&text), ["  x db 'q"]);
    assert_eq!(compiler.assembler().substitution("x"), None);

    let mut compiler = Compiler::default();
    let program = vec![Node::Assign(
        "x".to_string(),
        Box::new(Node::Ident("".to_string())),
    )];
    let text = compiler.compile_with_names(program, names(2));
    assert_eq!(data_of(&text), Vec::<&str>::new());
    assert_eq!(compiler.assembler().substitution("x"), Some("".to_string()));
}

#[test]
fn compile_difference_subtracts() {
    let mut compiler = Compiler::default();
    let program = vec![Node::Infix {
        lhs: Box::new(Node::Literal(Literal::Int(9))),
        rhs: Box::new(Node::Literal(Literal::Int(4))),
        op: Op::Sub,
    }];
    let text = compiler.compile_with_names(program, names(3));
    assert_eq!(
        code_of(&text),
        [
            "_start:",
            "  mov ecx, '9'",
            "  sub ecx, '0'",
            "  mov edx, '4'",
            "  sub edx, '0'",
            "  mov eax, ecx",
            "  sub eax, edx",
            "  add eax, '0'",
            "  mov [t0], eax",
            "  mov eax, 1",
            "  int 0x80",
        ]
    );
}

#[test]
fn compile_nested_sum_takes_names_in_visiting_order() {
    let text = compile_named("1 + 2 + 3", 5);
    assert_eq!(
        code_of(&text),
        [
            "_start:",
            "  mov ecx, '2'",
            "  sub ecx, '0'",
            "  mov edx, '3'",
            "  sub edx, '0'",
            "  mov eax, ecx",
            "  add eax, edx",
            "  add eax, '0'",
            "  mov [t2], eax",
            "  mov ecx, '1'",
            "  sub ecx, '0'",
            "  mov edx, [t2]",
            "  sub edx, '0'",
            "  mov eax, ecx",
            "  add eax, edx",
            "  add eax, '0'",
            "  mov [t0], eax",
            "  mov eax, 1",
            "  int 0x80",
        ]
    );
    assert_eq!(bss_of(&text), ["  t2 resb 1", "  t0 resb 1"]);
}

#[test]
fn compile_sum_of_prints_takes_names_past_the_left_operand() {
    let text = compile_named("f(1) + g(2)", 5);
    assert_eq!(bss_of(&text), ["  t1 resb 1", "  t3 resb 1", "  t0 resb 1"]);
    let code = code_of(&text);
    assert_eq!(code[11], "  mov ecx, [t1]");
    assert_eq!(code[13], "  mov edx, [t3]");
}

#[test]
fn compile_generates_the_names_that_are_not_given() {
    let mut compiler = Compiler::default();
    let program = Parser::parse(lex("f(1) + g(2)"));
    let text = compiler.compile_with_names(program, names(2));
    let bss = bss_of(&text);
    assert_eq!(bss.len(), 3);
    assert_eq!(bss[0], "  t1 resb 1");
    assert_eq!(bss[2], "  t0 resb 1");
    let generated = temp_of(bss[1]);
    assert_eq!(generated.len(), 10);
    assert!(generated.chars().all(|c| c.is_ascii_alphanumeric()));
}

#[test]
fn compile_generated_names_are_ten_alphanumeric_characters() {
    let text = compile_text("let a = 1 + 2 + 3; print(a + 4); f(g(h(5)))");
    let bss = bss_of(&text);
    assert_eq!(bss.len(), 8);
    for line in bss {
        let temp = temp_of(line);
        assert_eq!(temp.len(), 10);
        assert!(temp.chars().all(|c| c.is_ascii_alphanumeric()));
    }
}

#[test]
fn compile_empty_program_is_label_and_exit() {
    let mut compiler = Compiler::default();
    assert_eq!(
        compiler.compile(vec![]),
        text_of(&["_start:", "  mov eax, 1", "  int 0x80"], &[], &[])
    );
}

#[test]
fn compile_twice_on_one_compiler_appends() {
    let mut compiler = Compiler::default();
    let first = compiler.compile_with_names(Parser::parse(lex("let x = 1 + 1")), names(4));
    let second = compiler.compile_with_names(Parser::parse(lex("print(x)")), names(2));
    assert_eq!(
        code_of(&second)[..code_of(&first).len()],
        code_of(&first)[..]
    );
    assert_eq!(bss_of(&second), ["  t1 resb 1", "  t0 resb 1", "  t0 resb 1"]);
    let code = code_of(&second);
    assert_eq!(code[code_of(&first).len()], "_start:");
    assert_eq!(code[code_of(&first).len() + 1], "  mov ecx, [t1]");
}

#[test]
fn compile_same_input_same_names_same_output() {
    let source = "let x = 1 + 1; print(x)";
    assert_eq!(compile_named(source, 6), compile_named(source, 6));
}

#[test]
fn compile_same_input_differs_only_in_generated_names() {
    let source = "let x = 1 + 2 + 3; print(x); print(x + 4)";
    let first = compile_text(source);
    let second = compile_text(source);
    assert_eq!(normalized(&first), normalized(&second));
    assert_eq!(code_of(&first).len(), code_of(&second).len());
    assert_eq!(bss_of(&first).len(), bss_of(&second).len());
    assert_eq!(data_of(&first), data_of(&second));
}

#[test]
fn compile_output_is_the_pattern_with_the_names_filled_in() {
    let source = "let x = 1 + 1; print(x)";
    let pattern = normalized(&compile_text(source));
    let named = compile_named(source, 6);
    let filled = pattern
        .replace("#0", "t1")
        .replace("#1", "t0")
        .replace("#2", "t4");
    assert_eq!(filled, named);
}
