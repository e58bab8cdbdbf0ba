use x86gen::text::{decimal_string, join};
use x86gen::Assembler;

#[test]
fn finalize_of_the_empty_state() {
    let assembler = Assembler::default();
    assert_eq!(
        assembler.finalize(),
        "\nsection\t.text\n  global _start\n\n\nsection .data\n\nsegment .bss\n"
    );
}

#[test]
fn finalize_puts_the_sections_in_order() {
    let mut assembler = Assembler::default();
    assembler.define_byte("tmp");
    assembler.declare_byte("x", "'5'");
    assembler.label("_start");
    assembler.inst("mov eax, 1");
    assembler.inst("int 0x80");
    assembler.declare_byte("y", "'6'");
    assembler.define_byte("other");
    assert_eq!(
        assembler.finalize(),
        "\nsection\t.text\n  global _start\n\n_start:\n  mov eax, 1\n  int 0x80\nsection .data\n  x db '5'\n  y db '6'\nsegment .bss\n  tmp resb 1\n  other resb 1"
    );
}

#[test]
fn finalize_is_idempotent() {
    let mut assembler = Assembler::default();
    assembler.label("_start");
    assembler.inst("nop");
    assembler.define_byte("b");
    let first = assembler.finalize();
    let second = assembler.finalize();
    assert_eq!(first, second);
    assembler.inst("nop");
    assert_ne!(assembler.finalize(), first);
}

#[test]
fn label_line_ends_in_a_colon() {
    let mut assembler = Assembler::default();
    assembler.label("loop");
    assert!(assembler.finalize().contains("\n\nloop:\nsection .data\n"));
}

#[test]
fn instruction_line_is_indented_by_two_spaces() {
    let mut assembler = Assembler::default();
    assembler.inst("mov eax, 4");
    assert!(assembler
        .finalize()
        .contains("\n\n  mov eax, 4\nsection .data\n"));
}

#[test]
fn define_byte_reserves_one_byte() {
    let mut assembler = Assembler::default();
    assembler.define_byte("abc");
    assert!(assembler.finalize().ends_with("\nsegment .bss\n  abc resb 1"));
}

#[test]
fn declare_byte_declares_an_initialized_byte() {
    let mut assembler = Assembler::default();
    assembler.declare_byte("abc", "'7'");
    assert!(assembler
        .finalize()
        .contains("\nsection .data\n  abc db '7'\nsegment .bss\n"));
}

#[test]
fn declare_comptime_records_and_overwrites() {
    let mut assembler = Assembler::default();
    assert_eq!(assembler.substitution("x"), None);
    assembler.declare_comptime("x", "[abc]");
    assert_eq!(assembler.substitution("x"), Some("[abc]".to_string()));
    assert_eq!(assembler.variables.get("x"), Some(&"[abc]".to_string()));
    assembler.declare_comptime("x", "[def]");
    assembler.declare_comptime("y", "x");
    assert_eq!(assembler.substitution("x"), Some("[def]".to_string()));
    assert_eq!(assembler.substitution("y"), Some("x".to_string()));
    assert_eq!(assembler.variables.len(), 2);
    assert_eq!(
        assembler.finalize(),
        "\nsection\t.text\n  global _start\n\n\nsection .data\n\nsegment .bss\n"
    );
}

#[test]
fn decimal_string_of_some_values() {
    assert_eq!(decimal_string(0), "0");
    assert_eq!(decimal_string(5), "5");
    assert_eq!(decimal_string(10), "10");
    assert_eq!(decimal_string(42), "42");
    assert_eq!(decimal_string(-1), "-1");
    assert_eq!(decimal_string(1000000), "1000000");
    assert_eq!(decimal_string(i64::MAX), "9223372036854775807");
    assert_eq!(decimal_string(i64::MIN), "-9223372036854775808");
}

#[test]
fn join_puts_a_newline_between_lines() {
    assert_eq!(join(&vec![]), "");
    assert_eq!(join(&vec!["a".to_string()]), "a");
    assert_eq!(
        join(&vec!["a".to_string(), "".to_string(), "b".to_string()]),
        "a\n\nb"
    );
}
