use hack_assembler::{assemble, AsmError};

fn run(src: &str) -> Result<Vec<u8>, AsmError> {
    assemble(&src.as_bytes().to_vec())
}

fn out(src: &str) -> String {
    String::from_utf8(run(src).unwrap()).unwrap()
}

#[test]
fn scenario_basic_program() {
    let text = out("@2\nD=A\n@3\nD=D+A\n@0\nM=D");
    assert_eq!(
        text,
        "0000000000000010\n1110110000010000\n0000000000000011\n1110000010010000\n0000000000000000\n1110001100001000\n"
    );
}

#[test]
fn scenario_label_resolves_to_next_instruction() {
    let text = out("(LOOP)\n@LOOP\n0;JMP");
    assert_eq!(text, "0000000000000000\n1110101010000111\n");
}

#[test]
fn scenario_variables_allocate_once() {
    let text = out("@foo\n@bar\n@foo");
    assert_eq!(
        text,
        "0000000000010000\n0000000000010001\n0000000000010000\n"
    );
}

#[test]
fn scenario_register_alias() {
    let text = out("@R3");
    assert_eq!(text, "0000000000000011\n");
}

#[test]
fn empty_source_gives_empty_output() {
    assert_eq!(out(""), "");
    assert_eq!(out("\n\n   \n// only a comment\n"), "");
}

#[test]
fn comments_and_whitespace_are_stripped() {
    let text = out("// leading comment\n  @2   // inline comment\n\t\nD=A\n");
    assert_eq!(text, "0000000000000010\n1110110000010000\n");
}

#[test]
fn trailing_newline_is_tolerated() {
    assert_eq!(out("@2\n"), out("@2"));
}

#[test]
fn label_lines_do_not_occupy_word_slots() {
    // Exec lines: @i (0), @j (1), @i (2), @LOOP (3); the label stands
    // before @j, so LOOP resolves to instruction index 1.
    let text = out("@i\n(LOOP)\n@j\n@i\n@LOOP");
    assert_eq!(
        text,
        "0000000000010000\n0000000000010001\n0000000000010000\n0000000000000001\n"
    );
}

#[test]
fn predefined_symbol_beats_label_of_same_name() {
    // A label may be declared under a predefined name, but the operand
    // still resolves to the fixed address.
    let text = out("D=A\n(SP)\n@SP");
    assert_eq!(text, "1110110000010000\n0000000000000000\n");
}

#[test]
fn predefined_register_beats_label_of_same_name() {
    let text = out("(R7)\nD=A\n@R7");
    assert_eq!(text, "1110110000010000\n0000000000000111\n");
}

#[test]
fn label_beats_register_alias_fallback() {
    // R16 is no predefined register name, so the table entry wins over
    // the register-alias digit reading.
    let text = out("(R16)\nD=A\n@R16");
    assert_eq!(text, "1110110000010000\n0000000000000000\n");
}

#[test]
fn register_alias_fallback_reads_digits() {
    // R16 is past the predefined range and no label or variable: the
    // digits are read directly as the address.
    assert_eq!(out("@R16"), "0000000000010000\n");
    // A leading zero makes no predefined name, but the fallback still
    // reads the digits.
    assert_eq!(out("@R03"), "0000000000000011\n");
}

#[test]
fn label_redefinition_last_one_wins() {
    let text = out("(X)\n@X\n(X)\n@X");
    assert_eq!(text, "0000000000000001\n0000000000000001\n");
}

#[test]
fn reassembly_is_deterministic() {
    let src = "@i\n(LOOP)\nD=M;JGT\n@LOOP\n0;JMP\n@42";
    assert_eq!(run(src), run(src));
    assert_eq!(out(src), out(src));
}

#[test]
fn malformed_label_is_fatal() {
    assert_eq!(run("(LOOP\n@2"), Err(AsmError::MalformedLabel));
}

#[test]
fn unknown_computation_is_fatal() {
    assert_eq!(run("D+2"), Err(AsmError::UnknownComp));
    assert_eq!(run("@2\nfrobnicate"), Err(AsmError::UnknownComp));
}

#[test]
fn address_overflow_is_fatal() {
    assert_eq!(out("@32767"), "0111111111111111\n");
    assert_eq!(run("@32768"), Err(AsmError::AddressOverflow));
    assert_eq!(
        run("@99999999999999999999"),
        Err(AsmError::AddressOverflow)
    );
}

#[test]
fn fatal_error_yields_no_partial_output() {
    // The first line alone would assemble; the bad second line aborts
    // the whole run.
    assert_eq!(run("@2\nD+2"), Err(AsmError::UnknownComp));
}

#[test]
fn predefined_symbols_resolve_to_fixed_addresses() {
    assert_eq!(out("@SP"), "0000000000000000\n");
    assert_eq!(out("@LCL"), "0000000000000001\n");
    assert_eq!(out("@ARG"), "0000000000000010\n");
    assert_eq!(out("@THIS"), "0000000000000011\n");
    assert_eq!(out("@THAT"), "0000000000000100\n");
    assert_eq!(out("@SCREEN"), "0100000000000000\n");
    assert_eq!(out("@KBD"), "0110000000000000\n");
}

#[test]
fn predefined_registers_resolve_to_their_indices() {
    for k in 0..16u16 {
        let src = format!("@R{}", k);
        let expect = format!("{:016b}\n", k);
        assert_eq!(out(&src), expect);
    }
}

#[test]
fn predefined_symbols_resolve_late_in_source_too() {
    // Position in the source does not matter for predefined symbols.
    let text = out("@x\n@y\n(L)\n@SP\n@KBD");
    assert_eq!(
        text,
        "0000000000010000\n0000000000010001\n0000000000000000\n0110000000000000\n"
    );
}

#[test]
fn variable_addresses_count_up_from_sixteen() {
    let text = out("@a\n@b\n@c\n@b\n@d");
    assert_eq!(
        text,
        "0000000000010000\n0000000000010001\n0000000000010010\n0000000000010001\n0000000000010011\n"
    );
}

#[test]
fn instruction_indices_follow_executable_lines_only() {
    // Two labels around blank and comment lines still address the
    // following executable line.
    let text = out("// top\n(A1)\n\n@A1\n// mid\n(B2)\n@B2\n");
    assert_eq!(text, "0000000000000000\n0000000000000001\n");
}
