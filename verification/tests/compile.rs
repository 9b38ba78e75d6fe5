use hbot::lexer::{lex, TokenType};
use hbot::parser::{parse, Instruction, Value};

fn compile_src(s: &str) -> Vec<Instruction> {
    parse(&s.to_string())
}

#[test]
fn lex_classifies_and_lowercases() {
    let toks = lex(&"MOV A, 5".to_string());
    assert_eq!(toks.len(), 4);
    assert_eq!(toks[0].value, "mov");
    assert_eq!(toks[0].t, TokenType::Opcode);
    assert_eq!(toks[1].value, "a");
    assert_eq!(toks[1].t, TokenType::Register);
    assert_eq!(toks[2].value, ",");
    assert_eq!(toks[2].t, TokenType::Punctuator);
    assert_eq!(toks[3].value, "5");
    assert_eq!(toks[3].t, TokenType::Immediate);
}

#[test]
fn lex_counts_lines() {
    let toks = lex(&"nop\nnop\n\nnop".to_string());
    assert_eq!(toks.len(), 3);
    assert_eq!(toks[0].line, 0);
    assert_eq!(toks[1].line, 1);
    assert_eq!(toks[2].line, 3);
}

#[test]
fn lex_skips_unknown_characters() {
    let toks = lex(&"x#y".to_string());
    assert_eq!(toks.len(), 2);
    assert_eq!(toks[0].value, "x");
    assert_eq!(toks[0].t, TokenType::Identifier);
    assert_eq!(toks[1].value, "y");
}

#[test]
fn lex_splits_digits_from_letters() {
    // Maximal munch: a run starting with a digit is one immediate token,
    // the following letters open a fresh identifier token.
    let toks = lex(&"9abc a9b".to_string());
    assert_eq!(toks.len(), 3);
    assert_eq!(toks[0].value, "9");
    assert_eq!(toks[0].t, TokenType::Immediate);
    assert_eq!(toks[1].value, "abc");
    assert_eq!(toks[1].t, TokenType::Identifier);
    assert_eq!(toks[2].value, "a9b");
    assert_eq!(toks[2].t, TokenType::Identifier);
}

#[test]
fn token_equality_ignores_line() {
    let a = lex(&"nop".to_string()).pop().unwrap();
    let b = lex(&"\n\nnop".to_string()).pop().unwrap();
    assert_ne!(a.line, b.line);
    assert!(a == b);
}

#[test]
fn jump_label_resolves_to_following_instruction() {
    // The label does not advance the instruction counter, so it denotes
    // the address of the nop that follows it: index 1, right after the
    // jmp at index 0.
    let prog = compile_src("jmp L \n L: \n nop");
    assert_eq!(prog.len(), 2);
    assert!(matches!(prog[0], Instruction::Jmp(_, Value::Immediate(1))));
    assert!(matches!(prog[1], Instruction::Nop(_)));
}

#[test]
fn duplicate_label_last_definition_wins() {
    let prog = compile_src("L: nop \n L: nop \n jmp L");
    assert_eq!(prog.len(), 3);
    assert!(matches!(prog[0], Instruction::Nop(_)));
    assert!(matches!(prog[1], Instruction::Nop(_)));
    // The second L is recorded at address 1 (the second nop) and, being
    // later in the table, wins over the first.
    assert!(matches!(prog[2], Instruction::Jmp(_, Value::Immediate(1))));
}

#[test]
fn unresolved_label_defaults_to_zero() {
    let prog = compile_src("nop \n jmp nowhere");
    assert_eq!(prog.len(), 2);
    assert!(matches!(prog[1], Instruction::Jmp(_, Value::Immediate(0))));
}

#[test]
fn malformed_mov_truncates_program() {
    // "mov a" is missing its second operand: no partial instruction is
    // produced and the parse stops there.
    let prog = compile_src("mov a");
    assert_eq!(prog.len(), 0);
}

#[test]
fn parse_stops_at_first_unmatched_token() {
    // The nop parses; the bare identifier matches neither an instruction
    // nor a label definition, so everything after it is discarded.
    let prog = compile_src("nop \n stray \n nop \n nop");
    assert_eq!(prog.len(), 1);
}

#[test]
fn arity_mismatch_discards_rest() {
    // "mov a" is malformed, so the trailing valid nops are lost too:
    // the parser has no line-level recovery.
    let prog = compile_src("nop \n mov a \n nop \n nop");
    assert_eq!(prog.len(), 1);
    assert!(matches!(prog[0], Instruction::Nop(_)));
}

#[test]
fn two_operand_instructions_parse() {
    let prog = compile_src("mov a, 7 \n add a, b \n cmp a, 3 \n xor c, c");
    assert_eq!(prog.len(), 4);
    assert!(matches!(
        prog[0],
        Instruction::Mov(_, Value::Register(_), Value::Immediate(7))
    ));
    assert!(matches!(
        prog[1],
        Instruction::Add(_, Value::Register(_), Value::Register(_))
    ));
    assert!(matches!(prog[2], Instruction::Cmp(_, _, _)));
    assert!(matches!(prog[3], Instruction::Xor(_, _, _)));
}

#[test]
fn labels_are_stripped_from_output() {
    let prog = compile_src("top: nop \n fwd \n jmp top");
    assert_eq!(prog.len(), 3);
    assert!(prog
        .iter()
        .all(|i| !matches!(i, Instruction::Label(_, _))));
    assert!(matches!(prog[2], Instruction::Jmp(_, Value::Immediate(0))));
}

#[test]
fn instructions_keep_source_lines() {
    let prog = compile_src("nop\nfwd\nrol");
    assert_eq!(prog.len(), 3);
    assert_eq!(prog[0].source_line(), 0);
    assert_eq!(prog[1].source_line(), 1);
    assert_eq!(prog[2].source_line(), 2);
}

#[test]
fn wide_immediate_wraps_to_16_bits() {
    // A decimal literal too wide for 16 bits wraps around, like all the
    // machine's 16-bit arithmetic: 70000 mod 65536 = 4464.
    let prog = compile_src("mov a, 70000");
    assert_eq!(prog.len(), 1);
    assert!(matches!(
        prog[0],
        Instruction::Mov(_, _, Value::Immediate(4464))
    ));
}

#[test]
fn case_insensitive_opcodes_and_labels() {
    let prog = compile_src("JMP End \n end: \n NOP");
    assert_eq!(prog.len(), 2);
    assert!(matches!(prog[0], Instruction::Jmp(_, Value::Immediate(1))));
}
