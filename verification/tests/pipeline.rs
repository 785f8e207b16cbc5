use asm_preprocessor::ExpandError;
use asm_preprocessor::Instruction;
use asm_preprocessor::Item;
use asm_preprocessor::Opcode;
use asm_preprocessor::TranslateError;
use asm_preprocessor::parse_program;
use asm_preprocessor::preprocess;
use asm_preprocessor::replace_macro;
use asm_preprocessor::to_assembly;
use asm_preprocessor::translate;

fn bv(s: &str) -> Vec<u8> {
    s.as_bytes().to_vec()
}

fn text(bytes: Vec<u8>) -> String {
    String::from_utf8(bytes).unwrap()
}

#[test]
fn end_to_end_two_calls_of_one_macro() {
    let input = b"IN_STO(location_a, location_b) = {
    IN
    STO location_a
    STO location_b
}
IN_STO!(a, b)
IN_STO!(c, d)
";
    let rendered = translate(input).unwrap();
    assert_eq!(text(rendered), "IN\nSTO a\nSTO b\nIN\nSTO c\nSTO d\n");
}

#[test]
fn instruction_only_programs_render_canonically_and_reparse() {
    let input = b"aaa   lda\tcount
  OUT
one DAT 001";
    let first = translate(input).unwrap();
    assert_eq!(text(first.clone()), "aaa LDA count\nOUT\none DAT 001\n");
    // translating the canonical text again changes nothing
    let second = translate(&first).unwrap();
    assert_eq!(first, second);
    // and the canonical text parses back to the same program
    assert_eq!(parse_program(input).unwrap(), parse_program(&first).unwrap());
}

#[test]
fn expansion_is_idempotent_on_macro_free_programs() {
    let program = parse_program(b"# a note\nIN\nSTO x\nOUT\n").unwrap();
    let once = replace_macro(&program).unwrap();
    let twice = replace_macro(&once).unwrap();
    assert_eq!(once, twice);
    // the one pass drops the comment, the instructions stay
    assert_eq!(
        once,
        vec![
            Item::Instruction(Instruction::new(None, Opcode::IN, None)),
            Item::Instruction(Instruction::new(None, Opcode::STO, Some(bv("x")))),
            Item::Instruction(Instruction::new(None, Opcode::OUT, None)),
        ]
    );
}

#[test]
fn arity_mismatch_expands_to_nothing_and_keeps_siblings() {
    let input = b"F(a, b) = { STO a }
IN
F!(x)
OUT
";
    let rendered = translate(input).unwrap();
    assert_eq!(text(rendered), "IN\nOUT\n");
}

#[test]
fn positional_substitution_expands_in_order() {
    let input = b"F(a, b) = { STO a\n STO b }\nF!(x, y)\n";
    let program = preprocess(input).unwrap();
    assert_eq!(
        program,
        vec![
            Item::Instruction(Instruction::new(None, Opcode::STO, Some(bv("x")))),
            Item::Instruction(Instruction::new(None, Opcode::STO, Some(bv("y")))),
        ]
    );
}

#[test]
fn nested_calls_expand_transitively() {
    let input = b"G(c) = { STO c }
F(a) = { G!(a) }
F!(x)
";
    let rendered = translate(input).unwrap();
    assert_eq!(text(rendered), "STO x\n");
}

#[test]
fn undeclared_calls_expand_to_nothing_without_failing() {
    let input = b"MISSING!(a)\nOUT\n";
    let rendered = translate(input).unwrap();
    assert_eq!(text(rendered), "OUT\n");
}

#[test]
fn cyclic_macros_are_reported_not_looped() {
    let direct = b"F(a) = { F!(a) }\nF!(x)\n";
    assert_eq!(translate(direct), Err(TranslateError::NonTerminating));

    let program = parse_program(direct).unwrap();
    assert_eq!(replace_macro(&program), Err(ExpandError::NonTerminating));

    let mutual = b"A() = { B!() }\nB() = { A!() }\nA!()\n";
    assert_eq!(translate(mutual), Err(TranslateError::NonTerminating));
}

#[test]
fn malformed_programs_are_parse_errors() {
    match translate(b"OUT\n}") {
        Err(TranslateError::Parse(e)) => assert_eq!(e.pos, 4),
        other => panic!("expected a parse error, got {:?}", other),
    }
    // an unterminated macro body never parses as a declaration
    assert!(matches!(translate(b"F(a) = { STO a"), Err(TranslateError::Parse(_))));
}

#[test]
fn a_declaration_carried_out_by_a_body_is_a_render_defect() {
    let input = b"F() = { G(q) = { OUT } }\nF!()\nOUT\n";
    assert_eq!(translate(input), Err(TranslateError::ResidualMacro));
    // the expansion itself still succeeds; only rendering refuses it
    let program = preprocess(input).unwrap();
    assert!(matches!(program[0], Item::MacroDeclaration(_)));
}

#[test]
fn comments_inside_macro_bodies_survive_expansion() {
    let input = b"F() = { # inside\nOUT }\nF!()\n";
    let rendered = translate(input).unwrap();
    assert_eq!(text(rendered), "# inside\nOUT\n");
}

#[test]
fn duplicate_declarations_use_the_first() {
    let input = b"F() = { OUT }\nF() = { IN }\nF!()\n";
    let rendered = translate(input).unwrap();
    assert_eq!(text(rendered), "OUT\n");
}

#[test]
fn empty_input_translates_to_empty_output() {
    assert_eq!(translate(b""), Ok(vec![]));
}

#[test]
fn to_assembly_renders_labels_opcodes_and_operands() {
    let program = vec![
        Item::Instruction(Instruction::new(Some(bv("loop")), Opcode::BRZ, Some(bv("done")))),
        Item::Instruction(Instruction::new(None, Opcode::HLT, None)),
        Item::Comment(bv(" trailing note")),
    ];
    assert_eq!(text(to_assembly(&program)), "loop BRZ done\nHLT\n# trailing note\n");
}

#[test]
fn preprocess_parses_and_expands() {
    let program = preprocess(b"IN_STO(x) = { IN\n STO x }\nIN_STO!(total)\n").unwrap();
    assert_eq!(
        program,
        vec![
            Item::Instruction(Instruction::new(None, Opcode::IN, None)),
            Item::Instruction(Instruction::new(None, Opcode::STO, Some(bv("total")))),
        ]
    );
}
