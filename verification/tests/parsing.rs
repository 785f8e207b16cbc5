use asm_preprocessor::Instruction;
use asm_preprocessor::Item;
use asm_preprocessor::MacroCall;
use asm_preprocessor::MacroDeclaration;
use asm_preprocessor::Opcode;
use asm_preprocessor::macro_call;
use asm_preprocessor::macro_declaration;
use asm_preprocessor::parse_instruction;
use asm_preprocessor::parse_program;

fn bv(s: &str) -> Vec<u8> {
    s.as_bytes().to_vec()
}

#[test]
fn test_instruction_parser() {
    assert_eq!(
        parse_instruction(b"ADD 10"),
        Some((Instruction::new(None, Opcode::ADD, Some(bv("10"))), 6))
    );
    assert_eq!(
        parse_instruction(b"LDA storage"),
        Some((Instruction::new(None, Opcode::LDA, Some(bv("storage"))), 11))
    );
    assert_eq!(
        parse_instruction(b"aaaa ADD 10"),
        Some((Instruction::new(Some(bv("aaaa")), Opcode::ADD, Some(bv("10"))), 11))
    );
    assert_eq!(parse_instruction(b"OUT"), Some((Instruction::new(None, Opcode::OUT, None), 3)));
    assert_eq!(parse_instruction(b"IN"), Some((Instruction::new(None, Opcode::IN, None), 2)));
    assert_eq!(
        parse_instruction(b"aaa IN"),
        Some((Instruction::new(Some(bv("aaa")), Opcode::IN, None), 6))
    );
    assert_eq!(
        parse_instruction(b"abc DAT 10"),
        Some((Instruction::new(Some(bv("abc")), Opcode::DAT, Some(bv("10"))), 10))
    );
}

#[test]
fn macro_call_test_macro_call_parsing() {
    let macro_call_str = b"IN_STO!(a, b)";
    let macro_call_parsed = macro_call(macro_call_str);

    assert!(macro_call_parsed.is_some());
    let (macro_call_parsed, consumed) = macro_call_parsed.unwrap();

    assert_eq!(consumed, macro_call_str.len());
    assert_eq!(macro_call_parsed, MacroCall::new(bv("IN_STO"), vec![bv("a"), bv("b")]));
}

#[test]
fn macros_test_macro_call_parsing() {
    let macro_call_str = b"IN_STO!(a, b)";
    let macro_call_parsed = macro_call(macro_call_str);

    assert!(macro_call_parsed.is_some());
    let (macro_call_parsed, consumed) = macro_call_parsed.unwrap();

    assert_eq!(consumed, macro_call_str.len());
    assert_eq!(macro_call_parsed, MacroCall::new(bv("IN_STO"), vec![bv("a"), bv("b")]));
}

#[test]
fn macros_test_macro_parsing() {
    let macro_str = b"IN_STO(location) = {
            IN
            STO location
        }";

    let macro_parsed = macro_declaration(macro_str);
    println!("{:?}", macro_parsed);
    assert!(macro_parsed.is_some());
    let (macro_parsed, consumed) = macro_parsed.unwrap();

    assert_eq!(consumed, macro_str.len());
    assert_eq!(
        macro_parsed,
        MacroDeclaration::new(
            bv("IN_STO"),
            vec![bv("location")],
            vec![
                Item::Instruction(Instruction::new(None, Opcode::IN, None)),
                Item::Instruction(Instruction::new(None, Opcode::STO, Some(bv("location")))),
            ],
        )
    );
}

#[test]
fn test_program_parser_simple_division() {
    let preparsed_program = b"# Code to compute a divided by b
            IN
            STO\ta
            IN
            STO\tb
        # Keep subtracting a from b until you go negative
        # Keep a count of how many times you do it
        start\tLDA\tcount
            ADD\tone
            STO\tcount
            LDA\ta
            SUB\tb
            STO\ta
            BRP\tstart
        done\tLDA\tcount
        # Subtract one as we went one too far
            SUB\tone
            OUT
            HLT
        a\tDAT\t000
        b\tDAT\t000
        count\tDAT\t000
        one\tDAT\t001";

    let parsed = parse_program(preparsed_program);
    assert!(parsed.is_ok());
    let parsed = parsed.unwrap();

    let expected = vec![
        Item::Instruction(Instruction::new(None, Opcode::IN, None)),
        Item::Instruction(Instruction::new(None, Opcode::STO, Some(bv("a")))),
        Item::Instruction(Instruction::new(None, Opcode::IN, None)),
        Item::Instruction(Instruction::new(None, Opcode::STO, Some(bv("b")))),
        Item::Instruction(Instruction::new(Some(bv("start")), Opcode::LDA, Some(bv("count")))),
        Item::Instruction(Instruction::new(None, Opcode::ADD, Some(bv("one")))),
        Item::Instruction(Instruction::new(None, Opcode::STO, Some(bv("count")))),
        Item::Instruction(Instruction::new(None, Opcode::LDA, Some(bv("a")))),
        Item::Instruction(Instruction::new(None, Opcode::SUB, Some(bv("b")))),
        Item::Instruction(Instruction::new(None, Opcode::STO, Some(bv("a")))),
        Item::Instruction(Instruction::new(None, Opcode::BRP, Some(bv("start")))),
        Item::Instruction(Instruction::new(Some(bv("done")), Opcode::LDA, Some(bv("count")))),
        Item::Instruction(Instruction::new(None, Opcode::SUB, Some(bv("one")))),
        Item::Instruction(Instruction::new(None, Opcode::OUT, None)),
        Item::Instruction(Instruction::new(None, Opcode::HLT, None)),
        Item::Instruction(Instruction::new(Some(bv("a")), Opcode::DAT, Some(bv("000")))),
        Item::Instruction(Instruction::new(Some(bv("b")), Opcode::DAT, Some(bv("000")))),
        Item::Instruction(Instruction::new(Some(bv("count")), Opcode::DAT, Some(bv("000")))),
        Item::Instruction(Instruction::new(Some(bv("one")), Opcode::DAT, Some(bv("001")))),
    ];

    let instructions: Vec<Item> = parsed
        .iter()
        .filter(|item| matches!(item, Item::Instruction(..)))
        .cloned()
        .collect();
    assert_eq!(instructions, expected);
}

#[test]
fn opcodes_match_case_insensitively_as_whole_tokens() {
    assert_eq!(
        parse_instruction(b"sto x"),
        Some((Instruction::new(None, Opcode::STO, Some(bv("x"))), 5))
    );
    assert_eq!(parse_instruction(b"hLt"), Some((Instruction::new(None, Opcode::HLT, None), 3)));
    // `BRZ` must win over its prefix `BR`
    assert_eq!(
        parse_instruction(b"brz loop"),
        Some((Instruction::new(None, Opcode::BRZ, Some(bv("loop"))), 8))
    );
    // `STOP` is not an opcode token, so it reads as a label
    assert_eq!(parse_instruction(b"STOP ADD"), Some((
        Instruction::new(Some(bv("STOP")), Opcode::ADD, None),
        8,
    )));
    // an unknown leading word with no opcode after it is no instruction
    assert_eq!(parse_instruction(b"nonsense"), None);
}

#[test]
fn parse_error_reports_the_failing_position() {
    // no item matches at the stray closing brace
    let r = parse_program(b"OUT\n}");
    assert!(r.is_err());
    assert_eq!(r.unwrap_err().pos, 4);

    // trailing whitespace alone is fine
    let ok = parse_program(b"OUT\n");
    assert_eq!(ok.unwrap(), vec![Item::Instruction(Instruction::new(None, Opcode::OUT, None))]);

    // the empty program parses to no items
    assert_eq!(parse_program(b"").unwrap(), vec![]);
}

#[test]
fn comments_parse_as_items_with_the_hash_stripped() {
    let parsed = parse_program(b"# first\nOUT # not a comment operand\n").unwrap();
    assert_eq!(
        parsed,
        vec![
            Item::Comment(bv(" first")),
            Item::Instruction(Instruction::new(None, Opcode::OUT, None)),
            Item::Comment(bv(" not a comment operand")),
        ]
    );
}

#[test]
fn declarations_parse_with_empty_and_multiple_parameters() {
    let (d, used) = macro_declaration(b"NOARGS() = { OUT }").unwrap();
    assert_eq!(used, 18);
    assert_eq!(
        d,
        MacroDeclaration::new(
            bv("NOARGS"),
            vec![],
            vec![Item::Instruction(Instruction::new(None, Opcode::OUT, None))],
        )
    );

    let nested = b"OUTER(p) = { INNER!(p)\n DEEP(q) = { STO q } }";
    let (outer, consumed) = macro_declaration(nested).unwrap();
    assert_eq!(consumed, nested.len());
    assert_eq!(
        outer,
        MacroDeclaration::new(
            bv("OUTER"),
            vec![bv("p")],
            vec![
                Item::MacroCall(MacroCall::new(bv("INNER"), vec![bv("p")])),
                Item::MacroDeclaration(MacroDeclaration::new(
                    bv("DEEP"),
                    vec![bv("q")],
                    vec![Item::Instruction(Instruction::new(None, Opcode::STO, Some(bv("q"))))],
                )),
            ],
        )
    );
}
