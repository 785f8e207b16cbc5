use asm_preprocessor::Instruction;
use asm_preprocessor::Item;
use asm_preprocessor::Macro;
use asm_preprocessor::MacroDeclaration;
use asm_preprocessor::Opcode;

fn bv(s: &str) -> Vec<u8> {
    s.as_bytes().to_vec()
}

#[test]
fn macro_call_test_macro_substitute() {
    let macro_defn = MacroDeclaration::new(
        bv("IN_STO"),
        vec![bv("a"), bv("b")],
        vec![
            Item::Instruction(Instruction::new(None, Opcode::IN, None)),
            Item::Instruction(Instruction::new(None, Opcode::STO, Some(bv("a")))),
            Item::Instruction(Instruction::new(None, Opcode::STO, Some(bv("a")))),
            Item::Instruction(Instruction::new(None, Opcode::STO, Some(bv("b")))),
        ],
    );

    assert_eq!(macro_defn.substitute_arguments(&vec![]), None);
    assert_eq!(macro_defn.substitute_arguments(&vec![bv("count")]), None);
    assert_eq!(
        macro_defn.substitute_arguments(&vec![bv("count"), bv("count")]),
        Some(vec![
            Item::Instruction(Instruction::new(None, Opcode::IN, None)),
            Item::Instruction(Instruction::new(None, Opcode::STO, Some(bv("count")))),
            Item::Instruction(Instruction::new(None, Opcode::STO, Some(bv("count")))),
            Item::Instruction(Instruction::new(None, Opcode::STO, Some(bv("count")))),
        ])
    );
    assert_eq!(
        macro_defn.substitute_arguments(&vec![bv("count"), bv("count_two")]),
        Some(vec![
            Item::Instruction(Instruction::new(None, Opcode::IN, None)),
            Item::Instruction(Instruction::new(None, Opcode::STO, Some(bv("count")))),
            Item::Instruction(Instruction::new(None, Opcode::STO, Some(bv("count")))),
            Item::Instruction(Instruction::new(None, Opcode::STO, Some(bv("count_two")))),
        ])
    );
}

#[test]
fn macros_test_macro_substitute() {
    let macro_defn = Macro {
        identifier: bv("IN_STO"),
        arguments: vec![bv("a"), bv("b")],
        body: vec![
            Instruction::new(None, Opcode::IN, None),
            Instruction::new(None, Opcode::STO, Some(bv("a"))),
            Instruction::new(None, Opcode::STO, Some(bv("a"))),
            Instruction::new(None, Opcode::STO, Some(bv("b"))),
        ],
    };

    assert_eq!(macro_defn.substitute_arguments(&vec![]), None);
    assert_eq!(macro_defn.substitute_arguments(&vec![bv("count")]), None);
    assert_eq!(
        macro_defn.substitute_arguments(&vec![bv("count"), bv("count")]),
        Some(vec![
            Item::Instruction(Instruction::new(None, Opcode::IN, None)),
            Item::Instruction(Instruction::new(None, Opcode::STO, Some(bv("count")))),
            Item::Instruction(Instruction::new(None, Opcode::STO, Some(bv("count")))),
            Item::Instruction(Instruction::new(None, Opcode::STO, Some(bv("count")))),
        ])
    );
    assert_eq!(
        macro_defn.substitute_arguments(&vec![bv("count"), bv("count_two")]),
        Some(vec![
            Item::Instruction(Instruction::new(None, Opcode::IN, None)),
            Item::Instruction(Instruction::new(None, Opcode::STO, Some(bv("count")))),
            Item::Instruction(Instruction::new(None, Opcode::STO, Some(bv("count")))),
            Item::Instruction(Instruction::new(None, Opcode::STO, Some(bv("count_two")))),
        ])
    );
}

#[test]
fn substitute_argument_item_replaces_operand_and_call_arguments() {
    let params = vec![bv("a"), bv("b")];
    let args = vec![bv("x"), bv("y")];

    let inst = Item::Instruction(Instruction::new(Some(bv("lbl")), Opcode::STO, Some(bv("b"))));
    let substituted = asm_preprocessor::substitute_argument_item(&inst, &params, &args);
    assert_eq!(
        substituted,
        Item::Instruction(Instruction::new(Some(bv("lbl")), Opcode::STO, Some(bv("y"))))
    );

    let call = Item::MacroCall(asm_preprocessor::MacroCall::new(
        bv("OTHER"),
        vec![bv("a"), bv("z"), bv("b")],
    ));
    let substituted_call = asm_preprocessor::substitute_argument_item(&call, &params, &args);
    assert_eq!(
        substituted_call,
        Item::MacroCall(asm_preprocessor::MacroCall::new(
            bv("OTHER"),
            vec![bv("x"), bv("z"), bv("y")],
        ))
    );

    let comment = Item::Comment(bv(" a note about a and b"));
    let untouched = asm_preprocessor::substitute_argument_item(&comment, &params, &args);
    assert_eq!(untouched, Item::Comment(bv(" a note about a and b")));
}

#[test]
fn accessors_expose_the_parts() {
    let inst = Instruction::new(Some(bv("lbl")), Opcode::ADD, Some(bv("n")));
    assert_eq!(inst.get_operand(), Some(&bv("n")));
    assert_eq!(inst.clone_with_operand(bv("m")).get_operand(), Some(&bv("m")));
    assert_eq!(Instruction::new(None, Opcode::HLT, None).get_operand(), None);

    let call = asm_preprocessor::MacroCall::new(bv("F"), vec![bv("a"), bv("b")]);
    assert_eq!(call.get_identifier(), &bv("F"));
    assert_eq!(call.get_arguments(), &vec![bv("a"), bv("b")]);

    let decl = MacroDeclaration::new(bv("G"), vec![], vec![]);
    assert_eq!(decl.get_identifier(), &bv("G"));

    assert!(asm_preprocessor::bytes_eq(b"same", b"same"));
    assert!(!asm_preprocessor::bytes_eq(b"same", b"other"));
}

#[test]
fn substitution_binds_duplicate_parameters_to_the_first() {
    let macro_defn = MacroDeclaration::new(
        bv("F"),
        vec![bv("a"), bv("a")],
        vec![Item::Instruction(Instruction::new(None, Opcode::STO, Some(bv("a"))))],
    );
    assert_eq!(
        macro_defn.substitute_arguments(&vec![bv("x"), bv("y")]),
        Some(vec![Item::Instruction(Instruction::new(None, Opcode::STO, Some(bv("x"))))])
    );
}

#[test]
fn substitution_leaves_labels_and_other_operands_alone() {
    let macro_defn = MacroDeclaration::new(
        bv("F"),
        vec![bv("a")],
        vec![
            Item::Instruction(Instruction::new(Some(bv("a")), Opcode::OUT, None)),
            Item::Instruction(Instruction::new(None, Opcode::LDA, Some(bv("other")))),
        ],
    );
    assert_eq!(
        macro_defn.substitute_arguments(&vec![bv("x")]),
        Some(vec![
            Item::Instruction(Instruction::new(Some(bv("a")), Opcode::OUT, None)),
            Item::Instruction(Instruction::new(None, Opcode::LDA, Some(bv("other")))),
        ])
    );
}
