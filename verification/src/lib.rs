//! A preprocessor for a small accumulator-machine assembly dialect.
//!
//! Source text is parsed into a sequence of program items, user-defined
//! parameterized macros are expanded to a fixed point, and the macro-free
//! result is rendered back to assembly text.

use vstd::prelude::*;

pub mod emit;
pub mod expand;
pub mod laws;
pub mod parse;
pub mod program;
pub mod round_trip;

pub use emit::is_renderable;
pub use emit::render_instruction;
pub use emit::render_item;
pub use emit::render_items;
pub use emit::renderable;
pub use emit::renderable_item;
pub use emit::to_assembly;
pub use expand::ExpandError;
pub use expand::decls_of;
pub use expand::expand_pass;
pub use expand::expand_spec;
pub use expand::expansion_bound;
pub use expand::find_param;
pub use expand::has_call;
pub use expand::lookup_decl;
pub use expand::macro_subst;
pub use expand::replace_macro;
pub use expand::subst_body;
pub use expand::subst_item_model;
pub use expand::subst_names;
pub use expand::subst_operand;
pub use expand::substitute_argument_item;
pub use parse::ParseError;
pub use parse::macro_call;
pub use parse::macro_declaration;
pub use parse::opcode_text;
pub use parse::parse_instruction;
pub use parse::parse_program;
pub use parse::parse_program_spec;
pub use program::Instruction;
pub use program::InstructionModel;
pub use program::Item;
pub use program::ItemModel;
pub use program::Macro;
pub use program::MacroCall;
pub use program::MacroCallModel;
pub use program::MacroDeclaration;
pub use program::MacroDeclarationModel;
pub use program::MacroModel;
pub use program::Opcode;
pub use program::bytes_eq;
pub use program::items_model;
pub use program::names_model;

verus! {

/// The failure of a whole translation.
#[derive(Debug, Clone, Copy, PartialEq, Eq, Structural)]
pub enum TranslateError {
    /// A construct was malformed: no item matched at the given position.
    Parse(ParseError),
    /// Expansion did not reach a macro-free fixed point within the pass
    /// bound: the macros call each other (or themselves) in a cycle.
    NonTerminating,
    /// Expansion left a macro declaration in the program (one that a macro
    /// body carried along), which the emitter refuses as a defect.
    ResidualMacro,
}

/// The parse-and-expand pipeline on a whole input.
pub open spec fn preprocess_spec(s: Seq<u8>) -> Result<Seq<ItemModel>, TranslateError> {
    match parse_program_spec(s) {
        Err(pos) => Err(TranslateError::Parse(ParseError { pos: pos as usize })),
        Ok(p) => match expand_spec(p) {
            None => Err(TranslateError::NonTerminating),
            Some(q) => Ok(q),
        },
    }
}

/// The whole translation: parse, expand, render.
pub open spec fn translate_spec(s: Seq<u8>) -> Result<Seq<u8>, TranslateError> {
    match preprocess_spec(s) {
        Err(e) => Err(e),
        Ok(q) => if renderable(q) {
            Ok(render_items(q))
        } else {
            Err(TranslateError::ResidualMacro)
        },
    }
}

/// Parses the input and expands every macro invocation, returning the
/// program with no macro call left.
pub fn preprocess(input: &[u8]) -> (r: Result<Vec<Item>, TranslateError>)
    ensures
        (match r {
            Ok(items) => preprocess_spec(input@) == Ok::<Seq<ItemModel>, TranslateError>(
                items_model(items@),
            ),
            Err(e) => preprocess_spec(input@) == Err::<Seq<ItemModel>, TranslateError>(e),
        }),
{
    match parse_program(input) {
        Err(e) => Err(TranslateError::Parse(e)),
        Ok(items) => match replace_macro(items.as_slice()) {
            Err(_) => Err(TranslateError::NonTerminating),
            Ok(expanded) => Ok(expanded),
        },
    }
}

/// Translates source text: parses it, expands every macro invocation, and
/// renders the macro-free result back to assembly text.
pub fn translate(input: &[u8]) -> (r: Result<Vec<u8>, TranslateError>)
    ensures
        (match r {
            Ok(text) => translate_spec(input@) == Ok::<Seq<u8>, TranslateError>(text@),
            Err(e) => translate_spec(input@) == Err::<Seq<u8>, TranslateError>(e),
        }),
{
    match preprocess(input) {
        Err(e) => Err(e),
        Ok(items) => {
            if is_renderable(items.as_slice()) {
                Ok(to_assembly(items.as_slice()))
            } else {
                Err(TranslateError::ResidualMacro)
            }
        },
    }
}

} // verus!
