//! The shared program model: opcodes, instructions, macro declarations,
//! macro calls, and the tagged item union that a parsed program is made of.
//!
//! Every executable type has a mathematical model (`...Model`) over `Seq<u8>`
//! text; all contracts in the crate are stated over those models.

use vstd::prelude::*;

verus! {

broadcast use vstd::std_specs::vec::axiom_vec_index_decreases;

/// The closed opcode vocabulary of the accumulator machine.
///
/// The variant order is the order in which the parser tries the vocabulary
/// when matching an opcode token.
#[derive(Debug, Clone, Copy, PartialEq, Eq, Structural)]
pub enum Opcode {
    ADD,
    SUB,
    STO,
    LDA,
    BRZ,
    BRP,
    BR,
    IN,
    OUT,
    HLT,
    DAT,
}

/// A single instruction: an optional label, an opcode, and an optional operand.
#[derive(Debug, PartialEq, Eq)]
pub struct Instruction {
    pub label: Option<Vec<u8>>,
    pub opcode: Opcode,
    pub operand: Option<Vec<u8>>,
}

/// A macro call: an identifier applied to positional argument names.
#[derive(Debug, PartialEq, Eq)]
pub struct MacroCall {
    pub identifier: Vec<u8>,
    pub arguments: Vec<Vec<u8>>,
}

/// A macro declaration: an identifier, positional parameter names, and a body
/// of items, which may itself contain macro calls and nested declarations.
#[derive(Debug, PartialEq, Eq)]
pub struct MacroDeclaration {
    pub identifier: Vec<u8>,
    pub parameters: Vec<Vec<u8>>,
    pub body: Vec<Item>,
}

/// A declaration whose body holds instructions only: the common flat case,
/// with a substitution that needs no recursion into nested items.
#[derive(Debug, PartialEq, Eq)]
pub struct Macro {
    pub identifier: Vec<u8>,
    pub arguments: Vec<Vec<u8>>,
    pub body: Vec<Instruction>,
}

/// One element of a program: the tagged union over the four item kinds.
#[derive(Debug, PartialEq, Eq)]
pub enum Item {
    Instruction(Instruction),
    MacroDeclaration(MacroDeclaration),
    MacroCall(MacroCall),
    Comment(Vec<u8>),
}

/// The mathematical model of an [`Instruction`].
#[verifier::ext_equal]
pub struct InstructionModel {
    pub label: Option<Seq<u8>>,
    pub opcode: Opcode,
    pub operand: Option<Seq<u8>>,
}

/// The mathematical model of a [`MacroCall`].
#[verifier::ext_equal]
pub struct MacroCallModel {
    pub identifier: Seq<u8>,
    pub arguments: Seq<Seq<u8>>,
}

/// The mathematical model of a [`MacroDeclaration`].
#[verifier::ext_equal]
pub struct MacroDeclarationModel {
    pub identifier: Seq<u8>,
    pub parameters: Seq<Seq<u8>>,
    pub body: Seq<ItemModel>,
}

/// The mathematical model of a [`Macro`].
#[verifier::ext_equal]
pub struct MacroModel {
    pub identifier: Seq<u8>,
    pub arguments: Seq<Seq<u8>>,
    pub body: Seq<InstructionModel>,
}

/// The mathematical model of an [`Item`].
#[verifier::ext_equal]
pub enum ItemModel {
    Instruction(InstructionModel),
    MacroDeclaration(MacroDeclarationModel),
    MacroCall(MacroCallModel),
    Comment(Seq<u8>),
}

/// The model of an optional piece of text.
pub open spec fn text_opt_model(o: Option<Vec<u8>>) -> Option<Seq<u8>> {
    match o {
        Some(t) => Some(t@),
        None => None,
    }
}

/// The model of a list of names.
pub open spec fn names_model(v: Seq<Vec<u8>>) -> Seq<Seq<u8>> {
    Seq::new(v.len(), |i: int| v[i]@)
}

impl View for Instruction {
    type V = InstructionModel;

    open spec fn view(&self) -> InstructionModel {
        InstructionModel {
            label: text_opt_model(self.label),
            opcode: self.opcode,
            operand: text_opt_model(self.operand),
        }
    }
}

impl View for MacroCall {
    type V = MacroCallModel;

    open spec fn view(&self) -> MacroCallModel {
        MacroCallModel { identifier: self.identifier@, arguments: names_model(self.arguments@) }
    }
}

impl View for Macro {
    type V = MacroModel;

    open spec fn view(&self) -> MacroModel {
        MacroModel {
            identifier: self.identifier@,
            arguments: names_model(self.arguments@),
            body: Seq::new(self.body@.len(), |i: int| self.body@[i]@),
        }
    }
}

/// The model of an [`Item`], recursing through macro-declaration bodies.
pub open spec fn item_model(it: Item) -> ItemModel
    decreases it,
{
    match it {
        Item::Instruction(i) => ItemModel::Instruction(i@),
        Item::MacroDeclaration(d) => ItemModel::MacroDeclaration(
            MacroDeclarationModel {
                identifier: d.identifier@,
                parameters: names_model(d.parameters@),
                body: items_model(d.body@),
            },
        ),
        Item::MacroCall(c) => ItemModel::MacroCall(c@),
        Item::Comment(t) => ItemModel::Comment(t@),
    }
}

/// The model of a sequence of items.
pub open spec fn items_model(s: Seq<Item>) -> Seq<ItemModel>
    decreases s,
{
    if s.len() == 0 {
        Seq::empty()
    } else {
        seq![item_model(s[0])] + items_model(s.drop_first())
    }
}

/// The model of a sequence of items is the sequence of the items' models.
pub broadcast proof fn lemma_items_model(s: Seq<Item>)
    ensures
        #[trigger] items_model(s).len() == s.len(),
        forall|i: int| 0 <= i < s.len() ==> items_model(s)[i] == item_model(s[i]),
    decreases s,
{
    if s.len() > 0 {
        lemma_items_model(s.drop_first());
    }
}

impl View for Item {
    type V = ItemModel;

    open spec fn view(&self) -> ItemModel {
        item_model(*self)
    }
}

impl View for MacroDeclaration {
    type V = MacroDeclarationModel;

    open spec fn view(&self) -> MacroDeclarationModel {
        MacroDeclarationModel {
            identifier: self.identifier@,
            parameters: names_model(self.parameters@),
            body: items_model(self.body@),
        }
    }
}

impl Instruction {
    /// Creates a new instruction from the given parts.
    pub fn new(label: Option<Vec<u8>>, opcode: Opcode, operand: Option<Vec<u8>>) -> (r: Self)
        ensures
            r@ == (InstructionModel {
                label: text_opt_model(label),
                opcode: opcode,
                operand: text_opt_model(operand),
            }),
    {
        Instruction { label, opcode, operand }
    }

    /// Creates an instruction identical to this one, but with the given operand.
    pub fn clone_with_operand(&self, operand: Vec<u8>) -> (r: Self)
        ensures
            r@ == (InstructionModel {
                label: self@.label,
                opcode: self@.opcode,
                operand: Some(operand@),
            }),
    {
        Instruction {
            label: copy_text_opt(&self.label),
            opcode: self.opcode,
            operand: Some(operand),
        }
    }

    /// Returns the instruction's operand, if it has one.
    pub fn get_operand(&self) -> (r: Option<&Vec<u8>>)
        ensures
            text_opt_model_ref(r) == self@.operand,
    {
        match self.operand {
            Some(ref o) => Some(o),
            None => None,
        }
    }
}

/// The model of an optional borrowed piece of text.
pub open spec fn text_opt_model_ref(o: Option<&Vec<u8>>) -> Option<Seq<u8>> {
    match o {
        Some(t) => Some(t@),
        None => None,
    }
}

impl MacroCall {
    /// Creates a new macro call from the given parts.
    pub fn new(identifier: Vec<u8>, arguments: Vec<Vec<u8>>) -> (r: Self)
        ensures
            r@ == (MacroCallModel {
                identifier: identifier@,
                arguments: names_model(arguments@),
            }),
    {
        MacroCall { identifier, arguments }
    }

    /// Returns the called macro's identifier.
    pub fn get_identifier(&self) -> (r: &Vec<u8>)
        ensures
            r@ == self@.identifier,
    {
        &self.identifier
    }

    /// Returns the call's positional argument names.
    pub fn get_arguments(&self) -> (r: &Vec<Vec<u8>>)
        ensures
            names_model(r@) == self@.arguments,
    {
        &self.arguments
    }
}

impl MacroDeclaration {
    /// Creates a new macro declaration from the given parts.
    pub fn new(identifier: Vec<u8>, parameters: Vec<Vec<u8>>, body: Vec<Item>) -> (r: Self)
        ensures
            r@ == (MacroDeclarationModel {
                identifier: identifier@,
                parameters: names_model(parameters@),
                body: items_model(body@),
            }),
    {
        MacroDeclaration { identifier, parameters, body }
    }

    /// Returns the declared macro's identifier.
    pub fn get_identifier(&self) -> (r: &Vec<u8>)
        ensures
            r@ == self@.identifier,
    {
        &self.identifier
    }
}

/// Compares two pieces of text byte for byte.
pub fn bytes_eq(a: &[u8], b: &[u8]) -> (r: bool)
    ensures
        r <==> a@ == b@,
{
    if a.len() != b.len() {
        assert(a@.len() != b@.len());
        return false;
    }
    let mut i: usize = 0;
    while i < a.len()
        invariant
            0 <= i <= a@.len(),
            a@.len() == b@.len(),
            forall|j: int| 0 <= j < i ==> a@[j] == b@[j],
        decreases a@.len() - i,
    {
        if a[i] != b[i] {
            return false;
        }
        i = i + 1;
    }
    assert(a@ =~= b@);
    true
}

/// Copies a piece of text.
pub(crate) fn copy_text(v: &Vec<u8>) -> (r: Vec<u8>)
    ensures
        r@ == v@,
{
    vstd::slice::slice_to_vec(v.as_slice())
}

/// Copies an optional piece of text.
pub(crate) fn copy_text_opt(o: &Option<Vec<u8>>) -> (r: Option<Vec<u8>>)
    ensures
        text_opt_model(r) == text_opt_model(*o),
{
    match o {
        Some(v) => Some(copy_text(v)),
        None => None,
    }
}

/// Copies a list of names.
pub(crate) fn copy_names(v: &Vec<Vec<u8>>) -> (r: Vec<Vec<u8>>)
    ensures
        names_model(r@) == names_model(v@),
{
    let mut r: Vec<Vec<u8>> = Vec::new();
    let mut i: usize = 0;
    while i < v.len()
        invariant
            0 <= i <= v@.len(),
            r@.len() == i,
            forall|j: int| 0 <= j < i ==> r@[j]@ == v@[j]@,
        decreases v@.len() - i,
    {
        r.push(copy_text(&v[i]));
        i = i + 1;
    }
    assert(names_model(r@) =~= names_model(v@));
    r
}

/// Copies an item, recursing through macro-declaration bodies.
pub(crate) fn clone_item(it: &Item) -> (r: Item)
    ensures
        r@ == it@,
    decreases *it,
{
    match it {
        Item::Instruction(i) => Item::Instruction(i.clone()),
        Item::MacroCall(c) => Item::MacroCall(c.clone()),
        Item::Comment(t) => Item::Comment(copy_text(t)),
        Item::MacroDeclaration(d) => {
            let mut body: Vec<Item> = Vec::new();
            let mut k: usize = 0;
            while k < d.body.len()
                invariant
                    *it == Item::MacroDeclaration(*d),
                    0 <= k <= d.body@.len(),
                    body@.len() == k,
                    forall|j: int| 0 <= j < k ==> body@[j]@ == d.body@[j]@,
                decreases d.body@.len() - k,
            {
                proof {
                    assert(decreases_to!(*it => (*it)->MacroDeclaration_0));
                    assert(decreases_to!(*d => d.body));
                    assert(decreases_to!(d.body => d.body@));
                    assert(decreases_to!(d.body@ => d.body@[k as int]));
                }
                let copied = clone_item(&d.body[k]);
                body.push(copied);
                k = k + 1;
            }
            proof {
                lemma_items_model(body@);
                lemma_items_model(d.body@);
                assert(items_model(body@) =~= items_model(d.body@));
            }
            let r = Item::MacroDeclaration(
                MacroDeclaration {
                    identifier: copy_text(&d.identifier),
                    parameters: copy_names(&d.parameters),
                    body,
                },
            );
            assert(r@ =~~= it@);
            r
        },
    }
}

impl Clone for Instruction {
    /// Clones the instruction; the copy has the same model.
    fn clone(&self) -> (r: Self)
        ensures
            r@ == self@,
    {
        Instruction {
            label: copy_text_opt(&self.label),
            opcode: self.opcode,
            operand: copy_text_opt(&self.operand),
        }
    }
}

impl Clone for MacroCall {
    /// Clones the call; the copy has the same model.
    fn clone(&self) -> (r: Self)
        ensures
            r@ == self@,
    {
        MacroCall {
            identifier: copy_text(&self.identifier),
            arguments: copy_names(&self.arguments),
        }
    }
}

impl Clone for MacroDeclaration {
    /// Clones the declaration; the copy has the same model.
    fn clone(&self) -> (r: Self)
        ensures
            r@ == self@,
    {
        let mut body: Vec<Item> = Vec::new();
        let mut k: usize = 0;
        while k < self.body.len()
            invariant
                0 <= k <= self.body@.len(),
                body@.len() == k,
                forall|j: int| 0 <= j < k ==> body@[j]@ == self.body@[j]@,
            decreases self.body@.len() - k,
        {
            body.push(clone_item(&self.body[k]));
            k = k + 1;
        }
        proof {
            lemma_items_model(body@);
            lemma_items_model(self.body@);
            assert(items_model(body@) =~= items_model(self.body@));
        }
        let r = MacroDeclaration {
            identifier: copy_text(&self.identifier),
            parameters: copy_names(&self.parameters),
            body,
        };
        assert(r@ =~~= self@);
        r
    }
}

impl Clone for Macro {
    /// Clones the macro; the copy has the same model.
    fn clone(&self) -> (r: Self)
        ensures
            r@ == self@,
    {
        let mut body: Vec<Instruction> = Vec::new();
        let mut k: usize = 0;
        while k < self.body.len()
            invariant
                0 <= k <= self.body@.len(),
                body@.len() == k,
                forall|j: int| 0 <= j < k ==> body@[j]@ == self.body@[j]@,
            decreases self.body@.len() - k,
        {
            body.push(self.body[k].clone());
            k = k + 1;
        }
        let r = Macro {
            identifier: copy_text(&self.identifier),
            arguments: copy_names(&self.arguments),
            body,
        };
        proof {
            assert(r@.body =~= self@.body);
        }
        assert(r@ =~~= self@);
        r
    }
}

impl Clone for Item {
    /// Clones the item; the copy has the same model.
    fn clone(&self) -> (r: Self)
        ensures
            r@ == self@,
    {
        clone_item(self)
    }
}

} // verus!
