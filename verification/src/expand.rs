//! The macro-expansion engine.
//!
//! A rewrite pass resolves every macro call against the declarations that were
//! collected from the original program, binds call arguments to parameters
//! positionally, and substitutes them through the declaration's body. The pass
//! is repeated, always against the original declarations, until no macro call
//! remains; the number of passes is bounded, and exceeding the bound is a
//! reported error rather than an endless loop.

use vstd::prelude::*;

use crate::program::Instruction;
use crate::program::InstructionModel;
use crate::program::Item;
use crate::program::ItemModel;
use crate::program::Macro;
use crate::program::MacroCall;
use crate::program::MacroCallModel;
use crate::program::MacroDeclaration;
use crate::program::MacroDeclarationModel;
use crate::program::bytes_eq;
use crate::program::clone_item;
use crate::program::copy_text;
use crate::program::items_model;
use crate::program::lemma_items_model;
use crate::program::names_model;

verus! {

/// The index of the first parameter equal to `name`, if any.
pub open spec fn find_param(params: Seq<Seq<u8>>, name: Seq<u8>) -> Option<int>
    decreases params.len(),
{
    if params.len() == 0 {
        None
    } else if params[0] == name {
        Some(0)
    } else {
        match find_param(params.drop_first(), name) {
            Some(i) => Some(i + 1),
            None => None,
        }
    }
}

/// `find_param` returns the first index of `name`, when one exists.
pub proof fn lemma_find_param_hit(params: Seq<Seq<u8>>, name: Seq<u8>, i: int)
    requires
        0 <= i < params.len(),
        params[i] == name,
        forall|j: int| 0 <= j < i ==> params[j] != name,
    ensures
        find_param(params, name) == Some(i),
    decreases params.len(),
{
    if i > 0 {
        lemma_find_param_hit(params.drop_first(), name, i - 1);
    }
}

/// `find_param` returns nothing when `name` is not among the parameters.
pub proof fn lemma_find_param_miss(params: Seq<Seq<u8>>, name: Seq<u8>)
    requires
        forall|j: int| 0 <= j < params.len() ==> params[j] != name,
    ensures
        find_param(params, name) is None,
    decreases params.len(),
{
    if params.len() > 0 {
        lemma_find_param_miss(params.drop_first(), name);
    }
}

/// What a successful `find_param` means: the index is in range, names the
/// sought parameter, and no earlier parameter is equal to it.
pub proof fn lemma_find_param_some(params: Seq<Seq<u8>>, name: Seq<u8>)
    ensures
        find_param(params, name) matches Some(i) ==> 0 <= i < params.len() && params[i] == name
            && (forall|j: int| 0 <= j < i ==> params[j] != name),
        find_param(params, name) is None ==> forall|j: int|
            0 <= j < params.len() ==> params[j] != name,
    decreases params.len(),
{
    if params.len() > 0 && params[0] != name {
        lemma_find_param_some(params.drop_first(), name);
        match find_param(params, name) {
            Some(i) => {
                assert forall|j: int| 0 <= j < i implies params[j] != name by {
                    if j > 0 {
                        assert(params.drop_first()[j - 1] == params[j]);
                    }
                }
                assert(params.drop_first()[i - 1] == params[i]);
            },
            None => {
                assert forall|j: int| 0 <= j < params.len() implies params[j] != name by {
                    if j > 0 {
                        assert(params.drop_first()[j - 1] == params[j]);
                    }
                }
            },
        }
    }
}

/// The operand after substitution: replaced by the argument bound to the
/// first parameter it equals, and kept otherwise.
pub open spec fn subst_operand(
    params: Seq<Seq<u8>>,
    args: Seq<Seq<u8>>,
    operand: Option<Seq<u8>>,
) -> Option<Seq<u8>> {
    match operand {
        Some(o) => match find_param(params, o) {
            Some(i) => Some(args[i]),
            None => Some(o),
        },
        None => None,
    }
}

/// A name list after substitution: each name bound to a parameter is replaced
/// by the corresponding argument; the others are kept.
pub open spec fn subst_names(
    params: Seq<Seq<u8>>,
    args: Seq<Seq<u8>>,
    names: Seq<Seq<u8>>,
) -> Seq<Seq<u8>> {
    names.map_values(
        |n: Seq<u8>|
            match find_param(params, n) {
                Some(i) => args[i],
                None => n,
            },
    )
}

/// One body item after substitution: an instruction has its operand
/// substituted, a nested call has its argument names substituted, and every
/// other item passes through unchanged.
pub open spec fn subst_item_model(
    params: Seq<Seq<u8>>,
    args: Seq<Seq<u8>>,
    it: ItemModel,
) -> ItemModel {
    match it {
        ItemModel::Instruction(i) => ItemModel::Instruction(
            InstructionModel {
                label: i.label,
                opcode: i.opcode,
                operand: subst_operand(params, args, i.operand),
            },
        ),
        ItemModel::MacroCall(c) => ItemModel::MacroCall(
            MacroCallModel {
                identifier: c.identifier,
                arguments: subst_names(params, args, c.arguments),
            },
        ),
        _ => it,
    }
}

/// A whole body after substitution.
pub open spec fn subst_body(
    params: Seq<Seq<u8>>,
    args: Seq<Seq<u8>>,
    body: Seq<ItemModel>,
) -> Seq<ItemModel> {
    body.map_values(|it: ItemModel| subst_item_model(params, args, it))
}

/// The macro declarations of a program, in declaration order.
pub open spec fn decls_of(p: Seq<ItemModel>) -> Seq<MacroDeclarationModel>
    decreases p.len(),
{
    if p.len() == 0 {
        Seq::empty()
    } else {
        let rest = decls_of(p.drop_first());
        match p[0] {
            ItemModel::MacroDeclaration(d) => seq![d] + rest,
            _ => rest,
        }
    }
}

/// The first declaration with the given identifier, if any: with duplicate
/// identifiers, the first declared one is used for all matching calls.
pub open spec fn lookup_decl(decls: Seq<MacroDeclarationModel>, name: Seq<u8>) -> Option<
    MacroDeclarationModel,
>
    decreases decls.len(),
{
    if decls.len() == 0 {
        None
    } else if decls[0].identifier == name {
        Some(decls[0])
    } else {
        lookup_decl(decls.drop_first(), name)
    }
}

/// `lookup_decl` returns the first declaration with the sought identifier.
pub proof fn lemma_lookup_hit(decls: Seq<MacroDeclarationModel>, name: Seq<u8>, i: int)
    requires
        0 <= i < decls.len(),
        decls[i].identifier == name,
        forall|j: int| 0 <= j < i ==> decls[j].identifier != name,
    ensures
        lookup_decl(decls, name) == Some(decls[i]),
    decreases decls.len(),
{
    if i > 0 {
        lemma_lookup_hit(decls.drop_first(), name, i - 1);
    }
}

/// `lookup_decl` returns nothing when no declaration has the identifier.
pub proof fn lemma_lookup_miss(decls: Seq<MacroDeclarationModel>, name: Seq<u8>)
    requires
        forall|j: int| 0 <= j < decls.len() ==> decls[j].identifier != name,
    ensures
        lookup_decl(decls, name) is None,
    decreases decls.len(),
{
    if decls.len() > 0 {
        lemma_lookup_miss(decls.drop_first(), name);
    }
}

/// What one item contributes to a rewrite pass: an instruction passes
/// through; a call becomes its declaration's substituted body, or nothing
/// when the call is undeclared or its argument count differs from the
/// declaration's parameter count; comments and declarations are dropped.
pub open spec fn expand_item(decls: Seq<MacroDeclarationModel>, it: ItemModel) -> Seq<ItemModel> {
    match it {
        ItemModel::Instruction(i) => seq![it],
        ItemModel::MacroCall(c) => match lookup_decl(decls, c.identifier) {
            Some(d) => if d.parameters.len() == c.arguments.len() {
                subst_body(d.parameters, c.arguments, d.body)
            } else {
                Seq::empty()
            },
            None => Seq::empty(),
        },
        _ => Seq::empty(),
    }
}

/// One rewrite pass over a whole program, in source order.
pub open spec fn expand_pass(decls: Seq<MacroDeclarationModel>, p: Seq<ItemModel>) -> Seq<
    ItemModel,
>
    decreases p.len(),
{
    if p.len() == 0 {
        Seq::empty()
    } else {
        expand_item(decls, p[0]) + expand_pass(decls, p.drop_first())
    }
}

/// Whether any macro call remains in the program.
pub open spec fn has_call(p: Seq<ItemModel>) -> bool {
    exists|i: int| 0 <= i < p.len() && p[i] is MacroCall
}

/// Repeated rewrite passes against a fixed declaration list, stopping as soon
/// as no macro call remains, and giving up when the fuel runs out.
pub open spec fn expand_iter(
    decls: Seq<MacroDeclarationModel>,
    q: Seq<ItemModel>,
    fuel: nat,
) -> Option<Seq<ItemModel>>
    decreases fuel,
{
    if !has_call(q) {
        Some(q)
    } else if fuel == 0 {
        None
    } else {
        expand_iter(decls, expand_pass(decls, q), (fuel - 1) as nat)
    }
}

/// The pass bound: beyond the pass that always runs, one more pass per
/// declaration. Acyclic macros resolve one nesting level per pass, so a
/// program whose calls still remain after that many passes has a cyclic
/// macro.
pub open spec fn expansion_bound(p: Seq<ItemModel>) -> nat {
    decls_of(p).len()
}

/// The whole expansion: one pass always runs (it drops comments and
/// declarations), then passes repeat until no call remains; `None` means the
/// bound was exceeded.
pub open spec fn expand_spec(p: Seq<ItemModel>) -> Option<Seq<ItemModel>> {
    let decls = decls_of(p);
    expand_iter(decls, expand_pass(decls, p), expansion_bound(p))
}

/// The failure of an expansion: the pass bound was exceeded, so the macros
/// call each other (or themselves) in a cycle.
#[derive(Debug, Clone, Copy, PartialEq, Eq, Structural)]
pub enum ExpandError {
    NonTerminating,
}

/// The index of the first parameter equal to `name`, found by comparing
/// bytes.
fn find_param_x(params: &Vec<Vec<u8>>, name: &Vec<u8>) -> (r: Option<usize>)
    ensures
        (match r {
            Some(i) => find_param(names_model(params@), name@) == Some(i as int) && i
                < params@.len(),
            None => find_param(names_model(params@), name@) is None,
        }),
{
    let mut i: usize = 0;
    while i < params.len()
        invariant
            0 <= i <= params@.len(),
            forall|j: int| 0 <= j < i ==> names_model(params@)[j] != name@,
        decreases params@.len() - i,
    {
        if bytes_eq(params[i].as_slice(), name.as_slice()) {
            proof {
                lemma_find_param_hit(names_model(params@), name@, i as int);
            }
            return Some(i);
        }
        i = i + 1;
    }
    proof {
        lemma_find_param_miss(names_model(params@), name@);
    }
    None
}

/// Substitutes the bound arguments into a single body item: an instruction's
/// operand and a nested call's argument names are replaced where they equal a
/// parameter; everything else passes through unchanged.
pub fn substitute_argument_item(
    item: &Item,
    parameters: &Vec<Vec<u8>>,
    arguments: &Vec<Vec<u8>>,
) -> (r: Item)
    requires
        parameters@.len() == arguments@.len(),
    ensures
        r@ == subst_item_model(names_model(parameters@), names_model(arguments@), item@),
{
    match item {
        Item::Instruction(inst) => {
            let replacement = match &inst.operand {
                Some(o) => find_param_x(parameters, o),
                None => None,
            };
            match replacement {
                Some(i) => Item::Instruction(inst.clone_with_operand(copy_text(&arguments[i]))),
                None => Item::Instruction(inst.clone()),
            }
        },
        Item::MacroCall(call) => {
            let ghost subst = subst_names(
                names_model(parameters@),
                names_model(arguments@),
                names_model(call.arguments@),
            );
            let mut new_args: Vec<Vec<u8>> = Vec::new();
            let mut k: usize = 0;
            while k < call.arguments.len()
                invariant
                    *item == Item::MacroCall(*call),
                    parameters@.len() == arguments@.len(),
                    subst == subst_names(
                        names_model(parameters@),
                        names_model(arguments@),
                        names_model(call.arguments@),
                    ),
                    0 <= k <= call.arguments@.len(),
                    new_args@.len() == k,
                    forall|j: int| 0 <= j < k ==> new_args@[j]@ == subst[j],
                decreases call.arguments@.len() - k,
            {
                match find_param_x(parameters, &call.arguments[k]) {
                    Some(i) => new_args.push(copy_text(&arguments[i])),
                    None => new_args.push(copy_text(&call.arguments[k])),
                }
                k = k + 1;
            }
            proof {
                assert(names_model(new_args@) =~= subst);
            }
            let r = Item::MacroCall(
                MacroCall { identifier: copy_text(&call.identifier), arguments: new_args },
            );
            r
        },
        _ => clone_item(item),
    }
}

impl MacroDeclaration {
    /// Substitutes the given arguments into the declaration's body, binding
    /// them positionally to the parameters. Returns nothing if and only if
    /// the argument count differs from the parameter count.
    pub fn substitute_arguments(&self, new_args: &Vec<Vec<u8>>) -> (r: Option<Vec<Item>>)
        ensures
            r is Some <==> self@.parameters.len() == new_args@.len(),
            (match r {
                Some(items) => items_model(items@) == subst_body(
                    self@.parameters,
                    names_model(new_args@),
                    self@.body,
                ),
                None => true,
            }),
    {
        if self.parameters.len() != new_args.len() {
            return None;
        }
        let ghost target = subst_body(self@.parameters, names_model(new_args@), self@.body);
        let mut out: Vec<Item> = Vec::new();
        let mut k: usize = 0;
        while k < self.body.len()
            invariant
                self@.parameters == names_model(self.parameters@),
                self@.body == items_model(self.body@),
                self.parameters@.len() == new_args@.len(),
                target == subst_body(self@.parameters, names_model(new_args@), self@.body),
                0 <= k <= self.body@.len(),
                out@.len() == k,
                forall|j: int| 0 <= j < k ==> out@[j]@ == target[j],
            decreases self.body@.len() - k,
        {
            proof {
                lemma_items_model(self.body@);
            }
            let item = substitute_argument_item(
                vstd::slice::slice_index_get(self.body.as_slice(), k),
                &self.parameters,
                new_args,
            );
            out.push(item);
            k = k + 1;
        }
        proof {
            lemma_items_model(out@);
            lemma_items_model(self.body@);
            assert(target.len() == self.body@.len());
            assert(items_model(out@) =~= target);
        }
        Some(out)
    }
}

/// What substituting into an instruction-only macro body yields: each
/// instruction with its operand substituted, as a program item.
pub open spec fn macro_subst(m: crate::program::MacroModel, args: Seq<Seq<u8>>) -> Seq<ItemModel> {
    m.body.map_values(
        |i: InstructionModel| subst_item_model(m.arguments, args, ItemModel::Instruction(i)),
    )
}

impl Macro {
    /// Substitutes the given arguments into the macro's instruction body,
    /// binding them positionally. Returns nothing if and only if the argument
    /// count differs from the parameter count.
    pub fn substitute_arguments(&self, new_args: &Vec<Vec<u8>>) -> (r: Option<Vec<Item>>)
        ensures
            r is Some <==> self@.arguments.len() == new_args@.len(),
            (match r {
                Some(items) => items_model(items@) == macro_subst(self@, names_model(new_args@)),
                None => true,
            }),
    {
        if self.arguments.len() != new_args.len() {
            return None;
        }
        let ghost target = macro_subst(self@, names_model(new_args@));
        let mut out: Vec<Item> = Vec::new();
        let mut k: usize = 0;
        while k < self.body.len()
            invariant
                self@.arguments == names_model(self.arguments@),
                self@.body.len() == self.body@.len(),
                forall|j: int| 0 <= j < self.body@.len() ==> self@.body[j] == self.body@[j]@,
                self.arguments@.len() == new_args@.len(),
                target == macro_subst(self@, names_model(new_args@)),
                target.len() == self.body@.len(),
                0 <= k <= self.body@.len(),
                out@.len() == k,
                forall|j: int| 0 <= j < k ==> out@[j]@ == target[j],
            decreases self.body@.len() - k,
        {
            let as_item = Item::Instruction(self.body[k].clone());
            let item = substitute_argument_item(&as_item, &self.arguments, new_args);
            proof {
                assert(target[k as int] == subst_item_model(
                    self@.arguments,
                    names_model(new_args@),
                    ItemModel::Instruction(self@.body[k as int]),
                ));
            }
            out.push(item);
            k = k + 1;
        }
        proof {
            lemma_items_model(out@);
            assert(out@.len() == target.len());
            assert forall|j: int| 0 <= j < out@.len() implies items_model(out@)[j] == target[j] by {
            }
            assert(items_model(out@) =~= target);
        }
        Some(out)
    }
}

/// The models of a list of declarations.
pub open spec fn decls_model(s: Seq<MacroDeclaration>) -> Seq<MacroDeclarationModel> {
    Seq::new(s.len(), |i: int| s[i]@)
}

/// Collects every macro declaration of the program, in source order.
fn collect_decls(program: &[Item]) -> (r: Vec<MacroDeclaration>)
    ensures
        decls_model(r@) == decls_of(items_model(program@)),
{
    let ghost p = items_model(program@);
    let mut out: Vec<MacroDeclaration> = Vec::new();
    let mut k: usize = 0;
    proof {
        lemma_items_model(program@);
        assert(decls_model(out@) + decls_of(p.skip(0)) =~= decls_of(p)) by {
            assert(p.skip(0) =~= p);
            assert(decls_model(out@) =~= Seq::<MacroDeclarationModel>::empty());
        }
    }
    while k < program.len()
        invariant
            p == items_model(program@),
            p.len() == program@.len(),
            forall|j: int| 0 <= j < p.len() ==> p[j] == program@[j]@,
            0 <= k <= program@.len(),
            decls_of(p) =~= decls_model(out@) + decls_of(p.skip(k as int)),
        decreases program@.len() - k,
    {
        proof {
            assert(p.skip(k as int) =~= seq![p[k as int]] + p.skip(k as int + 1));
            lemma_decls_of_cons(p[k as int], p.skip(k as int + 1));
        }
        match vstd::slice::slice_index_get(program, k) {
            Item::MacroDeclaration(d) => {
                proof {
                    assert(decls_model(out@.push(*d)) =~= decls_model(out@) + seq![d@]);
                    assert(decls_model(out@) + (seq![d@] + decls_of(p.skip(k as int + 1))) =~= (
                    decls_model(out@) + seq![d@]) + decls_of(p.skip(k as int + 1)));
                }
                out.push(d.clone());
            },
            _ => {},
        }
        k = k + 1;
    }
    proof {
        assert(p.skip(p.len() as int) =~= Seq::<ItemModel>::empty());
        assert(decls_model(out@) + decls_of(Seq::<ItemModel>::empty()) =~= decls_model(out@));
    }
    out
}

/// Unfolds `decls_of` over a program split into its first item and the rest.
proof fn lemma_decls_of_cons(x: ItemModel, rest: Seq<ItemModel>)
    ensures
        decls_of(seq![x] + rest) == (match x {
            ItemModel::MacroDeclaration(d) => seq![d] + decls_of(rest),
            _ => decls_of(rest),
        }),
{
    let q = seq![x] + rest;
    assert(q[0] == x);
    assert(q.drop_first() =~= rest);
}

/// The first declaration in the list whose identifier is the sought name.
fn lookup_decl_x<'a>(decls: &'a Vec<MacroDeclaration>, name: &Vec<u8>) -> (r: Option<
    &'a MacroDeclaration,
>)
    ensures
        (match r {
            Some(d) => lookup_decl(decls_model(decls@), name@) == Some(d@),
            None => lookup_decl(decls_model(decls@), name@) is None,
        }),
{
    let mut i: usize = 0;
    while i < decls.len()
        invariant
            0 <= i <= decls@.len(),
            forall|j: int| 0 <= j < i ==> decls_model(decls@)[j].identifier != name@,
        decreases decls@.len() - i,
    {
        if bytes_eq(decls[i].identifier.as_slice(), name.as_slice()) {
            proof {
                lemma_lookup_hit(decls_model(decls@), name@, i as int);
            }
            return Some(&decls[i]);
        }
        i = i + 1;
    }
    proof {
        lemma_lookup_miss(decls_model(decls@), name@);
    }
    None
}

/// The models of a concatenation are the concatenated models.
proof fn lemma_items_model_add(a: Seq<Item>, b: Seq<Item>)
    ensures
        items_model(a + b) == items_model(a) + items_model(b),
{
    lemma_items_model(a);
    lemma_items_model(b);
    lemma_items_model(a + b);
    assert(items_model(a + b) =~= items_model(a) + items_model(b));
}

/// Rewrites every macro call of the program once: instructions pass through,
/// comments and declarations are dropped, and each call becomes its
/// declaration's substituted body — or nothing, when it is undeclared or its
/// argument count is wrong.
fn replace_once(program: &[Item], decls: &Vec<MacroDeclaration>) -> (r: Vec<Item>)
    ensures
        items_model(r@) == expand_pass(decls_model(decls@), items_model(program@)),
{
    let ghost p = items_model(program@);
    let ghost dm = decls_model(decls@);
    let mut out: Vec<Item> = Vec::new();
    let mut k: usize = 0;
    proof {
        lemma_items_model(program@);
        lemma_items_model(out@);
        assert(items_model(out@) + expand_pass(dm, p.skip(0)) =~= expand_pass(dm, p)) by {
            assert(p.skip(0) =~= p);
            assert(items_model(out@) =~= Seq::<ItemModel>::empty());
        }
    }
    while k < program.len()
        invariant
            p == items_model(program@),
            dm == decls_model(decls@),
            p.len() == program@.len(),
            forall|j: int| 0 <= j < p.len() ==> p[j] == program@[j]@,
            0 <= k <= program@.len(),
            expand_pass(dm, p) =~= items_model(out@) + expand_pass(dm, p.skip(k as int)),
        decreases program@.len() - k,
    {
        proof {
            assert(p.skip(k as int) =~= seq![p[k as int]] + p.skip(k as int + 1));
            lemma_expand_pass_cons(dm, p[k as int], p.skip(k as int + 1));
        }
        let ghost out_before = out@;
        let item_ref = vstd::slice::slice_index_get(program, k);
        match item_ref {
            Item::Instruction(_) => {
                out.push(clone_item(item_ref));
                proof {
                    lemma_items_model(out_before);
                    lemma_items_model(out@);
                    assert(items_model(out@) =~= items_model(out_before) + seq![p[k as int]]);
                }
            },
            Item::MacroCall(call) => {
                match lookup_decl_x(decls, &call.identifier) {
                    Some(d) => {
                        match d.substitute_arguments(&call.arguments) {
                            Some(mut items) => {
                                proof {
                                    lemma_items_model_add(out@, items@);
                                }
                                out.append(&mut items);
                            },
                            None => {},
                        }
                    },
                    None => {},
                }
            },
            _ => {},
        }
        k = k + 1;
        proof {
            assert(expand_pass(dm, p) =~= items_model(out@) + expand_pass(dm, p.skip(k as int)));
        }
    }
    proof {
        assert(p.skip(p.len() as int) =~= Seq::<ItemModel>::empty());
        assert(items_model(out@) + expand_pass(dm, Seq::<ItemModel>::empty()) =~= items_model(
            out@,
        ));
    }
    out
}

/// Unfolds `expand_pass` over a program split into its first item and the
/// rest.
proof fn lemma_expand_pass_cons(
    decls: Seq<MacroDeclarationModel>,
    x: ItemModel,
    rest: Seq<ItemModel>,
)
    ensures
        expand_pass(decls, seq![x] + rest) == expand_item(decls, x) + expand_pass(decls, rest),
{
    let q = seq![x] + rest;
    assert(q[0] == x);
    assert(q.drop_first() =~= rest);
}

/// Whether the program still holds a macro call.
fn contains_call(program: &[Item]) -> (r: bool)
    ensures
        r == has_call(items_model(program@)),
{
    proof {
        lemma_items_model(program@);
    }
    let mut k: usize = 0;
    while k < program.len()
        invariant
            0 <= k <= program@.len(),
            items_model(program@).len() == program@.len(),
            forall|j: int| 0 <= j < program@.len() ==> items_model(program@)[j] == program@[j]@,
            forall|j: int| 0 <= j < k ==> !(items_model(program@)[j] is MacroCall),
        decreases program@.len() - k,
    {
        match vstd::slice::slice_index_get(program, k) {
            Item::MacroCall(_) => {
                assert(items_model(program@)[k as int] is MacroCall);
                return true;
            },
            _ => {},
        }
        k = k + 1;
    }
    false
}

/// Expands every macro invocation of the program, creating a new program with
/// each call replaced by its declaration's substituted body; a call without a
/// matching declaration (or with the wrong argument count) is replaced by
/// nothing. Rewrite passes repeat, against the declarations of the original
/// program, until no call remains; when the pass bound is exceeded — the
/// macros are cyclic — the error is reported instead of looping forever.
pub fn replace_macro(program: &[Item]) -> (r: Result<Vec<Item>, ExpandError>)
    ensures
        (match r {
            Ok(out) => expand_spec(items_model(program@)) == Some(items_model(out@)),
            Err(_) => expand_spec(items_model(program@)) is None,
        }),
{
    let ghost p = items_model(program@);
    let decls = collect_decls(program);
    let ghost dm = decls_model(decls@);
    let mut out = replace_once(program, &decls);
    let mut passes: usize = 0;
    proof {
        assert(dm == decls_of(p));
        assert(expansion_bound(p) == decls@.len());
    }
    loop
        invariant
            p == items_model(program@),
            dm == decls_model(decls@),
            dm == decls_of(p),
            expansion_bound(p) == decls@.len(),
            0 <= passes <= expansion_bound(p),
            expand_iter(dm, items_model(out@), (expansion_bound(p) - passes) as nat) == expand_spec(
                p,
            ),
        decreases expansion_bound(p) - passes,
    {
        if !contains_call(&out) {
            assert(expand_iter(dm, items_model(out@), (expansion_bound(p) - passes) as nat)
                == Some(items_model(out@)));
            return Ok(out);
        }
        if passes >= decls.len() {
            assert(passes == expansion_bound(p));
            assert(expand_iter(dm, items_model(out@), 0) is None);
            return Err(ExpandError::NonTerminating);
        }
        let next = replace_once(out.as_slice(), &decls);
        proof {
            assert(expand_iter(dm, items_model(out@), (expansion_bound(p) - passes) as nat)
                == expand_iter(dm, items_model(next@), (expansion_bound(p) - passes - 1) as nat));
        }
        out = next;
        passes = passes + 1;
    }
}

} // verus!
