//! Laws of the expansion engine, stated and proved over the models that the
//! public contracts use.

use vstd::prelude::*;

use crate::expand::decls_of;
use crate::expand::expand_item;
use crate::expand::expand_iter;
use crate::expand::expand_pass;
use crate::expand::expand_spec;
use crate::expand::expansion_bound;
use crate::expand::has_call;
use crate::expand::lookup_decl;
use crate::expand::find_param;
use crate::expand::subst_body;
use crate::expand::subst_names;
use crate::program::InstructionModel;
use crate::program::ItemModel;
use crate::program::MacroCallModel;
use crate::program::MacroDeclarationModel;
use crate::program::Opcode;

verus! {

/// A program made of instructions only.
pub open spec fn all_instructions(p: Seq<ItemModel>) -> bool {
    forall|i: int| 0 <= i < p.len() ==> p[i] is Instruction
}

/// A program with no macro construct left: neither a call nor a declaration.
pub open spec fn macro_free(p: Seq<ItemModel>) -> bool {
    forall|i: int| 0 <= i < p.len() ==> !(p[i] is MacroCall) && !(p[i] is MacroDeclaration)
}

/// A rewrite pass distributes over concatenation: what a pass makes of two
/// programs side by side is the passes of the two, side by side.
pub proof fn lemma_pass_append(decls: Seq<MacroDeclarationModel>, a: Seq<ItemModel>, b: Seq<ItemModel>)
    ensures
        expand_pass(decls, a + b) == expand_pass(decls, a) + expand_pass(decls, b),
    decreases a.len(),
{
    if a.len() == 0 {
        assert(a + b =~= b);
        assert(expand_pass(decls, a) =~= Seq::<ItemModel>::empty());
        assert(expand_pass(decls, a) + expand_pass(decls, b) =~= expand_pass(decls, b));
    } else {
        lemma_pass_append(decls, a.drop_first(), b);
        assert((a + b).drop_first() =~= a.drop_first() + b);
        assert((a + b)[0] == a[0]);
        assert(expand_item(decls, a[0]) + (expand_pass(decls, a.drop_first()) + expand_pass(
            decls,
            b,
        )) =~= (expand_item(decls, a[0]) + expand_pass(decls, a.drop_first())) + expand_pass(
            decls,
            b,
        ));
    }
}

/// A rewrite pass leaves a program of instructions unchanged.
pub proof fn lemma_pass_on_instructions(decls: Seq<MacroDeclarationModel>, p: Seq<ItemModel>)
    requires
        all_instructions(p),
    ensures
        expand_pass(decls, p) == p,
    decreases p.len(),
{
    if p.len() > 0 {
        assert(p[0] is Instruction);
        lemma_pass_on_instructions(decls, p.drop_first());
        assert(seq![p[0]] + p.drop_first() =~= p);
    }
}

/// A program of instructions has no macro call.
pub proof fn lemma_instructions_have_no_call(p: Seq<ItemModel>)
    requires
        all_instructions(p),
    ensures
        !has_call(p),
{
}

/// One rewrite pass over a macro-free program leaves only instructions: the
/// instructions pass through and the comments are dropped.
pub proof fn lemma_pass_macro_free(decls: Seq<MacroDeclarationModel>, p: Seq<ItemModel>)
    requires
        macro_free(p),
    ensures
        all_instructions(expand_pass(decls, p)),
    decreases p.len(),
{
    if p.len() > 0 {
        lemma_pass_macro_free(decls, p.drop_first());
        let head = expand_item(decls, p[0]);
        let rest = expand_pass(decls, p.drop_first());
        assert(all_instructions(head));
        assert forall|i: int| 0 <= i < (head + rest).len() implies (head + rest)[i]
            is Instruction by {
            if i < head.len() {
                assert((head + rest)[i] == head[i]);
            } else {
                assert((head + rest)[i] == rest[i - head.len()]);
            }
        }
    }
}

/// Expanding a program of instructions returns it unchanged.
pub proof fn lemma_expand_on_instructions(p: Seq<ItemModel>)
    requires
        all_instructions(p),
    ensures
        expand_spec(p) == Some(p),
{
    let decls = decls_of(p);
    lemma_pass_on_instructions(decls, p);
    lemma_instructions_have_no_call(p);
    assert(expand_iter(decls, p, expansion_bound(p)) == Some(p));
}

/// Expansion is idempotent on an already macro-free program: expanding it
/// once yields a result, and expanding that result changes nothing.
pub proof fn lemma_expand_idempotent(p: Seq<ItemModel>)
    requires
        macro_free(p),
    ensures
        expand_spec(p) is Some,
        expand_spec(expand_spec(p).unwrap()) == expand_spec(p),
{
    let decls = decls_of(p);
    let q = expand_pass(decls, p);
    lemma_pass_macro_free(decls, p);
    lemma_instructions_have_no_call(q);
    assert(expand_iter(decls, q, expansion_bound(p)) == Some(q));
    lemma_expand_on_instructions(q);
}

/// Arity law: a call whose argument count differs from its declaration's
/// parameter count contributes nothing to the pass at its call site, and the
/// items around it expand exactly as they would without it.
pub proof fn lemma_arity_mismatch_call_site(
    decls: Seq<MacroDeclarationModel>,
    before: Seq<ItemModel>,
    call: MacroCallModel,
    after: Seq<ItemModel>,
)
    requires
        lookup_decl(decls, call.identifier) matches Some(d) ==> d.parameters.len()
            != call.arguments.len(),
    ensures
        expand_pass(decls, before + seq![ItemModel::MacroCall(call)] + after) == expand_pass(
            decls,
            before,
        ) + expand_pass(decls, after),
{
    let c = seq![ItemModel::MacroCall(call)];
    assert(expand_item(decls, ItemModel::MacroCall(call)) =~= Seq::<ItemModel>::empty());
    assert(c[0] == ItemModel::MacroCall(call));
    assert(c.drop_first() =~= Seq::<ItemModel>::empty());
    assert(c.drop_first().len() == 0);
    assert(expand_pass(decls, c.drop_first()) =~= Seq::<ItemModel>::empty());
    assert(expand_pass(decls, c) =~= expand_item(decls, c[0]) + expand_pass(decls, c.drop_first()));
    assert(expand_pass(decls, c) =~= Seq::<ItemModel>::empty());
    lemma_pass_append(decls, before + c, after);
    lemma_pass_append(decls, before, c);
    assert(expand_pass(decls, before) + Seq::<ItemModel>::empty() =~= expand_pass(decls, before));
}

/// Undeclared-call law, call-site part: a call to an identifier no
/// declaration has contributes nothing, and the items around it expand
/// exactly as they would without it.
pub proof fn lemma_undeclared_call_site(
    decls: Seq<MacroDeclarationModel>,
    before: Seq<ItemModel>,
    call: MacroCallModel,
    after: Seq<ItemModel>,
)
    requires
        lookup_decl(decls, call.identifier) is None,
    ensures
        expand_pass(decls, before + seq![ItemModel::MacroCall(call)] + after) == expand_pass(
            decls,
            before,
        ) + expand_pass(decls, after),
{
    lemma_arity_mismatch_call_site(decls, before, call, after);
}

/// Undeclared-call law, termination part: a program with no declarations,
/// whose calls are therefore all undeclared, expands without a fatal
/// failure — one pass drops every such call and the rest stands.
pub proof fn lemma_undeclared_calls_terminate(p: Seq<ItemModel>)
    requires
        forall|i: int|
            0 <= i < p.len() ==> (#[trigger] p[i] matches ItemModel::MacroCall(c) ==> lookup_decl(
                decls_of(p),
                c.identifier,
            ) is None),
        forall|i: int| 0 <= i < p.len() ==> !(p[i] is MacroDeclaration),
    ensures
        expand_spec(p) is Some,
{
    let decls = decls_of(p);
    let q = expand_pass(decls, p);
    lemma_pass_undeclared(decls, p);
    lemma_instructions_have_no_call(q);
    assert(expand_iter(decls, q, expansion_bound(p)) == Some(q));
}

/// One pass over a program of instructions, comments and undeclared calls
/// leaves instructions only.
proof fn lemma_pass_undeclared(decls: Seq<MacroDeclarationModel>, p: Seq<ItemModel>)
    requires
        forall|i: int|
            0 <= i < p.len() ==> (#[trigger] p[i] matches ItemModel::MacroCall(c) ==> lookup_decl(
                decls,
                c.identifier,
            ) is None),
        forall|i: int| 0 <= i < p.len() ==> !(p[i] is MacroDeclaration),
    ensures
        all_instructions(expand_pass(decls, p)),
    decreases p.len(),
{
    if p.len() > 0 {
        assert(p[0] == p.first());
        lemma_pass_undeclared(decls, p.drop_first());
        let head = expand_item(decls, p[0]);
        let rest = expand_pass(decls, p.drop_first());
        assert(all_instructions(head));
        assert forall|i: int| 0 <= i < (head + rest).len() implies (head + rest)[i]
            is Instruction by {
            if i < head.len() {
                assert((head + rest)[i] == head[i]);
            } else {
                assert((head + rest)[i] == rest[i - head.len()]);
            }
        }
    }
}

/// Every successful expansion is complete: no macro call survives in the
/// result, however deeply the declarations call one another.
pub proof fn lemma_expansion_is_complete(p: Seq<ItemModel>, q: Seq<ItemModel>)
    requires
        expand_spec(p) == Some(q),
    ensures
        !has_call(q),
{
    let decls = decls_of(p);
    lemma_iter_result_has_no_call(decls, expand_pass(decls, p), expansion_bound(p), q);
}

/// A store instruction with the given operand and no label: the shape the
/// substitution laws are stated over.
pub open spec fn sto(operand: Seq<u8>) -> ItemModel {
    ItemModel::Instruction(
        InstructionModel {
            label: None,
            opcode: Opcode::STO,
            operand: Some(operand),
        },
    )
}

/// Positional substitution law: a macro with two distinct parameters whose
/// body stores each of them, called with two arguments, expands to exactly
/// the two stores of the arguments, in order, and nothing else.
pub proof fn lemma_positional_substitution(
    f: Seq<u8>,
    a: Seq<u8>,
    b: Seq<u8>,
    x: Seq<u8>,
    y: Seq<u8>,
)
    requires
        a != b,
    ensures
        ({
            let decl = MacroDeclarationModel {
                identifier: f,
                parameters: seq![a, b],
                body: seq![sto(a), sto(b)],
            };
            let call = MacroCallModel { identifier: f, arguments: seq![x, y] };
            expand_spec(seq![ItemModel::MacroDeclaration(decl), ItemModel::MacroCall(call)])
                == Some(seq![sto(x), sto(y)])
        }),
{
    reveal_with_fuel(decls_of, 4);
    reveal_with_fuel(expand_pass, 4);
    reveal_with_fuel(find_param, 4);
    reveal_with_fuel(lookup_decl, 3);
    reveal_with_fuel(expand_iter, 3);
    let decl = MacroDeclarationModel {
        identifier: f,
        parameters: seq![a, b],
        body: seq![sto(a), sto(b)],
    };
    let call = MacroCallModel { identifier: f, arguments: seq![x, y] };
    let p = seq![ItemModel::MacroDeclaration(decl), ItemModel::MacroCall(call)];
    let decls = decls_of(p);
    // the declaration list is exactly the one declaration
    assert(p.drop_first() =~= seq![ItemModel::MacroCall(call)]);
    assert(p.drop_first().drop_first() =~= Seq::<ItemModel>::empty());
    assert(decls =~= seq![decl]);
    // the call resolves to it
    assert(lookup_decl(decls, f) == Some(decl));
    // the substituted body is the two stores of the arguments
    let params = seq![a, b];
    let args = seq![x, y];
    assert(find_param(params, a) == Some(0int));
    assert(params.drop_first() =~= seq![b]);
    assert(find_param(seq![b], b) == Some(0int));
    assert(find_param(params, b) == Some(1int));
    let subst = subst_body(params, args, decl.body);
    assert(subst[0] == sto(x));
    assert(subst[1] == sto(y));
    assert(subst =~= seq![sto(x), sto(y)]);
    // one pass rewrites the program to exactly that body
    let q = expand_pass(decls, p);
    assert(expand_item(decls, p[0]) =~= Seq::<ItemModel>::empty());
    assert(expand_item(decls, p.drop_first()[0]) == subst);
    assert(expand_pass(decls, p.drop_first().drop_first()) =~= Seq::<ItemModel>::empty());
    assert(q =~= seq![sto(x), sto(y)]);
    // the result is macro-free, so the iteration stops at once
    assert(all_instructions(q)) by {
        assert(q[0] is Instruction);
        assert(q[1] is Instruction);
    }
    lemma_instructions_have_no_call(q);
    assert(expand_iter(decls, q, expansion_bound(p)) == Some(q));
}

/// Nested-call law: a macro whose body calls a second macro is transitively
/// expanded, the argument threaded through both substitution layers.
pub proof fn lemma_nested_call(f: Seq<u8>, g: Seq<u8>, a: Seq<u8>, c: Seq<u8>, x: Seq<u8>)
    requires
        f != g,
    ensures
        ({
            let inner = MacroDeclarationModel { identifier: g, parameters: seq![c], body: seq![sto(c)] };
            let outer = MacroDeclarationModel {
                identifier: f,
                parameters: seq![a],
                body: seq![
                    ItemModel::MacroCall(MacroCallModel { identifier: g, arguments: seq![a] }),
                ],
            };
            let call = ItemModel::MacroCall(MacroCallModel { identifier: f, arguments: seq![x] });
            expand_spec(
                seq![
                    ItemModel::MacroDeclaration(inner),
                    ItemModel::MacroDeclaration(outer),
                    call,
                ],
            ) == Some(seq![sto(x)])
        }),
{
    reveal_with_fuel(decls_of, 5);
    reveal_with_fuel(expand_pass, 5);
    reveal_with_fuel(find_param, 4);
    reveal_with_fuel(lookup_decl, 4);
    reveal_with_fuel(expand_iter, 4);
    let inner = MacroDeclarationModel { identifier: g, parameters: seq![c], body: seq![sto(c)] };
    let outer = MacroDeclarationModel {
        identifier: f,
        parameters: seq![a],
        body: seq![ItemModel::MacroCall(MacroCallModel { identifier: g, arguments: seq![a] })],
    };
    let call = ItemModel::MacroCall(MacroCallModel { identifier: f, arguments: seq![x] });
    let p = seq![ItemModel::MacroDeclaration(inner), ItemModel::MacroDeclaration(outer), call];
    // the declaration list holds both declarations, in order
    let p1 = p.drop_first();
    let p2 = p1.drop_first();
    assert(p1 =~= seq![ItemModel::MacroDeclaration(outer), call]);
    assert(p2 =~= seq![call]);
    assert(p2.drop_first() =~= Seq::<ItemModel>::empty());
    let decls = decls_of(p);
    assert(decls_of(p2) =~= Seq::<MacroDeclarationModel>::empty());
    assert(decls_of(p1) =~= seq![outer]);
    assert(decls =~= seq![inner, outer]);
    // the outer call resolves to the outer declaration
    assert(decls.drop_first() =~= seq![outer]);
    assert(lookup_decl(seq![outer], f) == Some(outer));
    assert(lookup_decl(decls, f) == Some(outer));
    // the first pass leaves exactly the inner call, its argument substituted
    let inner_call_x = ItemModel::MacroCall(
        MacroCallModel { identifier: g, arguments: seq![x] },
    );
    assert(find_param(seq![a], a) == Some(0int));
    let subst1 = subst_body(seq![a], seq![x], outer.body);
    assert(subst_names(seq![a], seq![x], seq![a]) =~= seq![x]);
    assert(subst1[0] == inner_call_x);
    assert(subst1 =~= seq![inner_call_x]);
    let q1 = expand_pass(decls, p);
    assert(expand_item(decls, p[0]) =~= Seq::<ItemModel>::empty());
    assert(expand_item(decls, p1[0]) =~= Seq::<ItemModel>::empty());
    assert(expand_item(decls, p2[0]) == subst1);
    assert(expand_pass(decls, p2.drop_first()) =~= Seq::<ItemModel>::empty());
    assert(q1 =~= seq![inner_call_x]);
    // the second pass expands the inner call through the inner declaration
    assert(has_call(q1)) by {
        assert(q1[0] is MacroCall);
    }
    assert(lookup_decl(decls, g) == Some(inner));
    assert(find_param(seq![c], c) == Some(0int));
    let subst2 = subst_body(seq![c], seq![x], inner.body);
    assert(subst2[0] == sto(x));
    assert(subst2 =~= seq![sto(x)]);
    let q2 = expand_pass(decls, q1);
    assert(q1.drop_first() =~= Seq::<ItemModel>::empty());
    assert(expand_pass(decls, q1.drop_first()) =~= Seq::<ItemModel>::empty());
    assert(expand_item(decls, q1[0]) == subst2);
    assert(q2 =~= seq![sto(x)]);
    // the result is macro-free, and the pass bound of two was enough
    assert(all_instructions(q2)) by {
        assert(q2[0] is Instruction);
    }
    lemma_instructions_have_no_call(q2);
    assert(expansion_bound(p) == 2);
    assert(expand_iter(decls, q2, 1nat) == Some(q2));
    assert(expand_iter(decls, q1, 2nat) == Some(q2));
}

/// Whatever `expand_iter` returns has no macro call.
proof fn lemma_iter_result_has_no_call(
    decls: Seq<MacroDeclarationModel>,
    start: Seq<ItemModel>,
    fuel: nat,
    q: Seq<ItemModel>,
)
    requires
        expand_iter(decls, start, fuel) == Some(q),
    ensures
        !has_call(q),
    decreases fuel,
{
    if has_call(start) {
        lemma_iter_result_has_no_call(decls, expand_pass(decls, start), (fuel - 1) as nat, q);
    }
}

} // verus!
