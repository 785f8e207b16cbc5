//! The emitter: renders a macro-free program back to assembly text.
//!
//! An instruction renders as its fields, present ones only, joined by single
//! spaces; a comment renders as `#` followed by its text. Every item ends its
//! line with a line feed. A macro declaration or call reaching the emitter is
//! an internal-invariant violation — expansion removes them — so the emitter
//! requires a renderable program.

use vstd::prelude::*;

use crate::parse::opcode_text;
use crate::parse::opcode_text_x;
use crate::program::InstructionModel;
use crate::program::Item;
use crate::program::ItemModel;
use crate::program::items_model;
use crate::program::lemma_items_model;

verus! {

/// An item the emitter accepts: an instruction or a comment.
pub open spec fn renderable_item(it: ItemModel) -> bool {
    it is Instruction || it is Comment
}

/// A program the emitter accepts: instructions and comments only.
pub open spec fn renderable(p: Seq<ItemModel>) -> bool {
    forall|i: int| 0 <= i < p.len() ==> renderable_item(p[i])
}

/// The rendered line of one instruction: `label? opcode operand?`, present
/// fields joined by single spaces, ending with a line feed.
pub open spec fn render_instruction(i: InstructionModel) -> Seq<u8> {
    let label_part = match i.label {
        Some(l) => l + seq![32u8],
        None => Seq::<u8>::empty(),
    };
    let operand_part = match i.operand {
        Some(o) => seq![32u8] + o,
        None => Seq::<u8>::empty(),
    };
    label_part + opcode_text(i.opcode) + operand_part + seq![10u8]
}

/// The rendered line of one item. Only instructions and comments render;
/// the other item kinds render as nothing and are excluded by `renderable`.
pub open spec fn render_item(it: ItemModel) -> Seq<u8> {
    match it {
        ItemModel::Instruction(i) => render_instruction(i),
        ItemModel::Comment(t) => seq![35u8] + t + seq![10u8],
        _ => Seq::<u8>::empty(),
    }
}

/// The rendered text of a whole program, line by line in source order.
pub open spec fn render_items(p: Seq<ItemModel>) -> Seq<u8>
    decreases p.len(),
{
    if p.len() == 0 {
        Seq::<u8>::empty()
    } else {
        render_item(p[0]) + render_items(p.drop_first())
    }
}

/// Unfolds `render_items` over a program split into its first item and the
/// rest.
proof fn lemma_render_items_cons(x: ItemModel, rest: Seq<ItemModel>)
    ensures
        render_items(seq![x] + rest) == render_item(x) + render_items(rest),
{
    let q = seq![x] + rest;
    assert(q[0] == x);
    assert(q.drop_first() =~= rest);
}

/// Appends one rendered item to the output.
fn emit_item(out: &mut Vec<u8>, item: &Item)
    ensures
        final (out)@ == old(out)@ + render_item(item@),
{
    match item {
        Item::Instruction(inst) => {
            match &inst.label {
                Some(l) => {
                    out.extend_from_slice(l.as_slice());
                    out.push(32);
                },
                None => {},
            }
            let op = opcode_text_x(inst.opcode);
            out.extend_from_slice(op.as_slice());
            match &inst.operand {
                Some(o) => {
                    out.push(32);
                    out.extend_from_slice(o.as_slice());
                },
                None => {},
            }
            out.push(10);
            assert(out@ =~= old(out)@ + render_item(item@));
        },
        Item::Comment(t) => {
            out.push(35);
            out.extend_from_slice(t.as_slice());
            out.push(10);
            assert(out@ =~= old(out)@ + render_item(item@));
        },
        _ => {
            assert(out@ =~= old(out)@ + render_item(item@));
        },
    }
}

/// Renders a macro-free program back to its assembly text: one line per item,
/// in source order.
pub fn to_assembly(program: &[Item]) -> (r: Vec<u8>)
    requires
        renderable(items_model(program@)),
    ensures
        r@ == render_items(items_model(program@)),
{
    let ghost p = items_model(program@);
    let mut out: Vec<u8> = Vec::new();
    let mut k: usize = 0;
    proof {
        lemma_items_model(program@);
        assert(out@ + render_items(p.skip(0)) =~= render_items(p)) by {
            assert(p.skip(0) =~= p);
        }
    }
    while k < program.len()
        invariant
            p == items_model(program@),
            p.len() == program@.len(),
            forall|j: int| 0 <= j < p.len() ==> p[j] == program@[j]@,
            0 <= k <= program@.len(),
            render_items(p) =~= out@ + render_items(p.skip(k as int)),
        decreases program@.len() - k,
    {
        proof {
            assert(p.skip(k as int) =~= seq![p[k as int]] + p.skip(k as int + 1));
            lemma_render_items_cons(p[k as int], p.skip(k as int + 1));
        }
        let item_ref = vstd::slice::slice_index_get(program, k);
        emit_item(&mut out, item_ref);
        k = k + 1;
        proof {
            assert(render_items(p) =~= out@ + render_items(p.skip(k as int)));
        }
    }
    proof {
        assert(p.skip(p.len() as int) =~= Seq::<ItemModel>::empty());
        assert(out@ + render_items(Seq::<ItemModel>::empty()) =~= out@);
    }
    out
}

/// Whether every item of the program is renderable: an instruction or a
/// comment.
pub fn is_renderable(program: &[Item]) -> (r: bool)
    ensures
        r == renderable(items_model(program@)),
{
    proof {
        lemma_items_model(program@);
    }
    let mut k: usize = 0;
    while k < program.len()
        invariant
            0 <= k <= program@.len(),
            items_model(program@).len() == program@.len(),
            forall|j: int| 0 <= j < program@.len() ==> items_model(program@)[j] == program@[j]@,
            forall|j: int| 0 <= j < k ==> renderable_item(items_model(program@)[j]),
        decreases program@.len() - k,
    {
        match vstd::slice::slice_index_get(program, k) {
            Item::Instruction(_) => {},
            Item::Comment(_) => {},
            _ => {
                assert(!renderable_item(items_model(program@)[k as int]));
                return false;
            },
        }
        k = k + 1;
    }
    true
}

} // verus!
