//! The round-trip law: rendering an instruction-only program and parsing the
//! rendered text reproduces the program exactly.

use vstd::prelude::*;

use crate::emit::render_instruction;
use crate::emit::render_items;
use crate::expand::expand_spec;
use crate::laws::all_instructions;
use crate::laws::lemma_expand_on_instructions;
use crate::parse::parse_program_spec;
use crate::parse::ci_match_at;
use crate::parse::is_any_space;
use crate::parse::is_ident_byte;
use crate::parse::is_line_space;
use crate::parse::is_operand_byte;
use crate::parse::lemma_run_end_is;
use crate::parse::match_opcode;
use crate::parse::opcode_match_at;
use crate::parse::opcode_text;
use crate::parse::parse_call_at;
use crate::parse::parse_comment_at;
use crate::parse::parse_decl_at;
use crate::parse::parse_instruction_at;
use crate::parse::parse_item_at;
use crate::parse::parse_items_at;
use crate::parse::parse_labelled_instruction_at;
use crate::parse::parse_operand_at;
use crate::parse::run_end;
use crate::parse::take_ident;
use crate::parse::to_upper;
use crate::parse::token_boundary;
use crate::program::InstructionModel;
use crate::program::ItemModel;
use crate::program::Opcode;

verus! {

/// A well-formed name: non-empty, made of identifier bytes.
pub open spec fn wf_name(n: Seq<u8>) -> bool {
    n.len() > 0 && forall|i: int| 0 <= i < n.len() ==> is_ident_byte(n[i])
}

/// A well-formed operand token: non-empty, made of operand bytes.
pub open spec fn wf_operand_text(o: Seq<u8>) -> bool {
    o.len() > 0 && forall|i: int| 0 <= i < o.len() ==> is_operand_byte(o[i])
}

/// The text spells the given opcode, ignoring case.
pub open spec fn ci_word(o: Seq<u8>, op: Opcode) -> bool {
    o.len() == opcode_text(op).len() && forall|j: int|
        0 <= j < o.len() ==> to_upper(o[j]) == opcode_text(op)[j]
}

/// The text spells some opcode of the vocabulary, ignoring case.
pub open spec fn opcode_like(o: Seq<u8>) -> bool {
    exists|op: Opcode| ci_word(o, op)
}

/// An instruction whose fields are well-formed tokens.
pub open spec fn wf_instruction(i: InstructionModel) -> bool {
    &&& (i.label matches Some(l) ==> wf_name(l))
    &&& (i.operand matches Some(o) ==> wf_operand_text(o))
}

/// An instruction whose rendered line parses back unambiguously: an operand
/// that spells an opcode needs a label in front, or the parser would read the
/// opcode as a label and the operand as the opcode.
pub open spec fn unambiguous_instruction(i: InstructionModel) -> bool {
    (i.label is None && i.operand is Some) ==> !opcode_like(i.operand.unwrap())
}

/// A program the round trip is stated over: instructions only, each
/// well-formed and unambiguous.
pub open spec fn round_trip_ready(p: Seq<ItemModel>) -> bool {
    forall|k: int|
        0 <= k < p.len() ==> (#[trigger] p[k] matches ItemModel::Instruction(i)
            && wf_instruction(i) && unambiguous_instruction(i))
}

/// The text of every opcode is made of upper-case letters.
proof fn lemma_opcode_text_upper(op: Opcode)
    ensures
        forall|j: int|
            0 <= j < opcode_text(op).len() ==> 65 <= #[trigger] opcode_text(op)[j] <= 90,
{
    match op {
        Opcode::ADD => {},
        Opcode::SUB => {},
        Opcode::STO => {},
        Opcode::LDA => {},
        Opcode::BRZ => {},
        Opcode::BRP => {},
        Opcode::BR => {},
        Opcode::IN => {},
        Opcode::OUT => {},
        Opcode::HLT => {},
        Opcode::DAT => {},
    }
}

/// Opcode text bytes are identifier bytes.
proof fn lemma_opcode_text_ident(op: Opcode)
    ensures
        forall|j: int|
            0 <= j < opcode_text(op).len() ==> is_ident_byte(#[trigger] opcode_text(op)[j]),
{
    lemma_opcode_text_upper(op);
}

/// A case-insensitive match fails when one position disagrees (or runs past
/// the end of the input).
proof fn lemma_not_ci(s: Seq<u8>, pos: int, t: Seq<u8>, k: int)
    requires
        0 <= k < t.len(),
        pos + k >= s.len() || to_upper(s[pos + k]) != t[k],
    ensures
        !ci_match_at(s, pos, t),
{
    if ci_match_at(s, pos, t) {
        assert(pos + t.len() <= s.len());
        assert(to_upper(s[pos + k]) == t[k]);
    }
}

/// Exact (canonical, upper-case) opcode text matches case-insensitively.
proof fn lemma_ci_exact(s: Seq<u8>, pos: int, op: Opcode)
    requires
        0 <= pos,
        pos + opcode_text(op).len() <= s.len(),
        forall|j: int|
            0 <= j < opcode_text(op).len() ==> s[pos + j] == #[trigger] opcode_text(op)[j],
    ensures
        ci_match_at(s, pos, opcode_text(op)),
{
    lemma_opcode_text_upper(op);
    assert forall|j: int| 0 <= j < opcode_text(op).len() implies to_upper(s[pos + j])
        == opcode_text(op)[j] by {
        assert(s[pos + j] == opcode_text(op)[j]);
        assert(65 <= opcode_text(op)[j] <= 90);
    }
}

/// The vocabulary scan at a canonically rendered opcode finds exactly that
/// opcode: no earlier vocabulary entry matches the rendered text.
proof fn lemma_match_opcode_canonical(s: Seq<u8>, pos: int, op: Opcode)
    requires
        0 <= pos,
        pos + opcode_text(op).len() <= s.len(),
        forall|j: int|
            0 <= j < opcode_text(op).len() ==> s[pos + j] == #[trigger] opcode_text(op)[j],
        token_boundary(s, pos + opcode_text(op).len()),
    ensures
        match_opcode(s, pos) == Some((op, pos + opcode_text(op).len())),
{
    lemma_ci_exact(s, pos, op);
    lemma_opcode_text_upper(op);
    assert(opcode_match_at(s, pos, op));
    let b0 = s[pos];
    assert(b0 == opcode_text(op)[0]);
    match op {
        Opcode::ADD => {},
        Opcode::SUB => {
            lemma_not_ci(s, pos, opcode_text(Opcode::ADD), 0);
        },
        Opcode::STO => {
            assert(s[pos + 1] == opcode_text(op)[1]);
            lemma_not_ci(s, pos, opcode_text(Opcode::ADD), 0);
            lemma_not_ci(s, pos, opcode_text(Opcode::SUB), 1);
        },
        Opcode::LDA => {
            lemma_not_ci(s, pos, opcode_text(Opcode::ADD), 0);
            lemma_not_ci(s, pos, opcode_text(Opcode::SUB), 0);
            lemma_not_ci(s, pos, opcode_text(Opcode::STO), 0);
        },
        Opcode::BRZ => {
            lemma_not_ci(s, pos, opcode_text(Opcode::ADD), 0);
            lemma_not_ci(s, pos, opcode_text(Opcode::SUB), 0);
            lemma_not_ci(s, pos, opcode_text(Opcode::STO), 0);
            lemma_not_ci(s, pos, opcode_text(Opcode::LDA), 0);
        },
        Opcode::BRP => {
            assert(s[pos + 2] == opcode_text(op)[2]);
            lemma_not_ci(s, pos, opcode_text(Opcode::ADD), 0);
            lemma_not_ci(s, pos, opcode_text(Opcode::SUB), 0);
            lemma_not_ci(s, pos, opcode_text(Opcode::STO), 0);
            lemma_not_ci(s, pos, opcode_text(Opcode::LDA), 0);
            lemma_not_ci(s, pos, opcode_text(Opcode::BRZ), 2);
        },
        Opcode::BR => {
            // after `BR` comes a boundary byte (or the end), never `Z` or `P`
            if pos + 2 < s.len() {
                assert(is_any_space(s[pos + 2]));
                assert(to_upper(s[pos + 2]) == s[pos + 2]);
            }
            lemma_not_ci(s, pos, opcode_text(Opcode::ADD), 0);
            lemma_not_ci(s, pos, opcode_text(Opcode::SUB), 0);
            lemma_not_ci(s, pos, opcode_text(Opcode::STO), 0);
            lemma_not_ci(s, pos, opcode_text(Opcode::LDA), 0);
            lemma_not_ci(s, pos, opcode_text(Opcode::BRZ), 2);
            lemma_not_ci(s, pos, opcode_text(Opcode::BRP), 2);
        },
        Opcode::IN => {
            lemma_not_ci(s, pos, opcode_text(Opcode::ADD), 0);
            lemma_not_ci(s, pos, opcode_text(Opcode::SUB), 0);
            lemma_not_ci(s, pos, opcode_text(Opcode::STO), 0);
            lemma_not_ci(s, pos, opcode_text(Opcode::LDA), 0);
            lemma_not_ci(s, pos, opcode_text(Opcode::BRZ), 0);
            lemma_not_ci(s, pos, opcode_text(Opcode::BRP), 0);
            lemma_not_ci(s, pos, opcode_text(Opcode::BR), 0);
        },
        Opcode::OUT => {
            lemma_not_ci(s, pos, opcode_text(Opcode::ADD), 0);
            lemma_not_ci(s, pos, opcode_text(Opcode::SUB), 0);
            lemma_not_ci(s, pos, opcode_text(Opcode::STO), 0);
            lemma_not_ci(s, pos, opcode_text(Opcode::LDA), 0);
            lemma_not_ci(s, pos, opcode_text(Opcode::BRZ), 0);
            lemma_not_ci(s, pos, opcode_text(Opcode::BRP), 0);
            lemma_not_ci(s, pos, opcode_text(Opcode::BR), 0);
            lemma_not_ci(s, pos, opcode_text(Opcode::IN), 0);
        },
        Opcode::HLT => {
            lemma_not_ci(s, pos, opcode_text(Opcode::ADD), 0);
            lemma_not_ci(s, pos, opcode_text(Opcode::SUB), 0);
            lemma_not_ci(s, pos, opcode_text(Opcode::STO), 0);
            lemma_not_ci(s, pos, opcode_text(Opcode::LDA), 0);
            lemma_not_ci(s, pos, opcode_text(Opcode::BRZ), 0);
            lemma_not_ci(s, pos, opcode_text(Opcode::BRP), 0);
            lemma_not_ci(s, pos, opcode_text(Opcode::BR), 0);
            lemma_not_ci(s, pos, opcode_text(Opcode::IN), 0);
            lemma_not_ci(s, pos, opcode_text(Opcode::OUT), 0);
        },
        Opcode::DAT => {
            lemma_not_ci(s, pos, opcode_text(Opcode::ADD), 0);
            lemma_not_ci(s, pos, opcode_text(Opcode::SUB), 0);
            lemma_not_ci(s, pos, opcode_text(Opcode::STO), 0);
            lemma_not_ci(s, pos, opcode_text(Opcode::LDA), 0);
            lemma_not_ci(s, pos, opcode_text(Opcode::BRZ), 0);
            lemma_not_ci(s, pos, opcode_text(Opcode::BRP), 0);
            lemma_not_ci(s, pos, opcode_text(Opcode::BR), 0);
            lemma_not_ci(s, pos, opcode_text(Opcode::IN), 0);
            lemma_not_ci(s, pos, opcode_text(Opcode::OUT), 0);
            lemma_not_ci(s, pos, opcode_text(Opcode::HLT), 0);
        },
    }
}

/// No vocabulary entry matches as a whole token at the start of an operand
/// that does not spell an opcode and runs up to a line feed.
proof fn lemma_operand_not_opcode(s: Seq<u8>, p2: int, o: Seq<u8>, op: Opcode)
    requires
        wf_operand_text(o),
        !opcode_like(o),
        0 <= p2,
        p2 + o.len() < s.len(),
        forall|j: int| 0 <= j < o.len() ==> s[p2 + j] == o[j],
        s[p2 + o.len()] == 10,
    ensures
        !opcode_match_at(s, p2, op),
{
    let t = opcode_text(op);
    lemma_opcode_text_upper(op);
    if o.len() < t.len() {
        assert(s[p2 + o.len()] == 10);
        lemma_not_ci(s, p2, t, o.len() as int);
    } else if o.len() == t.len() {
        if opcode_match_at(s, p2, op) {
            assert forall|j: int| 0 <= j < o.len() implies to_upper(o[j]) == t[j] by {
                assert(s[p2 + j] == o[j]);
                assert(to_upper(s[p2 + j]) == t[j]);
            }
            assert(ci_word(o, op));
            assert(opcode_like(o));
        }
        assert(!opcode_match_at(s, p2, op));
    } else {
        if opcode_match_at(s, p2, op) {
            assert(token_boundary(s, p2 + t.len()));
            assert(s[p2 + t.len()] == o[t.len() as int]);
            assert(is_operand_byte(o[t.len() as int]));
            assert(is_any_space(o[t.len() as int]));
        }
        assert(!opcode_match_at(s, p2, op));
    }
}

/// No opcode at all matches at the start of such an operand.
proof fn lemma_operand_matches_no_opcode(s: Seq<u8>, p2: int, o: Seq<u8>)
    requires
        wf_operand_text(o),
        !opcode_like(o),
        0 <= p2,
        p2 + o.len() < s.len(),
        forall|j: int| 0 <= j < o.len() ==> s[p2 + j] == o[j],
        s[p2 + o.len()] == 10,
    ensures
        match_opcode(s, p2) is None,
{
    lemma_operand_not_opcode(s, p2, o, Opcode::ADD);
    lemma_operand_not_opcode(s, p2, o, Opcode::SUB);
    lemma_operand_not_opcode(s, p2, o, Opcode::STO);
    lemma_operand_not_opcode(s, p2, o, Opcode::LDA);
    lemma_operand_not_opcode(s, p2, o, Opcode::BRZ);
    lemma_operand_not_opcode(s, p2, o, Opcode::BRP);
    lemma_operand_not_opcode(s, p2, o, Opcode::BR);
    lemma_operand_not_opcode(s, p2, o, Opcode::IN);
    lemma_operand_not_opcode(s, p2, o, Opcode::OUT);
    lemma_operand_not_opcode(s, p2, o, Opcode::HLT);
    lemma_operand_not_opcode(s, p2, o, Opcode::DAT);
}

/// Parsing one rendered instruction line: at the start of the rendered bytes
/// the item parser reads back exactly the instruction, stopping just before
/// the line's final line feed.
#[verifier::rlimit(100)]
proof fn lemma_parse_rendered_instruction(s: Seq<u8>, pos: int, i: InstructionModel)
    requires
        wf_instruction(i),
        unambiguous_instruction(i),
        0 <= pos,
        pos + render_instruction(i).len() <= s.len(),
        forall|j: int|
            0 <= j < render_instruction(i).len() ==> #[trigger] s[pos + j] == render_instruction(
                i,
            )[j],
    ensures
        parse_item_at(s, pos) == Some(
            (ItemModel::Instruction(i), pos + render_instruction(i).len() - 1),
        ),
        s[pos + render_instruction(i).len() - 1] == 10,
{
    let r = render_instruction(i);
    let text = opcode_text(i.opcode);
    let oplen = text.len() as int;
    let lab_len: int = match i.label {
        Some(l) => l.len() + 1int,
        None => 0int,
    };
    let oper_len: int = match i.operand {
        Some(o) => 1int + o.len(),
        None => 0int,
    };
    let line_len = lab_len + oplen + oper_len + 1;
    let lp: Seq<u8> = match i.label {
        Some(l) => l + seq![32u8],
        None => Seq::<u8>::empty(),
    };
    let opp: Seq<u8> = match i.operand {
        Some(o) => seq![32u8] + o,
        None => Seq::<u8>::empty(),
    };
    let front = lp + text;
    let front2 = front + opp;
    assert(r == front2 + seq![10u8]);
    assert(lp.len() == lab_len);
    assert(opp.len() == oper_len);
    assert(r.len() == line_len);
    lemma_opcode_text_upper(i.opcode);
    lemma_opcode_text_ident(i.opcode);
    // the bytes of the line, segment by segment
    match i.label {
        Some(l) => {
            assert forall|j: int| 0 <= j < l.len() implies s[pos + j] == l[j] by {
                assert(r[j] == front2[j]);
                assert(front2[j] == front[j]);
                assert(front[j] == lp[j]);
                assert(lp[j] == l[j]);
            }
            assert(s[pos + l.len()] == 32) by {
                let j = l.len() as int;
                assert(r[j] == front2[j]);
                assert(front2[j] == front[j]);
                assert(front[j] == lp[j]);
                assert(lp[j] == 32);
            }
        },
        None => {},
    }
    assert forall|j: int| 0 <= j < oplen implies s[pos + lab_len + j] == text[j] by {
        let k = lab_len + j;
        assert(s[pos + k] == r[k]);
        assert(r[k] == front2[k]);
        assert(front2[k] == front[k]);
        assert(front[k] == text[j]);
    }
    match i.operand {
        Some(o) => {
            assert(s[pos + lab_len + oplen] == 32) by {
                let k = lab_len + oplen;
                assert(s[pos + k] == r[k]);
                assert(r[k] == front2[k]);
                assert(front2[k] == opp[0]);
                assert(opp[0] == 32);
            }
            assert forall|j: int| 0 <= j < o.len() implies s[pos + lab_len + oplen + 1 + j]
                == o[j] by {
                let k = lab_len + oplen + 1 + j;
                assert(s[pos + k] == r[k]);
                assert(r[k] == front2[k]);
                assert(front2[k] == opp[1 + j]);
                assert(opp[1 + j] == o[j]);
            }
        },
        None => {},
    }
    assert(s[pos + line_len - 1] == 10) by {
        let k = line_len - 1;
        assert(s[pos + k] == r[k]);
        assert(r[k] == seq![10u8][0]);
    }
    // the identifier run at the start of the line
    let ident_end: int = match i.label {
        Some(l) => pos + l.len(),
        None => pos + oplen,
    };
    assert(run_end(s, pos, |c: u8| is_ident_byte(c)) == ident_end) by {
        match i.label {
            Some(l) => {
                assert forall|k: int| pos <= k < ident_end implies is_ident_byte(s[k]) by {
                    let j = k - pos;
                    assert(s[pos + j] == l[j]);
                    assert(is_ident_byte(l[j]));
                }
                lemma_run_end_is(s, pos, ident_end, |c: u8| is_ident_byte(c));
            },
            None => {
                assert forall|k: int| pos <= k < ident_end implies is_ident_byte(s[k]) by {
                    let j = k - pos;
                    assert(s[pos + lab_len + j] == text[j]);
                    assert(is_ident_byte(text[j]));
                }
                match i.operand {
                    Some(o) => {
                        assert(s[ident_end] == 32);
                    },
                    None => {
                        assert(s[ident_end] == 10);
                    },
                }
                lemma_run_end_is(s, pos, ident_end, |c: u8| is_ident_byte(c));
            },
        }
    }
    assert(ident_end > pos);
    assert(take_ident(s, pos) == Some((s.subrange(pos, ident_end), ident_end)));
    // no other alternative matches at the start of the line
    assert(parse_comment_at(s, pos) is None) by {
        assert(is_ident_byte(s[pos]));
    }
    assert(parse_decl_at(s, pos) is None) by {
        assert(s[ident_end] == 32 || s[ident_end] == 10);
        assert(ident_end < s.len());
    }
    assert(parse_call_at(s, pos) is None) by {
        assert(s[ident_end] == 32 || s[ident_end] == 10);
    }
    // the instruction parser reads the line back
    match i.label {
        Some(l) => {
            // the label, one space, the opcode, and the operand if present
            let p1 = pos + l.len();
            assert(s.subrange(pos, p1) =~= l);
            let p2 = p1 + 1;
            assert(run_end(s, p1, |c: u8| is_line_space(c)) == p2) by {
                assert(is_line_space(s[p1]));
                assert(s[p2] == text[0]);
                assert(!is_line_space(s[p2]));
                lemma_run_end_is(s, p1, p2, |c: u8| is_line_space(c));
            }
            assert forall|j: int| 0 <= j < oplen implies s[p2 + j] == #[trigger] text[j] by {
                assert(s[pos + lab_len + j] == text[j]);
            }
            assert(token_boundary(s, p2 + oplen)) by {
                match i.operand {
                    Some(o) => assert(s[p2 + oplen] == 32),
                    None => assert(s[p2 + oplen] == 10),
                }
            }
            lemma_match_opcode_canonical(s, p2, i.opcode);
            let p3 = p2 + oplen;
            lemma_parse_rendered_operand(s, p3, i);
            assert(parse_labelled_instruction_at(s, pos) == Some(
                (i, pos + line_len - 1),
            ));
        },
        None => {
            // the labelled form fails: either no spacing after the opcode
            // token, or no vocabulary entry at the operand
            let p1 = pos + oplen;
            match i.operand {
                Some(o) => {
                    let p2 = p1 + 1;
                    assert(run_end(s, p1, |c: u8| is_line_space(c)) == p2) by {
                        assert(s[p1] == 32);
                        assert(s[p2] == o[0]);
                        assert(is_operand_byte(o[0]));
                        assert(!is_line_space(s[p2]));
                        lemma_run_end_is(s, p1, p2, |c: u8| is_line_space(c));
                    }
                    assert forall|j: int| 0 <= j < o.len() implies s[p2 + j] == o[j] by {
                        assert(s[pos + lab_len + oplen + 1 + j] == o[j]);
                    }
                    assert(s[p2 + o.len()] == 10);
                    lemma_operand_matches_no_opcode(s, p2, o);
                    assert(parse_labelled_instruction_at(s, pos) is None);
                },
                None => {
                    assert(s[p1] == 10);
                    assert(run_end(s, p1, |c: u8| is_line_space(c)) == p1) by {
                        lemma_run_end_is(s, p1, p1, |c: u8| is_line_space(c));
                    }
                    assert(parse_labelled_instruction_at(s, pos) is None);
                },
            }
            // the plain form reads the opcode and the operand back
            assert(token_boundary(s, pos + oplen)) by {
                match i.operand {
                    Some(o) => assert(s[pos + oplen] == 32),
                    None => assert(s[pos + oplen] == 10),
                }
            }
            lemma_match_opcode_canonical(s, pos, i.opcode);
            lemma_parse_rendered_operand(s, pos + oplen, i);
            assert(parse_instruction_at(s, pos) == Some((i, pos + line_len - 1)));
        },
    }
}

/// The shape of a rendered instruction line: at least three bytes, starting
/// with an identifier byte.
proof fn lemma_render_instruction_shape(i: InstructionModel)
    requires
        wf_instruction(i),
    ensures
        render_instruction(i).len() >= 3,
        is_ident_byte(render_instruction(i)[0]),
{
    let r = render_instruction(i);
    let text = opcode_text(i.opcode);
    let lp: Seq<u8> = match i.label {
        Some(l) => l + seq![32u8],
        None => Seq::<u8>::empty(),
    };
    let opp: Seq<u8> = match i.operand {
        Some(o) => seq![32u8] + o,
        None => Seq::<u8>::empty(),
    };
    let front = lp + text;
    let front2 = front + opp;
    assert(r == front2 + seq![10u8]);
    lemma_opcode_text_upper(i.opcode);
    lemma_opcode_text_ident(i.opcode);
    assert(text.len() >= 2);
    match i.label {
        Some(l) => {
            assert(r[0] == front2[0]);
            assert(front2[0] == front[0]);
            assert(front[0] == lp[0]);
            assert(lp[0] == l[0]);
            assert(is_ident_byte(l[0]));
        },
        None => {
            assert(r[0] == front2[0]);
            assert(front2[0] == front[0]);
            assert(front[0] == text[0]);
            assert(is_ident_byte(text[0]));
        },
    }
}

/// No item parses at the very end of the input.
proof fn lemma_no_item_at_end(s: Seq<u8>)
    ensures
        parse_item_at(s, s.len() as int) is None,
{
    let pos = s.len() as int;
    assert(run_end(s, pos, |c: u8| is_ident_byte(c)) == pos);
    assert(take_ident(s, pos) is None);
    assert(parse_comment_at(s, pos) is None);
    assert(parse_decl_at(s, pos) is None);
    assert(parse_call_at(s, pos) is None);
    assert(match_opcode(s, pos) is None);
    assert(parse_labelled_instruction_at(s, pos) is None);
    assert(parse_instruction_at(s, pos) is None);
}

/// Parsing rendered items: from a position that sits just before the
/// rendered text (after an optional separating line feed), the item-run
/// parser reads back exactly the items, stopping just before the last line
/// feed of the text.
#[verifier::rlimit(100)]
proof fn lemma_parse_rendered_items(s: Seq<u8>, pos: int, p: Seq<ItemModel>, sep: int)
    requires
        round_trip_ready(p),
        0 <= pos <= s.len(),
        0 <= sep <= 1,
        sep == 1 ==> pos < s.len() && s[pos] == 10,
        s.len() == pos + sep + render_items(p).len(),
        s.subrange(pos + sep, s.len() as int) == render_items(p),
    ensures
        parse_items_at(s, pos) == (p, if p.len() == 0 { pos } else { s.len() - 1 }),
        p.len() > 0 ==> s[s.len() - 1] == 10,
    decreases p.len(),
{
    let start = pos + sep;
    let rendered = render_items(p);
    assert forall|j: int| 0 <= j < rendered.len() implies s[start + j] == rendered[j] by {
        assert(s.subrange(start, s.len() as int)[j] == s[start + j]);
    }
    if p.len() == 0 {
        assert(start == s.len());
        assert(run_end(s, pos, |c: u8| is_any_space(c)) == s.len()) by {
            lemma_run_end_is(s, pos, s.len() as int, |c: u8| is_any_space(c));
        }
        lemma_no_item_at_end(s);
        assert(p =~= Seq::<ItemModel>::empty());
        assert(parse_items_at(s, pos) == (p, pos));
    } else {
        assert(p[0] matches ItemModel::Instruction(i) && wf_instruction(i)
            && unambiguous_instruction(i));
        let i1 = p[0]->Instruction_0;
        let line = render_instruction(i1);
        let rest = render_items(p.drop_first());
        assert(rendered == line + rest);
        lemma_render_instruction_shape(i1);
        assert forall|j: int| 0 <= j < line.len() implies s[start + j] == line[j] by {
            assert(s[start + j] == rendered[j]);
            assert(rendered[j] == line[j]);
        }
        // leading whitespace is exactly the separator
        assert(run_end(s, pos, |c: u8| is_any_space(c)) == start) by {
            assert(s[start + 0] == line[0]);
            assert(is_ident_byte(line[0]));
            assert(!is_any_space(s[start]));
            lemma_run_end_is(s, pos, start, |c: u8| is_any_space(c));
        }
        // the first line parses back as the first instruction
        lemma_parse_rendered_instruction(s, start, i1);
        let p2 = start + line.len() - 1;
        assert(parse_item_at(s, start) == Some((p[0], p2)));
        assert(s[p2] == 10);
        // the remaining lines parse back as the remaining items
        assert forall|k: int| 0 <= k < p.drop_first().len() implies (#[trigger] p.drop_first()[k]
            matches ItemModel::Instruction(i) && wf_instruction(i)
            && unambiguous_instruction(i)) by {
            assert(p.drop_first()[k] == p[k + 1]);
            assert(p[k + 1] matches ItemModel::Instruction(i) && wf_instruction(i)
                && unambiguous_instruction(i));
        }
        assert(s.subrange(p2 + 1, s.len() as int) =~= rest) by {
            assert forall|j: int| 0 <= j < rest.len() implies s.subrange(
                p2 + 1,
                s.len() as int,
            )[j] == rest[j] by {
                assert(s.subrange(p2 + 1, s.len() as int)[j] == s[p2 + 1 + j]);
                assert(s[start + (line.len() + j)] == rendered[line.len() + j]);
                assert(rendered[line.len() + j] == rest[j]);
            }
        }
        lemma_parse_rendered_items(s, p2, p.drop_first(), 1);
        assert(pos < p2 <= s.len());
        assert(seq![p[0]] + p.drop_first() =~= p);
        if p.drop_first().len() == 0 {
            assert(s.len() == p2 + 1);
            assert(parse_items_at(s, p2) == (p.drop_first(), p2));
            assert(parse_items_at(s, pos) == (p, s.len() - 1));
        } else {
            assert(parse_items_at(s, p2) == (p.drop_first(), s.len() - 1));
            assert(parse_items_at(s, pos) == (p, s.len() - 1));
        }
    }
}

/// The round-trip law: an instruction-only program of well-formed,
/// unambiguous instructions passes through expansion unchanged, and parsing
/// its rendered text reproduces it exactly.
pub proof fn lemma_render_parse_round_trip(p: Seq<ItemModel>)
    requires
        round_trip_ready(p),
    ensures
        expand_spec(p) == Some(p),
        parse_program_spec(render_items(p)) == Ok::<Seq<ItemModel>, int>(p),
{
    assert(all_instructions(p)) by {
        assert forall|k: int| 0 <= k < p.len() implies p[k] is Instruction by {
            assert(p[k] matches ItemModel::Instruction(i) && wf_instruction(i)
                && unambiguous_instruction(i));
        }
    }
    lemma_expand_on_instructions(p);
    let s = render_items(p);
    assert(s.subrange(0, s.len() as int) =~= s);
    lemma_parse_rendered_items(s, 0, p, 0);
    if p.len() == 0 {
        assert(run_end(s, 0, |c: u8| is_any_space(c)) == 0) by {
            lemma_run_end_is(s, 0, 0, |c: u8| is_any_space(c));
        }
    } else {
        let fin = s.len() - 1;
        assert(s[fin] == 10);
        assert(run_end(s, fin, |c: u8| is_any_space(c)) == s.len()) by {
            lemma_run_end_is(s, fin, s.len() as int, |c: u8| is_any_space(c));
        }
    }
}

/// The whole pipeline canonicalizes: an input text that parses to an
/// instruction-only program of well-formed, unambiguous instructions
/// translates to a canonical text that parses back to the very same program.
pub proof fn lemma_pipeline_canonicalizes(t: Seq<u8>, p: Seq<ItemModel>)
    requires
        crate::parse::parse_program_spec(t) == Ok::<Seq<ItemModel>, int>(p),
        round_trip_ready(p),
    ensures
        crate::translate_spec(t) == Ok::<Seq<u8>, crate::TranslateError>(render_items(p)),
        crate::parse::parse_program_spec(render_items(p)) == Ok::<Seq<ItemModel>, int>(p),
{
    lemma_render_parse_round_trip(p);
    assert(crate::emit::renderable(p)) by {
        assert forall|k: int| 0 <= k < p.len() implies crate::emit::renderable_item(p[k]) by {
            assert(p[k] matches ItemModel::Instruction(i));
        }
    }
}

/// A parsed operand is a well-formed token: parsing only ever takes a
/// non-empty run of operand bytes.
proof fn lemma_parsed_operand_wf(s: Seq<u8>, q: int)
    requires
        0 <= q <= s.len(),
    ensures
        parse_operand_at(s, q).0 matches Some(o) ==> wf_operand_text(o),
{
    crate::parse::lemma_run_end(s, q, |c: u8| is_line_space(c));
    let q1 = run_end(s, q, |c: u8| is_line_space(c));
    crate::parse::lemma_run_end(s, q1, |c: u8| is_operand_byte(c));
    let e = run_end(s, q1, |c: u8| is_operand_byte(c));
    if e > q1 {
        let o = s.subrange(q1, e);
        assert forall|j: int| 0 <= j < o.len() implies is_operand_byte(o[j]) by {
            assert(o[j] == s[q1 + j]);
        }
    }
}

/// A parsed instruction is well-formed: its label and operand, when present,
/// are non-empty tokens of the right byte classes.
pub proof fn lemma_parsed_instruction_wf(s: Seq<u8>, pos: int)
    requires
        0 <= pos <= s.len(),
    ensures
        parse_instruction_at(s, pos) matches Some((i, p)) ==> wf_instruction(i),
{
    crate::parse::lemma_leaf_bounds(s, pos);
    crate::parse::lemma_run_end(s, pos, |c: u8| is_ident_byte(c));
    let e1 = run_end(s, pos, |c: u8| is_ident_byte(c));
    if e1 > pos {
        // the label of the labelled form is an identifier
        let lab = s.subrange(pos, e1);
        assert forall|j: int| 0 <= j < lab.len() implies is_ident_byte(lab[j]) by {
            assert(lab[j] == s[pos + j]);
        }
        assert(wf_name(lab));
        let p2 = run_end(s, e1, |c: u8| is_line_space(c));
        crate::parse::lemma_run_end(s, e1, |c: u8| is_line_space(c));
        if p2 > e1 {
            match match_opcode(s, p2) {
                Some((op, p3)) => {
                    lemma_parsed_operand_wf(s, p3);
                },
                None => {},
            }
        }
    }
    match match_opcode(s, pos) {
        Some((op, p1)) => {
            lemma_parsed_operand_wf(s, p1);
        },
        None => {},
    }
}

/// Every top-level instruction of a parsed item run is well-formed.
pub proof fn lemma_parsed_items_wf(s: Seq<u8>, pos: int)
    requires
        0 <= pos <= s.len(),
    ensures
        forall|k: int|
            0 <= k < parse_items_at(s, pos).0.len() ==> ((#[trigger] parse_items_at(s, pos).0[k])
                matches ItemModel::Instruction(i) ==> wf_instruction(i)),
    decreases s.len() - pos, 4int,
{
    crate::parse::lemma_run_end(s, pos, |c: u8| is_any_space(c));
    let p1 = run_end(s, pos, |c: u8| is_any_space(c));
    crate::parse::lemma_item_progress(s, p1);
    lemma_parsed_instruction_wf(s, p1);
    match parse_item_at(s, p1) {
        Some((it, p2)) => {
            if pos < p2 <= s.len() {
                lemma_parsed_items_wf(s, p2);
                let items = parse_items_at(s, pos).0;
                let rest = parse_items_at(s, p2).0;
                assert(items == seq![it] + rest);
                assert forall|k: int| 0 <= k < items.len() implies (#[trigger] items[k]
                    matches ItemModel::Instruction(i) ==> wf_instruction(i)) by {
                    if k == 0 {
                        assert(items[0] == it);
                    } else {
                        assert(items[k] == rest[k - 1]);
                    }
                }
            }
        },
        None => {},
    }
}

/// Every top-level instruction of a successfully parsed program is
/// well-formed.
pub proof fn lemma_parsed_program_wf(t: Seq<u8>, p: Seq<ItemModel>)
    requires
        parse_program_spec(t) == Ok::<Seq<ItemModel>, int>(p),
    ensures
        forall|k: int|
            0 <= k < p.len() ==> (#[trigger] p[k] matches ItemModel::Instruction(i)
                ==> wf_instruction(i)),
{
    lemma_parsed_items_wf(t, 0);
}

/// The round-trip law over parsed input: an input text that parses to a
/// program of instructions only, none of them an unlabelled instruction whose
/// operand spells an opcode, translates to a canonical text that parses back
/// to the very same program.
pub proof fn lemma_parsed_pipeline_canonicalizes(t: Seq<u8>, p: Seq<ItemModel>)
    requires
        crate::parse::parse_program_spec(t) == Ok::<Seq<ItemModel>, int>(p),
        all_instructions(p),
        forall|k: int|
            0 <= k < p.len() ==> (#[trigger] p[k] matches ItemModel::Instruction(i)
                ==> unambiguous_instruction(i)),
    ensures
        crate::translate_spec(t) == Ok::<Seq<u8>, crate::TranslateError>(render_items(p)),
        crate::parse::parse_program_spec(render_items(p)) == Ok::<Seq<ItemModel>, int>(p),
{
    lemma_parsed_program_wf(t, p);
    assert(round_trip_ready(p)) by {
        assert forall|k: int| 0 <= k < p.len() implies (#[trigger] p[k]
            matches ItemModel::Instruction(i) && wf_instruction(i)
            && unambiguous_instruction(i)) by {
            assert(p[k] is Instruction);
        }
    }
    lemma_pipeline_canonicalizes(t, p);
}

/// Parsing the rendered operand part: at the position right after the
/// rendered opcode, the operand parser reads back exactly the instruction's
/// operand, stopping at the line's final line feed.
proof fn lemma_parse_rendered_operand(s: Seq<u8>, p3: int, i: InstructionModel)
    requires
        wf_instruction(i),
        0 <= p3,
        (match i.operand {
            Some(o) => {
                &&& p3 + 1 + o.len() < s.len() + 1
                &&& s[p3] == 32
                &&& (forall|j: int| 0 <= j < o.len() ==> s[p3 + 1 + j] == o[j])
                &&& s[p3 + 1 + o.len()] == 10
            },
            None => p3 < s.len() && s[p3] == 10,
        }),
    ensures
        parse_operand_at(s, p3) == (i.operand, p3 + (match i.operand {
            Some(o) => 1int + o.len(),
            None => 0int,
        })),
{
    match i.operand {
        Some(o) => {
            let p4 = p3 + 1;
            assert(run_end(s, p3, |c: u8| is_line_space(c)) == p4) by {
                assert(s[p3] == 32);
                assert(s[p4] == o[0]);
                assert(is_operand_byte(o[0]));
                assert(!is_line_space(s[p4]));
                lemma_run_end_is(s, p3, p4, |c: u8| is_line_space(c));
            }
            let p5 = p4 + o.len();
            assert(run_end(s, p4, |c: u8| is_operand_byte(c)) == p5) by {
                assert forall|k: int| p4 <= k < p5 implies is_operand_byte(s[k]) by {
                    let j = k - p4;
                    assert(s[p3 + 1 + j] == o[j]);
                    assert(is_operand_byte(o[j]));
                }
                assert(s[p3 + 1 + o.len()] == 10);
                assert(s[p5] == 10);
                assert(!is_operand_byte(s[p5]));
                lemma_run_end_is(s, p4, p5, |c: u8| is_operand_byte(c));
            }
            assert forall|j: int| 0 <= j < o.len() implies s.subrange(p4, p5)[j] == o[j] by {
                assert(s[p3 + 1 + j] == o[j]);
            }
            assert(s.subrange(p4, p5) =~= o);
        },
        None => {
            assert(run_end(s, p3, |c: u8| is_line_space(c)) == p3) by {
                lemma_run_end_is(s, p3, p3, |c: u8| is_line_space(c));
            }
            assert(run_end(s, p3, |c: u8| is_operand_byte(c)) == p3) by {
                lemma_run_end_is(s, p3, p3, |c: u8| is_operand_byte(c));
            }
        },
    }
}

} // verus!
