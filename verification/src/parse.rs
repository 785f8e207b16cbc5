//! The grammar and its recursive-descent parser.
//!
//! The grammar is stated as spec functions over a byte sequence and a
//! position; the executable parser is proved to return exactly what the
//! spec-level parse returns. A program is a run of items, each preceded by
//! arbitrary whitespace; at every position the alternatives are tried in a
//! fixed order: comment, macro declaration, macro call, instruction.

use vstd::prelude::*;

use crate::program::Instruction;
use crate::program::InstructionModel;
use crate::program::Item;
use crate::program::ItemModel;
use crate::program::MacroCall;
use crate::program::MacroCallModel;
use crate::program::MacroDeclaration;
use crate::program::MacroDeclarationModel;
use crate::program::Opcode;
use crate::program::items_model;
use crate::program::lemma_items_model;
use crate::program::names_model;
use crate::program::text_opt_model;

verus! {

/// A byte that may appear in an identifier: a letter or an underscore.
pub open spec fn is_ident_byte(c: u8) -> bool {
    (65 <= c <= 90) || (97 <= c <= 122) || c == 95
}

/// A byte that may appear in an operand token: an identifier byte, a digit,
/// or a dollar sign.
pub open spec fn is_operand_byte(c: u8) -> bool {
    is_ident_byte(c) || (48 <= c <= 57) || c == 36
}

/// A space or a tab: the separators allowed inside one instruction line.
pub open spec fn is_line_space(c: u8) -> bool {
    c == 32 || c == 9
}

/// Any whitespace byte: space, tab, carriage return, line feed.
pub open spec fn is_any_space(c: u8) -> bool {
    c == 32 || c == 9 || c == 13 || c == 10
}

/// A byte that a comment body may contain: anything up to the end of a line.
pub open spec fn is_comment_byte(c: u8) -> bool {
    c != 10 && c != 13
}

/// The first position at or after `pos` whose byte fails `pred` (or the end
/// of the input): the end of the run of `pred` bytes starting at `pos`.
pub open spec fn run_end(s: Seq<u8>, pos: int, pred: spec_fn(u8) -> bool) -> int
    decreases s.len() - pos,
{
    if pos < 0 || pos >= s.len() {
        pos
    } else if pred(s[pos]) {
        run_end(s, pos + 1, pred)
    } else {
        pos
    }
}

/// What `run_end` returns: the longest run of `pred` bytes starting at `pos`.
pub proof fn lemma_run_end(s: Seq<u8>, pos: int, pred: spec_fn(u8) -> bool)
    requires
        0 <= pos <= s.len(),
    ensures
        pos <= run_end(s, pos, pred) <= s.len(),
        forall|j: int| pos <= j < run_end(s, pos, pred) ==> pred(s[j]),
        run_end(s, pos, pred) == s.len() || !pred(s[run_end(s, pos, pred)]),
    decreases s.len() - pos,
{
    if pos < s.len() && pred(s[pos]) {
        lemma_run_end(s, pos + 1, pred);
    }
}

/// `run_end` is the unique position bounding a maximal run of `pred` bytes.
pub proof fn lemma_run_end_is(s: Seq<u8>, pos: int, e: int, pred: spec_fn(u8) -> bool)
    requires
        0 <= pos <= e <= s.len(),
        forall|j: int| pos <= j < e ==> pred(s[j]),
        e == s.len() || !pred(s[e]),
    ensures
        run_end(s, pos, pred) == e,
    decreases s.len() - pos,
{
    if pos < s.len() && pred(s[pos]) {
        lemma_run_end_is(s, pos + 1, e, pred);
    }
}

/// A non-empty identifier starting at `pos`: its text and the position after.
pub open spec fn take_ident(s: Seq<u8>, pos: int) -> Option<(Seq<u8>, int)> {
    let e = run_end(s, pos, |c: u8| is_ident_byte(c));
    if e > pos {
        Some((s.subrange(pos, e), e))
    } else {
        None
    }
}

/// A comment starting at `pos`: a `#`, then everything up to the end of the
/// line; the text has the `#` stripped.
pub open spec fn parse_comment_at(s: Seq<u8>, pos: int) -> Option<(Seq<u8>, int)> {
    if pos < s.len() && s[pos] == 35 {
        let e = run_end(s, pos + 1, |c: u8| is_comment_byte(c));
        Some((s.subrange(pos + 1, e), e))
    } else {
        None
    }
}

/// An optional operand after an opcode: spaces and tabs, then the longest
/// run of operand bytes; an empty run means no operand.
pub open spec fn parse_operand_at(s: Seq<u8>, pos: int) -> (Option<Seq<u8>>, int) {
    let p1 = run_end(s, pos, |c: u8| is_line_space(c));
    let e = run_end(s, p1, |c: u8| is_operand_byte(c));
    if e > p1 {
        (Some(s.subrange(p1, e)), e)
    } else {
        (None, p1)
    }
}

/// Maps a lower-case letter to its upper-case form and leaves every other
/// byte unchanged.
pub open spec fn to_upper(c: u8) -> u8 {
    if 97 <= c <= 122 {
        (c - 32) as u8
    } else {
        c
    }
}

/// The canonical (upper-case) text of an opcode.
pub open spec fn opcode_text(op: Opcode) -> Seq<u8> {
    match op {
        Opcode::ADD => seq![65u8, 68, 68],
        Opcode::SUB => seq![83u8, 85, 66],
        Opcode::STO => seq![83u8, 84, 79],
        Opcode::LDA => seq![76u8, 68, 65],
        Opcode::BRZ => seq![66u8, 82, 90],
        Opcode::BRP => seq![66u8, 82, 80],
        Opcode::BR => seq![66u8, 82],
        Opcode::IN => seq![73u8, 78],
        Opcode::OUT => seq![79u8, 85, 84],
        Opcode::HLT => seq![72u8, 76, 84],
        Opcode::DAT => seq![68u8, 65, 84],
    }
}

/// The text `t` matches at `pos` ignoring case (`t` is given upper-case).
pub open spec fn ci_match_at(s: Seq<u8>, pos: int, t: Seq<u8>) -> bool {
    &&& 0 <= pos
    &&& pos + t.len() <= s.len()
    &&& forall|i: int| 0 <= i < t.len() ==> to_upper(s[pos + i]) == t[i]
}

/// A whole token ends at `pos`: the input ends or whitespace follows.
pub open spec fn token_boundary(s: Seq<u8>, pos: int) -> bool {
    pos >= s.len() || is_any_space(s[pos])
}

/// The opcode `op` matches at `pos` as a whole token.
pub open spec fn opcode_match_at(s: Seq<u8>, pos: int, op: Opcode) -> bool {
    ci_match_at(s, pos, opcode_text(op)) && token_boundary(s, pos + opcode_text(op).len())
}

/// The first opcode of the vocabulary, in declaration order, that matches at
/// `pos` as a whole token, with the position after it.
pub open spec fn match_opcode(s: Seq<u8>, pos: int) -> Option<(Opcode, int)> {
    if opcode_match_at(s, pos, Opcode::ADD) {
        Some((Opcode::ADD, pos + 3))
    } else if opcode_match_at(s, pos, Opcode::SUB) {
        Some((Opcode::SUB, pos + 3))
    } else if opcode_match_at(s, pos, Opcode::STO) {
        Some((Opcode::STO, pos + 3))
    } else if opcode_match_at(s, pos, Opcode::LDA) {
        Some((Opcode::LDA, pos + 3))
    } else if opcode_match_at(s, pos, Opcode::BRZ) {
        Some((Opcode::BRZ, pos + 3))
    } else if opcode_match_at(s, pos, Opcode::BRP) {
        Some((Opcode::BRP, pos + 3))
    } else if opcode_match_at(s, pos, Opcode::BR) {
        Some((Opcode::BR, pos + 2))
    } else if opcode_match_at(s, pos, Opcode::IN) {
        Some((Opcode::IN, pos + 2))
    } else if opcode_match_at(s, pos, Opcode::OUT) {
        Some((Opcode::OUT, pos + 3))
    } else if opcode_match_at(s, pos, Opcode::HLT) {
        Some((Opcode::HLT, pos + 3))
    } else if opcode_match_at(s, pos, Opcode::DAT) {
        Some((Opcode::DAT, pos + 3))
    } else {
        None
    }
}

/// An instruction at `pos`: either a label, spaces, an opcode and an optional
/// operand, or an opcode and an optional operand alone; the labelled form is
/// tried first.
pub open spec fn parse_instruction_at(s: Seq<u8>, pos: int) -> Option<(InstructionModel, int)> {
    let labelled = parse_labelled_instruction_at(s, pos);
    if labelled is Some {
        labelled
    } else {
        match match_opcode(s, pos) {
            Some((op, p1)) => {
                let (operand, p2) = parse_operand_at(s, p1);
                Some((InstructionModel { label: None, opcode: op, operand }, p2))
            },
            None => None,
        }
    }
}

/// The labelled instruction form: an identifier, at least one space or tab,
/// then an opcode and an optional operand.
pub open spec fn parse_labelled_instruction_at(s: Seq<u8>, pos: int) -> Option<
    (InstructionModel, int),
> {
    match take_ident(s, pos) {
        Some((lab, p1)) => {
            let p2 = run_end(s, p1, |c: u8| is_line_space(c));
            if p2 > p1 {
                match match_opcode(s, p2) {
                    Some((op, p3)) => {
                        let (operand, p4) = parse_operand_at(s, p3);
                        Some((InstructionModel { label: Some(lab), opcode: op, operand }, p4))
                    },
                    None => None,
                }
            } else {
                None
            }
        },
        None => None,
    }
}

/// The tail of a comma-separated name list: zero or more of a comma,
/// whitespace, and an identifier. A comma not followed by an identifier is
/// left unconsumed.
pub open spec fn parse_list_rest(s: Seq<u8>, pos: int) -> (Seq<Seq<u8>>, int)
    decreases s.len() - pos,
{
    if 0 <= pos && pos < s.len() && s[pos] == 44 {
        let p1 = run_end(s, pos + 1, |c: u8| is_any_space(c));
        match take_ident(s, p1) {
            Some((id, p2)) => {
                if pos < p2 <= s.len() {
                    let (rest, e) = parse_list_rest(s, p2);
                    (seq![id] + rest, e)
                } else {
                    (seq![id], p2)
                }
            },
            None => (Seq::empty(), pos),
        }
    } else {
        (Seq::empty(), pos)
    }
}

/// A possibly empty comma-separated list of identifiers.
pub open spec fn parse_name_list(s: Seq<u8>, pos: int) -> (Seq<Seq<u8>>, int) {
    match take_ident(s, pos) {
        Some((id, p1)) => {
            let (rest, e) = parse_list_rest(s, p1);
            (seq![id] + rest, e)
        },
        None => (Seq::empty(), pos),
    }
}

/// A macro call at `pos`: an identifier, `!(`, a name list, `)`.
pub open spec fn parse_call_at(s: Seq<u8>, pos: int) -> Option<(MacroCallModel, int)> {
    match take_ident(s, pos) {
        Some((id, p1)) => {
            if p1 + 2 <= s.len() && s[p1] == 33 && s[p1 + 1] == 40 {
                let (args, p2) = parse_name_list(s, p1 + 2);
                if p2 < s.len() && s[p2] == 41 {
                    Some((MacroCallModel { identifier: id, arguments: args }, p2 + 1))
                } else {
                    None
                }
            } else {
                None
            }
        },
        None => None,
    }
}

/// A macro declaration at `pos`: an identifier, a parenthesized name list,
/// `=`, and a braced body parsed with the program grammar itself.
pub open spec fn parse_decl_at(s: Seq<u8>, pos: int) -> Option<(MacroDeclarationModel, int)>
    decreases s.len() - pos, 1int,
{
    match take_ident(s, pos) {
        Some((id, p1)) => {
            if p1 < s.len() && s[p1] == 40 {
                let (params, p2) = parse_name_list(s, p1 + 1);
                if 0 <= p2 && p2 < s.len() && s[p2] == 41 {
                    let p3 = run_end(s, p2 + 1, |c: u8| is_any_space(c));
                    if p3 < s.len() && s[p3] == 61 {
                        let p4 = run_end(s, p3 + 1, |c: u8| is_any_space(c));
                        if p4 < s.len() && s[p4] == 123 {
                            if pos < p4 + 1 <= s.len() {
                                let (body, p5) = parse_items_at(s, p4 + 1);
                                let p6 = run_end(s, p5, |c: u8| is_any_space(c));
                                if p6 < s.len() && s[p6] == 125 {
                                    Some(
                                        (
                                            MacroDeclarationModel {
                                                identifier: id,
                                                parameters: params,
                                                body,
                                            },
                                            p6 + 1,
                                        ),
                                    )
                                } else {
                                    None
                                }
                            } else {
                                None
                            }
                        } else {
                            None
                        }
                    } else {
                        None
                    }
                } else {
                    None
                }
            } else {
                None
            }
        },
        None => None,
    }
}

/// One item at `pos`, trying the alternatives in the fixed order: comment,
/// macro declaration, macro call, instruction.
pub open spec fn parse_item_at(s: Seq<u8>, pos: int) -> Option<(ItemModel, int)>
    decreases s.len() - pos, 2int,
{
    match parse_comment_at(s, pos) {
        Some((t, p)) => Some((ItemModel::Comment(t), p)),
        None => match parse_decl_at(s, pos) {
            Some((d, p)) => Some((ItemModel::MacroDeclaration(d), p)),
            None => match parse_call_at(s, pos) {
                Some((c, p)) => Some((ItemModel::MacroCall(c), p)),
                None => match parse_instruction_at(s, pos) {
                    Some((i, p)) => Some((ItemModel::Instruction(i), p)),
                    None => None,
                },
            },
        },
    }
}

/// As many whitespace-preceded items as match, starting at `pos`. Trailing
/// whitespace before a position where no item matches is left unconsumed.
pub open spec fn parse_items_at(s: Seq<u8>, pos: int) -> (Seq<ItemModel>, int)
    decreases s.len() - pos, 3int,
{
    let p1 = run_end(s, pos, |c: u8| is_any_space(c));
    if 0 <= pos <= p1 <= s.len() {
        match parse_item_at(s, p1) {
            Some((it, p2)) => {
                if pos < p2 <= s.len() {
                    let (rest, e) = parse_items_at(s, p2);
                    (seq![it] + rest, e)
                } else {
                    (seq![it], p2)
                }
            },
            None => (Seq::empty(), pos),
        }
    } else {
        (Seq::empty(), pos)
    }
}

/// The bounds of every leaf parser: a successful match moves the position
/// forward and stays inside the input.
pub proof fn lemma_leaf_bounds(s: Seq<u8>, pos: int)
    requires
        0 <= pos <= s.len(),
    ensures
        take_ident(s, pos) matches Some((id, e)) ==> pos < e <= s.len(),
        parse_comment_at(s, pos) matches Some((t, e)) ==> pos < e <= s.len(),
        pos <= parse_operand_at(s, pos).1 <= s.len(),
        match_opcode(s, pos) matches Some((op, e)) ==> pos < e <= s.len(),
        parse_instruction_at(s, pos) matches Some((i, e)) ==> pos < e <= s.len(),
{
    lemma_run_end(s, pos, |c: u8| is_ident_byte(c));
    lemma_run_end(s, pos, |c: u8| is_line_space(c));
    if pos < s.len() {
        lemma_run_end(s, pos + 1, |c: u8| is_comment_byte(c));
    }
    lemma_leaf_bounds_operand(s, pos);
    // the labelled instruction form
    match take_ident(s, pos) {
        Some((lab, q1)) => {
            lemma_run_end(s, q1, |c: u8| is_line_space(c));
            let q2 = run_end(s, q1, |c: u8| is_line_space(c));
            if q2 > q1 {
                match match_opcode(s, q2) {
                    Some((op, q3)) => lemma_leaf_bounds_operand(s, q3),
                    None => {},
                }
            }
        },
        None => {},
    }
    // the unlabelled instruction form
    match match_opcode(s, pos) {
        Some((op, q1)) => lemma_leaf_bounds_operand(s, q1),
        None => {},
    }
}

/// The operand parser stays inside the input.
pub proof fn lemma_leaf_bounds_operand(s: Seq<u8>, pos: int)
    requires
        0 <= pos <= s.len(),
    ensures
        pos <= parse_operand_at(s, pos).1 <= s.len(),
{
    lemma_run_end(s, pos, |c: u8| is_line_space(c));
    let p1 = run_end(s, pos, |c: u8| is_line_space(c));
    lemma_run_end(s, p1, |c: u8| is_operand_byte(c));
}

/// The bounds of the name-list parsers.
pub proof fn lemma_list_bounds(s: Seq<u8>, pos: int)
    requires
        0 <= pos <= s.len(),
    ensures
        pos <= parse_list_rest(s, pos).1 <= s.len(),
        pos <= parse_name_list(s, pos).1 <= s.len(),
        parse_call_at(s, pos) matches Some((c, e)) ==> pos < e <= s.len(),
{
    lemma_leaf_bounds(s, pos);
    lemma_list_rest_bounds(s, pos);
    // a full list, and a call, starting at pos
    match take_ident(s, pos) {
        Some((id, p1)) => {
            lemma_list_rest_bounds(s, p1);
            if p1 + 2 <= s.len() && s[p1] == 33 && s[p1 + 1] == 40 {
                lemma_list_bounds_name_list(s, p1 + 2);
            }
        },
        None => {},
    }
}

/// The bounds of the list-tail parser alone.
pub proof fn lemma_list_rest_bounds(s: Seq<u8>, pos: int)
    requires
        0 <= pos <= s.len(),
    ensures
        pos <= parse_list_rest(s, pos).1 <= s.len(),
    decreases s.len() - pos,
{
    if pos < s.len() && s[pos] == 44 {
        lemma_run_end(s, pos + 1, |c: u8| is_any_space(c));
        let p1 = run_end(s, pos + 1, |c: u8| is_any_space(c));
        lemma_run_end(s, p1, |c: u8| is_ident_byte(c));
        match take_ident(s, p1) {
            Some((id, p2)) => lemma_list_rest_bounds(s, p2),
            None => {},
        }
    }
}

/// The bounds of the full name-list parser alone.
pub proof fn lemma_list_bounds_name_list(s: Seq<u8>, pos: int)
    requires
        0 <= pos <= s.len(),
    ensures
        pos <= parse_name_list(s, pos).1 <= s.len(),
{
    lemma_leaf_bounds(s, pos);
    match take_ident(s, pos) {
        Some((id, p1)) => lemma_list_rest_bounds(s, p1),
        None => {},
    }
}

/// Progress of a macro declaration parse: success moves forward.
pub proof fn lemma_decl_progress(s: Seq<u8>, pos: int)
    requires
        0 <= pos <= s.len(),
    ensures
        parse_decl_at(s, pos) matches Some((d, e)) ==> pos < e <= s.len(),
    decreases s.len() - pos, 1int,
{
    lemma_leaf_bounds(s, pos);
    match take_ident(s, pos) {
        Some((id, p1)) => {
            if p1 < s.len() && s[p1] == 40 {
                lemma_list_bounds_name_list(s, p1 + 1);
                let (params, p2) = parse_name_list(s, p1 + 1);
                if 0 <= p2 && p2 < s.len() && s[p2] == 41 {
                    lemma_run_end(s, p2 + 1, |c: u8| is_any_space(c));
                    let p3 = run_end(s, p2 + 1, |c: u8| is_any_space(c));
                    if p3 < s.len() && s[p3] == 61 {
                        lemma_run_end(s, p3 + 1, |c: u8| is_any_space(c));
                        let p4 = run_end(s, p3 + 1, |c: u8| is_any_space(c));
                        if p4 < s.len() && s[p4] == 123 {
                            lemma_items_progress(s, p4 + 1);
                            let (body, p5) = parse_items_at(s, p4 + 1);
                            lemma_run_end(s, p5, |c: u8| is_any_space(c));
                        }
                    }
                }
            }
        },
        None => {},
    }
}

/// Progress of an item parse: success moves forward.
pub proof fn lemma_item_progress(s: Seq<u8>, pos: int)
    requires
        0 <= pos <= s.len(),
    ensures
        parse_item_at(s, pos) matches Some((it, e)) ==> pos < e <= s.len(),
    decreases s.len() - pos, 2int,
{
    lemma_leaf_bounds(s, pos);
    lemma_list_bounds(s, pos);
    lemma_decl_progress(s, pos);
}

/// Bounds of an item-run parse: the final position never moves backwards.
pub proof fn lemma_items_progress(s: Seq<u8>, pos: int)
    requires
        0 <= pos <= s.len(),
    ensures
        pos <= parse_items_at(s, pos).1 <= s.len(),
    decreases s.len() - pos, 3int,
{
    lemma_run_end(s, pos, |c: u8| is_any_space(c));
    let p1 = run_end(s, pos, |c: u8| is_any_space(c));
    lemma_item_progress(s, p1);
    match parse_item_at(s, p1) {
        Some((it, p2)) => {
            if pos < p2 <= s.len() {
                lemma_items_progress(s, p2);
            }
        },
        None => {},
    }
}

/// The model of an optional piece of text with a position.
pub open spec fn text_res_model(r: Option<(Vec<u8>, usize)>) -> Option<(Seq<u8>, int)> {
    match r {
        Some((t, p)) => Some((t@, p as int)),
        None => None,
    }
}

/// Skips spaces, tabs, carriage returns and line feeds.
fn skip_any_space(s: &[u8], pos: usize) -> (r: usize)
    requires
        pos <= s@.len(),
    ensures
        r as int == run_end(s@, pos as int, |c: u8| is_any_space(c)),
        pos <= r <= s@.len(),
{
    let mut i: usize = pos;
    while i < s.len() && (s[i] == 32 || s[i] == 9 || s[i] == 13 || s[i] == 10)
        invariant
            pos <= i <= s@.len(),
            forall|j: int| pos <= j < i ==> is_any_space(s@[j]),
        decreases s@.len() - i,
    {
        i = i + 1;
    }
    proof {
        lemma_run_end_is(s@, pos as int, i as int, |c: u8| is_any_space(c));
    }
    i
}

/// Skips spaces and tabs.
fn skip_line_space(s: &[u8], pos: usize) -> (r: usize)
    requires
        pos <= s@.len(),
    ensures
        r as int == run_end(s@, pos as int, |c: u8| is_line_space(c)),
        pos <= r <= s@.len(),
{
    let mut i: usize = pos;
    while i < s.len() && (s[i] == 32 || s[i] == 9)
        invariant
            pos <= i <= s@.len(),
            forall|j: int| pos <= j < i ==> is_line_space(s@[j]),
        decreases s@.len() - i,
    {
        i = i + 1;
    }
    proof {
        lemma_run_end_is(s@, pos as int, i as int, |c: u8| is_line_space(c));
    }
    i
}

/// Finds the end of the run of identifier bytes starting at `pos`.
fn scan_ident_end(s: &[u8], pos: usize) -> (r: usize)
    requires
        pos <= s@.len(),
    ensures
        r as int == run_end(s@, pos as int, |c: u8| is_ident_byte(c)),
        pos <= r <= s@.len(),
{
    let mut i: usize = pos;
    while i < s.len() && ((65 <= s[i] && s[i] <= 90) || (97 <= s[i] && s[i] <= 122) || s[i] == 95)
        invariant
            pos <= i <= s@.len(),
            forall|j: int| pos <= j < i ==> is_ident_byte(s@[j]),
        decreases s@.len() - i,
    {
        i = i + 1;
    }
    proof {
        lemma_run_end_is(s@, pos as int, i as int, |c: u8| is_ident_byte(c));
    }
    i
}

/// Finds the end of the run of operand bytes starting at `pos`.
fn scan_operand_end(s: &[u8], pos: usize) -> (r: usize)
    requires
        pos <= s@.len(),
    ensures
        r as int == run_end(s@, pos as int, |c: u8| is_operand_byte(c)),
        pos <= r <= s@.len(),
{
    let mut i: usize = pos;
    while i < s.len() && ((65 <= s[i] && s[i] <= 90) || (97 <= s[i] && s[i] <= 122) || s[i] == 95
        || (48 <= s[i] && s[i] <= 57) || s[i] == 36)
        invariant
            pos <= i <= s@.len(),
            forall|j: int| pos <= j < i ==> is_operand_byte(s@[j]),
        decreases s@.len() - i,
    {
        i = i + 1;
    }
    proof {
        lemma_run_end_is(s@, pos as int, i as int, |c: u8| is_operand_byte(c));
    }
    i
}

/// Finds the end of the run of comment bytes starting at `pos`.
fn scan_comment_end(s: &[u8], pos: usize) -> (r: usize)
    requires
        pos <= s@.len(),
    ensures
        r as int == run_end(s@, pos as int, |c: u8| is_comment_byte(c)),
        pos <= r <= s@.len(),
{
    let mut i: usize = pos;
    while i < s.len() && s[i] != 10 && s[i] != 13
        invariant
            pos <= i <= s@.len(),
            forall|j: int| pos <= j < i ==> is_comment_byte(s@[j]),
        decreases s@.len() - i,
    {
        i = i + 1;
    }
    proof {
        lemma_run_end_is(s@, pos as int, i as int, |c: u8| is_comment_byte(c));
    }
    i
}

/// Copies the bytes of `s` between `from` and `to`.
fn copy_range(s: &[u8], from: usize, to: usize) -> (r: Vec<u8>)
    requires
        from <= to <= s@.len(),
    ensures
        r@ == s@.subrange(from as int, to as int),
{
    vstd::slice::slice_to_vec(vstd::slice::slice_subrange(s, from, to))
}

/// Reads a non-empty identifier at `pos`.
fn take_ident_x(s: &[u8], pos: usize) -> (r: Option<(Vec<u8>, usize)>)
    requires
        pos <= s@.len(),
    ensures
        text_res_model(r) == take_ident(s@, pos as int),
{
    let e = scan_ident_end(s, pos);
    if e > pos {
        Some((copy_range(s, pos, e), e))
    } else {
        None
    }
}

/// Reads a comment at `pos`.
fn parse_comment_x(s: &[u8], pos: usize) -> (r: Option<(Vec<u8>, usize)>)
    requires
        pos <= s@.len(),
    ensures
        text_res_model(r) == parse_comment_at(s@, pos as int),
{
    if pos < s.len() && s[pos] == 35 {
        let e = scan_comment_end(s, pos + 1);
        Some((copy_range(s, pos + 1, e), e))
    } else {
        None
    }
}

/// Reads an optional operand at `pos`.
fn parse_operand_x(s: &[u8], pos: usize) -> (r: (Option<Vec<u8>>, usize))
    requires
        pos <= s@.len(),
    ensures
        text_opt_model(r.0) == parse_operand_at(s@, pos as int).0,
        r.1 as int == parse_operand_at(s@, pos as int).1,
        pos <= r.1 <= s@.len(),
{
    let p1 = skip_line_space(s, pos);
    let e = scan_operand_end(s, p1);
    if e > p1 {
        (Some(copy_range(s, p1, e)), e)
    } else {
        (None, p1)
    }
}

/// The canonical text of an opcode, as bytes.
pub(crate) fn opcode_text_x(op: Opcode) -> (r: Vec<u8>)
    ensures
        r@ == opcode_text(op),
{
    let mut v: Vec<u8> = Vec::new();
    match op {
        Opcode::ADD => {
            v.push(65);
            v.push(68);
            v.push(68);
        },
        Opcode::SUB => {
            v.push(83);
            v.push(85);
            v.push(66);
        },
        Opcode::STO => {
            v.push(83);
            v.push(84);
            v.push(79);
        },
        Opcode::LDA => {
            v.push(76);
            v.push(68);
            v.push(65);
        },
        Opcode::BRZ => {
            v.push(66);
            v.push(82);
            v.push(90);
        },
        Opcode::BRP => {
            v.push(66);
            v.push(82);
            v.push(80);
        },
        Opcode::BR => {
            v.push(66);
            v.push(82);
        },
        Opcode::IN => {
            v.push(73);
            v.push(78);
        },
        Opcode::OUT => {
            v.push(79);
            v.push(85);
            v.push(84);
        },
        Opcode::HLT => {
            v.push(72);
            v.push(76);
            v.push(84);
        },
        Opcode::DAT => {
            v.push(68);
            v.push(65);
            v.push(84);
        },
    }
    assert(v@ =~= opcode_text(op));
    v
}

/// Tries to match one opcode at `pos` as a whole token; on success, returns
/// the position after its text.
fn try_opcode(s: &[u8], pos: usize, op: Opcode) -> (r: Option<usize>)
    requires
        pos <= s@.len(),
    ensures
        r matches Some(e) ==> opcode_match_at(s@, pos as int, op) && e as int == pos
            + opcode_text(op).len(),
        r is None ==> !opcode_match_at(s@, pos as int, op),
{
    let t = opcode_text_x(op);
    if s.len() < t.len() || pos > s.len() - t.len() {
        assert(!ci_match_at(s@, pos as int, opcode_text(op)));
        return None;
    }
    let mut i: usize = 0;
    while i < t.len()
        invariant
            0 <= i <= t@.len(),
            pos + t@.len() <= s@.len(),
            s@.len() <= usize::MAX,
            t@ == opcode_text(op),
            forall|j: int| 0 <= j < i ==> to_upper(s@[pos + j]) == t@[j],
        decreases t@.len() - i,
    {
        assert(pos + i < s@.len());
        let c = s[pos + i];
        let u = if 97 <= c && c <= 122 {
            c - 32
        } else {
            c
        };
        assert(u == to_upper(c));
        if u != t[i] {
            return None;
        }
        i = i + 1;
    }
    let e = pos + t.len();
    if e < s.len() {
        let b = s[e];
        if b == 32 || b == 9 || b == 13 || b == 10 {
            Some(e)
        } else {
            None
        }
    } else {
        Some(e)
    }
}

/// Matches the first opcode of the vocabulary at `pos`, in declaration order.
fn match_opcode_x(s: &[u8], pos: usize) -> (r: Option<(Opcode, usize)>)
    requires
        pos <= s@.len(),
    ensures
        (match r {
            Some((op, e)) => match_opcode(s@, pos as int) == Some((op, e as int)),
            None => match_opcode(s@, pos as int) is None,
        }),
{
    if let Some(e) = try_opcode(s, pos, Opcode::ADD) {
        return Some((Opcode::ADD, e));
    }
    if let Some(e) = try_opcode(s, pos, Opcode::SUB) {
        return Some((Opcode::SUB, e));
    }
    if let Some(e) = try_opcode(s, pos, Opcode::STO) {
        return Some((Opcode::STO, e));
    }
    if let Some(e) = try_opcode(s, pos, Opcode::LDA) {
        return Some((Opcode::LDA, e));
    }
    if let Some(e) = try_opcode(s, pos, Opcode::BRZ) {
        return Some((Opcode::BRZ, e));
    }
    if let Some(e) = try_opcode(s, pos, Opcode::BRP) {
        return Some((Opcode::BRP, e));
    }
    if let Some(e) = try_opcode(s, pos, Opcode::BR) {
        return Some((Opcode::BR, e));
    }
    if let Some(e) = try_opcode(s, pos, Opcode::IN) {
        return Some((Opcode::IN, e));
    }
    if let Some(e) = try_opcode(s, pos, Opcode::OUT) {
        return Some((Opcode::OUT, e));
    }
    if let Some(e) = try_opcode(s, pos, Opcode::HLT) {
        return Some((Opcode::HLT, e));
    }
    if let Some(e) = try_opcode(s, pos, Opcode::DAT) {
        return Some((Opcode::DAT, e));
    }
    None
}

/// The model of an optional instruction with a position.
pub open spec fn inst_res_model(r: Option<(Instruction, usize)>) -> Option<(InstructionModel, int)> {
    match r {
        Some((i, p)) => Some((i@, p as int)),
        None => None,
    }
}

/// The model of an optional macro call with a position.
pub open spec fn call_res_model(r: Option<(MacroCall, usize)>) -> Option<(MacroCallModel, int)> {
    match r {
        Some((c, p)) => Some((c@, p as int)),
        None => None,
    }
}

/// The model of an optional macro declaration with a position.
pub open spec fn decl_res_model(r: Option<(MacroDeclaration, usize)>) -> Option<
    (MacroDeclarationModel, int),
> {
    match r {
        Some((d, p)) => Some((d@, p as int)),
        None => None,
    }
}

/// The model of an optional item with a position.
pub open spec fn item_res_model(r: Option<(Item, usize)>) -> Option<(ItemModel, int)> {
    match r {
        Some((it, p)) => Some((it@, p as int)),
        None => None,
    }
}

/// Reads one instruction at `pos`.
fn parse_instruction_from(s: &[u8], pos: usize) -> (r: Option<(Instruction, usize)>)
    requires
        pos <= s@.len(),
    ensures
        inst_res_model(r) == parse_instruction_at(s@, pos as int),
        r matches Some((i, p)) ==> pos < p <= s@.len(),
{
    proof {
        lemma_leaf_bounds(s@, pos as int);
    }
    // the labelled form is tried first
    if let Some((lab, p1)) = take_ident_x(s, pos) {
        proof {
            lemma_leaf_bounds(s@, p1 as int);
        }
        let p2 = skip_line_space(s, p1);
        if p2 > p1 {
            if let Some((op, p3)) = match_opcode_x(s, p2) {
                proof {
                    lemma_leaf_bounds(s@, p2 as int);
                }
                let (operand, p4) = parse_operand_x(s, p3);
                return Some((Instruction { label: Some(lab), opcode: op, operand }, p4));
            }
        }
    }
    assert(parse_labelled_instruction_at(s@, pos as int) is None);
    if let Some((op, p1)) = match_opcode_x(s, pos) {
        let (operand, p2) = parse_operand_x(s, p1);
        return Some((Instruction { label: None, opcode: op, operand }, p2));
    }
    None
}

/// Reads a possibly empty comma-separated list of identifiers at `pos`.
fn parse_name_list_x(s: &[u8], pos: usize) -> (r: (Vec<Vec<u8>>, usize))
    requires
        pos <= s@.len(),
    ensures
        names_model(r.0@) == parse_name_list(s@, pos as int).0,
        r.1 as int == parse_name_list(s@, pos as int).1,
        pos <= r.1 <= s@.len(),
{
    proof {
        lemma_list_bounds(s@, pos as int);
    }
    let first = take_ident_x(s, pos);
    let (id, p1) = match first {
        Some(pair) => pair,
        None => {
            let empty: Vec<Vec<u8>> = Vec::new();
            assert(names_model(empty@) =~= parse_name_list(s@, pos as int).0);
            return (empty, pos);
        },
    };
    let mut out: Vec<Vec<u8>> = Vec::new();
    out.push(id);
    let mut cur: usize = p1;
    proof {
        assert(names_model(out@) =~= seq![out@[0]@]);
    }
    loop
        invariant
            pos <= cur <= s@.len(),
            parse_name_list(s@, pos as int).0 =~= names_model(out@) + parse_list_rest(
                s@,
                cur as int,
            ).0,
            parse_name_list(s@, pos as int).1 == parse_list_rest(s@, cur as int).1,
        decreases s@.len() - cur,
    {
        proof {
            lemma_list_rest_bounds(s@, cur as int);
        }
        if cur < s.len() && s[cur] == 44 {
            let q1 = skip_any_space(s, cur + 1);
            if let Some((id2, q2)) = take_ident_x(s, q1) {
                proof {
                    lemma_list_rest_bounds(s@, q2 as int);
                    assert(parse_list_rest(s@, cur as int).0 =~= seq![id2@] + parse_list_rest(
                        s@,
                        q2 as int,
                    ).0);
                    assert(names_model(out@.push(id2)) =~= names_model(out@) + seq![id2@]);
                    assert(names_model(out@) + (seq![id2@] + parse_list_rest(s@, q2 as int).0)
                        =~= (names_model(out@) + seq![id2@]) + parse_list_rest(s@, q2 as int).0);
                }
                out.push(id2);
                cur = q2;
            } else {
                assert(parse_list_rest(s@, cur as int).0 =~= Seq::<Seq<u8>>::empty());
                assert(names_model(out@) + Seq::<Seq<u8>>::empty() =~= names_model(out@));
                return (out, cur);
            }
        } else {
            assert(parse_list_rest(s@, cur as int).0 =~= Seq::<Seq<u8>>::empty());
            assert(names_model(out@) + Seq::<Seq<u8>>::empty() =~= names_model(out@));
            return (out, cur);
        }
    }
}

/// Reads one macro call at `pos`.
fn parse_call_from(s: &[u8], pos: usize) -> (r: Option<(MacroCall, usize)>)
    requires
        pos <= s@.len(),
    ensures
        call_res_model(r) == parse_call_at(s@, pos as int),
        r matches Some((c, p)) ==> pos < p <= s@.len(),
{
    proof {
        lemma_list_bounds(s@, pos as int);
    }
    if let Some((id, p1)) = take_ident_x(s, pos) {
        if p1 < s.len() && s[p1] == 33 && p1 + 1 < s.len() && s[p1 + 1] == 40 {
            let (args, p2) = parse_name_list_x(s, p1 + 2);
            if p2 < s.len() && s[p2] == 41 {
                return Some((MacroCall { identifier: id, arguments: args }, p2 + 1));
            }
        }
    }
    None
}

/// Reads one macro declaration at `pos`; the body is read with the program
/// grammar itself.
fn parse_decl_from(s: &[u8], pos: usize) -> (r: Option<(MacroDeclaration, usize)>)
    requires
        pos <= s@.len(),
    ensures
        decl_res_model(r) == parse_decl_at(s@, pos as int),
        r matches Some((d, p)) ==> pos < p <= s@.len(),
    decreases s@.len() - pos, 1int,
{
    if let Some((id, p1)) = take_ident_x(s, pos) {
        if p1 < s.len() && s[p1] == 40 {
            let (params, p2) = parse_name_list_x(s, p1 + 1);
            if p2 < s.len() && s[p2] == 41 {
                let p3 = skip_any_space(s, p2 + 1);
                if p3 < s.len() && s[p3] == 61 {
                    let p4 = skip_any_space(s, p3 + 1);
                    if p4 < s.len() && s[p4] == 123 {
                        let (body, p5) = parse_items_from(s, p4 + 1);
                        let p6 = skip_any_space(s, p5);
                        if p6 < s.len() && s[p6] == 125 {
                            return Some(
                                (
                                    MacroDeclaration { identifier: id, parameters: params, body },
                                    p6 + 1,
                                ),
                            );
                        }
                    }
                }
            }
        }
    }
    None
}

/// Reads one item at `pos`, trying the alternatives in the fixed order.
fn parse_item_from(s: &[u8], pos: usize) -> (r: Option<(Item, usize)>)
    requires
        pos <= s@.len(),
    ensures
        item_res_model(r) == parse_item_at(s@, pos as int),
        r matches Some((it, p)) ==> pos < p <= s@.len(),
    decreases s@.len() - pos, 2int,
{
    if let Some((t, p)) = parse_comment_x(s, pos) {
        proof {
            lemma_leaf_bounds(s@, pos as int);
        }
        return Some((Item::Comment(t), p));
    }
    if let Some((d, p)) = parse_decl_from(s, pos) {
        return Some((Item::MacroDeclaration(d), p));
    }
    if let Some((c, p)) = parse_call_from(s, pos) {
        return Some((Item::MacroCall(c), p));
    }
    if let Some((i, p)) = parse_instruction_from(s, pos) {
        return Some((Item::Instruction(i), p));
    }
    None
}

/// Reads as many whitespace-preceded items as match, starting at `pos`.
fn parse_items_from(s: &[u8], pos: usize) -> (r: (Vec<Item>, usize))
    requires
        pos <= s@.len(),
    ensures
        items_model(r.0@) == parse_items_at(s@, pos as int).0,
        r.1 as int == parse_items_at(s@, pos as int).1,
        pos <= r.1 <= s@.len(),
    decreases s@.len() - pos, 3int,
{
    let mut out: Vec<Item> = Vec::new();
    let mut cur: usize = pos;
    proof {
        lemma_items_model(out@);
        assert(items_model(out@) =~= Seq::<ItemModel>::empty());
    }
    loop
        invariant
            pos <= cur <= s@.len(),
            parse_items_at(s@, pos as int).0 =~= items_model(out@) + parse_items_at(
                s@,
                cur as int,
            ).0,
            parse_items_at(s@, pos as int).1 == parse_items_at(s@, cur as int).1,
        decreases s@.len() - cur,
    {
        let p1 = skip_any_space(s, cur);
        let item = parse_item_from(s, p1);
        match item {
            Some((it, p2)) => {
                proof {
                    lemma_items_model(out@);
                    lemma_items_model(out@.push(it));
                    assert(parse_items_at(s@, cur as int).0 =~= seq![it@] + parse_items_at(
                        s@,
                        p2 as int,
                    ).0);
                    assert(items_model(out@.push(it)) =~= items_model(out@) + seq![it@]);
                    assert(items_model(out@) + (seq![it@] + parse_items_at(s@, p2 as int).0)
                        =~= (items_model(out@) + seq![it@]) + parse_items_at(s@, p2 as int).0);
                }
                out.push(it);
                cur = p2;
            },
            None => {
                assert(parse_items_at(s@, cur as int).0 =~= Seq::<ItemModel>::empty());
                proof {
                    lemma_items_model(out@);
                    assert(items_model(out@) + Seq::<ItemModel>::empty() =~= items_model(out@));
                }
                return (out, cur);
            },
        }
    }
}

/// The failure of a whole-program parse: the position where no item matched.
#[derive(Debug, Clone, Copy, PartialEq, Eq, Structural)]
pub struct ParseError {
    pub pos: usize,
}

/// The parse of a whole program: an item run from the start, then trailing
/// whitespace; anything left after that is a parse error at that position.
pub open spec fn parse_program_spec(s: Seq<u8>) -> Result<Seq<ItemModel>, int> {
    let (items, p) = parse_items_at(s, 0);
    let p1 = run_end(s, p, |c: u8| is_any_space(c));
    if p1 == s.len() {
        Ok(items)
    } else {
        Err(p1)
    }
}

/// Parses an entire program: a sequence of items, each preceded by arbitrary
/// whitespace, which must consume the whole input up to trailing whitespace.
pub fn parse_program(s: &[u8]) -> (r: Result<Vec<Item>, ParseError>)
    ensures
        (match r {
            Ok(items) => parse_program_spec(s@) == Ok::<Seq<ItemModel>, int>(items_model(items@)),
            Err(e) => parse_program_spec(s@) == Err::<Seq<ItemModel>, int>(e.pos as int),
        }),
{
    let (items, p) = parse_items_from(s, 0);
    let p1 = skip_any_space(s, p);
    if p1 == s.len() {
        Ok(items)
    } else {
        Err(ParseError { pos: p1 })
    }
}

/// Parses a single instruction at the start of the input.
pub fn parse_instruction(s: &[u8]) -> (r: Option<(Instruction, usize)>)
    ensures
        inst_res_model(r) == parse_instruction_at(s@, 0),
        r matches Some((i, p)) ==> 0 < p <= s@.len(),
{
    parse_instruction_from(s, 0)
}

/// Parses a single macro call at the start of the input.
pub fn macro_call(s: &[u8]) -> (r: Option<(MacroCall, usize)>)
    ensures
        call_res_model(r) == parse_call_at(s@, 0),
        r matches Some((c, p)) ==> 0 < p <= s@.len(),
{
    parse_call_from(s, 0)
}

/// Parses a single macro declaration at the start of the input.
pub fn macro_declaration(s: &[u8]) -> (r: Option<(MacroDeclaration, usize)>)
    ensures
        decl_res_model(r) == parse_decl_at(s@, 0),
        r matches Some((d, p)) ==> 0 < p <= s@.len(),
{
    parse_decl_from(s, 0)
}

} // verus!



