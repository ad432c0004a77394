use vstd::prelude::*;

use crate::emitter::{
    spec_build, spec_emit, spec_emit_decl, spec_emit_decls, spec_header, spec_op_code, spec_pos, spec_push_text,
    BuildOptions,
};
use crate::lexer::Literal;
use crate::machine::find;
use crate::opcode::{
    lemma_num_round_trip, spec_byte, spec_from_byte, spec_is_binary, spec_num_bytes, spec_operand, spec_read_num,
    OPCode, OperandKind,
};
use crate::tree::{Declaration, Expression, Primary, Statement};

verus! {

/// One instruction of a program's body with its operand.
pub enum Instr {
    PushNum(u64),
    PushBool(bool),
    PushText(Seq<u8>),
    PushNil,
    PushVar(Option<u8>),
    Operator(OPCode, Option<u8>),
    Print(Option<u8>),
    Pop,
}

/// The instruction at the front of the bytes, and how many bytes it takes,
/// read by the operand table.
pub open spec fn decode_one(b: Seq<u8>, debug: bool) -> Option<(Instr, int)> {
    if b.len() == 0 {
        None
    } else {
        match spec_from_byte(b[0]) {
            None => None,
            Some(op) => match spec_operand(op) {
                OperandKind::Num => if b.len() >= 9 && op == OPCode::PUSH_NUM {
                    Some((Instr::PushNum(spec_read_num(b, 1)), 9))
                } else {
                    None
                },
                OperandKind::Byte => if b.len() >= 2 && op == OPCode::PUSH_BOOL {
                    Some((Instr::PushBool(b[1] >= 1), 2))
                } else {
                    None
                },
                OperandKind::Text => match find(b, 1, spec_byte(OPCode::NULL)) {
                    Some(e) => Some((Instr::PushText(b.subrange(1, e)), e + 1)),
                    None => None,
                },
                OperandKind::Position => {
                    let w = if debug { 1int } else { 0int };
                    let pos = if debug && b.len() >= 2 { Some(b[1]) } else { None };
                    if b.len() < 1 + w {
                        None
                    } else if op == OPCode::PUSH_VAR {
                        Some((Instr::PushVar(pos), 1 + w))
                    } else if op == OPCode::PRINT {
                        Some((Instr::Print(pos), 1 + w))
                    } else {
                        Some((Instr::Operator(op, pos), 1 + w))
                    }
                },
                _ => if op == OPCode::PUSH_NIL {
                    Some((Instr::PushNil, 1))
                } else if op == OPCode::POP {
                    Some((Instr::Pop, 1))
                } else {
                    None
                },
            },
        }
    }
}

/// The instructions of a body that ends with its one `END`.
#[verifier::opaque]
pub open spec fn decode(b: Seq<u8>, debug: bool) -> Option<Seq<Instr>>
    decreases b.len(),
{
    if b.len() == 0 {
        None
    } else if b[0] == spec_byte(OPCode::END) {
        if b.len() == 1 { Some(seq![]) } else { None }
    } else {
        match decode_one(b, debug) {
            None => None,
            Some((ins, k)) => if 1 <= k <= b.len() {
                prepend(seq![ins], decode(b.subrange(k, b.len() as int), debug))
            } else {
                None
            },
        }
    }
}

pub open spec fn prepend(x: Seq<Instr>, o: Option<Seq<Instr>>) -> Option<Seq<Instr>> {
    match o {
        Some(s) => Some(x + s),
        None => None,
    }
}

pub open spec fn pos_of(debug: bool, pos: i32) -> Option<u8> {
    if debug { Some(pos as u8) } else { None }
}

/// The instructions an expression stands for, in evaluation order.
pub open spec fn spec_instrs(e: Expression, debug: bool) -> Seq<Instr>
    decreases e,
{
    match e {
        Expression::Binary(l, t, r) => spec_instrs(*l, debug) + spec_instrs(*r, debug)
            + seq![positioned(spec_op_code(t.0)->Some_0, pos_of(debug, t.1))],
        Expression::Primary(Primary::Identifier(name), pos) => seq![Instr::PushText(name@), positioned(OPCode::PUSH_VAR, pos_of(debug, pos))],
        Expression::Primary(Primary::Literal(lit), _) => match lit {
            Literal::Num(n) => seq![Instr::PushNum(n)],
            Literal::Bool(b) => seq![Instr::PushBool(b)],
            Literal::String(s) => seq![Instr::PushText(s@)],
            _ => seq![Instr::PushNil],
        },
        Expression::PrintExpr(inner, pos) => spec_instrs(*inner, debug) + seq![positioned(OPCode::PRINT, pos_of(debug, pos))],
    }
}

pub open spec fn spec_instrs_decl(d: Declaration, debug: bool) -> Seq<Instr> {
    match d {
        Declaration::Statement(Statement::ExpressionStmt(e, is_statement, _), _) =>
            if is_statement { spec_instrs(e, debug) + seq![Instr::Pop] } else { spec_instrs(e, debug) },
    }
}

pub open spec fn spec_instrs_decls(ds: Seq<Declaration>, debug: bool) -> Seq<Instr>
    decreases ds.len(),
{
    if ds.len() == 0 {
        seq![]
    } else {
        spec_instrs_decls(ds.drop_last(), debug) + spec_instrs_decl(ds.last(), debug)
    }
}

/// No byte of the text is the `NULL` terminator.
pub open spec fn no_nul(s: Seq<u8>) -> bool {
    forall|i: int| 0 <= i < s.len() ==> #[trigger] s[i] != spec_byte(OPCode::NULL)
}

/// Every identifier and string of the expression can be terminated by `NULL`.
pub open spec fn texts_encodable(e: Expression) -> bool
    decreases e,
{
    match e {
        Expression::Binary(l, _, r) => texts_encodable(*l) && texts_encodable(*r),
        Expression::Primary(Primary::Identifier(name), _) => no_nul(name@),
        Expression::Primary(Primary::Literal(Literal::String(s)), _) => no_nul(s@),
        Expression::Primary(_, _) => true,
        Expression::PrintExpr(inner, _) => texts_encodable(*inner),
    }
}

pub open spec fn decl_encodable(d: Declaration) -> bool {
    match d {
        Declaration::Statement(Statement::ExpressionStmt(e, _, _), _) => texts_encodable(e),
    }
}

proof fn lemma_find_text(b: Seq<u8>, from: int, e: int, x: u8)
    requires
        0 <= from <= e < b.len(),
        b[e] == x,
        forall|i: int| from <= i < e ==> b[i] != x,
    ensures
        find(b, from, x) == Some(e),
    decreases e - from,
{
    if from < e {
        lemma_find_text(b, from + 1, e, x);
    }
}

proof fn lemma_decode_text(s: Seq<u8>, rest: Seq<u8>, debug: bool)
    requires
        no_nul(s),
    ensures
        decode_one(spec_push_text(s) + rest, debug) == Some((Instr::PushText(s), s.len() as int + 2)),
        (spec_push_text(s) + rest).subrange(s.len() as int + 2, (spec_push_text(s) + rest).len() as int) == rest,
{
    let b = spec_push_text(s) + rest;
    assert(b[0] == spec_byte(OPCode::PUSH_STRING));
    assert forall|i: int| 1 <= i < s.len() + 1 implies b[i] != spec_byte(OPCode::NULL) by {
        assert(b[i] == s[i - 1]);
    }
    lemma_find_text(b, 1, s.len() as int + 1, spec_byte(OPCode::NULL));
    assert(b.subrange(1, s.len() as int + 1) =~= s);
    assert(b.subrange(s.len() as int + 2, b.len() as int) =~= rest);
}

/// The instruction that an opcode with a position operand stands for.
pub open spec fn positioned(op: OPCode, p: Option<u8>) -> Instr {
    if op == OPCode::PUSH_VAR {
        Instr::PushVar(p)
    } else if op == OPCode::PRINT {
        Instr::Print(p)
    } else {
        Instr::Operator(op, p)
    }
}

proof fn lemma_decode_step(b: Seq<u8>, debug: bool, ins: Instr, k: int)
    requires
        b.len() > 0,
        b[0] != spec_byte(OPCode::END),
        decode_one(b, debug) == Some((ins, k)),
        1 <= k <= b.len(),
    ensures
        decode(b, debug) == prepend(seq![ins], decode(b.subrange(k, b.len() as int), debug)),
{
    reveal(decode);
}

proof fn lemma_prepend_assoc(x: Seq<Instr>, y: Seq<Instr>, o: Option<Seq<Instr>>)
    ensures
        prepend(x, prepend(y, o)) == prepend(x + y, o),
{
    if let Some(s) = o {
        assert(x + (y + s) =~= (x + y) + s);
    }
}

proof fn lemma_decode_positioned(op: OPCode, debug: bool, pos: i32, rest: Seq<u8>)
    requires
        op == OPCode::PUSH_VAR || op == OPCode::PRINT || spec_is_binary(op),
    ensures
        decode(seq![spec_byte(op)] + spec_pos(debug, pos) + rest, debug)
            == prepend(seq![positioned(op, pos_of(debug, pos))], decode(rest, debug)),
{
    let b = seq![spec_byte(op)] + spec_pos(debug, pos) + rest;
    crate::opcode::lemma_byte_round_trip(op);
    let w = if debug { 1int } else { 0int };
    assert(b.subrange(1 + w, b.len() as int) =~= rest);
    assert(debug ==> b[1] == pos as u8);
    assert(decode_one(b, debug) == Some((positioned(op, pos_of(debug, pos)), 1 + w)));
    lemma_decode_step(b, debug, positioned(op, pos_of(debug, pos)), 1 + w);
}

proof fn lemma_decode_literal(e: Expression, debug: bool, rest: Seq<u8>)
    requires
        e matches Expression::Primary(Primary::Literal(_), _),
        spec_emit(e, debug) is Ok,
        texts_encodable(e),
    ensures
        decode(spec_emit(e, debug)->Ok_0 + rest, debug) == prepend(spec_instrs(e, debug), decode(rest, debug)),
{
    let all = spec_emit(e, debug)->Ok_0 + rest;
    if let Expression::Primary(Primary::Literal(lit), _) = e {
        match lit {
            Literal::Num(n) => {
                crate::opcode::lemma_byte_round_trip(OPCode::PUSH_NUM);
                lemma_num_round_trip(n);
                assert(spec_read_num(all, 1) == spec_read_num(spec_num_bytes(n), 0));
                assert(all.subrange(9, all.len() as int) =~= rest);
                lemma_decode_step(all, debug, Instr::PushNum(n), 9);
            },
            Literal::Bool(b) => {
                crate::opcode::lemma_byte_round_trip(OPCode::PUSH_BOOL);
                assert(all.subrange(2, all.len() as int) =~= rest);
                lemma_decode_step(all, debug, Instr::PushBool(b), 2);
            },
            Literal::String(s) => {
                lemma_decode_text(s@, rest, debug);
                lemma_decode_step(all, debug, Instr::PushText(s@), s@.len() as int + 2);
            },
            Literal::Nil => {
                crate::opcode::lemma_byte_round_trip(OPCode::PUSH_NIL);
                assert(all.subrange(1, all.len() as int) =~= rest);
                lemma_decode_step(all, debug, Instr::PushNil, 1);
            },
            Literal::Variable(_) => {},
        }
    }
}

/// Decoding the bytes of an expression followed by more bytes gives the
/// expression's instructions followed by what the rest decodes to.
#[verifier::rlimit(60)]
proof fn lemma_decode_expr(e: Expression, debug: bool, rest: Seq<u8>)
    requires
        spec_emit(e, debug) is Ok,
        texts_encodable(e),
    ensures
        decode(spec_emit(e, debug)->Ok_0 + rest, debug) == prepend(spec_instrs(e, debug), decode(rest, debug)),
    decreases e,
{
    let bytes = spec_emit(e, debug)->Ok_0;
    let all = bytes + rest;
    match e {
        Expression::Binary(l, t, r) => {
            let lb = spec_emit(*l, debug)->Ok_0;
            let rb = spec_emit(*r, debug)->Ok_0;
            let op = spec_op_code(t.0)->Some_0;
            let tail = seq![spec_byte(op)] + spec_pos(debug, t.1) + rest;
            assert(all =~= lb + (rb + tail));
            lemma_decode_expr(*l, debug, rb + tail);
            lemma_decode_expr(*r, debug, tail);
            assert(spec_is_binary(op));
            lemma_decode_positioned(op, debug, t.1, rest);
            let li = spec_instrs(*l, debug);
            let ri = spec_instrs(*r, debug);
            let oi = seq![positioned(op, pos_of(debug, t.1))];
            lemma_prepend_assoc(ri, oi, decode(rest, debug));
            lemma_prepend_assoc(li, ri + oi, decode(rest, debug));
            assert(spec_instrs(e, debug) =~= li + (ri + oi));
        },
        Expression::Primary(Primary::Identifier(name), pos) => {
            let tail = seq![spec_byte(OPCode::PUSH_VAR)] + spec_pos(debug, pos) + rest;
            assert(all =~= spec_push_text(name@) + tail);
            lemma_decode_text(name@, tail, debug);
            lemma_decode_step(all, debug, Instr::PushText(name@), name@.len() as int + 2);
            lemma_decode_positioned(OPCode::PUSH_VAR, debug, pos, rest);
            let oi = seq![positioned(OPCode::PUSH_VAR, pos_of(debug, pos))];
            lemma_prepend_assoc(seq![Instr::PushText(name@)], oi, decode(rest, debug));
            assert(spec_instrs(e, debug) =~= seq![Instr::PushText(name@)] + oi);
        },
        Expression::Primary(Primary::Literal(_), _) => {
            lemma_decode_literal(e, debug, rest);
        },
        Expression::PrintExpr(inner, pos) => {
            let ib = spec_emit(*inner, debug)->Ok_0;
            let tail = seq![spec_byte(OPCode::PRINT)] + spec_pos(debug, pos) + rest;
            assert(all =~= ib + tail);
            lemma_decode_expr(*inner, debug, tail);
            lemma_decode_positioned(OPCode::PRINT, debug, pos, rest);
            let oi = seq![positioned(OPCode::PRINT, pos_of(debug, pos))];
            lemma_prepend_assoc(spec_instrs(*inner, debug), oi, decode(rest, debug));
            assert(spec_instrs(e, debug) =~= spec_instrs(*inner, debug) + oi);
        },
    }
}

proof fn lemma_decode_decl(d: Declaration, debug: bool, rest: Seq<u8>)
    requires
        spec_emit_decl(d, debug) is Ok,
        decl_encodable(d),
    ensures
        decode(spec_emit_decl(d, debug)->Ok_0 + rest, debug) == prepend(spec_instrs_decl(d, debug), decode(rest, debug)),
{
    let Declaration::Statement(Statement::ExpressionStmt(e, is_statement, _), _) = d;
    let eb = spec_emit(e, debug)->Ok_0;
    if is_statement {
        let tail = seq![spec_byte(OPCode::POP)] + rest;
        assert(spec_emit_decl(d, debug)->Ok_0 + rest =~= eb + tail);
        lemma_decode_expr(e, debug, tail);
        crate::opcode::lemma_byte_round_trip(OPCode::POP);
        assert(tail.subrange(1, tail.len() as int) =~= rest);
        lemma_decode_step(tail, debug, Instr::Pop, 1);
        lemma_prepend_assoc(spec_instrs(e, debug), seq![Instr::Pop], decode(rest, debug));
    } else {
        lemma_decode_expr(e, debug, rest);
    }
}

proof fn lemma_decode_decls(ds: Seq<Declaration>, debug: bool, rest: Seq<u8>)
    requires
        spec_emit_decls(ds, debug) is Ok,
        forall|i: int| 0 <= i < ds.len() ==> decl_encodable(#[trigger] ds[i]),
    ensures
        decode(spec_emit_decls(ds, debug)->Ok_0 + rest, debug) == prepend(spec_instrs_decls(ds, debug), decode(rest, debug)),
    decreases ds.len(),
{
    if ds.len() == 0 {
        assert(spec_emit_decls(ds, debug)->Ok_0 + rest =~= rest);
        if let Some(x) = decode(rest, debug) {
            assert(seq![] + x =~= x);
        }
    } else {
        let front = ds.drop_last();
        let d = ds.last();
        let fb = spec_emit_decls(front, debug)->Ok_0;
        let db = spec_emit_decl(d, debug)->Ok_0;
        assert(spec_emit_decls(ds, debug)->Ok_0 + rest =~= fb + (db + rest));
        assert forall|i: int| 0 <= i < front.len() implies decl_encodable(#[trigger] front[i]) by {
            assert(front[i] == ds[i]);
        }
        assert(decl_encodable(ds[ds.len() - 1]));
        lemma_decode_decls(front, debug, db + rest);
        lemma_decode_decl(d, debug, rest);
        lemma_prepend_assoc(spec_instrs_decls(front, debug), spec_instrs_decl(d, debug), decode(rest, debug));
    }
}

/// A built program is its header followed by a body that decodes, by the
/// operand table, to exactly the instructions of the declarations, in
/// order, with their operands; this holds with and without position bytes
/// and embedded source, for every tree whose texts hold no `NULL` byte.
pub proof fn law_decode_round_trip(ds: Seq<Declaration>, query: Seq<u8>, options: BuildOptions)
    requires
        spec_build(ds, query, options) is Ok,
        forall|i: int| 0 <= i < ds.len() ==> decl_encodable(#[trigger] ds[i]),
    ensures
        spec_build(ds, query, options)->Ok_0.subrange(0, spec_header(options, query).len() as int) == spec_header(options, query),
        decode(
            spec_build(ds, query, options)->Ok_0.subrange(
                spec_header(options, query).len() as int,
                spec_build(ds, query, options)->Ok_0.len() as int,
            ),
            options.debug,
        ) == Some(spec_instrs_decls(ds, options.debug)),
{
    let h = spec_header(options, query);
    let body = spec_emit_decls(ds, options.debug)->Ok_0;
    let end = seq![spec_byte(OPCode::END)];
    let b = spec_build(ds, query, options)->Ok_0;
    assert(b =~= h + (body + end));
    assert(b.subrange(0, h.len() as int) =~= h);
    assert(b.subrange(h.len() as int, b.len() as int) =~= body + end);
    lemma_decode_decls(ds, options.debug, end);
    reveal(decode);
    assert(decode(end, options.debug) == Some(Seq::<Instr>::empty()));
    assert(spec_instrs_decls(ds, options.debug) + seq![] =~= spec_instrs_decls(ds, options.debug));
}

} // verus!
