use vstd::prelude::*;

use crate::machine::{
    fits, lookup, pos_at, pos_width, resolve, shown, spec_answer, spec_complete, spec_rule, spec_step,
    wf, AnswerV, EngineState, Fault, Rule, ShownV, StepV,
};
use crate::opcode::{spec_byte, spec_is_binary, OPCode};
use crate::value::{Lit, Val};

verus! {

/// The engine is at a body instruction `op`, with its operand byte in the
/// program and room in the arena for one more value.
pub open spec fn at_body_op(s: EngineState, op: OPCode) -> bool {
    &&& wf(s)
    &&& s.arena.len() < usize::MAX
    &&& s.pending is None
    &&& s.meta_end
    &&& 0 <= s.pc < s.program.len()
    &&& s.program[s.pc] == spec_byte(op)
    &&& s.pc + 1 + pos_width(s) <= s.program.len()
}

/// A binary operator on two literals follows the operator table: a result
/// that needs no host is pushed and shown; one that needs the host is asked
/// for, and the host's answer of the right kind becomes the shown result;
/// any other pair of kinds fails with both literals, the opcode and the
/// position.
pub proof fn law_operator_table(s: EngineState, op: OPCode, l: Lit, r: Lit)
    requires
        at_body_op(s, op),
        spec_is_binary(op),
        op != OPCode::ASSIGN,
        s.stack.len() >= 2,
        s.arena[s.stack[s.stack.len() - 2] as int] == Val::Lit(l),
        s.arena[s.stack[s.stack.len() - 1] as int] == Val::Lit(r),
    ensures
        match spec_rule(l, r, op) {
            Rule::Done(v) => spec_step(s).1 == Ok::<StepV, Fault>(StepV::Continue)
                && shown(spec_step(s).0) == ShownV::Lit(v)
                && spec_step(s).0.stack.len() == s.stack.len() - 1,
            Rule::Ask(q, p) => spec_step(s).1 == Ok::<StepV, Fault>(StepV::Numeric(q))
                && spec_step(s).0.pending == Some(p)
                && spec_step(s).0.stack.len() == s.stack.len() - 2
                && forall|a: AnswerV| fits(p, a) ==> #[trigger] shown(spec_complete(spec_step(s).0, a)) == ShownV::Lit(spec_answer(p, a)),
            Rule::Unsupported => spec_step(s).1 == Err::<StepV, Fault>(Fault::UnsupportedOperation(
                l, r, op, match pos_at(s) { Some(p) => p, None => -1i32 })),
        },
{
    crate::opcode::lemma_byte_round_trip(op);
    let n = s.stack.len();
    assert(s.stack[n - 2] < s.arena.len());
    assert(s.stack[n - 1] < s.arena.len());
    assert(resolve(s, s.stack[n - 2]) == Ok::<usize, Fault>(s.stack[n - 2]));
    assert(resolve(s, s.stack[n - 1]) == Ok::<usize, Fault>(s.stack[n - 1]));
    let t = spec_step(s).0;
    match spec_rule(l, r, op) {
        Rule::Done(v) => {
            assert(t.stack.last() == s.arena.len() as usize);
            assert(t.arena[s.arena.len() as int] == Val::Lit(v));
        },
        Rule::Ask(q, p) => {
            assert forall|a: AnswerV| fits(p, a) implies #[trigger] shown(spec_complete(t, a)) == ShownV::Lit(spec_answer(p, a)) by {
                let c = spec_complete(t, a);
                assert(c.stack.last() == t.arena.len() as usize);
                assert(c.arena[t.arena.len() as int] == Val::Lit(spec_answer(p, a)));
            }
        },
        Rule::Unsupported => {},
    }
}

/// After `name = value`, the name is bound to the handle of the assigned
/// literal, which is the value left on the stack; other names keep their
/// bindings, and values already computed stay as they were.
pub proof fn law_assignment(s: EngineState, name: Seq<u8>, pos: Option<i32>)
    requires
        at_body_op(s, OPCode::ASSIGN),
        s.stack.len() >= 2,
        s.arena[s.stack[s.stack.len() - 2] as int] == Val::Var(name, pos),
        resolve(s, s.stack[s.stack.len() - 1]) is Ok,
    ensures
        spec_step(s).1 == Ok::<StepV, Fault>(StepV::Continue),
        lookup(spec_step(s).0.env, name) == Some(spec_step(s).0.stack.last()),
        spec_step(s).0.stack.last() == resolve(s, s.stack[s.stack.len() - 1])->Ok_0,
        forall|other: Seq<u8>| other != name ==> lookup(#[trigger] spec_step(s).0.env, other) == lookup(s.env, other),
        spec_step(s).0.arena == s.arena,
        spec_step(s).0.stack.subrange(0, s.stack.len() - 2) == s.stack.subrange(0, s.stack.len() - 2),
{
    crate::opcode::lemma_byte_round_trip(OPCode::ASSIGN);
    let n = s.stack.len();
    assert(s.stack[n - 2] < s.arena.len());
    assert(s.stack[n - 1] < s.arena.len());
    let t = spec_step(s).0;
    assert(t.env.drop_last() =~= s.env);
    assert(t.stack.subrange(0, n - 2) =~= s.stack.subrange(0, n - 2));
}

/// Reading a name that is not bound, as an operand, fails with the name and
/// the position of the read (0 where the program carries none).
pub proof fn law_undefined_operand(s: EngineState, op: OPCode, name: Seq<u8>, pos: Option<i32>)
    requires
        at_body_op(s, op),
        spec_is_binary(op),
        s.stack.len() >= 2,
        s.arena[s.stack[s.stack.len() - 1] as int] == Val::Var(name, pos),
        s.arena[s.stack[s.stack.len() - 2] as int] is Lit,
        lookup(s.env, name) is None,
    ensures
        spec_step(s).1 == Err::<StepV, Fault>(Fault::VariableNotDefined(name, match pos { Some(p) => p, None => 0 })),
        spec_step(s).0 == s,
{
    crate::opcode::lemma_byte_round_trip(op);
    let n = s.stack.len();
    assert(s.stack[n - 2] < s.arena.len());
    assert(s.stack[n - 1] < s.arena.len());
}

/// `END` on a name that is not bound finishes with `Nil`, not an error; on an
/// empty stack it finishes with `Empty`.
pub proof fn law_undefined_result(s: EngineState)
    requires
        at_body_op(s, OPCode::END),
        s.stack.len() == 0 || (s.arena[s.stack.last() as int] matches Val::Var(name, _) && lookup(s.env, name) is None),
    ensures
        spec_step(s).1 == Ok::<StepV, Fault>(StepV::Finished(if s.stack.len() == 0 { ShownV::Empty } else { ShownV::Nil })),
{
    crate::opcode::lemma_byte_round_trip(OPCode::END);
}

/// A push onto a full stack fails with `StackOverflow` at the instruction's
/// offset and leaves the engine as it was.
pub proof fn law_stack_overflow(s: EngineState, op: OPCode)
    requires
        at_body_op(s, op),
        op == OPCode::PUSH_NIL || (op == OPCode::PUSH_BOOL && s.pc + 2 <= s.program.len())
            || (op == OPCode::PUSH_NUM && s.pc + 9 <= s.program.len()),
        s.stack.len() == s.capacity,
    ensures
        spec_step(s) == (s, Err::<StepV, Fault>(Fault::StackOverflow(s.pc as usize))),
{
    crate::opcode::lemma_byte_round_trip(op);
}

} // verus!
