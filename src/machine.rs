use vstd::prelude::*;
use vstd::string::{StrSliceExecFns, StringSliceAdditionalSpecFns};

use crate::opcode::{read_num, spec_byte, spec_from_byte, spec_is_binary, spec_read_num, OPCode};
use crate::value::{copy_bytes, Lit, Literal, Val, Value};

verus! {

/// The stack depth of an engine made by `VMExec::new`.
pub const DEFAULT_CAPACITY: usize = 512;

/// Work on doubles that the engine hands to its host.
#[derive(Clone, Copy, Debug, PartialEq, Eq, Structural)]
pub enum NumRequest {
    /// `ADD`, `SUB`, `MULTIPLY` or `DIVIDE` on two numbers; answered by `NumAnswer::Num`.
    Arith(OPCode, u64, u64),
    /// `LT`, `GT`, `LTOREQ` or `GTOREQ` on two numbers; answered by `NumAnswer::Bool`.
    Compare(OPCode, u64, u64),
    /// The number as text, to be joined to a string; answered by `NumAnswer::Text`.
    Show(u64),
    /// The number rounded down, as a repeat count; answered by `NumAnswer::Count`.
    Count(u64),
}

/// The host's answer to a `NumRequest`.
#[derive(Clone, Debug, PartialEq)]
pub enum NumAnswer {
    Num(u64),
    Bool(bool),
    Text(Vec<u8>),
    Count(usize),
}

pub enum AnswerV {
    Num(u64),
    Bool(bool),
    Text(Seq<u8>),
    Count(nat),
}

impl View for NumAnswer {
    type V = AnswerV;

    open spec fn view(&self) -> AnswerV {
        match self {
            NumAnswer::Num(n) => AnswerV::Num(*n),
            NumAnswer::Bool(b) => AnswerV::Bool(*b),
            NumAnswer::Text(t) => AnswerV::Text(t@),
            NumAnswer::Count(c) => AnswerV::Count(*c as nat),
        }
    }
}

/// How an operation that waits for the host is finished (the engine's own record).
pub enum Pending {
    Arith,
    Compare,
    Append(Vec<u8>, bool),
    Repeat(Vec<u8>),
}

/// The mathematical form of what the engine waits for: a number, a boolean,
/// the number's text to put before (`true`) or after the given text, or a count
/// of repetitions of the given text.
pub enum PendingV {
    Arith,
    Compare,
    Append(Seq<u8>, bool),
    Repeat(Seq<u8>),
}

impl View for Pending {
    type V = PendingV;

    open spec fn view(&self) -> PendingV {
        match self {
            Pending::Arith => PendingV::Arith,
            Pending::Compare => PendingV::Compare,
            Pending::Append(t, first) => PendingV::Append(t@, *first),
            Pending::Repeat(t) => PendingV::Repeat(t@),
        }
    }
}

/// What a program shows at `PRINT` or `END`: the top of the stack, resolved
/// once through the variables (`Nil` for an unbound name); `Empty` for an empty stack.
#[derive(Clone, Debug, PartialEq)]
pub enum Shown {
    Literal(Literal),
    Nil,
    Empty,
}

pub enum ShownV {
    Lit(Lit),
    Nil,
    Empty,
}

impl View for Shown {
    type V = ShownV;

    open spec fn view(&self) -> ShownV {
        match self {
            Shown::Literal(l) => ShownV::Lit(l@),
            Shown::Nil => ShownV::Nil,
            Shown::Empty => ShownV::Empty,
        }
    }
}

/// Where a run stopped.
#[derive(Clone, Debug, PartialEq)]
pub enum Step {
    /// An instruction was carried out.
    Continue,
    /// `PRINT`: the host writes this value out.
    Print(Shown),
    /// The host computes this and hands the answer to `resume`.
    Numeric(NumRequest),
    /// `END`: the program's result.
    Finished(Shown),
}

pub enum StepV {
    Continue,
    Print(ShownV),
    Numeric(NumRequest),
    Finished(ShownV),
}

impl View for Step {
    type V = StepV;

    open spec fn view(&self) -> StepV {
        match self {
            Step::Continue => StepV::Continue,
            Step::Print(s) => StepV::Print(s@),
            Step::Numeric(q) => StepV::Numeric(*q),
            Step::Finished(s) => StepV::Finished(s@),
        }
    }
}

/// Why a run stopped early. Offsets are into the program's bytes.
#[derive(Clone, Debug, PartialEq)]
pub enum VMExecError {
    /// No rule of the operator table fits these literals; the position is -1
    /// where the program carries none.
    UnsupportedOperation(Literal, Literal, OPCode, i32),
    /// A byte that encodes no opcode.
    InvalidOPCode(u8, usize),
    /// An opcode that has no meaning where it stands.
    UnsupportedOPCode(OPCode, usize),
    /// A read of a variable that is not bound.
    VariableNotDefined(Vec<u8>, i32),
    /// An operand that runs past the end of the program, or a program without `END`.
    InvalidOperationContent(usize),
    /// `PUSH_VAR` on a value that is not a string.
    InvalidIdentifier(usize),
    /// A literal that cannot be cast to the kind asked for.
    InvalidCast(Literal, i32),
    /// A push onto a full stack.
    StackOverflow(usize),
    /// A pop from a stack that holds too few values.
    StackUnderflow(usize),
}

pub enum Fault {
    UnsupportedOperation(Lit, Lit, OPCode, i32),
    InvalidOPCode(u8, usize),
    UnsupportedOPCode(OPCode, usize),
    VariableNotDefined(Seq<u8>, i32),
    InvalidOperationContent(usize),
    InvalidIdentifier(usize),
    InvalidCast(Lit, i32),
    StackOverflow(usize),
    StackUnderflow(usize),
}

impl View for VMExecError {
    type V = Fault;

    open spec fn view(&self) -> Fault {
        match self {
            VMExecError::UnsupportedOperation(l, r, op, p) => Fault::UnsupportedOperation(l@, r@, *op, *p),
            VMExecError::InvalidOPCode(b, at) => Fault::InvalidOPCode(*b, *at),
            VMExecError::UnsupportedOPCode(op, at) => Fault::UnsupportedOPCode(*op, *at),
            VMExecError::VariableNotDefined(n, p) => Fault::VariableNotDefined(n@, *p),
            VMExecError::InvalidOperationContent(at) => Fault::InvalidOperationContent(*at),
            VMExecError::InvalidIdentifier(at) => Fault::InvalidIdentifier(*at),
            VMExecError::InvalidCast(l, p) => Fault::InvalidCast(l@, *p),
            VMExecError::StackOverflow(at) => Fault::StackOverflow(*at),
            VMExecError::StackUnderflow(at) => Fault::StackUnderflow(*at),
        }
    }
}

/// The mathematical form of a step's result.
pub open spec fn outcome(r: Result<Step, VMExecError>) -> Result<StepV, Fault> {
    match r {
        Ok(s) => Ok(s@),
        Err(e) => Err(e@),
    }
}

/// The state of an engine: the program and its counter, the header flags, the
/// stack of handles into the arena, its bound, the arena, the variable
/// bindings (the latest binding of a name counts), and what the engine waits for.
pub struct EngineState {
    pub program: Seq<u8>,
    pub pc: int,
    pub meta_end: bool,
    pub debug: bool,
    pub query: Seq<u8>,
    pub stack: Seq<usize>,
    pub capacity: nat,
    pub arena: Seq<Val>,
    pub env: Seq<(Seq<u8>, usize)>,
    pub pending: Option<PendingV>,
}

/// The handle that a name is bound to: its latest binding.
pub open spec fn lookup(env: Seq<(Seq<u8>, usize)>, name: Seq<u8>) -> Option<usize>
    decreases env.len(),
{
    if env.len() == 0 {
        None
    } else if env.last().0 == name {
        Some(env.last().1)
    } else {
        lookup(env.drop_last(), name)
    }
}

/// Handles are in the arena, the stack within its bound, and each variable bound to a literal.
pub open spec fn wf(s: EngineState) -> bool {
    &&& 0 <= s.pc <= s.program.len()
    &&& s.stack.len() <= s.capacity
    &&& forall|i: int| 0 <= i < s.stack.len() ==> s.stack[i] < s.arena.len()
    &&& forall|i: int| #![trigger s.env[i]] 0 <= i < s.env.len() ==> s.env[i].1 < s.arena.len() && s.arena[s.env[i].1 as int] is Lit
    &&& s.pending is Some ==> s.stack.len() < s.capacity
}

/// A fresh engine on a program.
pub open spec fn fresh(program: Seq<u8>, capacity: nat) -> EngineState {
    EngineState {
        program,
        pc: 0,
        meta_end: false,
        debug: false,
        query: seq![],
        stack: seq![],
        capacity,
        arena: seq![],
        env: seq![],
        pending: None,
    }
}

/// The first index from `from` on that holds `b`.
pub open spec fn find(s: Seq<u8>, from: int, b: u8) -> Option<int>
    decreases s.len() - from,
{
    if from < 0 || from >= s.len() {
        None
    } else if s[from] == b {
        Some(from)
    } else {
        find(s, from + 1, b)
    }
}

/// The literal behind a handle, resolved once through the variables.
pub open spec fn resolve(s: EngineState, h: usize) -> Result<usize, Fault> {
    match s.arena[h as int] {
        Val::Lit(_) => Ok(h),
        Val::Var(name, pos) => match lookup(s.env, name) {
            Some(b) => Ok(b),
            None => Err(Fault::VariableNotDefined(name, match pos { Some(p) => p, None => 0 })),
        },
    }
}

/// The literal of a value (only meaningful for literals).
pub open spec fn lit_of(v: Val) -> Lit {
    match v {
        Val::Lit(l) => l,
        Val::Var(_, _) => Lit::Nil,
    }
}

/// What `PRINT` and `END` show.
pub open spec fn shown(s: EngineState) -> ShownV {
    if s.stack.len() == 0 {
        ShownV::Empty
    } else {
        match s.arena[s.stack.last() as int] {
            Val::Lit(l) => ShownV::Lit(l),
            Val::Var(name, _) => match lookup(s.env, name) {
                Some(b) => ShownV::Lit(lit_of(s.arena[b as int])),
                None => ShownV::Nil,
            },
        }
    }
}

/// The text repeated `n` times.
pub open spec fn repeat(t: Seq<u8>, n: nat) -> Seq<u8>
    decreases n,
{
    if n == 0 { seq![] } else { repeat(t, (n - 1) as nat) + t }
}

/// The operator table's verdict on two literals.
pub enum Rule {
    /// The result, computed without the host.
    Done(Lit),
    /// The host computes part of it.
    Ask(NumRequest, PendingV),
    /// No rule fits.
    Unsupported,
}

/// The operator table.
pub open spec fn spec_rule(l: Lit, r: Lit, op: OPCode) -> Rule {
    match (l, r) {
        (Lit::Num(a), Lit::Num(b)) => match op {
            OPCode::ADD | OPCode::SUB | OPCode::MULTIPLY | OPCode::DIVIDE => Rule::Ask(NumRequest::Arith(op, a, b), PendingV::Arith),
            OPCode::LT | OPCode::GT | OPCode::LTOREQ | OPCode::GTOREQ => Rule::Ask(NumRequest::Compare(op, a, b), PendingV::Compare),
            _ => Rule::Unsupported,
        },
        (Lit::Text(x), Lit::Text(y)) => match op {
            OPCode::ADD => Rule::Done(Lit::Text(x + y)),
            _ => Rule::Unsupported,
        },
        (Lit::Text(x), Lit::Num(n)) => match op {
            OPCode::MULTIPLY => Rule::Ask(NumRequest::Count(n), PendingV::Repeat(x)),
            OPCode::ADD => Rule::Ask(NumRequest::Show(n), PendingV::Append(x, false)),
            _ => Rule::Unsupported,
        },
        (Lit::Num(n), Lit::Text(x)) => match op {
            OPCode::MULTIPLY => Rule::Ask(NumRequest::Count(n), PendingV::Repeat(x)),
            OPCode::ADD => Rule::Ask(NumRequest::Show(n), PendingV::Append(x, true)),
            _ => Rule::Unsupported,
        },
        _ => Rule::Unsupported,
    }
}

/// Allocates a value and pushes its handle, with the counter moved to `next`.
pub open spec fn spec_push(s: EngineState, v: Val, next: int) -> (EngineState, Result<StepV, Fault>) {
    if s.stack.len() >= s.capacity {
        (s, Err(Fault::StackOverflow(s.pc as usize)))
    } else {
        (EngineState { arena: s.arena.push(v), stack: s.stack.push(s.arena.len() as usize), pc: next, ..s }, Ok(StepV::Continue))
    }
}

/// The position byte after the opcode at the counter, in debug mode.
pub open spec fn pos_width(s: EngineState) -> int {
    if s.debug { 1 } else { 0 }
}

pub open spec fn pos_at(s: EngineState) -> Option<i32> {
    if s.debug { Some(s.program[s.pc + 1] as i32) } else { None }
}

/// A header opcode.
pub open spec fn spec_meta(s: EngineState, op: OPCode) -> (EngineState, Result<StepV, Fault>) {
    match op {
        OPCode::META_END => (EngineState { meta_end: true, pc: s.pc + 1, ..s }, Ok(StepV::Continue)),
        OPCode::DEBUG => (EngineState { debug: true, pc: s.pc + 1, ..s }, Ok(StepV::Continue)),
        OPCode::VERSION => if s.pc + 2 <= s.program.len() {
            (EngineState { pc: s.pc + 2, ..s }, Ok(StepV::Continue))
        } else {
            (s, Err(Fault::InvalidOperationContent(s.pc as usize)))
        },
        OPCode::DEBUG_CODE => match find(s.program, s.pc + 1, spec_byte(OPCode::DEBUG_CODE_END)) {
            Some(e) => (EngineState { query: s.program.subrange(s.pc + 1, e), pc: e + 1, ..s }, Ok(StepV::Continue)),
            None => (s, Err(Fault::InvalidOperationContent(s.pc as usize))),
        },
        _ => (s, Err(Fault::UnsupportedOPCode(op, s.pc as usize))),
    }
}

/// A binary operator: pops the right then the left operand, resolves them
/// (the left of `ASSIGN` stays a name), and applies the table or binds the name.
pub open spec fn spec_binary(s: EngineState, op: OPCode) -> (EngineState, Result<StepV, Fault>) {
    let next = s.pc + 1 + pos_width(s);
    let posv = match pos_at(s) { Some(p) => p, None => -1i32 };
    let n = s.stack.len();
    if next > s.program.len() {
        (s, Err(Fault::InvalidOperationContent(s.pc as usize)))
    } else if n < 2 {
        (s, Err(Fault::StackUnderflow(s.pc as usize)))
    } else {
        let lh = s.stack[n - 2];
        let rh = s.stack[n - 1];
        let rest = s.stack.subrange(0, n - 2);
        if op == OPCode::ASSIGN {
            match resolve(s, rh) {
                Err(f) => (s, Err(f)),
                Ok(r) => match s.arena[lh as int] {
                    Val::Var(name, _) => (
                        EngineState { stack: rest.push(r), env: s.env.push((name, r)), pc: next, ..s },
                        Ok(StepV::Continue),
                    ),
                    Val::Lit(l) => (s, Err(Fault::UnsupportedOperation(l, lit_of(s.arena[r as int]), op, posv))),
                },
            }
        } else {
            match resolve(s, lh) {
                Err(f) => (s, Err(f)),
                Ok(l) => match resolve(s, rh) {
                    Err(f) => (s, Err(f)),
                    Ok(r) => {
                        let ll = lit_of(s.arena[l as int]);
                        let rl = lit_of(s.arena[r as int]);
                        match spec_rule(ll, rl, op) {
                            Rule::Done(v) => (
                                EngineState { arena: s.arena.push(Val::Lit(v)), stack: rest.push(s.arena.len() as usize), pc: next, ..s },
                                Ok(StepV::Continue),
                            ),
                            Rule::Ask(q, p) => (
                                EngineState { stack: rest, pending: Some(p), pc: next, ..s },
                                Ok(StepV::Numeric(q)),
                            ),
                            Rule::Unsupported => (s, Err(Fault::UnsupportedOperation(ll, rl, op, posv))),
                        }
                    },
                },
            }
        }
    }
}

/// An opcode of the program's body.
pub open spec fn spec_exec(s: EngineState, op: OPCode) -> (EngineState, Result<StepV, Fault>) {
    let len = s.program.len();
    match op {
        OPCode::END => (s, Ok(StepV::Finished(shown(s)))),
        OPCode::PUSH_NUM => if s.pc + 9 <= len {
            spec_push(s, Val::Lit(Lit::Num(spec_read_num(s.program, s.pc + 1))), s.pc + 9)
        } else {
            (s, Err(Fault::InvalidOperationContent(s.pc as usize)))
        },
        OPCode::PUSH_BOOL => if s.pc + 2 <= len {
            spec_push(s, Val::Lit(Lit::Bool(s.program[s.pc + 1] >= 1)), s.pc + 2)
        } else {
            (s, Err(Fault::InvalidOperationContent(s.pc as usize)))
        },
        OPCode::PUSH_STRING => match find(s.program, s.pc + 1, spec_byte(OPCode::NULL)) {
            Some(e) => spec_push(s, Val::Lit(Lit::Text(s.program.subrange(s.pc + 1, e))), e + 1),
            None => (s, Err(Fault::InvalidOperationContent(s.pc as usize))),
        },
        OPCode::PUSH_NIL => spec_push(s, Val::Lit(Lit::Nil), s.pc + 1),
        OPCode::PUSH_VAR => if s.pc + 1 + pos_width(s) > len {
            (s, Err(Fault::InvalidOperationContent(s.pc as usize)))
        } else if s.stack.len() == 0 {
            (s, Err(Fault::StackUnderflow(s.pc as usize)))
        } else {
            match s.arena[s.stack.last() as int] {
                Val::Lit(Lit::Text(name)) => (
                    EngineState {
                        arena: s.arena.push(Val::Var(name, pos_at(s))),
                        stack: s.stack.drop_last().push(s.arena.len() as usize),
                        pc: s.pc + 1 + pos_width(s),
                        ..s
                    },
                    Ok(StepV::Continue),
                ),
                _ => (s, Err(Fault::InvalidIdentifier(s.pc as usize))),
            }
        },
        OPCode::PRINT => if s.pc + 1 + pos_width(s) > len {
            (s, Err(Fault::InvalidOperationContent(s.pc as usize)))
        } else {
            (EngineState { pc: s.pc + 1 + pos_width(s), ..s }, Ok(StepV::Print(shown(s))))
        },
        OPCode::POP => if s.stack.len() == 0 {
            (s, Err(Fault::StackUnderflow(s.pc as usize)))
        } else {
            (EngineState { stack: s.stack.drop_last(), pc: s.pc + 1, ..s }, Ok(StepV::Continue))
        },
        _ => if spec_is_binary(op) {
            spec_binary(s, op)
        } else {
            (s, Err(Fault::UnsupportedOPCode(op, s.pc as usize)))
        },
    }
}

/// One instruction: the header opcodes until `META_END`, then the body.
pub open spec fn spec_step(s: EngineState) -> (EngineState, Result<StepV, Fault>) {
    if s.pc >= s.program.len() {
        (s, Err(Fault::InvalidOperationContent(s.pc as usize)))
    } else {
        match spec_from_byte(s.program[s.pc]) {
            None => (s, Err(Fault::InvalidOPCode(s.program[s.pc], s.pc as usize))),
            Some(op) => if !s.meta_end { spec_meta(s, op) } else { spec_exec(s, op) },
        }
    }
}

/// Instructions, one after another, until one does more than continue.
pub open spec fn spec_run(s: EngineState) -> (EngineState, Result<StepV, Fault>)
    decreases s.program.len() - s.pc,
{
    let (n, r) = spec_step(s);
    if r == Ok::<StepV, Fault>(StepV::Continue) && s.pc < n.pc <= s.program.len() && n.program == s.program {
        spec_run(n)
    } else {
        (n, r)
    }
}

/// The literal that finishes an operation that waited for the host.
pub open spec fn spec_answer(p: PendingV, a: AnswerV) -> Lit {
    match (p, a) {
        (PendingV::Arith, AnswerV::Num(n)) => Lit::Num(n),
        (PendingV::Compare, AnswerV::Bool(b)) => Lit::Bool(b),
        (PendingV::Append(t, true), AnswerV::Text(x)) => Lit::Text(x + t),
        (PendingV::Append(t, false), AnswerV::Text(x)) => Lit::Text(t + x),
        (PendingV::Repeat(t), AnswerV::Count(c)) => Lit::Text(repeat(t, c)),
        _ => Lit::Nil,
    }
}

/// Whether an answer is of the kind that the engine waits for.
pub open spec fn fits(p: PendingV, a: AnswerV) -> bool {
    match (p, a) {
        (PendingV::Arith, AnswerV::Num(_)) => true,
        (PendingV::Compare, AnswerV::Bool(_)) => true,
        (PendingV::Append(_, _), AnswerV::Text(_)) => true,
        (PendingV::Repeat(_), AnswerV::Count(_)) => true,
        _ => false,
    }
}

/// Finishing a waiting operation: its result is allocated and pushed.
pub open spec fn spec_complete(s: EngineState, a: AnswerV) -> EngineState {
    EngineState {
        arena: s.arena.push(Val::Lit(spec_answer(s.pending->Some_0, a))),
        stack: s.stack.push(s.arena.len() as usize),
        pending: None,
        ..s
    }
}

/// A bound name's handle comes from one of its bindings.
proof fn lemma_lookup(env: Seq<(Seq<u8>, usize)>, name: Seq<u8>)
    ensures
        lookup(env, name) matches Some(b) ==> exists|i: int| 0 <= i < env.len() && #[trigger] env[i] == (name, b),
    decreases env.len(),
{
    if env.len() > 0 && env.last().0 != name {
        lemma_lookup(env.drop_last(), name);
        if lookup(env, name) is Some {
            let i = choose|i: int| 0 <= i < env.drop_last().len() && #[trigger] env.drop_last()[i] == (name, lookup(env, name)->Some_0);
            assert(env[i] == env.drop_last()[i]);
        }
    } else if env.len() > 0 {
        assert(env[env.len() - 1] == (name, env.last().1));
    }
}

/// A found index lies at or after the start and holds the byte.
proof fn lemma_find(s: Seq<u8>, from: int, b: u8)
    ensures
        find(s, from, b) matches Some(e) ==> from <= e < s.len() && s[e] == b,
    decreases s.len() - from,
{
    if 0 <= from < s.len() && s[from] != b {
        lemma_find(s, from + 1, b);
    }
}

/// Resolution leads to a literal in the arena.
proof fn lemma_resolve(s: EngineState, h: usize)
    requires
        wf(s),
        h < s.arena.len(),
    ensures
        resolve(s, h) matches Ok(b) ==> b < s.arena.len() && s.arena[b as int] is Lit,
{
    if let Val::Var(name, _) = s.arena[h as int] {
        lemma_lookup(s.env, name);
    }
}

/// The engine's verdict on two literals, with the text it keeps for the host's answer.
enum Verdict {
    Done(Literal),
    Ask(NumRequest, Pending),
    Unsupported,
}

spec fn verdict_view(v: Verdict) -> Rule {
    match v {
        Verdict::Done(l) => Rule::Done(l@),
        Verdict::Ask(q, p) => Rule::Ask(q, p@),
        Verdict::Unsupported => Rule::Unsupported,
    }
}

fn concat(a: &Vec<u8>, b: &Vec<u8>) -> (r: Vec<u8>)
    ensures
        r@ == a@ + b@,
{
    let mut r = copy_bytes(a);
    let mut i: usize = 0;
    while i < b.len()
        invariant
            i <= b@.len(),
            r@ == a@ + b@.subrange(0, i as int),
        decreases b@.len() - i,
    {
        r.push(b[i]);
        i = i + 1;
        proof {
            assert(r@ =~= a@ + b@.subrange(0, i as int));
        }
    }
    proof {
        assert(b@.subrange(0, b@.len() as int) =~= b@);
    }
    r
}

fn repeat_bytes(t: &Vec<u8>, count: usize) -> (r: Vec<u8>)
    ensures
        r@ == repeat(t@, count as nat),
{
    let mut r: Vec<u8> = Vec::new();
    let mut i: usize = 0;
    while i < count
        invariant
            i <= count,
            r@ == repeat(t@, i as nat),
        decreases count - i,
    {
        r = concat(&r, t);
        i = i + 1;
    }
    r
}

fn bytes_eq(a: &Vec<u8>, b: &Vec<u8>) -> (r: bool)
    ensures
        r == (a@ == b@),
{
    if a.len() != b.len() {
        return false;
    }
    let mut i: usize = 0;
    while i < a.len()
        invariant
            i <= a@.len(),
            a@.len() == b@.len(),
            a@.subrange(0, i as int) == b@.subrange(0, i as int),
        decreases a@.len() - i,
    {
        if a[i] != b[i] {
            assert(a@[i as int] != b@[i as int]);
            return false;
        }
        i = i + 1;
        proof {
            assert(a@.subrange(0, i as int) =~= a@.subrange(0, i - 1).push(a@[i - 1]));
            assert(b@.subrange(0, i as int) =~= b@.subrange(0, i - 1).push(b@[i - 1]));
        }
    }
    proof {
        assert(a@ =~= a@.subrange(0, i as int));
        assert(b@ =~= b@.subrange(0, i as int));
    }
    true
}

/// The operator table on literals.
fn classify(l: &Literal, r: &Literal, op: OPCode) -> (v: Verdict)
    ensures
        verdict_view(v) == spec_rule(l@, r@, op),
{
    match (l, r) {
        (Literal::Num(a), Literal::Num(b)) => match op {
            OPCode::ADD | OPCode::SUB | OPCode::MULTIPLY | OPCode::DIVIDE => Verdict::Ask(NumRequest::Arith(op, *a, *b), Pending::Arith),
            OPCode::LT | OPCode::GT | OPCode::LTOREQ | OPCode::GTOREQ => Verdict::Ask(NumRequest::Compare(op, *a, *b), Pending::Compare),
            _ => Verdict::Unsupported,
        },
        (Literal::String(x), Literal::String(y)) => match op {
            OPCode::ADD => Verdict::Done(Literal::String(concat(x, y))),
            _ => Verdict::Unsupported,
        },
        (Literal::String(x), Literal::Num(n)) => match op {
            OPCode::MULTIPLY => Verdict::Ask(NumRequest::Count(*n), Pending::Repeat(copy_bytes(x))),
            OPCode::ADD => Verdict::Ask(NumRequest::Show(*n), Pending::Append(copy_bytes(x), false)),
            _ => Verdict::Unsupported,
        },
        (Literal::Num(n), Literal::String(x)) => match op {
            OPCode::MULTIPLY => Verdict::Ask(NumRequest::Count(*n), Pending::Repeat(copy_bytes(x))),
            OPCode::ADD => Verdict::Ask(NumRequest::Show(*n), Pending::Append(copy_bytes(x), true)),
            _ => Verdict::Unsupported,
        },
        _ => Verdict::Unsupported,
    }
}

/// The stack machine. It owns its program, an arena of values that grows for
/// the length of one run, a bounded stack of handles into that arena, and the
/// variable bindings. Work on doubles goes to the host: a run stops with
/// `Step::Numeric`, and `resume` takes the answer.
pub struct VMExec {
    program: Vec<u8>,
    op_i: usize,
    meta_end: bool,
    is_debug: bool,
    query: Vec<u8>,
    stack: Vec<usize>,
    capacity: usize,
    pool: Vec<Value>,
    variables: Vec<(Vec<u8>, usize)>,
    pending: Option<Pending>,
}

pub open spec fn pending_view(p: Option<Pending>) -> Option<PendingV> {
    match p {
        Some(x) => Some(x@),
        None => None,
    }
}

impl View for VMExec {
    type V = EngineState;

    closed spec fn view(&self) -> EngineState {
        EngineState {
            program: self.program@,
            pc: self.op_i as int,
            meta_end: self.meta_end,
            debug: self.is_debug,
            query: self.query@,
            stack: self.stack@,
            capacity: self.capacity as nat,
            arena: self.pool@.map_values(|v: Value| v@),
            env: self.variables@.map_values(|e: (Vec<u8>, usize)| (e.0@, e.1)),
            pending: pending_view(self.pending),
        }
    }
}

fn slice(v: &Vec<u8>, from: usize, to: usize) -> (r: Vec<u8>)
    requires
        from <= to <= v@.len(),
    ensures
        r@ == v@.subrange(from as int, to as int),
{
    let mut r: Vec<u8> = Vec::new();
    let mut i: usize = from;
    while i < to
        invariant
            from <= i <= to,
            to <= v@.len(),
            r@ == v@.subrange(from as int, i as int),
        decreases to - i,
    {
        r.push(v[i]);
        i = i + 1;
        proof {
            assert(r@ =~= v@.subrange(from as int, i as int));
        }
    }
    r
}

impl VMExec {
    /// An engine with a stack of `DEFAULT_CAPACITY` values and no program.
    pub fn new() -> (r: Self)
        ensures
            r@ == fresh(seq![], DEFAULT_CAPACITY as nat),
            wf(r@),
    {
        Self::with_capacity(DEFAULT_CAPACITY)
    }

    /// An engine whose stack holds at most `capacity` values.
    pub fn with_capacity(capacity: usize) -> (r: Self)
        ensures
            r@ == fresh(seq![], capacity as nat),
            wf(r@),
    {
        let r = VMExec {
            program: Vec::new(),
            op_i: 0,
            meta_end: false,
            is_debug: false,
            query: Vec::new(),
            stack: Vec::new(),
            capacity,
            pool: Vec::new(),
            variables: Vec::new(),
            pending: None,
        };
        proof {
            assert(r@.arena =~= seq![]);
            assert(r@.env =~= seq![]);
            assert(r@.program =~= seq![]);
            assert(r@.query =~= seq![]);
            assert(r@.stack =~= seq![]);
        }
        r
    }

    /// The source text that the program embeds, as far as the run has read it.
    pub fn query(&self) -> (r: &Vec<u8>)
        ensures
            r@ == self@.query,
    {
        &self.query
    }

    /// Whether `answer` is of the kind that the engine waits for.
    pub fn accepts(&self, answer: &NumAnswer) -> (r: bool)
        ensures
            r == (self@.pending matches Some(p) && fits(p, answer@)),
    {
        match (&self.pending, answer) {
            (Some(Pending::Arith), NumAnswer::Num(_)) => true,
            (Some(Pending::Compare), NumAnswer::Bool(_)) => true,
            (Some(Pending::Append(_, _)), NumAnswer::Text(_)) => true,
            (Some(Pending::Repeat(_)), NumAnswer::Count(_)) => true,
            _ => false,
        }
    }

    fn lookup_var(&self, name: &Vec<u8>) -> (r: Option<usize>)
        ensures
            r == lookup(self@.env, name@),
    {
        let mut i: usize = self.variables.len();
        proof {
            assert(self@.env.subrange(0, i as int) =~= self@.env);
        }
        while i > 0
            invariant
                i <= self.variables@.len(),
                lookup(self@.env, name@) == lookup(self@.env.subrange(0, i as int), name@),
            decreases i,
        {
            let ghost sub = self@.env.subrange(0, i as int);
            proof {
                assert(sub.drop_last() =~= self@.env.subrange(0, i - 1));
                assert(sub.last() == self@.env[i - 1]);
            }
            if bytes_eq(&self.variables[i - 1].0, name) {
                return Some(self.variables[i - 1].1);
            }
            i = i - 1;
        }
        proof {
            assert(self@.env.subrange(0, 0) =~= seq![]);
        }
        None
    }

    fn resolve_handle(&self, h: usize) -> (r: Result<usize, VMExecError>)
        requires
            h < self@.arena.len(),
        ensures
            match r {
                Ok(x) => resolve(self@, h) == Ok::<usize, Fault>(x),
                Err(e) => resolve(self@, h) == Err::<usize, Fault>(e@),
            },
    {
        assert(self@.arena[h as int] == self.pool@[h as int]@);
        match &self.pool[h] {
            Value::Literal(_) => Ok(h),
            Value::Variable(name, pos) => match self.lookup_var(name) {
                Some(b) => Ok(b),
                None => Err(VMExecError::VariableNotDefined(copy_bytes(name), match pos { Some(p) => *p, None => 0 })),
            },
        }
    }

    fn literal_at(&self, h: usize) -> (r: Literal)
        requires
            h < self@.arena.len(),
        ensures
            r@ == lit_of(self@.arena[h as int]),
    {
        assert(self@.arena[h as int] == self.pool@[h as int]@);
        match &self.pool[h] {
            Value::Literal(l) => l.copy(),
            Value::Variable(_, _) => Literal::Nil,
        }
    }

    fn shown_now(&self) -> (r: Shown)
        requires
            wf(self@),
        ensures
            r@ == shown(self@),
    {
        let n = self.stack.len();
        if n == 0 {
            return Shown::Empty;
        }
        let top = self.stack[n - 1];
        assert(self@.arena[top as int] == self.pool@[top as int]@);
        match &self.pool[top] {
            Value::Literal(l) => Shown::Literal(l.copy()),
            Value::Variable(name, _) => match self.lookup_var(name) {
                Some(b) => {
                    proof {
                        lemma_lookup(self@.env, name@);
                    }
                    Shown::Literal(self.literal_at(b))
                },
                None => Shown::Nil,
            },
        }
    }

    fn allocate(&mut self, v: Value) -> (h: usize)
        ensures
            h == old(self)@.arena.len(),
            final(self)@ == (EngineState { arena: old(self)@.arena.push(v@), ..old(self)@ }),
    {
        let h = self.pool.len();
        self.pool.push(v);
        proof {
            assert(final(self)@.arena =~= old(self)@.arena.push(v@));
        }
        h
    }

    fn push_value(&mut self, v: Value, next: usize) -> (r: Result<Step, VMExecError>)
        requires
            wf(old(self)@),
            old(self)@.pending is None,
            old(self).op_i < next <= old(self)@.program.len(),
        ensures
            (final(self)@, outcome(r)) == spec_push(old(self)@, v@, next as int),
            wf(final(self)@),
            outcome(r) == Ok::<StepV, Fault>(StepV::Continue) ==> final(self)@.pending is None && old(self)@.pc < final(self)@.pc,
    {
        if self.stack.len() >= self.capacity {
            return Err(VMExecError::StackOverflow(self.op_i));
        }
        let h = self.allocate(v);
        self.stack.push(h);
        self.op_i = next;
        proof {
            assert(final(self)@.stack =~= old(self)@.stack.push(h));
            assert(final(self)@ == (EngineState { arena: old(self)@.arena.push(v@), stack: old(self)@.stack.push(old(self)@.arena.len() as usize), pc: next as int, ..old(self)@ }));
            let s = old(self)@;
            assert forall|i: int| 0 <= i < final(self)@.stack.len() implies final(self)@.stack[i] < final(self)@.arena.len() by {
                if i < s.stack.len() {
                    assert(final(self)@.stack[i] == s.stack[i]);
                }
            }
            assert forall|i: int| #![trigger final(self)@.env[i]] 0 <= i < final(self)@.env.len() implies final(self)@.env[i].1 < final(self)@.arena.len() && final(self)@.arena[final(self)@.env[i].1 as int] is Lit by {
                assert(final(self)@.env[i] == s.env[i]);
                assert(final(self)@.arena[s.env[i].1 as int] == s.arena[s.env[i].1 as int]);
            }
        }
        Ok(Step::Continue)
    }

    fn find_byte(&self, from: usize, b: u8) -> (r: Option<usize>)
        requires
            from <= self@.program.len(),
        ensures
            match r {
                Some(e) => find(self@.program, from as int, b) == Some(e as int),
                None => find(self@.program, from as int, b) is None,
            },
    {
        let mut i: usize = from;
        while i < self.program.len()
            invariant
                from <= i <= self@.program.len(),
                find(self@.program, from as int, b) == find(self@.program, i as int, b),
            decreases self@.program.len() - i,
        {
            if self.program[i] == b {
                return Some(i);
            }
            i = i + 1;
        }
        None
    }

    fn step_meta(&mut self, op: OPCode) -> (r: Result<Step, VMExecError>)
        requires
            wf(old(self)@),
            old(self)@.pending is None,
            old(self)@.pc < old(self)@.program.len(),
        ensures
            (final(self)@, outcome(r)) == spec_meta(old(self)@, op),
            wf(final(self)@),
            outcome(r) == Ok::<StepV, Fault>(StepV::Continue) ==> final(self)@.pending is None && old(self)@.pc < final(self)@.pc,
    {
        let len = self.program.len();
        match op {
            OPCode::META_END => {
                self.meta_end = true;
                self.op_i = self.op_i + 1;
                Ok(Step::Continue)
            },
            OPCode::DEBUG => {
                self.is_debug = true;
                self.op_i = self.op_i + 1;
                Ok(Step::Continue)
            },
            OPCode::VERSION => {
                if self.program.len() - self.op_i >= 2 {
                    self.op_i = self.op_i + 2;
                    Ok(Step::Continue)
                } else {
                    Err(VMExecError::InvalidOperationContent(self.op_i))
                }
            },
            OPCode::DEBUG_CODE => match self.find_byte(self.op_i + 1, OPCode::DEBUG_CODE_END.byte()) {
                Some(e) => {
                    proof {
                        lemma_find(self@.program, self.op_i + 1, spec_byte(OPCode::DEBUG_CODE_END));
                    }
                    self.query = slice(&self.program, self.op_i + 1, e);
                    self.op_i = e + 1;
                    Ok(Step::Continue)
                },
                None => Err(VMExecError::InvalidOperationContent(self.op_i)),
            },
            _ => Err(VMExecError::UnsupportedOPCode(op, self.op_i)),
        }
    }

    fn step_binary(&mut self, op: OPCode) -> (r: Result<Step, VMExecError>)
        requires
            wf(old(self)@),
            old(self)@.pending is None,
            old(self)@.pc < old(self)@.program.len(),
        ensures
            (final(self)@, outcome(r)) == spec_binary(old(self)@, op),
            wf(final(self)@),
            outcome(r) == Ok::<StepV, Fault>(StepV::Continue) ==> final(self)@.pending is None && old(self)@.pc < final(self)@.pc,
    {
        let ghost s = self@;
        let w: usize = if self.is_debug { 1 } else { 0 };
        if self.program.len() - self.op_i < 1 + w {
            return Err(VMExecError::InvalidOperationContent(self.op_i));
        }
        let posv: i32 = if self.is_debug { self.program[self.op_i + 1] as i32 } else { -1 };
        let n = self.stack.len();
        if n < 2 {
            return Err(VMExecError::StackUnderflow(self.op_i));
        }
        let lh = self.stack[n - 2];
        let rh = self.stack[n - 1];
        let ghost rest = s.stack.subrange(0, n - 2);
        if op == OPCode::ASSIGN {
            let r = self.resolve_handle(rh)?;
            proof {
                lemma_resolve(s, rh);
            }
            assert(s.arena[lh as int] == self.pool@[lh as int]@);
            match &self.pool[lh] {
                Value::Variable(name, _) => {
                    let name = copy_bytes(name);
                    self.stack.pop();
                    self.stack.pop();
                    self.stack.push(r);
                    self.variables.push((name, r));
                    self.op_i = self.op_i + 1 + w;
                    proof {
                        assert(final(self)@.stack =~= rest.push(r));
                        assert(final(self)@.env =~= s.env.push((name@, r)));
                        assert(final(self)@ == (EngineState { stack: rest.push(r), env: s.env.push((name@, r)), pc: s.pc + 1 + pos_width(s), ..s }));
                        assert forall|i: int| 0 <= i < final(self)@.stack.len() implies final(self)@.stack[i] < final(self)@.arena.len() by {
                            if i < n - 2 {
                                assert(final(self)@.stack[i] == s.stack[i]);
                            }
                        }
                        assert forall|i: int| #![trigger final(self)@.env[i]] 0 <= i < final(self)@.env.len() implies final(self)@.env[i].1 < final(self)@.arena.len() && final(self)@.arena[final(self)@.env[i].1 as int] is Lit by {
                            if i < s.env.len() {
                                assert(final(self)@.env[i] == s.env[i]);
                            }
                        }
                    }
                    Ok(Step::Continue)
                },
                Value::Literal(l) => {
                    let rl = self.literal_at(r);
                    Err(VMExecError::UnsupportedOperation(l.copy(), rl, op, posv))
                },
            }
        } else {
            let l = self.resolve_handle(lh)?;
            let r = self.resolve_handle(rh)?;
            proof {
                lemma_resolve(s, lh);
                lemma_resolve(s, rh);
            }
            let ll = self.literal_at(l);
            let rl = self.literal_at(r);
            match classify(&ll, &rl, op) {
                Verdict::Done(v) => {
                    self.stack.pop();
                    self.stack.pop();
                    let h = self.allocate(Value::Literal(v));
                    self.stack.push(h);
                    self.op_i = self.op_i + 1 + w;
                    proof {
                        assert(final(self)@.stack =~= rest.push(h));
                        assert forall|i: int| 0 <= i < final(self)@.stack.len() implies final(self)@.stack[i] < final(self)@.arena.len() by {
                            if i < n - 2 {
                                assert(final(self)@.stack[i] == s.stack[i]);
                            }
                        }
                        assert forall|i: int| #![trigger final(self)@.env[i]] 0 <= i < final(self)@.env.len() implies final(self)@.env[i].1 < final(self)@.arena.len() && final(self)@.arena[final(self)@.env[i].1 as int] is Lit by {
                            assert(final(self)@.env[i] == s.env[i]);
                            assert(final(self)@.arena[s.env[i].1 as int] == s.arena[s.env[i].1 as int]);
                        }
                    }
                    Ok(Step::Continue)
                },
                Verdict::Ask(q, p) => {
                    self.stack.pop();
                    self.stack.pop();
                    self.pending = Some(p);
                    self.op_i = self.op_i + 1 + w;
                    proof {
                        assert(final(self)@.stack =~= rest);
                        assert forall|i: int| 0 <= i < final(self)@.stack.len() implies final(self)@.stack[i] < final(self)@.arena.len() by {
                            assert(final(self)@.stack[i] == s.stack[i]);
                        }
                    }
                    Ok(Step::Numeric(q))
                },
                Verdict::Unsupported => Err(VMExecError::UnsupportedOperation(ll, rl, op, posv)),
            }
        }
    }

    fn step_body(&mut self, op: OPCode) -> (r: Result<Step, VMExecError>)
        requires
            wf(old(self)@),
            old(self)@.pending is None,
            old(self)@.pc < old(self)@.program.len(),
        ensures
            (final(self)@, outcome(r)) == spec_exec(old(self)@, op),
            wf(final(self)@),
            outcome(r) == Ok::<StepV, Fault>(StepV::Continue) ==> final(self)@.pending is None && old(self)@.pc < final(self)@.pc,
    {
        let ghost s = self@;
        let len = self.program.len();
        match op {
            OPCode::END => Ok(Step::Finished(self.shown_now())),
            OPCode::PUSH_NUM => {
                if len - self.op_i >= 9 {
                    let n = read_num(&self.program, self.op_i + 1);
                    self.push_value(Value::Literal(Literal::Num(n)), self.op_i + 9)
                } else {
                    Err(VMExecError::InvalidOperationContent(self.op_i))
                }
            },
            OPCode::PUSH_BOOL => {
                if len - self.op_i >= 2 {
                    let b = self.program[self.op_i + 1] >= 1;
                    self.push_value(Value::Literal(Literal::Bool(b)), self.op_i + 2)
                } else {
                    Err(VMExecError::InvalidOperationContent(self.op_i))
                }
            },
            OPCode::PUSH_STRING => match self.find_byte(self.op_i + 1, OPCode::NULL.byte()) {
                Some(e) => {
                    proof {
                        lemma_find(self@.program, self.op_i + 1, spec_byte(OPCode::NULL));
                    }
                    let text = slice(&self.program, self.op_i + 1, e);
                    self.push_value(Value::Literal(Literal::String(text)), e + 1)
                },
                None => Err(VMExecError::InvalidOperationContent(self.op_i)),
            },
            OPCode::PUSH_NIL => self.push_value(Value::Literal(Literal::Nil), self.op_i + 1),
            OPCode::PUSH_VAR => {
                let w: usize = if self.is_debug { 1 } else { 0 };
                if len - self.op_i < 1 + w {
                    return Err(VMExecError::InvalidOperationContent(self.op_i));
                }
                let n = self.stack.len();
                if n == 0 {
                    return Err(VMExecError::StackUnderflow(self.op_i));
                }
                let top = self.stack[n - 1];
                assert(s.arena[top as int] == self.pool@[top as int]@);
                match &self.pool[top] {
                    Value::Literal(Literal::String(name)) => {
                        let name = copy_bytes(name);
                        let pos: Option<i32> = if self.is_debug { Some(self.program[self.op_i + 1] as i32) } else { None };
                        let h = self.allocate(Value::Variable(name, pos));
                        self.stack.pop();
                        self.stack.push(h);
                        self.op_i = self.op_i + 1 + w;
                        proof {
                            let f = final(self)@;
                            assert(f.stack =~= s.stack.drop_last().push(h));
                            assert forall|i: int| 0 <= i < f.stack.len() implies f.stack[i] < f.arena.len() by {
                                if i < n - 1 {
                                    assert(f.stack[i] == s.stack[i]);
                                }
                            }
                            assert forall|i: int| #![trigger f.env[i]] 0 <= i < f.env.len() implies f.env[i].1 < f.arena.len() && f.arena[f.env[i].1 as int] is Lit by {
                                assert(f.env[i] == s.env[i]);
                                assert(f.arena[s.env[i].1 as int] == s.arena[s.env[i].1 as int]);
                            }
                        }
                        Ok(Step::Continue)
                    },
                    _ => Err(VMExecError::InvalidIdentifier(self.op_i)),
                }
            },
            OPCode::PRINT => {
                let w: usize = if self.is_debug { 1 } else { 0 };
                if len - self.op_i < 1 + w {
                    return Err(VMExecError::InvalidOperationContent(self.op_i));
                }
                let shown = self.shown_now();
                self.op_i = self.op_i + 1 + w;
                Ok(Step::Print(shown))
            },
            OPCode::POP => {
                if self.stack.len() == 0 {
                    return Err(VMExecError::StackUnderflow(self.op_i));
                }
                self.stack.pop();
                self.op_i = self.op_i + 1;
                proof {
                    let f = final(self)@;
                    assert(f.stack =~= s.stack.drop_last());
                    assert forall|i: int| 0 <= i < f.stack.len() implies f.stack[i] < f.arena.len() by {
                        assert(f.stack[i] == s.stack[i]);
                    }
                }
                Ok(Step::Continue)
            },
            OPCode::ADD | OPCode::SUB | OPCode::MULTIPLY | OPCode::DIVIDE | OPCode::ASSIGN
            | OPCode::LT | OPCode::GT | OPCode::LTOREQ | OPCode::GTOREQ => self.step_binary(op),
            _ => Err(VMExecError::UnsupportedOPCode(op, self.op_i)),
        }
    }

    /// Carries out the instruction at the program counter.
    fn step(&mut self) -> (r: Result<Step, VMExecError>)
        requires
            wf(old(self)@),
            old(self)@.pending is None,
        ensures
            (final(self)@, outcome(r)) == spec_step(old(self)@),
            wf(final(self)@),
            final(self)@.program == old(self)@.program,
            final(self)@.capacity == old(self)@.capacity,
            outcome(r) == Ok::<StepV, Fault>(StepV::Continue) ==> final(self)@.pending is None && old(self)@.pc < final(self)@.pc,
    {
        if self.op_i >= self.program.len() {
            return Err(VMExecError::InvalidOperationContent(self.op_i));
        }
        let b = self.program[self.op_i];
        match OPCode::from_byte(b) {
            None => Err(VMExecError::InvalidOPCode(b, self.op_i)),
            Some(op) => if !self.meta_end {
                self.step_meta(op)
            } else {
                self.step_body(op)
            },
        }
    }

    /// Carries out instructions until one does more than continue.
    fn run(&mut self) -> (r: Result<Step, VMExecError>)
        requires
            wf(old(self)@),
            old(self)@.pending is None,
        ensures
            (final(self)@, outcome(r)) == spec_run(old(self)@),
            wf(final(self)@),
            final(self)@.capacity == old(self)@.capacity,
    {
        loop
            invariant
                wf(self@),
                self@.pending is None,
                spec_run(self@) == spec_run(old(self)@),
                self@.capacity == old(self)@.capacity,
            decreases self@.program.len() - self@.pc,
        {
            let ghost before = self@;
            let r = self.step();
            match r {
                Ok(Step::Continue) => {
                    assert(spec_run(before) == spec_run(self@));
                },
                _ => {
                    assert(spec_run(before) == (self@, outcome(r)));
                    return r;
                },
            }
        }
    }

    /// Starts a run of `program` on a fresh arena, stack and set of variables
    /// (handles from an earlier run are gone), and carries out instructions
    /// until the program prints, needs the host, ends, or fails.
    pub fn exec(&mut self, program: Vec<u8>) -> (r: Result<Step, VMExecError>)
        ensures
            (final(self)@, outcome(r)) == spec_run(fresh(program@, old(self)@.capacity)),
            wf(final(self)@),
            final(self)@.capacity == old(self)@.capacity,
    {
        let capacity = self.capacity;
        *self = Self::with_capacity(capacity);
        self.program = program;
        proof {
            assert(self@ == fresh(program@, capacity as nat));
        }
        self.run()
    }

    /// Goes on with a run that stopped at `Step::Print` or `Step::Continue`.
    pub fn proceed(&mut self) -> (r: Result<Step, VMExecError>)
        requires
            wf(old(self)@),
            old(self)@.pending is None,
        ensures
            (final(self)@, outcome(r)) == spec_run(old(self)@),
            wf(final(self)@),
            final(self)@.capacity == old(self)@.capacity,
    {
        self.run()
    }

    /// Finishes the operation that waits for the host with its answer: the
    /// result is allocated and pushed. Then the run goes on as `proceed` does.
    pub fn resume(&mut self, answer: NumAnswer) -> (r: Result<Step, VMExecError>)
        requires
            wf(old(self)@),
            old(self)@.pending matches Some(p) && fits(p, answer@),
        ensures
            (final(self)@, outcome(r)) == spec_run(spec_complete(old(self)@, answer@)),
            wf(final(self)@),
            final(self)@.capacity == old(self)@.capacity,
    {
        let ghost s = self@;
        let p = self.pending.take();
        let lit = match (p, answer) {
            (Some(Pending::Arith), NumAnswer::Num(n)) => Literal::Num(n),
            (Some(Pending::Compare), NumAnswer::Bool(b)) => Literal::Bool(b),
            (Some(Pending::Append(t, first)), NumAnswer::Text(x)) => {
                if first {
                    Literal::String(concat(&x, &t))
                } else {
                    Literal::String(concat(&t, &x))
                }
            },
            (Some(Pending::Repeat(t)), NumAnswer::Count(c)) => Literal::String(repeat_bytes(&t, c)),
            _ => Literal::Nil,
        };
        let h = self.allocate(Value::Literal(lit));
        self.stack.push(h);
        proof {
            let f = self@;
            assert(f.stack =~= s.stack.push(h));
            assert(f == spec_complete(s, answer@));
            assert forall|i: int| 0 <= i < f.stack.len() implies f.stack[i] < f.arena.len() by {
                if i < s.stack.len() {
                    assert(f.stack[i] == s.stack[i]);
                }
            }
            assert forall|i: int| #![trigger f.env[i]] 0 <= i < f.env.len() implies f.env[i].1 < f.arena.len() && f.arena[f.env[i].1 as int] is Lit by {
                assert(f.env[i] == s.env[i]);
                assert(f.arena[s.env[i].1 as int] == s.arena[s.env[i].1 as int]);
            }
        }
        self.run()
    }

    /// Casts the value behind a stack handle to a boolean, resolving a variable
    /// through its binding.
    pub fn cast_bool(&self, val: usize, expr_pos: Option<i32>) -> (r: Result<bool, VMExecError>)
        requires
            wf(self@),
            val < self@.arena.len(),
        ensures
            match resolve(self@, val) {
                Err(f) => r is Err && r->Err_0@ == f,
                Ok(h) => match lit_of(self@.arena[h as int]) {
                    Lit::Bool(b) => r == Ok::<bool, VMExecError>(b),
                    l => r is Err && r->Err_0@ == Fault::InvalidCast(l, match expr_pos { Some(p) => p, None => 0 }),
                },
            },
    {
        let h = self.resolve_handle(val)?;
        proof {
            lemma_resolve(self@, val);
        }
        match self.literal_at(h) {
            Literal::Bool(b) => Ok(b),
            l => Err(VMExecError::InvalidCast(l, match expr_pos { Some(p) => p, None => 0 })),
        }
    }

    /// The error for a read of `identifier`, which is not bound, at `pos` (0 where unknown).
    pub fn not_defined(&self, identifier: &str, pos: Option<i32>) -> (r: Result<String, VMExecError>)
        ensures
            r matches Err(e) && e@ == Fault::VariableNotDefined(identifier.spec_bytes(), match pos { Some(p) => p, None => 0 }),
    {
        Err(VMExecError::VariableNotDefined(identifier.as_bytes_vec(), match pos { Some(p) => p, None => 0 }))
    }

    /// The handle on top of the stack.
    pub fn peek(&self) -> (r: Option<usize>)
        ensures
            r == (if self@.stack.len() == 0 { None } else { Some(self@.stack.last()) }),
    {
        let n = self.stack.len();
        if n == 0 { None } else { Some(self.stack[n - 1]) }
    }
}

} // verus!
