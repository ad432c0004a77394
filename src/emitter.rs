use vstd::prelude::*;
use vstd::string::{StrSliceExecFns, StringSliceAdditionalSpecFns};

use crate::lexer::{Literal, Token};
use crate::opcode::{num_bytes, spec_byte, spec_num_bytes, OPCode};
use crate::tree::{Declaration, Expression, Primary, Statement};

verus! {

/// Why a tree could not be turned into bytecode; each carries a source position.
#[derive(Clone, Copy, Debug, PartialEq, Eq, Structural)]
pub enum VMBuildError {
    /// An operator token with no opcode.
    UnsupportedOperator(Token, i32),
    /// A literal kind that has no push instruction.
    UnsupportedType(i32),
}

/// Which parts of the metadata section a build writes.
#[derive(Clone, Copy, Debug)]
pub struct BuildOptions {
    /// Write a position byte after each operator and variable read.
    pub debug: bool,
    /// Embed the source text.
    pub code: bool,
}

/// The version number that a program's header carries.
pub const BYTECODE_VERSION: u8 = 1;

/// The opcode an operator token compiles to.
pub open spec fn spec_op_code(t: Token) -> Option<OPCode> {
    match t {
        Token::Plus => Some(OPCode::ADD),
        Token::Minus => Some(OPCode::SUB),
        Token::Asterix => Some(OPCode::MULTIPLY),
        Token::Equals => Some(OPCode::ASSIGN),
        Token::Slash => Some(OPCode::DIVIDE),
        Token::Lt => Some(OPCode::LT),
        Token::Gt => Some(OPCode::GT),
        Token::LtOrEq => Some(OPCode::LTOREQ),
        Token::GtOrEq => Some(OPCode::GTOREQ),
        _ => None,
    }
}

/// The position byte written in debug mode.
pub open spec fn spec_pos(debug: bool, pos: i32) -> Seq<u8> {
    if debug { seq![pos as u8] } else { seq![] }
}

/// A `PUSH_STRING` with its text and terminator.
pub open spec fn spec_push_text(s: Seq<u8>) -> Seq<u8> {
    seq![spec_byte(OPCode::PUSH_STRING)] + s + seq![spec_byte(OPCode::NULL)]
}

/// The bytes of an expression: operands before the operator that consumes them.
pub open spec fn spec_emit(e: Expression, debug: bool) -> Result<Seq<u8>, VMBuildError>
    decreases e,
{
    match e {
        Expression::Binary(l, t, r) => match spec_emit(*l, debug) {
            Err(x) => Err(x),
            Ok(lb) => match spec_emit(*r, debug) {
                Err(x) => Err(x),
                Ok(rb) => match spec_op_code(t.0) {
                    None => Err(VMBuildError::UnsupportedOperator(t.0, t.1)),
                    Some(op) => Ok(lb + rb + seq![spec_byte(op)] + spec_pos(debug, t.1)),
                },
            },
        },
        Expression::Primary(Primary::Identifier(name), pos) =>
            Ok(spec_push_text(name@) + seq![spec_byte(OPCode::PUSH_VAR)] + spec_pos(debug, pos)),
        Expression::Primary(Primary::Literal(lit), pos) => match lit {
            Literal::Num(n) => Ok(seq![spec_byte(OPCode::PUSH_NUM)] + spec_num_bytes(n)),
            Literal::Bool(b) => Ok(seq![spec_byte(OPCode::PUSH_BOOL), if b { 1u8 } else { 0u8 }]),
            Literal::String(s) => Ok(spec_push_text(s@)),
            Literal::Nil => Ok(seq![spec_byte(OPCode::PUSH_NIL)]),
            Literal::Variable(_) => Err(VMBuildError::UnsupportedType(pos)),
        },
        Expression::PrintExpr(inner, pos) => match spec_emit(*inner, debug) {
            Err(x) => Err(x),
            Ok(b) => Ok(b + seq![spec_byte(OPCode::PRINT)] + spec_pos(debug, pos)),
        },
    }
}

/// The bytes of a declaration: its expression, then `POP` where the value is discarded.
pub open spec fn spec_emit_decl(d: Declaration, debug: bool) -> Result<Seq<u8>, VMBuildError> {
    match d {
        Declaration::Statement(Statement::ExpressionStmt(e, is_statement, _), _) => match spec_emit(e, debug) {
            Err(x) => Err(x),
            Ok(b) => Ok(if is_statement { b + seq![spec_byte(OPCode::POP)] } else { b }),
        },
    }
}

/// The bytes of a sequence of declarations, one after another; the first error ends it.
pub open spec fn spec_emit_decls(ds: Seq<Declaration>, debug: bool) -> Result<Seq<u8>, VMBuildError>
    decreases ds.len(),
{
    if ds.len() == 0 {
        Ok(seq![])
    } else {
        match spec_emit_decls(ds.drop_last(), debug) {
            Err(x) => Err(x),
            Ok(front) => match spec_emit_decl(ds.last(), debug) {
                Err(x) => Err(x),
                Ok(b) => Ok(front + b),
            },
        }
    }
}

/// The metadata section: version, debug flag, embedded source, then `META_END`.
pub open spec fn spec_header(options: BuildOptions, query: Seq<u8>) -> Seq<u8> {
    seq![spec_byte(OPCode::VERSION), BYTECODE_VERSION]
        + (if options.debug { seq![spec_byte(OPCode::DEBUG)] } else { seq![] })
        + (if options.code {
            seq![spec_byte(OPCode::DEBUG_CODE)] + query + seq![spec_byte(OPCode::DEBUG_CODE_END)]
        } else {
            seq![]
        })
        + seq![spec_byte(OPCode::META_END)]
}

/// A whole program: header, body, `END`.
pub open spec fn spec_build(ds: Seq<Declaration>, query: Seq<u8>, options: BuildOptions) -> Result<Seq<u8>, VMBuildError> {
    match spec_emit_decls(ds, options.debug) {
        Err(x) => Err(x),
        Ok(body) => Ok(spec_header(options, query) + body + seq![spec_byte(OPCode::END)]),
    }
}

/// Whether `r` is the executable form of the spec result `s`.
pub open spec fn built_as(r: Result<Vec<u8>, VMBuildError>, s: Result<Seq<u8>, VMBuildError>) -> bool {
    match s {
        Ok(b) => r is Ok && r->Ok_0@ == b,
        Err(x) => r is Err && r->Err_0 == x,
    }
}

fn append_pos(v: &mut Vec<u8>, debug: bool, pos: i32)
    ensures
        final(v)@ == old(v)@ + spec_pos(debug, pos),
{
    if debug {
        v.push(pos as u8);
    }
    proof {
        assert(final(v)@ =~= old(v)@ + spec_pos(debug, pos));
    }
}

fn push_text(v: &mut Vec<u8>, s: &Vec<u8>)
    ensures
        final(v)@ == old(v)@ + spec_push_text(s@),
{
    v.push(OPCode::PUSH_STRING.byte());
    let mut i: usize = 0;
    while i < s.len()
        invariant
            i <= s@.len(),
            v@ == old(v)@ + seq![spec_byte(OPCode::PUSH_STRING)] + s@.subrange(0, i as int),
        decreases s@.len() - i,
    {
        v.push(s[i]);
        i = i + 1;
        proof {
            assert(s@.subrange(0, i as int) =~= s@.subrange(0, i - 1) + seq![s@[i - 1]]);
            assert(v@ =~= old(v)@ + seq![spec_byte(OPCode::PUSH_STRING)] + s@.subrange(0, i as int));
        }
    }
    v.push(OPCode::NULL.byte());
    proof {
        assert(s@.subrange(0, s@.len() as int) =~= s@);
        assert(final(v)@ =~= old(v)@ + spec_push_text(s@));
    }
}

fn append_all(v: &mut Vec<u8>, w: &Vec<u8>)
    ensures
        final(v)@ == old(v)@ + w@,
{
    let mut i: usize = 0;
    while i < w.len()
        invariant
            i <= w@.len(),
            v@ == old(v)@ + w@.subrange(0, i as int),
        decreases w@.len() - i,
    {
        v.push(w[i]);
        i = i + 1;
        proof {
            assert(w@.subrange(0, i as int) =~= w@.subrange(0, i - 1) + seq![w@[i - 1]]);
            assert(v@ =~= old(v)@ + w@.subrange(0, i as int));
        }
    }
    proof {
        assert(w@.subrange(0, w@.len() as int) =~= w@);
    }
}

fn op_code(t: Token) -> (r: Option<OPCode>)
    ensures
        r == spec_op_code(t),
{
    match t {
        Token::Plus => Some(OPCode::ADD),
        Token::Minus => Some(OPCode::SUB),
        Token::Asterix => Some(OPCode::MULTIPLY),
        Token::Equals => Some(OPCode::ASSIGN),
        Token::Slash => Some(OPCode::DIVIDE),
        Token::Lt => Some(OPCode::LT),
        Token::Gt => Some(OPCode::GT),
        Token::LtOrEq => Some(OPCode::LTOREQ),
        Token::GtOrEq => Some(OPCode::GTOREQ),
        _ => None,
    }
}

/// Turns expression trees into bytecode.
pub struct VMBuild {
    is_debug: bool,
}

impl VMBuild {
    pub fn new() -> (r: Self)
        ensures
            !r.is_debug(),
    {
        VMBuild { is_debug: false }
    }

    /// Whether the last build wrote position bytes.
    pub closed spec fn is_debug(&self) -> bool {
        self.is_debug
    }

    fn build_binary(&self, expr: &Expression) -> (r: Result<Vec<u8>, VMBuildError>)
        ensures
            built_as(r, spec_emit(*expr, self.is_debug)),
        decreases *expr,
    {
        match expr {
            Expression::Binary(left, token, right) => {
                let mut l = self.build_binary(left)?;
                let r = self.build_binary(right)?;
                append_all(&mut l, &r);
                match op_code(token.0) {
                    None => Err(VMBuildError::UnsupportedOperator(token.0, token.1)),
                    Some(op) => {
                        l.push(op.byte());
                        append_pos(&mut l, self.is_debug, token.1);
                        proof {
                            assert(l@ =~= spec_emit(*expr, self.is_debug)->Ok_0);
                        }
                        Ok(l)
                    },
                }
            },
            Expression::Primary(Primary::Identifier(name), pos) => {
                let mut v: Vec<u8> = Vec::new();
                push_text(&mut v, name);
                v.push(OPCode::PUSH_VAR.byte());
                append_pos(&mut v, self.is_debug, *pos);
                proof {
                    assert(v@ =~= spec_emit(*expr, self.is_debug)->Ok_0);
                }
                Ok(v)
            },
            Expression::Primary(Primary::Literal(lit), pos) => match lit {
                Literal::Num(n) => {
                    let mut v: Vec<u8> = vec![OPCode::PUSH_NUM.byte()];
                    let b = num_bytes(*n);
                    append_all(&mut v, &b);
                    proof {
                        assert(v@ =~= spec_emit(*expr, self.is_debug)->Ok_0);
                    }
                    Ok(v)
                },
                Literal::Bool(b) => {
                    let v: Vec<u8> = vec![OPCode::PUSH_BOOL.byte(), if *b { 1u8 } else { 0u8 }];
                    proof {
                        assert(v@ =~= spec_emit(*expr, self.is_debug)->Ok_0);
                    }
                    Ok(v)
                },
                Literal::String(s) => {
                    let mut v: Vec<u8> = Vec::new();
                    push_text(&mut v, s);
                    proof {
                        assert(v@ =~= spec_emit(*expr, self.is_debug)->Ok_0);
                    }
                    Ok(v)
                },
                Literal::Nil => {
                    let v: Vec<u8> = vec![OPCode::PUSH_NIL.byte()];
                    proof {
                        assert(v@ =~= spec_emit(*expr, self.is_debug)->Ok_0);
                    }
                    Ok(v)
                },
                Literal::Variable(_) => Err(VMBuildError::UnsupportedType(*pos)),
            },
            Expression::PrintExpr(inner, pos) => {
                let mut v = self.build_binary(inner)?;
                v.push(OPCode::PRINT.byte());
                append_pos(&mut v, self.is_debug, *pos);
                proof {
                    assert(v@ =~= spec_emit(*expr, self.is_debug)->Ok_0);
                }
                Ok(v)
            },
        }
    }

    fn build_decl(&self, decl: &Declaration) -> (r: Result<Vec<u8>, VMBuildError>)
        ensures
            built_as(r, spec_emit_decl(*decl, self.is_debug)),
    {
        match decl {
            Declaration::Statement(Statement::ExpressionStmt(expr, is_statement, _), _) => {
                let mut res = self.build_binary(expr)?;
                if *is_statement {
                    res.push(OPCode::POP.byte());
                }
                proof {
                    assert(res@ =~= spec_emit_decl(*decl, self.is_debug)->Ok_0);
                }
                Ok(res)
            },
        }
    }

    /// Compiles the declarations into a program: the metadata section that
    /// `options` asks for (with `query` as the embedded source), each
    /// declaration's bytes in order, and `END`. The first error aborts the build.
    pub fn build(&mut self, decls: &Vec<Declaration>, query: &str, options: BuildOptions) -> (r: Result<Vec<u8>, VMBuildError>)
        ensures
            built_as(r, spec_build(decls@, query.spec_bytes(), options)),
            final(self).is_debug() == options.debug,
    {
        let mut program: Vec<u8> = vec![OPCode::VERSION.byte(), BYTECODE_VERSION];
        self.is_debug = options.debug;
        if options.debug {
            program.push(OPCode::DEBUG.byte());
        }
        if options.code {
            program.push(OPCode::DEBUG_CODE.byte());
            let code = query.as_bytes_vec();
            append_all(&mut program, &code);
            program.push(OPCode::DEBUG_CODE_END.byte());
        }
        program.push(OPCode::META_END.byte());
        proof {
            assert(program@ =~= spec_header(options, query.spec_bytes()));
        }
        let mut i: usize = 0;
        while i < decls.len()
            invariant
                i <= decls@.len(),
                self.is_debug == options.debug,
                spec_emit_decls(decls@.subrange(0, i as int), options.debug) is Ok,
                program@ == spec_header(options, query.spec_bytes())
                    + spec_emit_decls(decls@.subrange(0, i as int), options.debug)->Ok_0,
            decreases decls@.len() - i,
        {
            let ghost front = decls@.subrange(0, i as int);
            let ghost next = decls@.subrange(0, i + 1);
            proof {
                assert(next.drop_last() =~= front);
                assert(next.last() == decls@[i as int]);
            }
            let built = self.build_decl(&decls[i]);
            match built {
                Err(x) => {
                    proof {
                        lemma_emit_decls_prefix_err(decls@, i as int + 1, options.debug);
                    }
                    return Err(x);
                },
                Ok(b) => {
                    append_all(&mut program, &b);
                    i = i + 1;
                    proof {
                        assert(program@ =~= spec_header(options, query.spec_bytes())
                            + spec_emit_decls(decls@.subrange(0, i as int), options.debug)->Ok_0);
                    }
                },
            }
        }
        program.push(OPCode::END.byte());
        proof {
            assert(decls@.subrange(0, decls@.len() as int) =~= decls@);
            assert(program@ =~= spec_build(decls@, query.spec_bytes(), options)->Ok_0);
        }
        Ok(program)
    }
}

/// An error in the first `n` declarations is the error of the whole sequence.
proof fn lemma_emit_decls_prefix_err(ds: Seq<Declaration>, n: int, debug: bool)
    requires
        0 <= n <= ds.len(),
        spec_emit_decls(ds.subrange(0, n), debug) is Err,
    ensures
        spec_emit_decls(ds, debug) == spec_emit_decls(ds.subrange(0, n), debug),
    decreases ds.len() - n,
{
    if n < ds.len() {
        let next = ds.subrange(0, n + 1);
        assert(next.drop_last() =~= ds.subrange(0, n));
        lemma_emit_decls_prefix_err(ds, n + 1, debug);
    } else {
        assert(ds.subrange(0, n) =~= ds);
    }
}

} // verus!
