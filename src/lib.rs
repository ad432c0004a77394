//! A small scripting language's bytecode compiler and stack machine.
//!
//! `emitter` turns expression trees into bytecode; `opcode` is the wire
//! format that both sides follow; `machine` is the engine with its arena,
//! bounded stack and variables; `decode` and `laws` state what holds of them.
//! `lexer` splits source text into tokens. Doubles are held as their bit
//! patterns: the engine hands arithmetic on them to its host.

use vstd::prelude::*;
use vstd::string::StringSliceAdditionalSpecFns;

pub mod decode;
pub mod emitter;
pub mod laws;
pub mod lexer;
pub mod machine;
pub mod opcode;
pub mod tree;
pub mod value;

use crate::emitter::{spec_build, BuildOptions, VMBuild, VMBuildError};
use crate::lexer::LexErr;
use crate::machine::{fresh, spec_run, wf, Step, VMExec, VMExecError};
use crate::tree::Declaration;

verus! {

/// An error from any stage of the language.
#[derive(Clone, Debug, PartialEq)]
pub enum LangErr<'a> {
    LexErr(LexErr<'a>),
    BuildErr(VMBuildError),
    ExecErr(VMExecError),
}

/// Compiles the declarations (with `query` as their source text) and starts
/// the program on `vm`, which runs until it first prints, needs its host,
/// ends, or fails. A build error leaves `vm` as it was.
pub fn exec<'a>(decls: &Vec<Declaration>, query: &str, options: BuildOptions, vm: &mut VMExec) -> (r: Result<Step, LangErr<'a>>)
    ensures
        match spec_build(decls@, query.spec_bytes(), options) {
            Err(x) => r matches Err(LangErr::BuildErr(y)) && y == x && final(vm)@ == old(vm)@,
            Ok(p) => match r {
                Ok(st) => spec_run(fresh(p, old(vm)@.capacity)) == (final(vm)@, Ok::<_, machine::Fault>(st@)),
                Err(LangErr::ExecErr(e)) => spec_run(fresh(p, old(vm)@.capacity)) == (final(vm)@, Err::<machine::StepV, _>(e@)),
                Err(_) => false,
            },
        },
        wf(final(vm)@) || final(vm)@ == old(vm)@,
{
    let mut builder = VMBuild::new();
    match builder.build(decls, query, options) {
        Err(x) => Err(LangErr::BuildErr(x)),
        Ok(program) => match vm.exec(program) {
            Ok(st) => Ok(st),
            Err(e) => Err(LangErr::ExecErr(e)),
        },
    }
}

} // verus!
