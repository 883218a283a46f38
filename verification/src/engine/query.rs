//! The query surface: one function that compiles a command and runs it.

use super::ir::{compile, flatten, CompileError, CompileErrorModel, IRBuilder};
use super::message::{compile_message, runtime_message};
use super::value::{RuntimeVariableAbstractData, ValueModel};
use super::vm::{
    run_program, CorpusModel, RuntimeError, RuntimeErrorModel, RuntimeRef, VirtualMachine,
};
use vstd::prelude::*;

verus! {

/// Why a query has no value.
#[derive(Debug)]
pub enum QueryError {
    /// The command does not compile.
    Compile(CompileError),
    /// The command stopped while it ran.
    Runtime(RuntimeError),
}

/// The mathematical value of a [`QueryError`].
pub enum QueryErrorModel {
    Compile(CompileErrorModel),
    Runtime(RuntimeErrorModel),
}

impl View for QueryError {
    type V = QueryErrorModel;

    open spec fn view(&self) -> QueryErrorModel {
        match self {
            QueryError::Compile(e) => QueryErrorModel::Compile(e@),
            QueryError::Runtime(e) => QueryErrorModel::Runtime(e@),
        }
    }
}

/// The value of a command on a corpus: the command is compiled, the
/// instruction it compiles to is flattened into a schedule, and the schedule
/// is run. A command that does not compile is never run.
pub open spec fn query_value(command: Seq<char>, corpus: CorpusModel) -> Result<
    ValueModel,
    QueryErrorModel,
> {
    match compile(command) {
        Ok(head) => match run_program(flatten(head), corpus) {
            Ok(value) => Ok(value),
            Err(e) => Err(QueryErrorModel::Runtime(e)),
        },
        Err(e) => Err(QueryErrorModel::Compile(e)),
    }
}

/// The message of a query error.
pub open spec fn query_message(e: QueryErrorModel) -> Seq<char> {
    match e {
        QueryErrorModel::Compile(e) => compile_message(e),
        QueryErrorModel::Runtime(e) => runtime_message(e),
    }
}

impl QueryError {
    /// The message of the error.
    pub fn message(&self) -> (r: String)
        ensures
            r@ == query_message(self@),
    {
        match self {
            QueryError::Compile(e) => e.message(),
            QueryError::Runtime(e) => e.message(),
        }
    }
}

/// Compiles `command` and runs it against `reference`.
pub fn query<'r>(command: &str, reference: &'r RuntimeRef<'r>) -> (r: Result<
    RuntimeVariableAbstractData<'r>,
    QueryError,
>)
    ensures
        match r {
            Ok(value) => query_value(command@, reference@) == Ok::<_, QueryErrorModel>(value@),
            Err(e) => query_value(command@, reference@) == Err::<ValueModel, _>(e@),
        },
{
    let irb = match IRBuilder::from(command) {
        Ok(irb) => irb,
        Err(e) => {
            return Err(QueryError::Compile(e));
        },
    };
    let head_inst = irb.build();
    let insts = IRBuilder::ir_flatten(&head_inst);
    let vm = VirtualMachine::from(insts, false);
    match vm.evaluate(reference) {
        Ok(value) => Ok(value),
        Err(e) => Err(QueryError::Runtime(e)),
    }
}

} // verus!
