//! The messages of the errors: one line of text for each, with the fragment
//! of the command that it is about.

use super::ir::{CompileError, CompileErrorModel};
use super::parser::{ParseError, ParseErrorModel};
use super::semantic_type::{
    SemanticError, SemanticErrorModel, SemanticFunctionType, SemanticPrimitiveType, SemanticType,
    TypeModel,
};
use super::tokenizer::{Token, TokenModel, TokenType};
use super::vm::{RuntimeError, RuntimeErrorModel};
use crate::text::{decimal, push_decimal};
use vstd::prelude::*;
use vstd::string::StringExecFns;

verus! {

/// The name of a primitive type.
pub open spec fn primitive_name(p: SemanticPrimitiveType) -> Seq<char> {
    match p {
        SemanticPrimitiveType::Article => "Article"@,
        SemanticPrimitiveType::Category => "Category"@,
        SemanticPrimitiveType::Integer => "Integer"@,
        SemanticPrimitiveType::String => "String"@,
        SemanticPrimitiveType::Boolean => "Boolean"@,
    }
}

/// The name of a first-class function.
pub open spec fn function_name(f: SemanticFunctionType) -> Seq<char> {
    match f {
        SemanticFunctionType::Category => "category"@,
        SemanticFunctionType::Select => "select"@,
        SemanticFunctionType::Redirect => "redirect"@,
        SemanticFunctionType::UnwrapTuple1 => "unwrap_tuple1"@,
        SemanticFunctionType::UnwrapTuple2 => "unwrap_tuple2"@,
        SemanticFunctionType::CmpArray => "cmp_array"@,
        SemanticFunctionType::CmpTuple1 => "cmp_tuple1"@,
        SemanticFunctionType::CmpTuple2 => "cmp_tuple2"@,
    }
}

/// The elements of a tuple type; none for any other type.
pub open spec fn parts(t: TypeModel) -> Seq<TypeModel> {
    match t {
        TypeModel::Tuple(ts) => ts,
        _ => Seq::empty(),
    }
}

/// A type as it is written: `Void`, `Article`, `Array(T)`, `Set(T)`,
/// `Tuple(T1, T2)`, `Function(name)`.
pub open spec fn describe_type(t: TypeModel) -> Seq<char>
    decreases t, parts(t).len() + 1,
{
    match t {
        TypeModel::Void => "Void"@,
        TypeModel::Primitive(p) => primitive_name(p),
        TypeModel::Array(e) => "Array("@ + describe_type(*e) + ")"@,
        TypeModel::SetOf(e) => "Set("@ + describe_type(*e) + ")"@,
        TypeModel::Tuple(ts) => "Tuple("@ + describe_parts(t, ts.len() as int) + ")"@,
        TypeModel::Function(f) => "Function("@ + function_name(f) + ")"@,
    }
}

/// The first `n` elements of the tuple type `t` as they are written, with
/// `, ` between them.
pub open spec fn describe_parts(t: TypeModel, n: int) -> Seq<char>
    decreases t, n,
{
    if 0 < n <= parts(t).len() {
        if n == 1 {
            describe_type(parts(t)[0])
        } else {
            describe_parts(t, n - 1) + ", "@ + describe_type(parts(t)[n - 1])
        }
    } else {
        Seq::empty()
    }
}

/// What the grammar calls a kind of token.
pub open spec fn kind_name(kind: TokenType) -> Seq<char> {
    match kind {
        TokenType::Error => "a malformed token"@,
        TokenType::Eof => "the end of the command"@,
        TokenType::And => "'&'"@,
        TokenType::Or => "'|'"@,
        TokenType::BraceStart => "'('"@,
        TokenType::BraceEnd => "')'"@,
        TokenType::Comma => "','"@,
        TokenType::Name => "a name"@,
        TokenType::Const => "a constant"@,
    }
}

/// A token as a message names it: its kind, and its text where it has one.
pub open spec fn token_name(t: TokenModel) -> Seq<char> {
    match t.content {
        Some(text) => kind_name(t.kind) + " \""@ + text + "\""@,
        None => kind_name(t.kind),
    }
}

/// The message of a parse error: what was expected and what was found.
pub open spec fn parse_message(e: ParseErrorModel) -> Seq<char> {
    "Unexpected token: expected "@ + kind_name(e.expected) + ", got "@ + token_name(e.found)
        + "."@
}

/// The message of a type error. It names the function that the error is
/// about, and where types do not match, the type expected and the type
/// found.
pub open spec fn semantic_message(e: SemanticErrorModel) -> Seq<char> {
    match e {
        SemanticErrorModel::FunctionNotFound { name } => "'"@ + name + "' function not found!"@,
        SemanticErrorModel::NotImplemented { name } => "'"@ + name
            + "' function is not implemented!"@,
        SemanticErrorModel::ArityMismatch { name, expected, found } => "'"@ + name
            + "' function must have "@ + decimal(expected) + " parameter(s), not "@ + decimal(found)
            + "!"@,
        SemanticErrorModel::ParameterMismatch { name, position, expected, found } => "Parameter "@
            + decimal(position) + " of '"@ + name + "' function must be '"@ + describe_type(
            expected,
        ) + "' type! Current type is '"@ + describe_type(found) + "'."@,
        SemanticErrorModel::FunctionExpected { name, position, found } => "Parameter "@ + decimal(
            position,
        ) + " of '"@ + name + "' function must be a function! Current type is '"@ + describe_type(
            found,
        ) + "'."@,
        SemanticErrorModel::ElementNotPrimitive { name, found } => "The elements of the array given to '"@
            + name + "' function must be primitive. Current type is '"@ + describe_type(found)
            + "'."@,
        SemanticErrorModel::OperandMissing { function, expected } => "'"@ + function_name(function)
            + "' function must have "@ + decimal(expected) + " parameter(s)!"@,
        SemanticErrorModel::OperandMismatch { function, found } => "'"@ + function_name(function)
            + "' function does not take '"@ + describe_type(found) + "'!"@,
        SemanticErrorModel::ComparatorMismatch { found } => "The second parameter of 'sort' function must return 'Integer'! Currently, '"@
            + describe_type(found) + "' is returned!"@,
        SemanticErrorModel::CannotConcat { left, right } => "Types '"@ + describe_type(left)
            + "' and '"@ + describe_type(right) + "' cannot be concatenated!"@,
        SemanticErrorModel::CannotIntercross { left, right } => "Types '"@ + describe_type(left)
            + "' and '"@ + describe_type(right) + "' cannot be intercrossed!"@,
        SemanticErrorModel::FunctionAsValue { function } => "'"@ + function_name(function)
            + "' function stands where a value is required!"@,
    }
}

/// The message of a runtime error.
pub open spec fn runtime_message(e: RuntimeErrorModel) -> Seq<char> {
    match e {
        RuntimeErrorModel::EmptyProgram => "There is nothing to run!"@,
        RuntimeErrorModel::NotExecutable { id } => "Instruction v"@ + decimal(id)
            + " cannot be executed by itself!"@,
        RuntimeErrorModel::UnknownFunction { name } => "'"@ + name + "' function not found!"@,
        RuntimeErrorModel::NotImplemented { name } => "'"@ + name
            + "' function is not implemented!"@,
        RuntimeErrorModel::ArticlesNotLoaded { name } => "You must load the dump if you want to use '"@
            + name + "'!"@,
        RuntimeErrorModel::OperandMissing { id } => "Instruction v"@ + decimal(id)
            + " lacks an operand!"@,
        RuntimeErrorModel::OperandMismatch { id } => "Instruction v"@ + decimal(id)
            + " has an operand of the wrong kind!"@,
        RuntimeErrorModel::TitleNotFound { what } => "Cannot find title '"@ + what + "'"@,
        RuntimeErrorModel::ArticleMissing { title } => "Cannot find the article of title '"@ + title
            + "'"@,
        RuntimeErrorModel::IntegerOverflow { id } => "Instruction v"@ + decimal(id)
            + " counts more than an integer holds!"@,
    }
}

/// The message of a compile error.
pub open spec fn compile_message(e: CompileErrorModel) -> Seq<char> {
    match e {
        CompileErrorModel::Parse(e) => parse_message(e),
        CompileErrorModel::Semantic(e) => semantic_message(e),
        CompileErrorModel::TooLarge => "The command is too large!"@,
    }
}

fn primitive_text(p: SemanticPrimitiveType) -> (r: &'static str)
    ensures
        r@ == primitive_name(p),
{
    match p {
        SemanticPrimitiveType::Article => "Article",
        SemanticPrimitiveType::Category => "Category",
        SemanticPrimitiveType::Integer => "Integer",
        SemanticPrimitiveType::String => "String",
        SemanticPrimitiveType::Boolean => "Boolean",
    }
}

fn function_text(f: SemanticFunctionType) -> (r: &'static str)
    ensures
        r@ == function_name(f),
{
    match f {
        SemanticFunctionType::Category => "category",
        SemanticFunctionType::Select => "select",
        SemanticFunctionType::Redirect => "redirect",
        SemanticFunctionType::UnwrapTuple1 => "unwrap_tuple1",
        SemanticFunctionType::UnwrapTuple2 => "unwrap_tuple2",
        SemanticFunctionType::CmpArray => "cmp_array",
        SemanticFunctionType::CmpTuple1 => "cmp_tuple1",
        SemanticFunctionType::CmpTuple2 => "cmp_tuple2",
    }
}

fn kind_text(kind: TokenType) -> (r: &'static str)
    ensures
        r@ == kind_name(kind),
{
    match kind {
        TokenType::Error => "a malformed token",
        TokenType::Eof => "the end of the command",
        TokenType::And => "'&'",
        TokenType::Or => "'|'",
        TokenType::BraceStart => "'('",
        TokenType::BraceEnd => "')'",
        TokenType::Comma => "','",
        TokenType::Name => "a name",
        TokenType::Const => "a constant",
    }
}

impl SemanticType {
    /// Appends the type, as it is written, to `out`.
    #[verifier::loop_isolation(false)]
    fn push_description(&self, out: &mut String)
        ensures
            final(out)@ == old(out)@ + describe_type(self@),
        decreases self,
    {
        match self {
            SemanticType::Void => {
                out.append("Void");
            },
            SemanticType::Primitive(p) => {
                out.append(primitive_text(*p));
            },
            SemanticType::Array(e) => {
                out.append("Array(");
                e.push_description(out);
                out.append(")");
                assert(out@ =~= old(out)@ + describe_type(self@));
            },
            SemanticType::SetOf(e) => {
                out.append("Set(");
                e.push_description(out);
                out.append(")");
                assert(out@ =~= old(out)@ + describe_type(self@));
            },
            SemanticType::Tuple(es) => {
                out.append("Tuple(");
                let ghost start = out@;
                let mut i: usize = 0;
                while i < es.len()
                    invariant
                        0 <= i <= es.len(),
                        parts(self@).len() == es.len(),
                        out@ == start + describe_parts(self@, i as int),
                    decreases es.len() - i,
                {
                    if i > 0 {
                        out.append(", ");
                    }
                    assert(parts(self@)[i as int] == es[i as int]@);
                    es[i].push_description(out);
                    i += 1;
                    assert(out@ =~= start + describe_parts(self@, i as int));
                }
                out.append(")");
                assert(out@ =~= old(out)@ + describe_type(self@));
            },
            SemanticType::Function(f) => {
                out.append("Function(");
                out.append(function_text(*f));
                out.append(")");
                assert(out@ =~= old(out)@ + describe_type(self@));
            },
        }
    }

    /// The type as it is written.
    pub fn describe(&self) -> (r: String)
        ensures
            r@ == describe_type(self@),
    {
        let mut out = String::new();
        self.push_description(&mut out);
        assert(out@ =~= describe_type(self@));
        out
    }
}

impl Token {
    /// The token as a message names it.
    fn push_name(&self, out: &mut String)
        ensures
            final(out)@ == old(out)@ + token_name(self@),
    {
        out.append(kind_text(self.token_type));
        match &self.content {
            Some(text) => {
                out.append(" \"");
                out.append(text.as_str());
                out.append("\"");
                assert(out@ =~= old(out)@ + token_name(self@));
            },
            None => {},
        }
    }
}

impl ParseError {
    /// The message of the error.
    pub fn message(&self) -> (r: String)
        ensures
            r@ == parse_message(self@),
    {
        let mut out = String::from_str("Unexpected token: expected ");
        out.append(kind_text(self.expected));
        out.append(", got ");
        self.found.push_name(&mut out);
        out.append(".");
        out
    }
}

impl SemanticError {
    /// The message of the error.
    pub fn message(&self) -> (r: String)
        ensures
            r@ == semantic_message(self@),
    {
        match self {
            SemanticError::FunctionNotFound { name } => {
                let mut out = String::from_str("'");
                out.append(name.as_str());
                out.append("' function not found!");
                out
            },
            SemanticError::NotImplemented { name } => {
                let mut out = String::from_str("'");
                out.append(name.as_str());
                out.append("' function is not implemented!");
                out
            },
            SemanticError::ArityMismatch { name, expected, found } => {
                let mut out = String::from_str("'");
                out.append(name.as_str());
                out.append("' function must have ");
                push_decimal(&mut out, *expected as u64);
                out.append(" parameter(s), not ");
                push_decimal(&mut out, *found as u64);
                out.append("!");
                out
            },
            SemanticError::ParameterMismatch { name, position, expected, found } => {
                let mut out = String::from_str("Parameter ");
                push_decimal(&mut out, *position as u64);
                out.append(" of '");
                out.append(name.as_str());
                out.append("' function must be '");
                expected.push_description(&mut out);
                out.append("' type! Current type is '");
                found.push_description(&mut out);
                out.append("'.");
                out
            },
            SemanticError::FunctionExpected { name, position, found } => {
                let mut out = String::from_str("Parameter ");
                push_decimal(&mut out, *position as u64);
                out.append(" of '");
                out.append(name.as_str());
                out.append("' function must be a function! Current type is '");
                found.push_description(&mut out);
                out.append("'.");
                out
            },
            SemanticError::ElementNotPrimitive { name, found } => {
                let mut out = String::from_str("The elements of the array given to '");
                out.append(name.as_str());
                out.append("' function must be primitive. Current type is '");
                found.push_description(&mut out);
                out.append("'.");
                out
            },
            SemanticError::OperandMissing { function, expected } => {
                let mut out = String::from_str("'");
                out.append(function_text(*function));
                out.append("' function must have ");
                push_decimal(&mut out, *expected as u64);
                out.append(" parameter(s)!");
                out
            },
            SemanticError::OperandMismatch { function, found } => {
                let mut out = String::from_str("'");
                out.append(function_text(*function));
                out.append("' function does not take '");
                found.push_description(&mut out);
                out.append("'!");
                out
            },
            SemanticError::ComparatorMismatch { found } => {
                let mut out = String::from_str(
                    "The second parameter of 'sort' function must return 'Integer'! Currently, '",
                );
                found.push_description(&mut out);
                out.append("' is returned!");
                out
            },
            SemanticError::CannotConcat { left, right } => {
                let mut out = String::from_str("Types '");
                left.push_description(&mut out);
                out.append("' and '");
                right.push_description(&mut out);
                out.append("' cannot be concatenated!");
                out
            },
            SemanticError::CannotIntercross { left, right } => {
                let mut out = String::from_str("Types '");
                left.push_description(&mut out);
                out.append("' and '");
                right.push_description(&mut out);
                out.append("' cannot be intercrossed!");
                out
            },
            SemanticError::FunctionAsValue { function } => {
                let mut out = String::from_str("'");
                out.append(function_text(*function));
                out.append("' function stands where a value is required!");
                out
            },
        }
    }
}

impl RuntimeError {
    /// The message of the error.
    pub fn message(&self) -> (r: String)
        ensures
            r@ == runtime_message(self@),
    {
        match self {
            RuntimeError::EmptyProgram => String::from_str("There is nothing to run!"),
            RuntimeError::NotExecutable { id } => {
                let mut out = String::from_str("Instruction v");
                push_decimal(&mut out, *id as u64);
                out.append(" cannot be executed by itself!");
                out
            },
            RuntimeError::UnknownFunction { name } => {
                let mut out = String::from_str("'");
                out.append(name.as_str());
                out.append("' function not found!");
                out
            },
            RuntimeError::NotImplemented { name } => {
                let mut out = String::from_str("'");
                out.append(name.as_str());
                out.append("' function is not implemented!");
                out
            },
            RuntimeError::ArticlesNotLoaded { name } => {
                let mut out = String::from_str("You must load the dump if you want to use '");
                out.append(name.as_str());
                out.append("'!");
                out
            },
            RuntimeError::OperandMissing { id } => {
                let mut out = String::from_str("Instruction v");
                push_decimal(&mut out, *id as u64);
                out.append(" lacks an operand!");
                out
            },
            RuntimeError::OperandMismatch { id } => {
                let mut out = String::from_str("Instruction v");
                push_decimal(&mut out, *id as u64);
                out.append(" has an operand of the wrong kind!");
                out
            },
            RuntimeError::TitleNotFound { what } => {
                let mut out = String::from_str("Cannot find title '");
                out.append(what.as_str());
                out.append("'");
                out
            },
            RuntimeError::ArticleMissing { title } => {
                let mut out = String::from_str("Cannot find the article of title '");
                out.append(title.as_str());
                out.append("'");
                out
            },
            RuntimeError::IntegerOverflow { id } => {
                let mut out = String::from_str("Instruction v");
                push_decimal(&mut out, *id as u64);
                out.append(" counts more than an integer holds!");
                out
            },
        }
    }
}

impl CompileError {
    /// The message of the error.
    pub fn message(&self) -> (r: String)
        ensures
            r@ == compile_message(self@),
    {
        match self {
            CompileError::Parse(e) => e.message(),
            CompileError::Semantic(e) => e.message(),
            CompileError::TooLarge => String::from_str("The command is too large!"),
        }
    }
}

} // verus!
