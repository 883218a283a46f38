//! The semantic analyzer: it infers the type of every node of a command,
//! checks every call against the signature of its builtin, and writes the
//! types into the tree.

use super::parser::{
    AndSyntax, ArgSyntax, ArgumentNode, ArgumentsNode, CaseSyntax, CommandExpressionNode,
    ExpressionAndNode, ExpressionCaseNode, ExpressionOrNode, FuncSyntax, FunctionExpressionNode,
    OrSyntax,
};
use super::semantic_type::{
    array_of, concat_type, intercross_type, pair_of, primitive, set_of, type_equal, typing_of,
    SemanticError, SemanticErrorModel, SemanticFunctionType, SemanticPrimitiveType, SemanticType,
    TypeModel, Typing,
};
use crate::text::str_equal;
use vstd::prelude::*;

verus! {

/// Whether a type fits a signature. In `pattern`, `Void` stands for a type
/// parameter and fits every type; the rest must agree in structure.
pub open spec fn type_matches(found: TypeModel, pattern: TypeModel) -> bool
    decreases pattern,
{
    match pattern {
        TypeModel::Void => true,
        TypeModel::Primitive(p) => found == pattern,
        TypeModel::Array(q) => found matches TypeModel::Array(e) && type_matches(*e, *q),
        TypeModel::SetOf(q) => found matches TypeModel::SetOf(e) && type_matches(*e, *q),
        TypeModel::Tuple(qs) => found matches TypeModel::Tuple(es) && es.len() == qs.len()
            && forall|i: int| 0 <= i < qs.len() ==> type_matches(es[i], #[trigger] qs[i]),
        TypeModel::Function(f) => found == pattern,
    }
}

/// The signature `Array(T)`.
pub open spec fn any_array() -> TypeModel {
    array_of(TypeModel::Void)
}

/// The signature `Set(T)`.
pub open spec fn any_set() -> TypeModel {
    set_of(TypeModel::Void)
}

/// The signature `Array(Array(T))`.
pub open spec fn any_nested_array() -> TypeModel {
    array_of(any_array())
}

/// The builtins that look articles up by title.
pub open spec fn is_title_builtin(name: Seq<char>) -> bool {
    name == "title:exact"@ || name == "title:contains"@ || name == "title:startswith"@ || name
        == "title:endswith"@
}

/// The type of a function named as a value.
pub open spec fn use_type(name: Seq<char>) -> Typing {
    if name == "category"@ {
        Ok(TypeModel::Function(SemanticFunctionType::Category))
    } else if name == "select_min_len"@ || name == "select_max_len"@ {
        Ok(TypeModel::Function(SemanticFunctionType::Select))
    } else if name == "redirect"@ {
        Ok(TypeModel::Function(SemanticFunctionType::Redirect))
    } else if name == "unwrap_tuple1"@ {
        Ok(TypeModel::Function(SemanticFunctionType::UnwrapTuple1))
    } else if name == "unwrap_tuple2"@ {
        Ok(TypeModel::Function(SemanticFunctionType::UnwrapTuple2))
    } else if name == "cmp_array"@ {
        Ok(TypeModel::Function(SemanticFunctionType::CmpArray))
    } else if name == "cmp_tuple1"@ {
        Ok(TypeModel::Function(SemanticFunctionType::CmpTuple1))
    } else if name == "cmp_tuple2"@ {
        Ok(TypeModel::Function(SemanticFunctionType::CmpTuple2))
    } else {
        Err(SemanticErrorModel::FunctionNotFound { name })
    }
}

/// The type that a first-class function returns on operands of the given
/// types:
///
/// - `category`: `Article -> Array(Category)`
/// - `select_*`: `Array(T) | Set(T) -> T`
/// - `redirect`: `Article -> Article`
/// - `unwrap_tuple1`: `Tuple(T1, T2) -> T1`
/// - `unwrap_tuple2`: `Tuple(T1, T2) -> T2`
/// - `cmp_*`: `(T, T) -> Integer`
pub open spec fn apply_type(
    function: SemanticFunctionType,
    param1: Option<TypeModel>,
    param2: Option<TypeModel>,
) -> Typing {
    match function {
        SemanticFunctionType::Category => match param1 {
            Some(p1) => if p1 == primitive(SemanticPrimitiveType::Article) {
                Ok(array_of(primitive(SemanticPrimitiveType::Category)))
            } else {
                Err(SemanticErrorModel::OperandMismatch { function, found: p1 })
            },
            None => Err(SemanticErrorModel::OperandMissing { function, expected: 1 }),
        },
        SemanticFunctionType::Select => match param1 {
            Some(TypeModel::Array(e)) => Ok(*e),
            Some(TypeModel::SetOf(e)) => Ok(*e),
            Some(p1) => Err(SemanticErrorModel::OperandMismatch { function, found: p1 }),
            None => Err(SemanticErrorModel::OperandMissing { function, expected: 1 }),
        },
        SemanticFunctionType::Redirect => match param1 {
            Some(p1) => if p1 == primitive(SemanticPrimitiveType::Article) {
                Ok(primitive(SemanticPrimitiveType::Article))
            } else {
                Err(SemanticErrorModel::OperandMismatch { function, found: p1 })
            },
            None => Err(SemanticErrorModel::OperandMissing { function, expected: 1 }),
        },
        SemanticFunctionType::UnwrapTuple1 => match param1 {
            Some(p1) => if p1 is Tuple && p1->Tuple_0.len() == 2 {
                Ok(p1->Tuple_0[0])
            } else {
                Err(SemanticErrorModel::OperandMismatch { function, found: p1 })
            },
            None => Err(SemanticErrorModel::OperandMissing { function, expected: 1 }),
        },
        SemanticFunctionType::UnwrapTuple2 => match param1 {
            Some(p1) => if p1 is Tuple && p1->Tuple_0.len() == 2 {
                Ok(p1->Tuple_0[1])
            } else {
                Err(SemanticErrorModel::OperandMismatch { function, found: p1 })
            },
            None => Err(SemanticErrorModel::OperandMissing { function, expected: 1 }),
        },
        _ => match (param1, param2) {
            (Some(p1), Some(p2)) => if type_equal(p1, p2) {
                Ok(primitive(SemanticPrimitiveType::Integer))
            } else {
                Err(SemanticErrorModel::OperandMismatch { function, found: p2 })
            },
            _ => Err(SemanticErrorModel::OperandMissing { function, expected: 2 }),
        },
    }
}

/// The result of a title builtin whose only argument has type `found`: an
/// array of articles, provided the argument is a literal.
pub open spec fn title_result(name: Seq<char>, literal: bool, found: TypeModel) -> Typing {
    if literal {
        Ok(array_of(primitive(SemanticPrimitiveType::Article)))
    } else {
        Err(
            SemanticErrorModel::ParameterMismatch {
                name,
                position: 1,
                expected: primitive(SemanticPrimitiveType::String),
                found,
            },
        )
    }
}

/// `count`: `Array(T)` or `Set(T)` to `Integer`. Where the argument is
/// neither, the error names the array signature.
pub open spec fn count_result(name: Seq<char>, found: TypeModel) -> Typing {
    if type_matches(found, any_array()) || type_matches(found, any_set()) {
        Ok(primitive(SemanticPrimitiveType::Integer))
    } else {
        Err(
            SemanticErrorModel::ParameterMismatch {
                name,
                position: 1,
                expected: any_array(),
                found,
            },
        )
    }
}

/// `set`: `Array(T)` to `Set(T)`.
pub open spec fn set_result(name: Seq<char>, found: TypeModel) -> Typing {
    match found {
        TypeModel::Array(e) => Ok(TypeModel::SetOf(e)),
        _ => Err(
            SemanticErrorModel::ParameterMismatch {
                name,
                position: 1,
                expected: any_array(),
                found,
            },
        ),
    }
}

/// `group_sum`: `Array(T)` with `T` primitive to `Array(Tuple(T, Integer))`.
pub open spec fn group_sum_result(name: Seq<char>, found: TypeModel) -> Typing {
    match found {
        TypeModel::Array(e) => if *e is Primitive {
            Ok(array_of(pair_of(*e, primitive(SemanticPrimitiveType::Integer))))
        } else {
            Err(SemanticErrorModel::ElementNotPrimitive { name, found: *e })
        },
        _ => Err(
            SemanticErrorModel::ParameterMismatch {
                name,
                position: 1,
                expected: any_array(),
                found,
            },
        ),
    }
}

/// `flatten`: `Array(Array(T))` to `Array(T)`.
pub open spec fn flatten_result(name: Seq<char>, found: TypeModel) -> Typing {
    if found is Array && *found->Array_0 is Array {
        Ok(*found->Array_0)
    } else {
        Err(
            SemanticErrorModel::ParameterMismatch {
                name,
                position: 1,
                expected: any_nested_array(),
                found,
            },
        )
    }
}

/// `map`: `Array(T)` and a function to `Array(R)`, where the function
/// returns `R` on a `T`.
pub open spec fn map_result(element: TypeModel, function: SemanticFunctionType) -> Typing {
    match apply_type(function, Some(element), None) {
        Ok(r) => Ok(array_of(r)),
        Err(e) => Err(e),
    }
}

/// `sort`: `Array(T)` and a function that returns `Integer` on two `T` to
/// `Array(T)`.
pub open spec fn sort_result(element: TypeModel, function: SemanticFunctionType) -> Typing {
    match apply_type(function, Some(element), Some(element)) {
        Ok(r) => if type_equal(r, primitive(SemanticPrimitiveType::Integer)) {
            Ok(array_of(element))
        } else {
            Err(SemanticErrorModel::ComparatorMismatch { found: r })
        },
        Err(e) => Err(e),
    }
}

/// The type of an `&` expression: the types of its operands, intercrossed
/// from the left. The first error met, operand by operand, is the result.
pub open spec fn and_type(a: AndSyntax) -> Typing
    decreases a, a.ors.len() + 1,
{
    if a.ors.len() == 0 {
        Ok(TypeModel::Void)
    } else {
        match or_type(a.ors[0]) {
            Ok(t) => and_type_from(a, 1, t),
            Err(e) => Err(e),
        }
    }
}

/// The type of an `&` expression whose operands before `i` have the type
/// `acc` together.
pub open spec fn and_type_from(a: AndSyntax, i: int, acc: TypeModel) -> Typing
    decreases a, a.ors.len() - i,
{
    if 0 <= i < a.ors.len() {
        match or_type(a.ors[i]) {
            Ok(t) => match intercross_type(acc, t) {
                Ok(joined) => and_type_from(a, i + 1, joined),
                Err(e) => Err(e),
            },
            Err(e) => Err(e),
        }
    } else {
        Ok(acc)
    }
}

/// The type of an `|` expression: the types of its operands, concatenated
/// from the left. The first error met, operand by operand, is the result.
pub open spec fn or_type(o: OrSyntax) -> Typing
    decreases o, o.cases.len() + 1,
{
    if o.cases.len() == 0 {
        Ok(TypeModel::Void)
    } else {
        match case_type(o.cases[0]) {
            Ok(t) => or_type_from(o, 1, t),
            Err(e) => Err(e),
        }
    }
}

/// The type of an `|` expression whose operands before `i` have the type
/// `acc` together.
pub open spec fn or_type_from(o: OrSyntax, i: int, acc: TypeModel) -> Typing
    decreases o, o.cases.len() - i,
{
    if 0 <= i < o.cases.len() {
        match case_type(o.cases[i]) {
            Ok(t) => match concat_type(acc, t) {
                Ok(joined) => or_type_from(o, i + 1, joined),
                Err(e) => Err(e),
            },
            Err(e) => Err(e),
        }
    } else {
        Ok(acc)
    }
}

/// The type of an operand.
pub open spec fn case_type(c: CaseSyntax) -> Typing
    decreases c, 0nat,
{
    match c {
        CaseSyntax::Paren(inner) => and_type(*inner),
        CaseSyntax::Func(func) => func_type(func),
    }
}

/// The type of an argument: a literal is a string.
pub open spec fn arg_type(x: ArgSyntax) -> Typing
    decreases x, 0nat,
{
    match x {
        ArgSyntax::Literal(_) => Ok(primitive(SemanticPrimitiveType::String)),
        ArgSyntax::Expr(inner) => and_type(inner),
    }
}

/// The type of the only argument of a call; an error where the call does not
/// have exactly one.
pub open spec fn unary_arg_type(f: FuncSyntax) -> Typing
    decreases f, 1nat,
{
    if f.args.len() != 1 {
        Err(SemanticErrorModel::ArityMismatch { name: f.name, expected: 1, found: f.args.len() })
    } else {
        arg_type(f.args[0])
    }
}

/// Of a call that takes an array and a function: the element type of the
/// array and the function; an error where the call does not have exactly
/// these two arguments.
pub open spec fn binary_arg_types(f: FuncSyntax) -> Result<
    (TypeModel, SemanticFunctionType),
    SemanticErrorModel,
>
    decreases f, 1nat,
{
    if f.args.len() != 2 {
        Err(SemanticErrorModel::ArityMismatch { name: f.name, expected: 2, found: f.args.len() })
    } else {
        match arg_type(f.args[0]) {
            Ok(TypeModel::Array(element)) => match arg_type(f.args[1]) {
                Ok(TypeModel::Function(function)) => Ok((*element, function)),
                Ok(found) => Err(
                    SemanticErrorModel::FunctionExpected { name: f.name, position: 2, found },
                ),
                Err(e) => Err(e),
            },
            Ok(found) => Err(
                SemanticErrorModel::ParameterMismatch {
                    name: f.name,
                    position: 1,
                    expected: any_array(),
                    found,
                },
            ),
            Err(e) => Err(e),
        }
    }
}

/// The type of a function expression.
///
/// | name | arguments | result |
/// |---|---|---|
/// | `title:exact`, `title:contains`, `title:startswith`, `title:endswith` | a literal | `Array(Article)` |
/// | `count` | `Array(T)` or `Set(T)` | `Integer` |
/// | `set` | `Array(T)` | `Set(T)` |
/// | `group_sum` | `Array(T)`, `T` primitive | `Array(Tuple(T, Integer))` |
/// | `map` | `Array(T)`, a function | `Array(R)` |
/// | `flatten` | `Array(Array(T))` | `Array(T)` |
/// | `sort` | `Array(T)`, a comparator | `Array(T)` |
///
/// `filter` and `bind` are reserved.
pub open spec fn func_type(f: FuncSyntax) -> Typing
    decreases f, 2nat,
{
    if f.is_use {
        use_type(f.name)
    } else if is_title_builtin(f.name) {
        match unary_arg_type(f) {
            Ok(t) => title_result(f.name, f.args[0] is Literal, t),
            Err(e) => Err(e),
        }
    } else if f.name == "count"@ {
        match unary_arg_type(f) {
            Ok(t) => count_result(f.name, t),
            Err(e) => Err(e),
        }
    } else if f.name == "set"@ {
        match unary_arg_type(f) {
            Ok(t) => set_result(f.name, t),
            Err(e) => Err(e),
        }
    } else if f.name == "group_sum"@ {
        match unary_arg_type(f) {
            Ok(t) => group_sum_result(f.name, t),
            Err(e) => Err(e),
        }
    } else if f.name == "map"@ {
        match binary_arg_types(f) {
            Ok((element, function)) => map_result(element, function),
            Err(e) => Err(e),
        }
    } else if f.name == "flatten"@ {
        match unary_arg_type(f) {
            Ok(t) => flatten_result(f.name, t),
            Err(e) => Err(e),
        }
    } else if f.name == "sort"@ {
        match binary_arg_types(f) {
            Ok((element, function)) => sort_result(element, function),
            Err(e) => Err(e),
        }
    } else if f.name == "filter"@ || f.name == "bind"@ {
        Err(SemanticErrorModel::NotImplemented { name: f.name })
    } else {
        Err(SemanticErrorModel::FunctionNotFound { name: f.name })
    }
}

/// The type of a command: the type of its expression, which must be a value
/// and not a function reference.
pub open spec fn command_type(a: AndSyntax) -> Typing {
    match and_type(a) {
        Ok(TypeModel::Function(function)) => Err(SemanticErrorModel::FunctionAsValue { function }),
        other => other,
    }
}

/// The node carries the type `typing` infers, and so does every node below.
pub open spec fn carries(annotation: Option<SemanticType>, typing: Typing) -> bool {
    annotation matches Some(t) && typing == Ok::<_, SemanticErrorModel>(t@)
}

impl ExpressionAndNode {
    /// This node and every node below it carry the type inferred for them.
    pub open spec fn annotated(&self) -> bool
        decreases self,
    {
        &&& carries(self.semantic_type, and_type(self.syntax()))
        &&& forall|i: int|
            0 <= i < self.expr_ors.len() ==> (#[trigger] self.expr_ors[i]).annotated()
    }
}

impl ExpressionOrNode {
    /// This node and every node below it carry the type inferred for them.
    pub open spec fn annotated(&self) -> bool
        decreases self,
    {
        &&& carries(self.semantic_type, or_type(self.syntax()))
        &&& forall|i: int|
            0 <= i < self.expr_cases.len() ==> (#[trigger] self.expr_cases[i]).annotated()
    }
}

impl ExpressionCaseNode {
    /// This node and every node below it carry the type inferred for them.
    pub open spec fn annotated(&self) -> bool
        decreases self,
    {
        &&& carries(self.semantic_type, case_type(self.syntax()))
        &&& self.expr_and matches Some(inner) ==> inner.annotated()
        &&& self.func matches Some(func) ==> func.annotated()
    }
}

impl FunctionExpressionNode {
    /// This node carries the type inferred for it, and so does every node
    /// below it; the arguments of a function named as a value do not count.
    pub open spec fn annotated(&self) -> bool
        decreases self,
    {
        &&& carries(self.semantic_type, func_type(self.syntax()))
        &&& !self.is_use ==> (self.args matches Some(args) ==> args.annotated())
    }
}

impl ArgumentsNode {
    /// Every argument carries the type inferred for it.
    pub open spec fn annotated(&self) -> bool
        decreases self,
    {
        forall|i: int| 0 <= i < self.args.len() ==> (#[trigger] self.args[i]).annotated()
    }
}

impl ArgumentNode {
    /// This node and every node below it carry the type inferred for them.
    pub open spec fn annotated(&self) -> bool
        decreases self,
    {
        &&& carries(self.semantic_type, arg_type(self.syntax()))
        &&& self.expr_and matches Some(inner) ==> inner.annotated()
    }
}

impl CommandExpressionNode {
    /// Every node of the command carries the type inferred for it.
    pub open spec fn annotated(&self) -> bool {
        &&& carries(self.semantic_type, command_type(self.syntax()))
        &&& self.expr_and.annotated()
    }
}

/// Infers the type of every node of the command and writes it into the
/// node. Where the command is ill-typed the first error is returned; the
/// tree then keeps its syntax, and which of its nodes carry a type is left
/// open.
pub fn check_semantic(root: &mut CommandExpressionNode) -> (r: Result<SemanticType, SemanticError>)
    requires
        old(root).wf(),
    ensures
        final(root).syntax() == old(root).syntax(),
        final(root).wf(),
        typing_of(r) == command_type(old(root).syntax()),
        r is Ok ==> final(root).annotated(),
{
    let t = visit_expr_and(&mut root.expr_and)?;
    match t {
        SemanticType::Function(function) => Err(SemanticError::FunctionAsValue { function }),
        _ => {
            root.semantic_type = Some(t.clone());
            Ok(t)
        },
    }
}

#[verifier::loop_isolation(false)]
fn visit_expr_and(node: &mut ExpressionAndNode) -> (r: Result<SemanticType, SemanticError>)
    requires
        old(node).wf(),
    ensures
        final(node).syntax() == old(node).syntax(),
        final(node).wf(),
        typing_of(r) == and_type(old(node).syntax()),
        r is Ok ==> final(node).annotated(),
    decreases *old(node), 0nat,
{
    let ghost syntax = node.syntax();
    let mut return_type = match visit_expr_or(&mut node.expr_ors[0]) {
        Ok(t) => t,
        Err(e) => {
            assert(node.syntax().ors =~= syntax.ors);
            return Err(e);
        },
    };
    let mut i: usize = 1;
    while i < node.expr_ors.len()
        invariant
            1 <= i <= node.expr_ors.len(),
            node.expr_ors.len() == old(node).expr_ors.len(),
            node.semantic_type == old(node).semantic_type,
            forall|j: int|
                i <= j < node.expr_ors.len() ==> node.expr_ors[j] == old(node).expr_ors[j],
            forall|j: int|
                0 <= j < node.expr_ors.len() ==> (#[trigger] node.expr_ors[j]).syntax()
                    == old(node).expr_ors[j].syntax() && node.expr_ors[j].wf(),
            forall|j: int| 0 <= j < i ==> (#[trigger] node.expr_ors[j]).annotated(),
            and_type(syntax) == and_type_from(syntax, i as int, return_type@),
        decreases node.expr_ors.len() - i,
    {
        let target_type = match visit_expr_or(&mut node.expr_ors[i]) {
            Ok(t) => t,
            Err(e) => {
                assert(node.syntax().ors =~= syntax.ors);
                return Err(e);
            },
        };
        return_type = match return_type.infer_intercross(&target_type) {
            Ok(t) => t,
            Err(e) => {
                assert(node.syntax().ors =~= syntax.ors);
                return Err(e);
            },
        };
        i += 1;
    }
    node.semantic_type = Some(return_type.clone());
    assert(node.syntax().ors =~= syntax.ors);
    Ok(return_type)
}

#[verifier::loop_isolation(false)]
fn visit_expr_or(node: &mut ExpressionOrNode) -> (r: Result<SemanticType, SemanticError>)
    requires
        old(node).wf(),
    ensures
        final(node).syntax() == old(node).syntax(),
        final(node).wf(),
        typing_of(r) == or_type(old(node).syntax()),
        r is Ok ==> final(node).annotated(),
    decreases *old(node), 0nat,
{
    let ghost syntax = node.syntax();
    let mut return_type = match visit_expr_case(&mut node.expr_cases[0]) {
        Ok(t) => t,
        Err(e) => {
            assert(node.syntax().cases =~= syntax.cases);
            return Err(e);
        },
    };
    let mut i: usize = 1;
    while i < node.expr_cases.len()
        invariant
            1 <= i <= node.expr_cases.len(),
            node.expr_cases.len() == old(node).expr_cases.len(),
            node.semantic_type == old(node).semantic_type,
            forall|j: int|
                i <= j < node.expr_cases.len() ==> node.expr_cases[j] == old(node).expr_cases[j],
            forall|j: int|
                0 <= j < node.expr_cases.len() ==> (#[trigger] node.expr_cases[j]).syntax()
                    == old(node).expr_cases[j].syntax() && node.expr_cases[j].wf(),
            forall|j: int| 0 <= j < i ==> (#[trigger] node.expr_cases[j]).annotated(),
            or_type(syntax) == or_type_from(syntax, i as int, return_type@),
        decreases node.expr_cases.len() - i,
    {
        let target_type = match visit_expr_case(&mut node.expr_cases[i]) {
            Ok(t) => t,
            Err(e) => {
                assert(node.syntax().cases =~= syntax.cases);
                return Err(e);
            },
        };
        return_type = match return_type.infer_concat(&target_type) {
            Ok(t) => t,
            Err(e) => {
                assert(node.syntax().cases =~= syntax.cases);
                return Err(e);
            },
        };
        i += 1;
    }
    node.semantic_type = Some(return_type.clone());
    assert(node.syntax().cases =~= syntax.cases);
    Ok(return_type)
}

fn visit_expr_case(node: &mut ExpressionCaseNode) -> (r: Result<SemanticType, SemanticError>)
    requires
        old(node).wf(),
    ensures
        final(node).syntax() == old(node).syntax(),
        final(node).wf(),
        typing_of(r) == case_type(old(node).syntax()),
        r is Ok ==> final(node).annotated(),
    decreases *old(node), 0nat,
{
    let result = match &mut node.expr_and {
        Some(expr_and) => visit_expr_and(expr_and),
        None => match &mut node.func {
            Some(func) => visit_func(func),
            None => Ok(SemanticType::Void),
        },
    };
    if let Ok(t) = &result {
        node.semantic_type = Some(t.clone());
    }
    result
}

/// The number of arguments of a call.
fn arg_count(node: &FunctionExpressionNode) -> (n: usize)
    ensures
        n == node.syntax().args.len(),
{
    match &node.args {
        Some(args) => args.args.len(),
        None => 0,
    }
}

/// Whether the first argument of a call is a literal.
fn first_arg_is_literal(node: &FunctionExpressionNode) -> (r: bool)
    requires
        node.wf(),
        node.syntax().args.len() >= 1,
    ensures
        r == (node.syntax().args[0] is Literal),
{
    match &node.args {
        Some(args) => {
            assert(node.syntax().args[0] == args.args[0].syntax());
            args.args[0].value.is_some()
        },
        None => false,
    }
}

fn is_title(name: &str) -> (r: bool)
    ensures
        r == is_title_builtin(name@),
{
    str_equal(name, "title:exact") || str_equal(name, "title:contains") || str_equal(
        name,
        "title:startswith",
    ) || str_equal(name, "title:endswith")
}

fn array_pattern() -> (r: SemanticType)
    ensures
        r@ == any_array(),
{
    SemanticType::array_of(SemanticType::Void)
}

fn mismatch(name: &String, position: usize, expected: SemanticType, found: SemanticType) -> (r:
    Result<SemanticType, SemanticError>)
    ensures
        typing_of(r) == Err::<TypeModel, _>(
            SemanticErrorModel::ParameterMismatch {
                name: name@,
                position: position as nat,
                expected: expected@,
                found: found@,
            },
        ),
{
    Err(SemanticError::ParameterMismatch { name: name.clone(), position, expected, found })
}

fn title_check(name: &String, literal: bool, found: SemanticType) -> (r: Result<
    SemanticType,
    SemanticError,
>)
    ensures
        typing_of(r) == title_result(name@, literal, found@),
{
    if literal {
        Ok(SemanticType::array_of(SemanticType::primitive(SemanticPrimitiveType::Article)))
    } else {
        mismatch(name, 1, SemanticType::primitive(SemanticPrimitiveType::String), found)
    }
}

fn count_check(name: &String, found: SemanticType) -> (r: Result<SemanticType, SemanticError>)
    ensures
        typing_of(r) == count_result(name@, found@),
{
    let check_is_array = param_type_eq_generic(&found, &array_pattern());
    let check_is_set = param_type_eq_generic(&found, &SemanticType::set_of(SemanticType::Void));
    if check_is_array || check_is_set {
        Ok(SemanticType::primitive(SemanticPrimitiveType::Integer))
    } else {
        mismatch(name, 1, array_pattern(), found)
    }
}

fn set_check(name: &String, found: SemanticType) -> (r: Result<SemanticType, SemanticError>)
    ensures
        typing_of(r) == set_result(name@, found@),
{
    match found {
        SemanticType::Array(e) => Ok(SemanticType::SetOf(e)),
        _ => mismatch(name, 1, array_pattern(), found),
    }
}

fn group_sum_check(name: &String, found: SemanticType) -> (r: Result<SemanticType, SemanticError>)
    ensures
        typing_of(r) == group_sum_result(name@, found@),
{
    match found {
        SemanticType::Array(e) => {
            match *e {
                SemanticType::Primitive(p) => Ok(
                    SemanticType::array_of(
                        SemanticType::pair_of(
                            SemanticType::primitive(p),
                            SemanticType::primitive(SemanticPrimitiveType::Integer),
                        ),
                    ),
                ),
                other => Err(
                    SemanticError::ElementNotPrimitive { name: name.clone(), found: other },
                ),
            }
        },
        _ => mismatch(name, 1, array_pattern(), found),
    }
}

fn flatten_check(name: &String, found: SemanticType) -> (r: Result<SemanticType, SemanticError>)
    ensures
        typing_of(r) == flatten_result(name@, found@),
{
    let nested = SemanticType::array_of(array_pattern());
    proof {
        reveal_with_fuel(type_matches, 3);
    }
    if param_type_eq_generic(&found, &nested) {
        match found {
            SemanticType::Array(e) => Ok(*e),
            _ => Ok(found),
        }
    } else {
        mismatch(name, 1, nested, found)
    }
}

fn map_check(element: SemanticType, function: SemanticFunctionType) -> (r: Result<
    SemanticType,
    SemanticError,
>)
    ensures
        typing_of(r) == map_result(element@, function),
{
    let mapped = visit_infer_func_use(&function, Some(&element), None)?;
    Ok(SemanticType::array_of(mapped))
}

fn sort_check(element: SemanticType, function: SemanticFunctionType) -> (r: Result<
    SemanticType,
    SemanticError,
>)
    ensures
        typing_of(r) == sort_result(element@, function),
{
    let func_ret_type = visit_infer_func_use(&function, Some(&element), Some(&element))?;
    if !func_ret_type.eq(&SemanticType::primitive(SemanticPrimitiveType::Integer)) {
        return Err(SemanticError::ComparatorMismatch { found: func_ret_type });
    }
    Ok(SemanticType::array_of(element))
}

fn visit_func(node: &mut FunctionExpressionNode) -> (r: Result<SemanticType, SemanticError>)
    requires
        old(node).wf(),
    ensures
        final(node).syntax() == old(node).syntax(),
        final(node).wf(),
        typing_of(r) == func_type(old(node).syntax()),
        r is Ok ==> final(node).annotated(),
    decreases *old(node), 2nat,
{
    if node.is_use {
        let result = visit_func_use(node);
        if let Ok(t) = &result {
            node.semantic_type = Some(t.clone());
        }
        return result;
    }
    let name = node.name.clone();
    let result = if is_title(name.as_str()) {
        let found = param_check_lazy_1(node)?;
        title_check(&name, first_arg_is_literal(node), found)
    } else if str_equal(name.as_str(), "count") {
        let found = param_check_lazy_1(node)?;
        count_check(&name, found)
    } else if str_equal(name.as_str(), "set") {
        let found = param_check_lazy_1(node)?;
        set_check(&name, found)
    } else if str_equal(name.as_str(), "group_sum") {
        let found = param_check_lazy_1(node)?;
        group_sum_check(&name, found)
    } else if str_equal(name.as_str(), "map") {
        let (element, function) = param_check_lazy_2(node)?;
        map_check(element, function)
    } else if str_equal(name.as_str(), "flatten") {
        let found = param_check_lazy_1(node)?;
        flatten_check(&name, found)
    } else if str_equal(name.as_str(), "sort") {
        let (element, function) = param_check_lazy_2(node)?;
        sort_check(element, function)
    } else if str_equal(name.as_str(), "filter") || str_equal(name.as_str(), "bind") {
        Err(SemanticError::NotImplemented { name })
    } else {
        Err(SemanticError::FunctionNotFound { name })
    };
    if let Ok(t) = &result {
        node.semantic_type = Some(t.clone());
    }
    result
}

/// The function that the second argument of a call names, where its type
/// `found` is a function reference.
fn get_second_param_func(name: &String, found: SemanticType) -> (r: Result<
    SemanticFunctionType,
    SemanticError,
>)
    ensures
        match r {
            Ok(function) => found@ == TypeModel::Function(function),
            Err(e) => !(found@ is Function) && e@ == (SemanticErrorModel::FunctionExpected {
                name: name@,
                position: 2,
                found: found@,
            }),
        },
{
    match found {
        SemanticType::Function(function) => Ok(function),
        _ => Err(SemanticError::FunctionExpected { name: name.clone(), position: 2, found }),
    }
}

/// The type of a function named as a value.
fn visit_func_use(node: &FunctionExpressionNode) -> (r: Result<SemanticType, SemanticError>)
    ensures
        typing_of(r) == use_type(node.syntax().name),
{
    let name = node.name.as_str();
    if str_equal(name, "category") {
        Ok(SemanticType::Function(SemanticFunctionType::Category))
    } else if str_equal(name, "select_min_len") || str_equal(name, "select_max_len") {
        Ok(SemanticType::Function(SemanticFunctionType::Select))
    } else if str_equal(name, "redirect") {
        Ok(SemanticType::Function(SemanticFunctionType::Redirect))
    } else if str_equal(name, "unwrap_tuple1") {
        Ok(SemanticType::Function(SemanticFunctionType::UnwrapTuple1))
    } else if str_equal(name, "unwrap_tuple2") {
        Ok(SemanticType::Function(SemanticFunctionType::UnwrapTuple2))
    } else if str_equal(name, "cmp_array") {
        Ok(SemanticType::Function(SemanticFunctionType::CmpArray))
    } else if str_equal(name, "cmp_tuple1") {
        Ok(SemanticType::Function(SemanticFunctionType::CmpTuple1))
    } else if str_equal(name, "cmp_tuple2") {
        Ok(SemanticType::Function(SemanticFunctionType::CmpTuple2))
    } else {
        Err(SemanticError::FunctionNotFound { name: node.name.clone() })
    }
}

/// The view of an optional borrowed type.
pub open spec fn optional_type(t: Option<&SemanticType>) -> Option<TypeModel> {
    match t {
        Some(t) => Some(t@),
        None => None,
    }
}

fn operand_mismatch(function: SemanticFunctionType, found: &SemanticType) -> (r: Result<
    SemanticType,
    SemanticError,
>)
    ensures
        typing_of(r) == Err::<TypeModel, _>(
            SemanticErrorModel::OperandMismatch { function, found: found@ },
        ),
{
    Err(SemanticError::OperandMismatch { function, found: found.clone() })
}

/// The type that the first-class function `func` returns on operands of the
/// given types.
pub fn visit_infer_func_use(
    func: &SemanticFunctionType,
    param1: Option<&SemanticType>,
    param2: Option<&SemanticType>,
) -> (r: Result<SemanticType, SemanticError>)
    ensures
        typing_of(r) == apply_type(*func, optional_type(param1), optional_type(param2)),
{
    let function = *func;
    match function {
        SemanticFunctionType::Category => {
            if let Some(p1) = param1 {
                match p1 {
                    SemanticType::Primitive(SemanticPrimitiveType::Article) => Ok(
                        SemanticType::array_of(
                            SemanticType::primitive(SemanticPrimitiveType::Category),
                        ),
                    ),
                    _ => operand_mismatch(function, p1),
                }
            } else {
                Err(SemanticError::OperandMissing { function, expected: 1 })
            }
        },
        SemanticFunctionType::Select => {
            if let Some(p1) = param1 {
                match p1 {
                    SemanticType::Array(e) => Ok((&**e).clone()),
                    SemanticType::SetOf(e) => Ok((&**e).clone()),
                    _ => operand_mismatch(function, p1),
                }
            } else {
                Err(SemanticError::OperandMissing { function, expected: 1 })
            }
        },
        SemanticFunctionType::Redirect => {
            if let Some(p1) = param1 {
                match p1 {
                    SemanticType::Primitive(SemanticPrimitiveType::Article) => Ok(
                        SemanticType::Primitive(SemanticPrimitiveType::Article),
                    ),
                    _ => operand_mismatch(function, p1),
                }
            } else {
                Err(SemanticError::OperandMissing { function, expected: 1 })
            }
        },
        SemanticFunctionType::UnwrapTuple1 => {
            if let Some(p1) = param1 {
                match p1 {
                    SemanticType::Tuple(e) => {
                        if e.len() == 2 {
                            Ok((&*e[0]).clone())
                        } else {
                            operand_mismatch(function, p1)
                        }
                    },
                    _ => operand_mismatch(function, p1),
                }
            } else {
                Err(SemanticError::OperandMissing { function, expected: 1 })
            }
        },
        SemanticFunctionType::UnwrapTuple2 => {
            if let Some(p1) = param1 {
                match p1 {
                    SemanticType::Tuple(e) => {
                        if e.len() == 2 {
                            Ok((&*e[1]).clone())
                        } else {
                            operand_mismatch(function, p1)
                        }
                    },
                    _ => operand_mismatch(function, p1),
                }
            } else {
                Err(SemanticError::OperandMissing { function, expected: 1 })
            }
        },
        SemanticFunctionType::CmpArray
        | SemanticFunctionType::CmpTuple1
        | SemanticFunctionType::CmpTuple2 => {
            match (param1, param2) {
                (Some(p1), Some(p2)) => {
                    if p1.eq(p2) {
                        Ok(SemanticType::Primitive(SemanticPrimitiveType::Integer))
                    } else {
                        operand_mismatch(function, p2)
                    }
                },
                _ => Err(SemanticError::OperandMissing { function, expected: 2 }),
            }
        },
    }
}

/// Infers and writes the type of an argument.
fn visit_arg(node: &mut ArgumentNode) -> (r: Result<SemanticType, SemanticError>)
    requires
        old(node).wf(),
    ensures
        final(node).syntax() == old(node).syntax(),
        final(node).wf(),
        typing_of(r) == arg_type(old(node).syntax()),
        r is Ok ==> final(node).annotated(),
    decreases *old(node), 0nat,
{
    let result = if node.value.is_some() {
        Ok(SemanticType::Primitive(SemanticPrimitiveType::String))
    } else {
        match &mut node.expr_and {
            Some(expr_and) => visit_expr_and(expr_and),
            None => Ok(SemanticType::Void),
        }
    };
    if let Ok(t) = &result {
        node.semantic_type = Some(t.clone());
    }
    result
}

/// Checks that a call has one argument, and infers and writes its type.
fn param_check_lazy_1(node: &mut FunctionExpressionNode) -> (r: Result<SemanticType, SemanticError>)
    requires
        old(node).wf(),
    ensures
        final(node).syntax() == old(node).syntax(),
        final(node).wf(),
        final(node).is_use == old(node).is_use,
        final(node).semantic_type == old(node).semantic_type,
        typing_of(r) == unary_arg_type(old(node).syntax()),
        r is Ok ==> old(node).syntax().args.len() == 1 && final(node).args is Some
            && final(node).args->0.annotated(),
    decreases *old(node), 1nat,
{
    let found = arg_count(node);
    if found != 1 {
        return Err(SemanticError::ArityMismatch { name: node.name.clone(), expected: 1, found });
    }
    let ghost syntax = node.syntax();
    match &mut node.args {
        Some(args) => {
            let r = visit_arg(&mut args.args[0]);
            assert(args.syntax() =~= syntax.args);
            r
        },
        None => Ok(SemanticType::Void),
    }
}

/// Checks that a call has two arguments, the first an array and the second
/// a function, and infers and writes their types.
#[verifier::rlimit(60)]
fn param_check_lazy_2(node: &mut FunctionExpressionNode) -> (r: Result<
    (SemanticType, SemanticFunctionType),
    SemanticError,
>)
    requires
        old(node).wf(),
    ensures
        final(node).syntax() == old(node).syntax(),
        final(node).wf(),
        final(node).is_use == old(node).is_use,
        final(node).semantic_type == old(node).semantic_type,
        match r {
            Ok((element, function)) => binary_arg_types(old(node).syntax()) == Ok::<
                _,
                SemanticErrorModel,
            >((element@, function)) && final(node).args is Some && final(node).args->0.annotated(),
            Err(e) => binary_arg_types(old(node).syntax()) == Err::<
                (TypeModel, SemanticFunctionType),
                _,
            >(e@),
        },
    decreases *old(node), 1nat,
{
    let found = arg_count(node);
    if found != 2 {
        return Err(SemanticError::ArityMismatch { name: node.name.clone(), expected: 2, found });
    }
    let ghost syntax = node.syntax();
    let name = node.name.clone();
    match &mut node.args {
        Some(args) => {
            let first = match visit_arg(&mut args.args[0]) {
                Ok(t) => t,
                Err(e) => {
                    assert(args.syntax() =~= syntax.args);
                    return Err(e);
                },
            };
            let element = match first {
                SemanticType::Array(e) => *e,
                _ => {
                    assert(args.syntax() =~= syntax.args);
                    return Err(
                        SemanticError::ParameterMismatch {
                            name,
                            position: 1,
                            expected: array_pattern(),
                            found: first,
                        },
                    );
                },
            };
            let second = match visit_arg(&mut args.args[1]) {
                Ok(t) => t,
                Err(e) => {
                    assert(args.syntax() =~= syntax.args);
                    return Err(e);
                },
            };
            assert(args.syntax() =~= syntax.args);
            let function = get_second_param_func(&name, second)?;
            Ok((element, function))
        },
        None => Ok((SemanticType::Void, SemanticFunctionType::Category)),
    }
}

/// Whether the type `found` fits the signature `target_type`, in which
/// `Void` stands for a type parameter.
#[verifier::loop_isolation(false)]
pub fn param_type_eq_generic(found: &SemanticType, target_type: &SemanticType) -> (r: bool)
    ensures
        r == type_matches(found@, target_type@),
    decreases target_type,
{
    match target_type {
        SemanticType::Void => true,
        SemanticType::Primitive(p) => match found {
            SemanticType::Primitive(q) => *p == *q,
            _ => false,
        },
        SemanticType::Array(q) => match found {
            SemanticType::Array(e) => param_type_eq_generic(e, q),
            _ => false,
        },
        SemanticType::SetOf(q) => match found {
            SemanticType::SetOf(e) => param_type_eq_generic(e, q),
            _ => false,
        },
        SemanticType::Tuple(qs) => match found {
            SemanticType::Tuple(es) => {
                if es.len() != qs.len() {
                    return false;
                }
                let mut i: usize = 0;
                while i < qs.len()
                    invariant
                        0 <= i <= qs.len(),
                        forall|j: int| 0 <= j < i ==> type_matches(es[j]@, #[trigger] qs[j]@),
                    decreases qs.len() - i,
                {
                    if !param_type_eq_generic(&es[i], &qs[i]) {
                        assert(!type_matches(
                            found@->Tuple_0[i as int],
                            target_type@->Tuple_0[i as int],
                        ));
                        return false;
                    }
                    i += 1;
                }
                assert forall|j: int| 0 <= j < target_type@->Tuple_0.len() implies type_matches(
                    found@->Tuple_0[j],
                    #[trigger] target_type@->Tuple_0[j],
                ) by {
                    assert(type_matches(es[j]@, qs[j]@));
                }
                true
            },
            _ => false,
        },
        SemanticType::Function(f) => match found {
            SemanticType::Function(g) => *f == *g,
            _ => false,
        },
    }
}

} // verus!
