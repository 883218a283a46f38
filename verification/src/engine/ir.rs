//! The intermediate representation: single-assignment instructions numbered
//! in post-order, the lowering of a typed syntax tree to them, and their
//! flattening into an execution schedule.

use super::parser::{
    parse_command, AndSyntax, ArgSyntax, ArgumentNode, CaseSyntax, CommandExpressionNode,
    ExpressionAndNode, ExpressionCaseNode, ExpressionOrNode, FuncSyntax, FunctionExpressionNode,
    OrSyntax, ParseError, ParseErrorModel, Parser,
};
use super::semantic::{
    and_type, and_type_from, arg_type, case_type, check_semantic, command_type, func_type,
    or_type, or_type_from,
};
use super::semantic_type::{
    SemanticError, SemanticErrorModel, SemanticType, TypeModel, Typing,
};
use super::tokenizer::lex;
use crate::text::{decimal, push_decimal};
use std::collections::VecDeque;
use vstd::prelude::*;
use vstd::string::StringExecFns;

verus! {

/// The kinds of instruction.
#[derive(Debug, PartialEq, Eq, Structural, Clone, Copy)]
pub enum InstructionType {
    FunctionCall,
    UseFunction,
    Intercross,
    Concat,
    Constant,
}

/// An instruction. `data` holds the name of the function for calls and
/// function references, and the text of the literal for constants.
#[derive(Debug)]
pub struct Instruction {
    pub id: usize,
    pub inst_type: InstructionType,
    pub semantic_type: SemanticType,
    pub data: Option<String>,
    pub params: Option<Vec<Box<Instruction>>>,
}

/// The mathematical value of an [`Instruction`].
pub struct InstModel {
    pub id: nat,
    pub kind: InstructionType,
    pub ty: TypeModel,
    pub data: Option<Seq<char>>,
    pub params: Option<Seq<InstModel>>,
}

impl Instruction {
    /// The mathematical value of this instruction.
    pub open spec fn model(&self) -> InstModel
        decreases self,
    {
        InstModel {
            id: self.id as nat,
            kind: self.inst_type,
            ty: self.semantic_type@,
            data: match self.data {
                Some(text) => Some(text@),
                None => None,
            },
            params: match self.params {
                Some(params) => Some(
                    Seq::new(
                        params.len() as nat,
                        |i: int|
                            if 0 <= i < params.len() {
                                params[i].model()
                            } else {
                                arbitrary()
                            },
                    ),
                ),
                None => None,
            },
        }
    }
}

impl View for Instruction {
    type V = InstModel;

    open spec fn view(&self) -> InstModel {
        self.model()
    }
}

impl InstModel {
    /// The text in `data`; empty where there is none.
    pub open spec fn text(self) -> Seq<char> {
        match self.data {
            Some(text) => text,
            None => Seq::empty(),
        }
    }

    /// The operands; none where `params` is absent.
    pub open spec fn operands(self) -> Seq<InstModel> {
        match self.params {
            Some(params) => params,
            None => Seq::empty(),
        }
    }

    /// Function references and constants are read in place by the
    /// instruction they are operands of, and never executed by themselves.
    pub open spec fn is_leaf(self) -> bool {
        self.kind == InstructionType::UseFunction || self.kind == InstructionType::Constant
    }

    /// The operands are numbered below the instruction, and so it is all the
    /// way down.
    pub open spec fn id_ordered(self) -> bool
        decreases self,
    {
        forall|i: int|
            0 <= i < self.operands().len() ==> (#[trigger] self.operands()[i]).id < self.id
                && self.operands()[i].id_ordered()
    }
}

/// How an operand is written: `ref("name")` for a function reference,
/// `"text"` for a constant, `v` and the id for anything else.
pub open spec fn render_param(p: InstModel) -> Seq<char> {
    match p.kind {
        InstructionType::UseFunction => "ref(\""@ + p.text() + "\")"@,
        InstructionType::Constant => "\""@ + p.text() + "\""@,
        _ => "v"@ + decimal(p.id),
    }
}

/// The first `n` operands as they are written, with `, ` between them.
pub open spec fn join_params(ps: Seq<InstModel>, n: int) -> Seq<char>
    decreases n,
{
    if n <= 0 {
        Seq::empty()
    } else if n == 1 {
        render_param(ps[0])
    } else {
        join_params(ps, n - 1) + ", "@ + render_param(ps[n - 1])
    }
}

/// The operands as they are written; `{}` where `params` is absent.
pub open spec fn render_params(i: InstModel) -> Seq<char> {
    match i.params {
        Some(ps) => join_params(ps, ps.len() as int),
        None => "{}"@,
    }
}

/// The instruction as it is written: `name(...)` for a call, `&(...)` and
/// `|(...)` for the operators; a function reference or a constant as it is
/// written as an operand.
pub open spec fn render(i: InstModel) -> Seq<char> {
    match i.kind {
        InstructionType::FunctionCall => i.text() + "("@ + render_params(i) + ")"@,
        InstructionType::Intercross => "&("@ + render_params(i) + ")"@,
        InstructionType::Concat => "|("@ + render_params(i) + ")"@,
        _ => render_param(i),
    }
}

/// The type in a typing; `Void` where it is an error.
pub open spec fn type_or_void(t: Typing) -> TypeModel {
    match t {
        Ok(t) => t,
        Err(_) => TypeModel::Void,
    }
}

/// Lowers an `&` expression with the ids after `id`: the instruction, and
/// the last id given out. One operand lowers to itself; two or more lower,
/// in source order, to the operands of an `Intercross`.
pub open spec fn lower_and(a: AndSyntax, id: nat) -> (InstModel, nat)
    decreases a, a.ors.len() + 1,
{
    if a.ors.len() == 1 {
        lower_or(a.ors[0], id)
    } else {
        let (params, last) = lower_ors_from(a, 0, id, Seq::empty());
        (
            InstModel {
                id: last + 1,
                kind: InstructionType::Intercross,
                ty: type_or_void(and_type(a)),
                data: None,
                params: Some(params),
            },
            last + 1,
        )
    }
}

/// Lowers the operands of `a` from the `i`-th on, after the operands `acc`.
pub open spec fn lower_ors_from(a: AndSyntax, i: int, id: nat, acc: Seq<InstModel>) -> (
    Seq<InstModel>,
    nat,
)
    decreases a, a.ors.len() - i,
{
    if 0 <= i < a.ors.len() {
        let (inst, last) = lower_or(a.ors[i], id);
        lower_ors_from(a, i + 1, last, acc.push(inst))
    } else {
        (acc, id)
    }
}

/// Lowers an `|` expression with the ids after `id`. One operand lowers to
/// itself; two or more lower, in source order, to the operands of a
/// `Concat`.
pub open spec fn lower_or(o: OrSyntax, id: nat) -> (InstModel, nat)
    decreases o, o.cases.len() + 1,
{
    if o.cases.len() == 1 {
        lower_case(o.cases[0], id)
    } else {
        let (params, last) = lower_cases_from(o, 0, id, Seq::empty());
        (
            InstModel {
                id: last + 1,
                kind: InstructionType::Concat,
                ty: type_or_void(or_type(o)),
                data: None,
                params: Some(params),
            },
            last + 1,
        )
    }
}

/// Lowers the operands of `o` from the `i`-th on, after the operands `acc`.
pub open spec fn lower_cases_from(o: OrSyntax, i: int, id: nat, acc: Seq<InstModel>) -> (
    Seq<InstModel>,
    nat,
)
    decreases o, o.cases.len() - i,
{
    if 0 <= i < o.cases.len() {
        let (inst, last) = lower_case(o.cases[i], id);
        lower_cases_from(o, i + 1, last, acc.push(inst))
    } else {
        (acc, id)
    }
}

/// Lowers an operand: an expression in parentheses to what it lowers to, a
/// function to its instruction.
pub open spec fn lower_case(c: CaseSyntax, id: nat) -> (InstModel, nat)
    decreases c, 0nat,
{
    match c {
        CaseSyntax::Paren(inner) => lower_and(*inner, id),
        CaseSyntax::Func(func) => lower_func(func, id),
    }
}

/// Lowers a function expression: a function named as a value to a
/// `UseFunction` leaf, a call to a `FunctionCall` on its lowered arguments.
pub open spec fn lower_func(f: FuncSyntax, id: nat) -> (InstModel, nat)
    decreases f, f.args.len() + 1,
{
    if f.is_use {
        (
            InstModel {
                id: id + 1,
                kind: InstructionType::UseFunction,
                ty: type_or_void(func_type(f)),
                data: Some(f.name),
                params: None,
            },
            id + 1,
        )
    } else {
        let (params, last) = lower_args_from(f, 0, id, Seq::empty());
        (
            InstModel {
                id: last + 1,
                kind: InstructionType::FunctionCall,
                ty: type_or_void(func_type(f)),
                data: Some(f.name),
                params: Some(params),
            },
            last + 1,
        )
    }
}

/// Lowers the arguments of `f` from the `i`-th on, after the arguments
/// `acc`.
pub open spec fn lower_args_from(f: FuncSyntax, i: int, id: nat, acc: Seq<InstModel>) -> (
    Seq<InstModel>,
    nat,
)
    decreases f, f.args.len() - i,
{
    if 0 <= i < f.args.len() {
        let (inst, last) = lower_arg(f.args[i], id);
        lower_args_from(f, i + 1, last, acc.push(inst))
    } else {
        (acc, id)
    }
}

/// Lowers an argument: a literal to a `Constant` leaf, an expression to what
/// it lowers to.
pub open spec fn lower_arg(x: ArgSyntax, id: nat) -> (InstModel, nat)
    decreases x, 0nat,
{
    match x {
        ArgSyntax::Literal(text) => (
            InstModel {
                id: id + 1,
                kind: InstructionType::Constant,
                ty: type_or_void(arg_type(x)),
                data: Some(text),
                params: None,
            },
            id + 1,
        ),
        ArgSyntax::Expr(inner) => lower_and(inner, id),
    }
}

/// The instruction a command lowers to; its ids start at 1.
pub open spec fn lower(a: AndSyntax) -> InstModel {
    lower_and(a, 0).0
}

/// What lowering yields is well numbered: `next` is beyond `id`, the
/// instruction has the id `next`, and it is ordered all the way down.
pub open spec fn well_numbered(lowered: (InstModel, nat), id: nat) -> bool {
    &&& id < lowered.1
    &&& lowered.0.id == lowered.1
    &&& lowered.0.id_ordered()
}

/// Operands that are well numbered up to `id`.
pub open spec fn operands_below(params: Seq<InstModel>, id: nat) -> bool {
    forall|i: int| 0 <= i < params.len() ==> (#[trigger] params[i]).id <= id && params[i].id_ordered()
}

pub proof fn lemma_lower_and(a: AndSyntax, id: nat)
    ensures
        well_numbered(lower_and(a, id), id),
    decreases a, a.ors.len() + 1,
{
    if a.ors.len() == 1 {
        lemma_lower_or(a.ors[0], id);
    } else {
        lemma_lower_ors_from(a, 0, id, Seq::empty());
    }
}

pub proof fn lemma_lower_ors_from(a: AndSyntax, i: int, id: nat, acc: Seq<InstModel>)
    requires
        operands_below(acc, id),
    ensures
        id <= lower_ors_from(a, i, id, acc).1,
        operands_below(lower_ors_from(a, i, id, acc).0, lower_ors_from(a, i, id, acc).1),
    decreases a, a.ors.len() - i,
{
    if 0 <= i < a.ors.len() {
        lemma_lower_or(a.ors[i], id);
        let (inst, last) = lower_or(a.ors[i], id);
        lemma_lower_ors_from(a, i + 1, last, acc.push(inst));
    }
}

pub proof fn lemma_lower_or(o: OrSyntax, id: nat)
    ensures
        well_numbered(lower_or(o, id), id),
    decreases o, o.cases.len() + 1,
{
    if o.cases.len() == 1 {
        lemma_lower_case(o.cases[0], id);
    } else {
        lemma_lower_cases_from(o, 0, id, Seq::empty());
    }
}

pub proof fn lemma_lower_cases_from(o: OrSyntax, i: int, id: nat, acc: Seq<InstModel>)
    requires
        operands_below(acc, id),
    ensures
        id <= lower_cases_from(o, i, id, acc).1,
        operands_below(lower_cases_from(o, i, id, acc).0, lower_cases_from(o, i, id, acc).1),
    decreases o, o.cases.len() - i,
{
    if 0 <= i < o.cases.len() {
        lemma_lower_case(o.cases[i], id);
        let (inst, last) = lower_case(o.cases[i], id);
        lemma_lower_cases_from(o, i + 1, last, acc.push(inst));
    }
}

pub proof fn lemma_lower_case(c: CaseSyntax, id: nat)
    ensures
        well_numbered(lower_case(c, id), id),
    decreases c, 0nat,
{
    match c {
        CaseSyntax::Paren(inner) => lemma_lower_and(*inner, id),
        CaseSyntax::Func(func) => lemma_lower_func(func, id),
    }
}

pub proof fn lemma_lower_func(f: FuncSyntax, id: nat)
    ensures
        well_numbered(lower_func(f, id), id),
    decreases f, f.args.len() + 1,
{
    if !f.is_use {
        lemma_lower_args_from(f, 0, id, Seq::empty());
    }
}

pub proof fn lemma_lower_args_from(f: FuncSyntax, i: int, id: nat, acc: Seq<InstModel>)
    requires
        operands_below(acc, id),
    ensures
        id <= lower_args_from(f, i, id, acc).1,
        operands_below(lower_args_from(f, i, id, acc).0, lower_args_from(f, i, id, acc).1),
    decreases f, f.args.len() - i,
{
    if 0 <= i < f.args.len() {
        lemma_lower_arg(f.args[i], id);
        let (inst, last) = lower_arg(f.args[i], id);
        lemma_lower_args_from(f, i + 1, last, acc.push(inst));
    }
}

pub proof fn lemma_lower_arg(x: ArgSyntax, id: nat)
    ensures
        well_numbered(lower_arg(x, id), id),
    decreases x, 0nat,
{
    match x {
        ArgSyntax::Literal(_) => {},
        ArgSyntax::Expr(inner) => lemma_lower_and(inner, id),
    }
}

/// In the instruction a command lowers to, every operand has a smaller id
/// than the instruction it is an operand of.
pub proof fn lemma_lower_id_ordered(a: AndSyntax)
    ensures
        lower(a).id_ordered(),
{
    lemma_lower_and(a, 0);
}

pub proof fn lemma_lower_ors_grow(a: AndSyntax, i: int, id: nat, acc: Seq<InstModel>)
    ensures
        id <= lower_ors_from(a, i, id, acc).1,
    decreases a.ors.len() - i,
{
    if 0 <= i < a.ors.len() {
        lemma_lower_or(a.ors[i], id);
        let (inst, last) = lower_or(a.ors[i], id);
        lemma_lower_ors_grow(a, i + 1, last, acc.push(inst));
    }
}

pub proof fn lemma_lower_cases_grow(o: OrSyntax, i: int, id: nat, acc: Seq<InstModel>)
    ensures
        id <= lower_cases_from(o, i, id, acc).1,
    decreases o.cases.len() - i,
{
    if 0 <= i < o.cases.len() {
        lemma_lower_case(o.cases[i], id);
        let (inst, last) = lower_case(o.cases[i], id);
        lemma_lower_cases_grow(o, i + 1, last, acc.push(inst));
    }
}

pub proof fn lemma_lower_args_grow(f: FuncSyntax, i: int, id: nat, acc: Seq<InstModel>)
    ensures
        id <= lower_args_from(f, i, id, acc).1,
    decreases f.args.len() - i,
{
    if 0 <= i < f.args.len() {
        lemma_lower_arg(f.args[i], id);
        let (inst, last) = lower_arg(f.args[i], id);
        lemma_lower_args_grow(f, i + 1, last, acc.push(inst));
    }
}

/// The number of instructions in the tree of `i`.
pub open spec fn tree_size(i: InstModel) -> nat
    decreases i, i.operands().len() + 1,
{
    1 + operands_size(i, 0)
}

/// The number of instructions in the trees of the operands of `i` from the
/// `k`-th on.
pub open spec fn operands_size(i: InstModel, k: int) -> nat
    decreases i, i.operands().len() - k,
{
    if 0 <= k < i.operands().len() {
        tree_size(i.operands()[k]) + operands_size(i, k + 1)
    } else {
        0
    }
}

/// The number of instructions in the trees of a queue.
pub open spec fn queue_size(queue: Seq<InstModel>) -> nat
    decreases queue.len(),
{
    if queue.len() == 0 {
        0
    } else {
        tree_size(queue[0]) + queue_size(queue.skip(1))
    }
}

/// The operands of `i` from the `k`-th on that are executed by themselves,
/// last first.
pub open spec fn scheduled_operands(i: InstModel, k: int) -> Seq<InstModel>
    decreases i.operands().len() - k,
{
    if 0 <= k < i.operands().len() {
        if i.operands()[k].is_leaf() {
            scheduled_operands(i, k + 1)
        } else {
            scheduled_operands(i, k + 1).push(i.operands()[k])
        }
    } else {
        Seq::empty()
    }
}

pub proof fn lemma_queue_size_push(queue: Seq<InstModel>, i: InstModel)
    ensures
        queue_size(queue.push(i)) == queue_size(queue) + tree_size(i),
    decreases queue.len(),
{
    if queue.len() == 0 {
        assert(queue.push(i).skip(1) =~= Seq::<InstModel>::empty());
        assert(queue_size(queue.push(i).skip(1)) == 0);
    } else {
        assert(queue.push(i).skip(1) =~= queue.skip(1).push(i));
        assert(queue.push(i)[0] == queue[0]);
        lemma_queue_size_push(queue.skip(1), i);
    }
}

pub proof fn lemma_queue_size_add(a: Seq<InstModel>, b: Seq<InstModel>)
    ensures
        queue_size(a + b) == queue_size(a) + queue_size(b),
    decreases b.len(),
{
    if b.len() == 0 {
        assert(a + b =~= a);
    } else {
        assert(a + b =~= (a + b.drop_last()).push(b.last()));
        assert(b =~= b.drop_last().push(b.last()));
        lemma_queue_size_add(a, b.drop_last());
        lemma_queue_size_push(a + b.drop_last(), b.last());
        lemma_queue_size_push(b.drop_last(), b.last());
    }
}

pub proof fn lemma_scheduled_size(i: InstModel, k: int)
    ensures
        queue_size(scheduled_operands(i, k)) <= operands_size(i, k),
    decreases i.operands().len() - k,
{
    if 0 <= k < i.operands().len() {
        lemma_scheduled_size(i, k + 1);
        if !i.operands()[k].is_leaf() {
            lemma_queue_size_push(scheduled_operands(i, k + 1), i.operands()[k]);
        }
    }
}

/// The schedule of a breadth-first walk from a queue of instructions: the
/// walk takes the first of the queue, puts the operands of it that are
/// executed by themselves at the end of the queue, last operand first, and
/// puts the instruction itself in front of all that it has listed so far.
pub open spec fn flatten_queue(queue: Seq<InstModel>) -> Seq<InstModel>
    decreases queue_size(queue),
    via flatten_queue_decreases
{
    if queue.len() == 0 {
        Seq::empty()
    } else {
        flatten_queue(queue.skip(1) + scheduled_operands(queue[0], 0)).push(queue[0])
    }
}

#[via_fn]
proof fn flatten_queue_decreases(queue: Seq<InstModel>) {
    if queue.len() != 0 {
        lemma_queue_size_add(queue.skip(1), scheduled_operands(queue[0], 0));
        lemma_scheduled_size(queue[0], 0);
    }
}

/// What is scheduled of the operands of `i` are operands of `i`.
pub proof fn lemma_scheduled_are_operands(i: InstModel, k: int)
    requires
        0 <= k,
    ensures
        forall|n: int|
            0 <= n < scheduled_operands(i, k).len() ==> exists|j: int|
                k <= j < i.operands().len() && i.operands()[j] == #[trigger] scheduled_operands(
                    i,
                    k,
                )[n],
    decreases i.operands().len() - k,
{
    if k < i.operands().len() {
        lemma_scheduled_are_operands(i, k + 1);
        assert forall|n: int| 0 <= n < scheduled_operands(i, k).len() implies exists|j: int|
            k <= j < i.operands().len() && i.operands()[j] == #[trigger] scheduled_operands(
                i,
                k,
            )[n] by {
            if n < scheduled_operands(i, k + 1).len() {
                let j = choose|j: int|
                    k + 1 <= j < i.operands().len() && i.operands()[j] == scheduled_operands(
                        i,
                        k + 1,
                    )[n];
                assert(i.operands()[j] == scheduled_operands(i, k)[n]);
            } else {
                assert(i.operands()[k] == scheduled_operands(i, k)[n]);
            }
        }
    }
}

/// A walk from instructions that are ordered by id lists only instructions
/// that are ordered by id.
pub proof fn lemma_flatten_queue_ordered(queue: Seq<InstModel>)
    requires
        forall|i: int| 0 <= i < queue.len() ==> (#[trigger] queue[i]).id_ordered(),
    ensures
        forall|k: int|
            0 <= k < flatten_queue(queue).len() ==> (#[trigger] flatten_queue(queue)[k]).id_ordered(),
    decreases queue_size(queue),
{
    if queue.len() != 0 {
        let head = queue[0];
        let next = queue.skip(1) + scheduled_operands(head, 0);
        lemma_queue_size_add(queue.skip(1), scheduled_operands(head, 0));
        lemma_scheduled_size(head, 0);
        lemma_scheduled_are_operands(head, 0);
        assert forall|i: int| 0 <= i < next.len() implies (#[trigger] next[i]).id_ordered() by {
            if i < queue.skip(1).len() {
                assert(next[i] == queue[i + 1]);
            } else {
                let n = i - queue.skip(1).len();
                assert(next[i] == scheduled_operands(head, 0)[n]);
                let j = choose|j: int|
                    0 <= j < head.operands().len() && head.operands()[j] == scheduled_operands(
                        head,
                        0,
                    )[n];
                assert(head.operands()[j].id_ordered());
            }
        }
        lemma_flatten_queue_ordered(next);
        assert(flatten_queue(queue) == flatten_queue(next).push(head));
        assert forall|k: int| 0 <= k < flatten_queue(queue).len() implies (#[trigger] flatten_queue(
            queue,
        )[k]).id_ordered() by {
            if k < flatten_queue(next).len() {
                assert(flatten_queue(queue)[k] == flatten_queue(next)[k]);
            } else {
                assert(flatten_queue(queue)[k] == head);
            }
        }
    }
}

/// A walk lists every instruction of its queue.
pub proof fn lemma_flatten_queue_lists(queue: Seq<InstModel>)
    ensures
        forall|i: int| 0 <= i < queue.len() ==> flatten_queue(queue).contains(#[trigger] queue[i]),
    decreases queue_size(queue),
{
    if queue.len() != 0 {
        let head = queue[0];
        let next = queue.skip(1) + scheduled_operands(head, 0);
        lemma_queue_size_add(queue.skip(1), scheduled_operands(head, 0));
        lemma_scheduled_size(head, 0);
        lemma_flatten_queue_lists(next);
        let out = flatten_queue(queue);
        assert(out == flatten_queue(next).push(head));
        assert forall|i: int| 0 <= i < queue.len() implies out.contains(#[trigger] queue[i]) by {
            if i == 0 {
                assert(out[out.len() - 1] == head);
            } else {
                assert(next[i - 1] == queue[i]);
                assert(flatten_queue(next).contains(next[i - 1]));
                let j = choose|j: int|
                    0 <= j < flatten_queue(next).len() && flatten_queue(next)[j] == queue[i];
                assert(out[j] == queue[i]);
            }
        }
    }
}

/// An operand of `i` that is executed by itself is scheduled.
pub proof fn lemma_operands_are_scheduled(i: InstModel, k: int, j: int)
    requires
        0 <= k <= j < i.operands().len(),
        !i.operands()[j].is_leaf(),
    ensures
        scheduled_operands(i, k).contains(i.operands()[j]),
    decreases i.operands().len() - k,
{
    if k == j {
        let s = scheduled_operands(i, k);
        assert(s[s.len() - 1] == i.operands()[j]);
    } else {
        lemma_operands_are_scheduled(i, k + 1, j);
        let inner = scheduled_operands(i, k + 1);
        let at = choose|at: int| 0 <= at < inner.len() && inner[at] == i.operands()[j];
        assert(scheduled_operands(i, k)[at] == i.operands()[j]);
    }
}

/// In the schedule of a walk, every operand that is executed by itself
/// stands before the instruction that it is an operand of.
pub proof fn lemma_flatten_queue_schedules(queue: Seq<InstModel>)
    ensures
        forall|k: int, j: int|
            0 <= k < flatten_queue(queue).len() && 0 <= j < (#[trigger] flatten_queue(
                queue,
            )[k]).operands().len() && !(#[trigger] flatten_queue(queue)[k].operands()[j]).is_leaf()
                ==> exists|at: int|
                0 <= at < k && flatten_queue(queue)[at] == flatten_queue(queue)[k].operands()[j],
    decreases queue_size(queue),
{
    if queue.len() != 0 {
        let head = queue[0];
        let next = queue.skip(1) + scheduled_operands(head, 0);
        lemma_queue_size_add(queue.skip(1), scheduled_operands(head, 0));
        lemma_scheduled_size(head, 0);
        lemma_flatten_queue_schedules(next);
        lemma_flatten_queue_lists(next);
        let out = flatten_queue(queue);
        let inner = flatten_queue(next);
        assert(out == inner.push(head));
        assert forall|k: int, j: int|
            0 <= k < out.len() && 0 <= j < (#[trigger] out[k]).operands().len() && !(
            #[trigger] out[k].operands()[j]).is_leaf() implies exists|at: int|
            0 <= at < k && out[at] == out[k].operands()[j] by {
            if k < inner.len() {
                assert(out[k] == inner[k]);
                let at = choose|at: int| 0 <= at < k && inner[at] == inner[k].operands()[j];
                assert(out[at] == out[k].operands()[j]);
            } else {
                let p = head.operands()[j];
                lemma_operands_are_scheduled(head, 0, j);
                let s = scheduled_operands(head, 0);
                let n = choose|n: int| 0 <= n < s.len() && s[n] == p;
                assert(next[queue.skip(1).len() + n] == p);
                assert(inner.contains(next[queue.skip(1).len() + n]));
                let at = choose|at: int| 0 <= at < inner.len() && inner[at] == p;
                assert(out[at] == p);
            }
        }
    }
}

/// The schedule of a tree is a valid order of evaluation: the head of the
/// tree stands last, and every operand that is executed by itself stands
/// before the instruction that it is an operand of.
pub proof fn lemma_flatten_schedules(head: InstModel)
    ensures
        flatten(head).len() >= 1,
        flatten(head).last() == head,
        forall|k: int, j: int|
            0 <= k < flatten(head).len() && 0 <= j < (#[trigger] flatten(head)[k]).operands().len()
                && !(#[trigger] flatten(head)[k].operands()[j]).is_leaf() ==> exists|at: int|
                0 <= at < k && flatten(head)[at] == flatten(head)[k].operands()[j],
{
    lemma_flatten_queue_schedules(seq![head]);
    let queue = seq![head];
    assert(flatten_queue(queue) == flatten_queue(
        queue.skip(1) + scheduled_operands(queue[0], 0),
    ).push(queue[0]));
}

/// A walk from instructions that are executed by themselves lists only
/// such instructions.
pub proof fn lemma_flatten_queue_executable(queue: Seq<InstModel>)
    requires
        forall|i: int| 0 <= i < queue.len() ==> !(#[trigger] queue[i]).is_leaf(),
    ensures
        forall|k: int|
            0 <= k < flatten_queue(queue).len() ==> !(#[trigger] flatten_queue(queue)[k]).is_leaf(),
    decreases queue_size(queue),
{
    if queue.len() != 0 {
        let head = queue[0];
        let next = queue.skip(1) + scheduled_operands(head, 0);
        lemma_queue_size_add(queue.skip(1), scheduled_operands(head, 0));
        lemma_scheduled_size(head, 0);
        lemma_scheduled_are_operands(head, 0);
        lemma_scheduled_are_executable(head, 0);
        assert forall|i: int| 0 <= i < next.len() implies !(#[trigger] next[i]).is_leaf() by {
            if i < queue.skip(1).len() {
                assert(next[i] == queue[i + 1]);
            } else {
                assert(next[i] == scheduled_operands(head, 0)[i - queue.skip(1).len()]);
            }
        }
        lemma_flatten_queue_executable(next);
        assert(flatten_queue(queue) == flatten_queue(next).push(head));
        assert forall|k: int| 0 <= k < flatten_queue(queue).len() implies !(
        #[trigger] flatten_queue(queue)[k]).is_leaf() by {
            if k < flatten_queue(next).len() {
                assert(flatten_queue(queue)[k] == flatten_queue(next)[k]);
            } else {
                assert(flatten_queue(queue)[k] == head);
            }
        }
    }
}

/// What is scheduled of the operands of `i` is executed by itself.
pub proof fn lemma_scheduled_are_executable(i: InstModel, k: int)
    ensures
        forall|n: int|
            0 <= n < scheduled_operands(i, k).len() ==> !(#[trigger] scheduled_operands(
                i,
                k,
            )[n]).is_leaf(),
    decreases i.operands().len() - k,
{
    if 0 <= k < i.operands().len() {
        lemma_scheduled_are_executable(i, k + 1);
        let inner = scheduled_operands(i, k + 1);
        let now = scheduled_operands(i, k);
        assert forall|n: int| 0 <= n < now.len() implies !(#[trigger] now[n]).is_leaf() by {
            if n < inner.len() {
                assert(now[n] == inner[n]);
            }
        }
    }
}

/// Function references and constants never stand in a schedule by
/// themselves: the schedule of a tree whose head is executed by itself holds
/// only instructions that are.
pub proof fn lemma_flatten_executable(head: InstModel)
    requires
        !head.is_leaf(),
    ensures
        forall|k: int| 0 <= k < flatten(head).len() ==> !(#[trigger] flatten(head)[k]).is_leaf(),
{
    lemma_flatten_queue_executable(seq![head]);
}

/// An `&` expression never lowers to a constant, and it lowers to a
/// function reference only where its type is a function.
pub proof fn lemma_lower_and_kind(a: AndSyntax, id: nat)
    ensures
        lower_and(a, id).0.kind != InstructionType::Constant,
        lower_and(a, id).0.kind == InstructionType::UseFunction ==> !(and_type(a) matches Ok(t)
            && !(t is Function)),
    decreases a, 1nat,
{
    if a.ors.len() == 1 {
        lemma_lower_or_kind(a.ors[0], id);
        assert(and_type(a) == or_type(a.ors[0])) by {
            reveal_with_fuel(and_type_from, 2);
        }
    }
}

pub proof fn lemma_lower_or_kind(o: OrSyntax, id: nat)
    ensures
        lower_or(o, id).0.kind != InstructionType::Constant,
        lower_or(o, id).0.kind == InstructionType::UseFunction ==> !(or_type(o) matches Ok(t)
            && !(t is Function)),
    decreases o, 1nat,
{
    if o.cases.len() == 1 {
        lemma_lower_case_kind(o.cases[0], id);
        assert(or_type(o) == case_type(o.cases[0])) by {
            reveal_with_fuel(or_type_from, 2);
        }
    }
}

pub proof fn lemma_lower_case_kind(c: CaseSyntax, id: nat)
    ensures
        lower_case(c, id).0.kind != InstructionType::Constant,
        lower_case(c, id).0.kind == InstructionType::UseFunction ==> !(case_type(c) matches Ok(t)
            && !(t is Function)),
    decreases c, 0nat,
{
    match c {
        CaseSyntax::Paren(inner) => lemma_lower_and_kind(*inner, id),
        CaseSyntax::Func(func) => {},
    }
}

/// The instruction that a command compiles to is executed by itself: it is
/// neither a function reference nor a constant.
pub proof fn lemma_compiled_head_is_executable(command: Seq<char>)
    ensures
        compile(command) matches Ok(head) ==> !head.is_leaf(),
{
    if let Ok(syntax) = parse_command(lex(command)) {
        lemma_lower_and_kind(syntax, 0);
    }
}

/// In the schedule of a tree that is ordered by id, every operand of every
/// instruction has a smaller id than the instruction.
pub proof fn lemma_flatten_ordered(head: InstModel)
    requires
        head.id_ordered(),
    ensures
        forall|k: int, j: int|
            0 <= k < flatten(head).len() && 0 <= j < (#[trigger] flatten(head)[k]).operands().len()
                ==> (#[trigger] flatten(head)[k].operands()[j]).id < flatten(head)[k].id,
{
    lemma_flatten_queue_ordered(seq![head]);
    assert forall|k: int, j: int|
        0 <= k < flatten(head).len() && 0 <= j < (#[trigger] flatten(head)[k]).operands().len()
        implies (#[trigger] flatten(head)[k].operands()[j]).id < flatten(head)[k].id by {
        assert(flatten(head)[k].id_ordered());
    }
}

/// In the schedule of a compiled command, every operand of every
/// instruction has a smaller id than the instruction.
pub proof fn lemma_schedule_ids_ascend(syntax: AndSyntax)
    ensures
        forall|k: int, j: int|
            0 <= k < flatten(lower(syntax)).len() && 0 <= j < (#[trigger] flatten(
                lower(syntax),
            )[k]).operands().len() ==> (#[trigger] flatten(lower(syntax))[k].operands()[j]).id
                < flatten(lower(syntax))[k].id,
{
    lemma_lower_id_ordered(syntax);
    lemma_flatten_ordered(lower(syntax));
}

/// The execution schedule of the tree of `head`: operands stand before the
/// instruction they are operands of, and `head` stands last.
pub open spec fn flatten(head: InstModel) -> Seq<InstModel> {
    flatten_queue(seq![head])
}

/// The mathematical values of borrowed instructions.
pub open spec fn models(insts: Seq<&Instruction>) -> Seq<InstModel> {
    Seq::new(insts.len(), |i: int| insts[i]@)
}

/// A command that does not compile.
#[derive(Debug)]
pub enum CompileError {
    /// The command does not follow the grammar.
    Parse(ParseError),
    /// The command is ill-typed.
    Semantic(SemanticError),
    /// The command needs more instructions than can be numbered.
    TooLarge,
}

/// The mathematical value of a [`CompileError`].
pub enum CompileErrorModel {
    Parse(ParseErrorModel),
    Semantic(SemanticErrorModel),
    TooLarge,
}

impl View for CompileError {
    type V = CompileErrorModel;

    open spec fn view(&self) -> CompileErrorModel {
        match self {
            CompileError::Parse(e) => CompileErrorModel::Parse(e@),
            CompileError::Semantic(e) => CompileErrorModel::Semantic(e@),
            CompileError::TooLarge => CompileErrorModel::TooLarge,
        }
    }
}

/// What a command compiles to: the instruction that its syntax lowers to,
/// provided that it parses, is well typed, and its instructions can be
/// numbered.
pub open spec fn compile(command: Seq<char>) -> Result<InstModel, CompileErrorModel> {
    match parse_command(lex(command)) {
        Ok(syntax) => match command_type(syntax) {
            Ok(_) => if lower_and(syntax, 0).1 <= usize::MAX {
                Ok(lower(syntax))
            } else {
                Err(CompileErrorModel::TooLarge)
            },
            Err(e) => Err(CompileErrorModel::Semantic(e)),
        },
        Err(e) => Err(CompileErrorModel::Parse(e)),
    }
}

impl Instruction {
    /// The text in `data`; empty where there is none.
    fn text(&self) -> (r: &str)
        ensures
            r@ == self@.text(),
    {
        proof {
            reveal_strlit("");
        }
        match &self.data {
            Some(text) => text.as_str(),
            None => "",
        }
    }

    /// Appends the instruction, as it is written as an operand, to `out`.
    fn push_param(&self, out: &mut String)
        ensures
            final(out)@ == old(out)@ + render_param(self@),
    {
        match self.inst_type {
            InstructionType::UseFunction => {
                out.append("ref(\"");
                out.append(self.text());
                out.append("\")");
                assert(out@ =~= old(out)@ + render_param(self@));
            },
            InstructionType::Constant => {
                out.append("\"");
                out.append(self.text());
                out.append("\"");
                assert(out@ =~= old(out)@ + render_param(self@));
            },
            _ => {
                out.append("v");
                push_decimal(out, self.id as u64);
                assert(out@ =~= old(out)@ + render_param(self@));
            },
        }
    }

    /// The instruction as it is written: `name(...)` for a call, `&(...)`
    /// and `|(...)` for the operators.
    pub fn to_string(&self) -> (r: String)
        ensures
            r@ == render(self@),
    {
        let mut out = String::new();
        match self.inst_type {
            InstructionType::FunctionCall => {
                out.append(self.text());
                out.append("(");
                out.append(self.params_to_string().as_str());
                out.append(")");
                assert(out@ =~= render(self@));
            },
            InstructionType::Intercross => {
                out.append("&(");
                out.append(self.params_to_string().as_str());
                out.append(")");
                assert(out@ =~= render(self@));
            },
            InstructionType::Concat => {
                out.append("|(");
                out.append(self.params_to_string().as_str());
                out.append(")");
                assert(out@ =~= render(self@));
            },
            _ => {
                self.push_param(&mut out);
                assert(out@ =~= render(self@));
            },
        }
        out
    }

    /// The operands as they are written, with `, ` between them.
    pub fn params_to_string(&self) -> (r: String)
        ensures
            r@ == render_params(self@),
    {
        match &self.params {
            None => String::from_str("{}"),
            Some(params) => {
                let mut out = String::new();
                let ghost ps = self@.params->0;
                let mut i: usize = 0;
                while i < params.len()
                    invariant
                        0 <= i <= params.len(),
                        ps.len() == params.len(),
                        forall|j: int| 0 <= j < params.len() ==> ps[j] == params[j]@,
                        out@ == join_params(ps, i as int),
                    decreases params.len() - i,
                {
                    if i > 0 {
                        out.append(", ");
                    }
                    params[i].push_param(&mut out);
                    i += 1;
                    assert(out@ =~= join_params(ps, i as int));
                }
                out
            },
        }
    }
}

/// Compiles a command: `from` parses and checks it, `build` hands out the
/// instruction it lowers to.
pub struct IRBuilder {
    root: CommandExpressionNode,
    head: Instruction,
}

impl IRBuilder {
    /// The syntax of the command.
    pub closed spec fn syntax(&self) -> AndSyntax {
        self.root.syntax()
    }

    /// The instruction that `build` hands out.
    pub closed spec fn lowered(&self) -> InstModel {
        self.head@
    }

    /// Parses `target`, infers and checks its types, and lowers it.
    pub fn from(target: &str) -> (r: Result<IRBuilder, CompileError>)
        ensures
            match r {
                Ok(builder) => compile(target@) == Ok::<_, CompileErrorModel>(builder.lowered())
                    && builder.lowered().id_ordered() && !builder.lowered().is_leaf(),
                Err(e) => compile(target@) == Err::<InstModel, _>(e@),
            },
    {
        proof {
            lemma_compiled_head_is_executable(target@);
            if let Ok(syntax) = parse_command(lex(target@)) {
                lemma_lower_id_ordered(syntax);
            }
        }
        let mut p = Parser::from(target);
        let mut root = match p.parse() {
            Ok(root) => root,
            Err(e) => {
                return Err(CompileError::Parse(e));
            },
        };
        match check_semantic(&mut root) {
            Ok(_) => {},
            Err(e) => {
                return Err(CompileError::Semantic(e));
            },
        }
        let mut id_count: usize = 0;
        match Self::visit_root(&mut id_count, &root) {
            Some(head) => Ok(IRBuilder { root, head }),
            None => Err(CompileError::TooLarge),
        }
    }

    /// The instruction that the command lowers to. Its ids are given out in
    /// post-order from 1 on, so that every operand has a smaller id than the
    /// instruction it is an operand of, and every instruction carries the
    /// type inferred for the node of the syntax tree that it stands for.
    pub fn build(self) -> (head: Instruction)
        ensures
            head@ == self.lowered(),
    {
        self.head
    }

    /// The execution schedule of the tree of `head_inst`: a breadth-first
    /// walk in which every instruction visited goes in front of those
    /// visited before it. Where the operands in the tree have smaller ids
    /// than their instructions, so have the operands of every instruction of
    /// the schedule.
    pub fn ir_flatten(head_inst: &Instruction) -> (insts: Vec<&Instruction>)
        ensures
            models(insts@) == flatten(head_inst@),
            insts.len() >= 1,
            insts[insts.len() - 1]@ == head_inst@,
            head_inst@.id_ordered() ==> forall|k: int, j: int|
                0 <= k < insts.len() && 0 <= j < (#[trigger] insts[k]@).operands().len() ==> (
                #[trigger] insts[k]@.operands()[j]).id < insts[k]@.id,
    {
        proof {
            lemma_flatten_schedules(head_inst@);
            if head_inst@.id_ordered() {
                lemma_flatten_ordered(head_inst@);
            }
        }
        let mut insts: Vec<&Instruction> = Vec::new();
        let mut dq: VecDeque<&Instruction> = VecDeque::new();
        dq.push_back(head_inst);
        assert(models(dq@) =~= seq![head_inst@]);
        while dq.len() > 0
            invariant
                flatten(head_inst@) == flatten_queue(models(dq@)) + models(insts@),
            decreases queue_size(models(dq@)),
        {
            let ghost queue = models(dq@);
            let ghost listed = models(insts@);
            let p = dq.pop_front().unwrap();
            assert(models(dq@) =~= queue.skip(1));
            insts.insert(0, p);
            assert(models(insts@) =~= seq![p@] + listed);
            if let Some(params) = &p.params {
                let mut k: usize = params.len();
                while k > 0
                    invariant
                        k <= params.len(),
                        p.params == Some(*params),
                        models(dq@) == queue.skip(1) + scheduled_operands(p@, k as int),
                    decreases k,
                {
                    k -= 1;
                    let ghost before = models(dq@);
                    assert(p@.operands()[k as int] == params[k as int]@);
                    match params[k].inst_type {
                        InstructionType::UseFunction | InstructionType::Constant => {},
                        _ => {
                            dq.push_back(&*params[k]);
                            assert(models(dq@) =~= before.push(params[k as int]@));
                        },
                    }
                }
            }
            proof {
                lemma_queue_size_add(queue.skip(1), scheduled_operands(queue[0], 0));
                lemma_scheduled_size(queue[0], 0);
                assert(flatten_queue(queue) + listed =~= flatten_queue(models(dq@)) + models(
                    insts@,
                ));
            }
        }
        assert(flatten_queue(models(dq@)) =~= Seq::<InstModel>::empty());
        assert(models(insts@) =~= flatten(head_inst@));
        assert forall|k: int| 0 <= k < insts.len() implies insts[k]@ == flatten(head_inst@)[k] by {
            assert(models(insts@)[k] == insts[k]@);
        }
        proof {
            if head_inst@.id_ordered() {
                assert forall|k: int, j: int|
                    0 <= k < insts.len() && 0 <= j < (#[trigger] insts[k]@).operands().len()
                    implies (#[trigger] insts[k]@.operands()[j]).id < insts[k]@.id by {
                    assert(insts[k]@ == flatten(head_inst@)[k]);
                    assert(flatten(head_inst@)[k].operands()[j].id < flatten(head_inst@)[k].id);
                }
            }
        }
        insts
    }

    fn visit_root(id_count: &mut usize, node: &CommandExpressionNode) -> (r: Option<Instruction>)
        requires
            node.wf(),
            node.annotated(),
        ensures
            lowering_of(r, *final(id_count)) == lowering_within(
                lower_and(node.syntax(), *old(id_count) as nat),
            ),
    {
        Self::visit_expr_and(id_count, &node.expr_and)
    }

    #[verifier::loop_isolation(false)]
    fn visit_expr_and(id_count: &mut usize, node: &ExpressionAndNode) -> (r: Option<Instruction>)
        requires
            node.wf(),
            node.annotated(),
        ensures
            lowering_of(r, *final(id_count)) == lowering_within(
                lower_and(node.syntax(), *old(id_count) as nat),
            ),
        decreases node, 0nat,
    {
        let ghost a = node.syntax();
        let ghost start = *id_count as nat;
        if node.expr_ors.len() == 1 {
            return Self::visit_expr_or(id_count, &node.expr_ors[0]);
        }
        let mut params: Vec<Box<Instruction>> = Vec::new();
        let ghost mut acc: Seq<InstModel> = Seq::empty();
        let mut i: usize = 0;
        while i < node.expr_ors.len()
            invariant
                0 <= i <= node.expr_ors.len(),
                acc.len() == params.len(),
                forall|j: int| 0 <= j < params.len() ==> acc[j] == (#[trigger] params[j])@,
                lower_ors_from(a, 0, start, Seq::empty()) == lower_ors_from(
                    a,
                    i as int,
                    *id_count as nat,
                    acc,
                ),
            decreases node.expr_ors.len() - i,
        {
            proof {
                let (inst, last) = lower_or(a.ors[i as int], *id_count as nat);
                lemma_lower_ors_grow(a, i + 1, last, acc.push(inst));
            }
            let inst = Self::visit_expr_or(id_count, &node.expr_ors[i])?;
            proof {
                acc = acc.push(inst@);
            }
            params.push(Box::new(inst));
            i += 1;
        }
        let id = Self::next_id(id_count)?;
        let inst = Instruction {
            id,
            inst_type: InstructionType::Intercross,
            semantic_type: Self::type_of(&node.semantic_type),
            data: None,
            params: Some(params),
        };
        assert(inst@.params->0 =~= acc);
        Some(inst)
    }

    #[verifier::loop_isolation(false)]
    fn visit_expr_or(id_count: &mut usize, node: &ExpressionOrNode) -> (r: Option<Instruction>)
        requires
            node.wf(),
            node.annotated(),
        ensures
            lowering_of(r, *final(id_count)) == lowering_within(
                lower_or(node.syntax(), *old(id_count) as nat),
            ),
        decreases node, 0nat,
    {
        let ghost o = node.syntax();
        let ghost start = *id_count as nat;
        if node.expr_cases.len() == 1 {
            return Self::visit_expr_case(id_count, &node.expr_cases[0]);
        }
        let mut params: Vec<Box<Instruction>> = Vec::new();
        let ghost mut acc: Seq<InstModel> = Seq::empty();
        let mut i: usize = 0;
        while i < node.expr_cases.len()
            invariant
                0 <= i <= node.expr_cases.len(),
                acc.len() == params.len(),
                forall|j: int| 0 <= j < params.len() ==> acc[j] == (#[trigger] params[j])@,
                lower_cases_from(o, 0, start, Seq::empty()) == lower_cases_from(
                    o,
                    i as int,
                    *id_count as nat,
                    acc,
                ),
            decreases node.expr_cases.len() - i,
        {
            proof {
                let (inst, last) = lower_case(o.cases[i as int], *id_count as nat);
                lemma_lower_cases_grow(o, i + 1, last, acc.push(inst));
            }
            let inst = Self::visit_expr_case(id_count, &node.expr_cases[i])?;
            proof {
                acc = acc.push(inst@);
            }
            params.push(Box::new(inst));
            i += 1;
        }
        let id = Self::next_id(id_count)?;
        let inst = Instruction {
            id,
            inst_type: InstructionType::Concat,
            semantic_type: Self::type_of(&node.semantic_type),
            data: None,
            params: Some(params),
        };
        assert(inst@.params->0 =~= acc);
        Some(inst)
    }

    fn visit_expr_case(id_count: &mut usize, node: &ExpressionCaseNode) -> (r: Option<Instruction>)
        requires
            node.wf(),
            node.annotated(),
        ensures
            lowering_of(r, *final(id_count)) == lowering_within(
                lower_case(node.syntax(), *old(id_count) as nat),
            ),
        decreases node, 0nat,
    {
        match &node.expr_and {
            Some(expr_and) => Self::visit_expr_and(id_count, expr_and),
            None => match &node.func {
                Some(func) => Self::visit_func(id_count, func),
                None => None,
            },
        }
    }

    #[verifier::loop_isolation(false)]
    fn visit_func(id_count: &mut usize, node: &FunctionExpressionNode) -> (r: Option<Instruction>)
        requires
            node.wf(),
            node.annotated(),
        ensures
            lowering_of(r, *final(id_count)) == lowering_within(
                lower_func(node.syntax(), *old(id_count) as nat),
            ),
        decreases node, 1nat,
    {
        let ghost f = node.syntax();
        let ghost start = *id_count as nat;
        let semantic_type = Self::type_of(&node.semantic_type);
        if node.is_use {
            let id = Self::next_id(id_count)?;
            Some(
                Instruction {
                    id,
                    inst_type: InstructionType::UseFunction,
                    semantic_type,
                    data: Some(node.name.clone()),
                    params: None,
                },
            )
        } else {
            let mut params: Vec<Box<Instruction>> = Vec::new();
            let ghost mut acc: Seq<InstModel> = Seq::empty();
            if let Some(args) = &node.args {
                let mut i: usize = 0;
                while i < args.args.len()
                    invariant
                        0 <= i <= args.args.len(),
                        acc.len() == params.len(),
                        forall|j: int| 0 <= j < params.len() ==> acc[j] == (#[trigger] params[j])@,
                        lower_args_from(f, 0, start, Seq::empty()) == lower_args_from(
                            f,
                            i as int,
                            *id_count as nat,
                            acc,
                        ),
                    decreases args.args.len() - i,
                {
                    proof {
                        let (inst, last) = lower_arg(f.args[i as int], *id_count as nat);
                        lemma_lower_args_grow(f, i + 1, last, acc.push(inst));
                    }
                    let inst = Self::visit_arg(id_count, &args.args[i])?;
                    proof {
                        acc = acc.push(inst@);
                    }
                    params.push(Box::new(inst));
                    i += 1;
                }
            }
            let id = Self::next_id(id_count)?;
            let inst = Instruction {
                id,
                inst_type: InstructionType::FunctionCall,
                semantic_type,
                data: Some(node.name.clone()),
                params: Some(params),
            };
            assert(inst@.params->0 =~= acc);
            Some(inst)
        }
    }

    fn visit_arg(id_count: &mut usize, node: &ArgumentNode) -> (r: Option<Instruction>)
        requires
            node.wf(),
            node.annotated(),
        ensures
            lowering_of(r, *final(id_count)) == lowering_within(
                lower_arg(node.syntax(), *old(id_count) as nat),
            ),
        decreases node, 0nat,
    {
        match &node.value {
            Some(text) => {
                let id = Self::next_id(id_count)?;
                Some(
                    Instruction {
                        id,
                        inst_type: InstructionType::Constant,
                        semantic_type: Self::type_of(&node.semantic_type),
                        data: Some(text.clone()),
                        params: None,
                    },
                )
            },
            None => match &node.expr_and {
                Some(expr_and) => Self::visit_expr_and(id_count, expr_and),
                None => None,
            },
        }
    }

    /// The next id, unless the ids have run out.
    fn next_id(id_count: &mut usize) -> (r: Option<usize>)
        ensures
            match r {
                Some(id) => id == *old(id_count) + 1 && *final(id_count) == id,
                None => *old(id_count) + 1 > usize::MAX && *final(id_count) == *old(id_count),
            },
    {
        if *id_count == usize::MAX {
            None
        } else {
            *id_count += 1;
            Some(*id_count)
        }
    }

    /// A copy of the type a node is annotated with.
    fn type_of(annotation: &Option<SemanticType>) -> (r: SemanticType)
        ensures
            annotation matches Some(t) ==> r@ == t@,
    {
        match annotation {
            Some(t) => t.clone(),
            None => SemanticType::Void,
        }
    }
}

/// What an exec lowering returned, for comparison with [`lowering_within`].
pub open spec fn lowering_of(r: Option<Instruction>, last: usize) -> Option<(InstModel, nat)> {
    match r {
        Some(inst) => Some((inst@, last as nat)),
        None => None,
    }
}

/// A lowering, if its ids fit the machine's integers.
pub open spec fn lowering_within(lowered: (InstModel, nat)) -> Option<(InstModel, nat)> {
    if lowered.1 <= usize::MAX {
        Some(lowered)
    } else {
        None
    }
}

} // verus!
