//! What the analyzer buys the machine: a command that compiles runs without
//! ever finding its schedule malformed.

use super::ir::{
    compile, flatten, flatten_queue, lemma_compiled_head_is_executable,
    lemma_flatten_executable, lemma_flatten_schedules, lemma_queue_size_add,
    lemma_scheduled_are_operands, lemma_scheduled_size, lower, lower_and, lower_arg,
    lower_args_from, lower_case, lower_cases_from, lower_func, lower_or, lower_ors_from,
    queue_size, scheduled_operands, InstModel, InstructionType,
};
use super::parser::{
    canonical_and, canonical_arg, canonical_case, canonical_func, canonical_or, lemma_parse_text,
    parse_command, AndSyntax, ArgSyntax, CaseSyntax, FuncSyntax, OrSyntax,
};
use super::query::{query_value, QueryErrorModel};
use super::semantic::{
    and_type, and_type_from, arg_type, binary_arg_types, case_type, func_type, is_title_builtin,
    or_type, or_type_from, unary_arg_type,
};
use super::semantic_type::{concat_type, intercross_type, TypeModel, Typing};
use super::tokenizer::lex;
use super::value::ValueModel;
use super::vm::{
    article, articles_from, eval_count, eval_flatten, eval_func, eval_group_sum, eval_inst,
    eval_map, eval_set, eval_title, flatten_from, is_body_function, is_reserved_function,
    is_title_function, operand_array, operand_arrays, operand_text, run_from, run_program,
    title_option, CorpusModel, RuntimeErrorModel, Store,
};
use crate::index::title::{article_of, matching_titles};
use crate::model::article::ArticleModel;
use vstd::prelude::*;

verus! {

/// A type of values: neither nothing nor a function.
pub open spec fn is_plain(t: TypeModel) -> bool {
    !(t is Void) && !(t is Function)
}

/// A type of arrays or of sets.
pub open spec fn is_container(t: TypeModel) -> bool {
    t is Array || t is SetOf
}

/// The type in a typing that is no error.
pub open spec fn type_in(t: Typing) -> TypeModel {
    t->Ok_0
}

proof fn lemma_and_fold(a: AndSyntax, i: int, acc: TypeModel)
    requires
        1 <= i <= a.ors.len(),
        and_type_from(a, i, acc) is Ok,
    ensures
        forall|j: int|
            i <= j < a.ors.len() ==> or_type(#[trigger] a.ors[j]) is Ok && is_container(
                type_in(or_type(a.ors[j])),
            ),
        i < a.ors.len() ==> is_container(acc) && is_container(type_in(and_type_from(a, i, acc))),
        i == a.ors.len() ==> type_in(and_type_from(a, i, acc)) == acc,
    decreases a.ors.len() - i,
{
    if i < a.ors.len() {
        let t = type_in(or_type(a.ors[i]));
        let joined = type_in(intercross_type(acc, t));
        lemma_and_fold(a, i + 1, joined);
    }
}

proof fn lemma_or_fold(o: OrSyntax, i: int, acc: TypeModel)
    requires
        1 <= i <= o.cases.len(),
        or_type_from(o, i, acc) is Ok,
    ensures
        forall|j: int| i <= j < o.cases.len() ==> case_type(#[trigger] o.cases[j]) is Ok,
    decreases o.cases.len() - i,
{
    if i < o.cases.len() {
        let t = type_in(case_type(o.cases[i]));
        let joined = type_in(concat_type(acc, t));
        lemma_or_fold(o, i + 1, joined);
    }
}

proof fn lemma_or_fold_plain(o: OrSyntax, i: int, acc: TypeModel)
    requires
        1 <= i <= o.cases.len(),
        or_type_from(o, i, acc) is Ok,
        !(acc is Void),
        i < o.cases.len() ==> !(acc is Function),
        forall|j: int|
            i <= j < o.cases.len() ==> case_type(#[trigger] o.cases[j]) is Ok && !(type_in(
                case_type(o.cases[j]),
            ) is Void),
    ensures
        forall|j: int| i <= j < o.cases.len() ==> is_plain(type_in(case_type(#[trigger] o.cases[j]))),
        !(type_in(or_type_from(o, i, acc)) is Void),
        i < o.cases.len() ==> is_plain(type_in(or_type_from(o, i, acc))),
        i == o.cases.len() ==> type_in(or_type_from(o, i, acc)) == acc,
    decreases o.cases.len() - i,
{
    if i < o.cases.len() {
        let t = type_in(case_type(o.cases[i]));
        let joined = type_in(concat_type(acc, t));
        assert(is_plain(t));
        assert(is_plain(joined));
        lemma_or_fold_plain(o, i + 1, joined);
    }
}

/// The type of a call is never a function, and never nothing.
proof fn lemma_call_is_plain(f: FuncSyntax)
    requires
        !f.is_use,
        func_type(f) is Ok,
    ensures
        is_plain(type_in(func_type(f))),
{
}

/// What holds of a well-typed `&` expression: its type is not nothing, its
/// operands are well typed, several operands are containers, and a single
/// operand gives the expression its type.
pub proof fn lemma_facts_and(a: AndSyntax)
    requires
        canonical_and(a),
        and_type(a) is Ok,
    ensures
        !(type_in(and_type(a)) is Void),
        forall|j: int| 0 <= j < a.ors.len() ==> or_type(#[trigger] a.ors[j]) is Ok,
        a.ors.len() >= 2 ==> is_container(type_in(and_type(a))) && forall|j: int|
            0 <= j < a.ors.len() ==> is_container(type_in(or_type(#[trigger] a.ors[j]))),
        a.ors.len() == 1 ==> and_type(a) == or_type(a.ors[0]),
    decreases a, 1nat,
{
    let first = type_in(or_type(a.ors[0]));
    lemma_and_fold(a, 1, first);
    if a.ors.len() == 1 {
        lemma_facts_or(a.ors[0]);
    }
}

/// What holds of a well-typed `|` expression: its type is not nothing, its
/// operands are well typed, several operands are values, and a single
/// operand gives the expression its type.
pub proof fn lemma_facts_or(o: OrSyntax)
    requires
        canonical_or(o),
        or_type(o) is Ok,
    ensures
        !(type_in(or_type(o)) is Void),
        forall|j: int| 0 <= j < o.cases.len() ==> case_type(#[trigger] o.cases[j]) is Ok,
        o.cases.len() >= 2 ==> is_plain(type_in(or_type(o))) && forall|j: int|
            0 <= j < o.cases.len() ==> is_plain(type_in(case_type(#[trigger] o.cases[j]))),
        o.cases.len() == 1 ==> or_type(o) == case_type(o.cases[0]),
    decreases o, 1nat,
{
    let first = type_in(case_type(o.cases[0]));
    lemma_or_fold(o, 1, first);
    assert forall|j: int| 0 <= j < o.cases.len() implies case_type(#[trigger] o.cases[j]) is Ok
        && !(type_in(case_type(o.cases[j])) is Void) by {
        lemma_facts_case(o.cases[j]);
    }
    lemma_or_fold_plain(o, 1, first);
}

/// The type of a well-typed operand is not nothing.
pub proof fn lemma_facts_case(c: CaseSyntax)
    requires
        canonical_case(c),
        case_type(c) is Ok,
    ensures
        !(type_in(case_type(c)) is Void),
    decreases c, 0nat,
{
    match c {
        CaseSyntax::Paren(inner) => lemma_facts_and(*inner),
        CaseSyntax::Func(func) => {
            if !func.is_use {
                lemma_call_is_plain(func);
            }
        },
    }
}

/// The shape that the machine asks of an instruction: a title builtin has
/// one operand, a constant; `count`, `set`, `group_sum` and `flatten` have
/// one, an instruction that is executed by itself; `map` and `sort` have
/// such an instruction and a function reference; the operands of `&` and
/// `|` are executed by themselves.
pub open spec fn sound_shape(inst: InstModel) -> bool {
    let ops = inst.operands();
    match inst.kind {
        InstructionType::FunctionCall => {
            let name = inst.text();
            ||| is_title_builtin(name) && ops.len() == 1 && ops[0].kind
                == InstructionType::Constant && ops[0].data is Some
            ||| (name == "count"@ || name == "set"@ || name == "group_sum"@ || name == "flatten"@)
                && ops.len() == 1 && !ops[0].is_leaf()
            ||| (name == "map"@ || name == "sort"@) && ops.len() == 2 && !ops[0].is_leaf()
                && ops[1].kind == InstructionType::UseFunction && ops[1].data is Some
        },
        InstructionType::Intercross => forall|k: int|
            0 <= k < ops.len() ==> !(#[trigger] ops[k]).is_leaf(),
        InstructionType::Concat => forall|k: int|
            0 <= k < ops.len() ==> !(#[trigger] ops[k]).is_leaf(),
        _ => true,
    }
}

/// Every instruction of a tree has the shape that the machine asks of it.
pub open spec fn all_sound(inst: InstModel) -> bool
    decreases inst,
{
    &&& sound_shape(inst)
    &&& forall|k: int| 0 <= k < inst.operands().len() ==> all_sound(#[trigger] inst.operands()[k])
}

/// What the lowering of a well-typed expression is: a tree of sound
/// instructions, whose head is never a constant and is a function reference
/// exactly where the type of the expression is a function.
pub open spec fn sound_lowering(inst: InstModel, t: TypeModel) -> bool {
    &&& all_sound(inst)
    &&& inst.kind != InstructionType::Constant
    &&& inst.kind == InstructionType::UseFunction <==> t is Function
    &&& inst.kind == InstructionType::UseFunction ==> inst.data is Some
}

/// `inst` is what `o` lowers to, from some id on.
pub open spec fn is_lowered_or(inst: InstModel, o: OrSyntax) -> bool {
    exists|w: nat| inst == #[trigger] lower_or(o, w).0
}

/// `inst` is what `c` lowers to, from some id on.
pub open spec fn is_lowered_case(inst: InstModel, c: CaseSyntax) -> bool {
    exists|w: nat| inst == #[trigger] lower_case(c, w).0
}

/// `inst` is what `x` lowers to, from some id on.
pub open spec fn is_lowered_arg(inst: InstModel, x: ArgSyntax) -> bool {
    exists|w: nat| inst == #[trigger] lower_arg(x, w).0
}

proof fn lemma_ors_from(a: AndSyntax, i: int, id: nat, acc: Seq<InstModel>)
    requires
        0 <= i <= a.ors.len(),
        acc.len() == i,
        forall|k: int| 0 <= k < i ==> is_lowered_or(#[trigger] acc[k], a.ors[k]),
    ensures
        lower_ors_from(a, i, id, acc).0.len() == a.ors.len(),
        forall|k: int|
            0 <= k < a.ors.len() ==> is_lowered_or(
                #[trigger] lower_ors_from(a, i, id, acc).0[k],
                a.ors[k],
            ),
    decreases a.ors.len() - i,
{
    if i < a.ors.len() {
        let (inst, last) = lower_or(a.ors[i], id);
        let next = acc.push(inst);
        assert forall|k: int| 0 <= k < i + 1 implies is_lowered_or(#[trigger] next[k], a.ors[k]) by {
            if k < i {
                assert(next[k] == acc[k]);
            } else {
                assert(next[k] == lower_or(a.ors[k], id).0);
            }
        }
        lemma_ors_from(a, i + 1, last, next);
    }
}

proof fn lemma_cases_from(o: OrSyntax, i: int, id: nat, acc: Seq<InstModel>)
    requires
        0 <= i <= o.cases.len(),
        acc.len() == i,
        forall|k: int| 0 <= k < i ==> is_lowered_case(#[trigger] acc[k], o.cases[k]),
    ensures
        lower_cases_from(o, i, id, acc).0.len() == o.cases.len(),
        forall|k: int|
            0 <= k < o.cases.len() ==> is_lowered_case(
                #[trigger] lower_cases_from(o, i, id, acc).0[k],
                o.cases[k],
            ),
    decreases o.cases.len() - i,
{
    if i < o.cases.len() {
        let (inst, last) = lower_case(o.cases[i], id);
        let next = acc.push(inst);
        assert forall|k: int| 0 <= k < i + 1 implies is_lowered_case(
            #[trigger] next[k],
            o.cases[k],
        ) by {
            if k < i {
                assert(next[k] == acc[k]);
            } else {
                assert(next[k] == lower_case(o.cases[k], id).0);
            }
        }
        lemma_cases_from(o, i + 1, last, next);
    }
}

proof fn lemma_args_from(f: FuncSyntax, i: int, id: nat, acc: Seq<InstModel>)
    requires
        0 <= i <= f.args.len(),
        acc.len() == i,
        forall|k: int| 0 <= k < i ==> is_lowered_arg(#[trigger] acc[k], f.args[k]),
    ensures
        lower_args_from(f, i, id, acc).0.len() == f.args.len(),
        forall|k: int|
            0 <= k < f.args.len() ==> is_lowered_arg(
                #[trigger] lower_args_from(f, i, id, acc).0[k],
                f.args[k],
            ),
    decreases f.args.len() - i,
{
    if i < f.args.len() {
        let (inst, last) = lower_arg(f.args[i], id);
        let next = acc.push(inst);
        assert forall|k: int| 0 <= k < i + 1 implies is_lowered_arg(#[trigger] next[k], f.args[k]) by {
            if k < i {
                assert(next[k] == acc[k]);
            } else {
                assert(next[k] == lower_arg(f.args[k], id).0);
            }
        }
        lemma_args_from(f, i + 1, last, next);
    }
}

/// A well-typed `&` expression lowers to sound instructions.
pub proof fn lemma_sound_and(a: AndSyntax, id: nat)
    requires
        canonical_and(a),
        and_type(a) is Ok,
    ensures
        sound_lowering(lower_and(a, id).0, type_in(and_type(a))),
    decreases a, 1nat,
{
    lemma_facts_and(a);
    if a.ors.len() == 1 {
        lemma_sound_or(a.ors[0], id);
    } else {
        lemma_ors_from(a, 0, id, Seq::empty());
        let inst = lower_and(a, id).0;
        let ops = inst.operands();
        assert forall|k: int| 0 <= k < ops.len() implies all_sound(#[trigger] ops[k])
            && !ops[k].is_leaf() by {
            assert(is_lowered_or(ops[k], a.ors[k]));
            let w = choose|w: nat| ops[k] == lower_or(a.ors[k], w).0;
            lemma_sound_or(a.ors[k], w);
            assert(is_container(type_in(or_type(a.ors[k]))));
        }
    }
}

/// A well-typed `|` expression lowers to sound instructions.
pub proof fn lemma_sound_or(o: OrSyntax, id: nat)
    requires
        canonical_or(o),
        or_type(o) is Ok,
    ensures
        sound_lowering(lower_or(o, id).0, type_in(or_type(o))),
    decreases o, 1nat,
{
    lemma_facts_or(o);
    if o.cases.len() == 1 {
        lemma_sound_case(o.cases[0], id);
    } else {
        lemma_cases_from(o, 0, id, Seq::empty());
        let inst = lower_or(o, id).0;
        let ops = inst.operands();
        assert forall|k: int| 0 <= k < ops.len() implies all_sound(#[trigger] ops[k])
            && !ops[k].is_leaf() by {
            assert(is_lowered_case(ops[k], o.cases[k]));
            let w = choose|w: nat| ops[k] == lower_case(o.cases[k], w).0;
            lemma_sound_case(o.cases[k], w);
            assert(is_plain(type_in(case_type(o.cases[k]))));
        }
    }
}

/// A well-typed operand lowers to sound instructions.
pub proof fn lemma_sound_case(c: CaseSyntax, id: nat)
    requires
        canonical_case(c),
        case_type(c) is Ok,
    ensures
        sound_lowering(lower_case(c, id).0, type_in(case_type(c))),
    decreases c, 0nat,
{
    match c {
        CaseSyntax::Paren(inner) => lemma_sound_and(*inner, id),
        CaseSyntax::Func(func) => lemma_sound_func(func, id),
    }
}

/// A well-typed argument lowers to sound instructions: a literal to a
/// constant, an expression as expressions do.
pub proof fn lemma_sound_arg(x: ArgSyntax, id: nat)
    requires
        canonical_arg(x),
        arg_type(x) is Ok,
    ensures
        all_sound(lower_arg(x, id).0),
        x is Literal ==> lower_arg(x, id).0.kind == InstructionType::Constant && lower_arg(
            x,
            id,
        ).0.data is Some,
        x is Expr ==> sound_lowering(lower_arg(x, id).0, type_in(arg_type(x))),
    decreases x, 0nat,
{
    match x {
        ArgSyntax::Literal(_) => {},
        ArgSyntax::Expr(inner) => lemma_sound_and(inner, id),
    }
}

/// A well-typed function expression lowers to sound instructions.
pub proof fn lemma_sound_func(f: FuncSyntax, id: nat)
    requires
        canonical_func(f),
        func_type(f) is Ok,
    ensures
        sound_lowering(lower_func(f, id).0, type_in(func_type(f))),
    decreases f, 1nat,
{
    if !f.is_use {
        lemma_call_is_plain(f);
        lemma_args_from(f, 0, id, Seq::empty());
        let inst = lower_func(f, id).0;
        let ops = inst.operands();
        assert(ops.len() == f.args.len());
        if is_title_builtin(f.name) || f.name == "count"@ || f.name == "set"@ || f.name
            == "group_sum"@ {
            lemma_sound_unary(f, id);
        } else if f.name == "map"@ {
            lemma_sound_binary(f, id);
        } else if f.name == "flatten"@ {
            lemma_sound_unary(f, id);
        } else if f.name == "sort"@ {
            lemma_sound_binary(f, id);
        }
    }
}

proof fn lemma_sound_unary(f: FuncSyntax, id: nat)
    requires
        canonical_func(f),
        !f.is_use,
        unary_arg_type(f) is Ok,
    ensures
        lower_func(f, id).0.operands().len() == 1,
        all_sound(lower_func(f, id).0.operands()[0]),
        forall|k: int|
            0 <= k < lower_func(f, id).0.operands().len() ==> all_sound(
                #[trigger] lower_func(f, id).0.operands()[k],
            ),
        f.args[0] is Literal ==> lower_func(f, id).0.operands()[0].kind
            == InstructionType::Constant && lower_func(f, id).0.operands()[0].data is Some,
        f.args[0] is Expr ==> sound_lowering(
            lower_func(f, id).0.operands()[0],
            type_in(unary_arg_type(f)),
        ),
    decreases f, 0nat,
{
    lemma_args_from(f, 0, id, Seq::empty());
    let ops = lower_func(f, id).0.operands();
    assert(is_lowered_arg(ops[0], f.args[0]));
    let w0 = choose|w: nat| ops[0] == lower_arg(f.args[0], w).0;
    lemma_sound_arg(f.args[0], w0);
    assert forall|k: int| 0 <= k < ops.len() implies all_sound(#[trigger] ops[k]) by {
        assert(k == 0);
    }
}

proof fn lemma_sound_binary(f: FuncSyntax, id: nat)
    requires
        canonical_func(f),
        !f.is_use,
        binary_arg_types(f) is Ok,
    ensures
        lower_func(f, id).0.operands().len() == 2,
        forall|k: int|
            0 <= k < lower_func(f, id).0.operands().len() ==> all_sound(
                #[trigger] lower_func(f, id).0.operands()[k],
            ),
        !lower_func(f, id).0.operands()[0].is_leaf(),
        lower_func(f, id).0.operands()[1].kind == InstructionType::UseFunction,
        lower_func(f, id).0.operands()[1].data is Some,
    decreases f, 0nat,
{
    lemma_args_from(f, 0, id, Seq::empty());
    let ops = lower_func(f, id).0.operands();
    assert(is_lowered_arg(ops[0], f.args[0]));
    assert(is_lowered_arg(ops[1], f.args[1]));
    let w0 = choose|w: nat| ops[0] == lower_arg(f.args[0], w).0;
    let w1 = choose|w: nat| ops[1] == lower_arg(f.args[1], w).0;
    lemma_sound_arg(f.args[0], w0);
    lemma_sound_arg(f.args[1], w1);
    assert forall|k: int| 0 <= k < ops.len() implies all_sound(#[trigger] ops[k]) by {
        assert(k == 0 || k == 1);
    }
}

/// A walk from sound trees lists only sound instructions.
proof fn lemma_flatten_queue_sound(queue: Seq<InstModel>)
    requires
        forall|i: int| 0 <= i < queue.len() ==> all_sound(#[trigger] queue[i]),
    ensures
        forall|k: int|
            0 <= k < flatten_queue(queue).len() ==> all_sound(#[trigger] flatten_queue(queue)[k]),
    decreases queue_size(queue),
{
    if queue.len() != 0 {
        let head = queue[0];
        let next = queue.skip(1) + scheduled_operands(head, 0);
        lemma_queue_size_add(queue.skip(1), scheduled_operands(head, 0));
        lemma_scheduled_size(head, 0);
        lemma_scheduled_are_operands(head, 0);
        assert forall|i: int| 0 <= i < next.len() implies all_sound(#[trigger] next[i]) by {
            if i < queue.skip(1).len() {
                assert(next[i] == queue[i + 1]);
            } else {
                let n = i - queue.skip(1).len();
                assert(next[i] == scheduled_operands(head, 0)[n]);
                let j = choose|j: int|
                    0 <= j < head.operands().len() && head.operands()[j] == scheduled_operands(
                        head,
                        0,
                    )[n];
                assert(all_sound(head.operands()[j]));
            }
        }
        lemma_flatten_queue_sound(next);
        assert(flatten_queue(queue) == flatten_queue(next).push(head));
        assert forall|k: int| 0 <= k < flatten_queue(queue).len() implies all_sound(
            #[trigger] flatten_queue(queue)[k],
        ) by {
            if k < flatten_queue(next).len() {
                assert(flatten_queue(queue)[k] == flatten_queue(next)[k]);
            } else {
                assert(flatten_queue(queue)[k] == head);
            }
        }
    }
}

/// The errors that tell of a malformed schedule rather than of the corpus:
/// no instruction, an instruction that is not executed by itself, an
/// unknown builtin, a builtin that needs articles which the analyzer never
/// lets through, an operand that is missing.
pub open spec fn is_malformed(e: RuntimeErrorModel) -> bool {
    e is EmptyProgram || e is NotExecutable || e is UnknownFunction || e is ArticlesNotLoaded
        || e is OperandMissing
}

/// The builtins with one operand that is a value.
pub open spec fn is_unary_builtin(name: Seq<char>) -> bool {
    name == "count"@ || name == "set"@ || name == "group_sum"@ || name == "flatten"@
}

/// The builtins with a value and a function.
pub open spec fn is_binary_builtin(name: Seq<char>) -> bool {
    name == "map"@ || name == "sort"@
}

/// The names of the builtins differ from each other.
proof fn lemma_names_differ(name: Seq<char>)
    ensures
        is_title_builtin(name) ==> !is_unary_builtin(name) && !is_binary_builtin(name),
        is_unary_builtin(name) ==> !is_binary_builtin(name),
        is_title_builtin(name) || is_unary_builtin(name) || is_binary_builtin(name) ==> name
            != "title"@ && name != "body:contains"@ && name != "body:menu_exists"@,
        name == "map"@ ==> name != "sort"@,
        name == "count"@ ==> name != "set"@ && name != "group_sum"@ && name != "flatten"@,
        name == "set"@ ==> name != "group_sum"@ && name != "flatten"@,
        name == "group_sum"@ ==> name != "flatten"@,
{
    reveal_strlit("title");
    reveal_strlit("title:exact");
    reveal_strlit("title:contains");
    reveal_strlit("title:startswith");
    reveal_strlit("title:endswith");
    reveal_strlit("body:contains");
    reveal_strlit("body:menu_exists");
    reveal_strlit("count");
    reveal_strlit("set");
    reveal_strlit("group_sum");
    reveal_strlit("map");
    reveal_strlit("flatten");
    reveal_strlit("sort");
    assert("title"@.len() == 5 && "title"@[0] == 't');
    assert("title:exact"@.len() == 11 && "title:exact"@[0] == 't');
    assert("title:contains"@.len() == 14 && "title:contains"@[0] == 't');
    assert("title:startswith"@.len() == 16 && "title:startswith"@[0] == 't');
    assert("title:endswith"@.len() == 14 && "title:endswith"@[0] == 't');
    assert("body:contains"@.len() == 13 && "body:contains"@[0] == 'b');
    assert("body:menu_exists"@.len() == 16 && "body:menu_exists"@[0] == 'b');
    assert("count"@.len() == 5 && "count"@[0] == 'c');
    assert("set"@.len() == 3 && "set"@[0] == 's');
    assert("group_sum"@.len() == 9 && "group_sum"@[0] == 'g');
    assert("map"@.len() == 3 && "map"@[0] == 'm');
    assert("flatten"@.len() == 7 && "flatten"@[0] == 'f');
    assert("sort"@.len() == 4 && "sort"@[0] == 's');
}

/// Where every operand of an instruction is executed by itself and has its
/// value, reading the operand arrays fails only on an operand that is no
/// array.
proof fn lemma_operand_arrays_progress(
    store: Store,
    inst: InstModel,
    k: int,
    acc: Seq<Seq<ValueModel>>,
)
    requires
        0 <= k,
        forall|j: int|
            0 <= j < inst.operands().len() ==> store.contains_key(
                (#[trigger] inst.operands()[j]).id,
            ),
    ensures
        operand_arrays(store, inst, k, acc) matches Err(e) ==> e is OperandMismatch,
    decreases inst.operands().len() - k,
{
    if k < inst.operands().len() {
        assert(store.contains_key(inst.operands()[k].id));
        if let Ok(items) = operand_array(store, inst, k) {
            lemma_operand_arrays_progress(store, inst, k + 1, acc.push(items));
        }
    }
}

proof fn lemma_articles_from_progress(
    entries: Seq<ArticleModel>,
    titles: Seq<Seq<char>>,
    i: int,
    acc: Seq<ValueModel>,
)
    requires
        0 <= i,
    ensures
        articles_from(entries, titles, i, acc) matches Err(e) ==> e is ArticleMissing,
    decreases titles.len() - i,
{
    if i < titles.len() {
        if let Some(a) = article_of(entries, titles[i]) {
            lemma_articles_from_progress(entries, titles, i + 1, acc.push(article(a)));
        }
    }
}

proof fn lemma_flatten_from_progress(
    inst: InstModel,
    items: Seq<ValueModel>,
    i: int,
    acc: Seq<ValueModel>,
)
    requires
        0 <= i,
    ensures
        flatten_from(inst, items, i, acc) matches Err(e) ==> e is OperandMismatch,
    decreases items.len() - i,
{
    if i < items.len() {
        if let ValueModel::Array(inner) = items[i] {
            lemma_flatten_from_progress(inst, items, i + 1, acc + inner);
        }
    }
}

proof fn lemma_title_progress(corpus: CorpusModel, inst: InstModel)
    requires
        inst.operands().len() >= 1,
    ensures
        eval_title(corpus, inst) matches Err(e) ==> !is_malformed(e),
{
    if let Ok(what) = operand_text(inst, 0, InstructionType::Constant) {
        let titles = matching_titles(corpus.titles, what, title_option(inst.text()));
        lemma_articles_from_progress(corpus.titles, titles, 0, Seq::empty());
    }
}

proof fn lemma_unary_progress(store: Store, inst: InstModel)
    requires
        inst.operands().len() >= 1,
        store.contains_key(inst.operands()[0].id),
    ensures
        eval_count(store, inst) matches Err(e) ==> !is_malformed(e),
        eval_set(store, inst) matches Err(e) ==> !is_malformed(e),
        eval_group_sum(store, inst) matches Err(e) ==> !is_malformed(e),
        eval_flatten(store, inst) matches Err(e) ==> !is_malformed(e),
{
    if let Ok(items) = operand_array(store, inst, 0) {
        lemma_flatten_from_progress(inst, items, 0, Seq::empty());
    }
}

proof fn lemma_map_progress(store: Store, corpus: CorpusModel, inst: InstModel)
    requires
        inst.operands().len() == 2,
        store.contains_key(inst.operands()[0].id),
    ensures
        eval_map(store, corpus, inst) matches Err(e) ==> !is_malformed(e),
{
}

/// A sound instruction whose operands have their values does not find the
/// schedule malformed.
proof fn lemma_eval_progress(store: Store, corpus: CorpusModel, inst: InstModel)
    requires
        sound_shape(inst),
        !inst.is_leaf(),
        forall|j: int|
            0 <= j < inst.operands().len() && !(#[trigger] inst.operands()[j]).is_leaf()
                ==> store.contains_key(inst.operands()[j].id),
    ensures
        eval_inst(store, corpus, inst) matches Err(e) ==> !is_malformed(e),
{
    let ops = inst.operands();
    match inst.kind {
        InstructionType::FunctionCall => {
            let name = inst.text();
            lemma_names_differ(name);
            assert(eval_inst(store, corpus, inst) == eval_func(store, corpus, inst));
            if is_title_builtin(name) {
                assert(is_title_function(name));
                lemma_title_progress(corpus, inst);
            } else {
                assert(!is_title_function(name));
                assert(!is_body_function(name));
                assert(!ops[0].is_leaf());
                assert(store.contains_key(ops[0].id));
                lemma_unary_progress(store, inst);
                if is_binary_builtin(name) {
                    lemma_map_progress(store, corpus, inst);
                    assert(name == "sort"@ ==> is_reserved_function(name));
                }
            }
        },
        InstructionType::Intercross => {
            assert forall|j: int| 0 <= j < ops.len() implies store.contains_key(
                (#[trigger] ops[j]).id,
            ) by {
                assert(!ops[j].is_leaf());
            }
            lemma_operand_arrays_progress(store, inst, 0, Seq::empty());
        },
        InstructionType::Concat => {
            assert forall|j: int| 0 <= j < ops.len() implies store.contains_key(
                (#[trigger] ops[j]).id,
            ) by {
                assert(!ops[j].is_leaf());
            }
            lemma_operand_arrays_progress(store, inst, 0, Seq::empty());
        },
        _ => {},
    }
}

/// A schedule: every operand that is executed by itself stands before the
/// instruction it is an operand of.
pub open spec fn is_schedule(insts: Seq<InstModel>) -> bool {
    forall|k: int, j: int|
        0 <= k < insts.len() && 0 <= j < (#[trigger] insts[k]).operands().len() && !(
        #[trigger] insts[k].operands()[j]).is_leaf() ==> exists|at: int|
            0 <= at < k && insts[at] == insts[k].operands()[j]
}

/// A schedule of sound instructions runs without being found malformed.
proof fn lemma_run_progress(insts: Seq<InstModel>, corpus: CorpusModel, i: int, store: Store)
    requires
        0 <= i <= insts.len(),
        is_schedule(insts),
        forall|k: int|
            0 <= k < insts.len() ==> sound_shape(#[trigger] insts[k]) && !insts[k].is_leaf(),
        forall|k: int| 0 <= k < i ==> store.contains_key((#[trigger] insts[k]).id),
    ensures
        run_from(insts, corpus, i, store) matches Err(e) ==> !is_malformed(e),
    decreases insts.len() - i,
{
    if i < insts.len() {
        let inst = insts[i];
        assert forall|j: int|
            0 <= j < inst.operands().len() && !(#[trigger] inst.operands()[j]).is_leaf()
            implies store.contains_key(inst.operands()[j].id) by {
            let at = choose|at: int| 0 <= at < i && insts[at] == insts[i].operands()[j];
            assert(store.contains_key(insts[at].id));
        }
        lemma_eval_progress(store, corpus, inst);
        if let Ok(value) = eval_inst(store, corpus, inst) {
            let next = store.insert(inst.id, value);
            assert forall|k: int| 0 <= k < i + 1 implies next.contains_key(
                (#[trigger] insts[k]).id,
            ) by {
                if k < i {
                    assert(store.contains_key(insts[k].id));
                }
            }
            lemma_run_progress(insts, corpus, i + 1, next);
        }
    }
}

/// A command that compiles runs without its schedule ever being found
/// malformed: the run has a value, or it stops on what the corpus holds, on
/// a builtin that is reserved, or on a value of the wrong kind.
pub proof fn lemma_compiled_runs(command: Seq<char>, corpus: CorpusModel)
    ensures
        compile(command) matches Ok(head) ==> (run_program(flatten(head), corpus) matches Err(e)
            ==> !is_malformed(e)),
{
    if let Ok(head) = compile(command) {
        let syntax = parse_command(lex(command))->Ok_0;
        lemma_parse_text(command);
        assert(and_type(syntax) is Ok);
        lemma_sound_and(syntax, 0);
        assert(head == lower(syntax));
        lemma_compiled_head_is_executable(command);
        lemma_flatten_executable(head);
        lemma_flatten_schedules(head);
        lemma_flatten_queue_sound(seq![head]);
        let insts = flatten(head);
        assert forall|k: int| 0 <= k < insts.len() implies sound_shape(#[trigger] insts[k])
            && !insts[k].is_leaf() by {
            assert(all_sound(insts[k]));
        }
        lemma_run_progress(insts, corpus, 0, Map::empty());
    }
}

/// A query never stops on a malformed schedule: where it has no value, the
/// command does not compile, or the run stopped on what the corpus holds,
/// on a builtin that is reserved, or on a value of the wrong kind.
pub proof fn lemma_query_is_safe(command: Seq<char>, corpus: CorpusModel)
    ensures
        query_value(command, corpus) matches Err(QueryErrorModel::Runtime(e)) ==> !is_malformed(e),
{
    lemma_compiled_runs(command, corpus);
}

} // verus!
