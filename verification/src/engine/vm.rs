//! The virtual machine: it executes a schedule of instructions against a
//! corpus, one instruction at a time, and keeps the value of each under its
//! id.

use super::ir::{models, InstModel, Instruction, InstructionType};
use super::value::{
    contains_value, values, PrimitiveModel, RuntimeVariableAbstractData,
    RuntimeVariableAbstractPrimitiveData, ValueModel,
};
use crate::index::category::{categories_of, CategoriesModel, CategoryIndex};
use crate::index::title::{
    article_of, lemma_matching_are_titles, matching_titles, resolve, titles_view, TitleIndex,
    TitleIndexFindOption,
};
use crate::model::article::{is_redirect_text, Article, ArticleModel};
use crate::text::{str_equal, texts};
use std::collections::HashMap;
use vstd::prelude::*;

verus! {

/// The value that an instruction computed.
#[derive(Debug)]
pub struct RuntimeVariable<'a> {
    pub inst: &'a Instruction,
    pub data: RuntimeVariableAbstractData<'a>,
}

impl<'a> Clone for RuntimeVariable<'a> {
    fn clone(&self) -> (res: Self)
        ensures
            res.inst == self.inst,
            res.data@ == self.data@,
    {
        RuntimeVariable { inst: self.inst, data: self.data.clone() }
    }
}

/// What a query runs against: the two indices, and the articles of the
/// corpus where they have been loaded.
pub struct RuntimeRef<'a> {
    pub category_index: &'a CategoryIndex,
    pub title_index: &'a TitleIndex,
    pub articles: Option<Vec<Article>>,
}

/// The mathematical value of a [`RuntimeRef`].
pub struct CorpusModel {
    /// The articles of the title index, in its order.
    pub titles: Seq<ArticleModel>,
    /// The entries of the category index.
    pub categories: Seq<CategoriesModel>,
    /// Whether the articles of the corpus have been loaded.
    pub loaded: bool,
}

impl<'a> View for RuntimeRef<'a> {
    type V = CorpusModel;

    open spec fn view(&self) -> CorpusModel {
        CorpusModel {
            titles: self.title_index@,
            categories: self.category_index@,
            loaded: self.articles is Some,
        }
    }
}

/// Why a query stopped.
#[derive(Debug)]
#[allow(inconsistent_fields)]
pub enum RuntimeError {
    /// The schedule holds no instruction.
    EmptyProgram,
    /// The schedule holds a function reference or a constant, which are not
    /// executed by themselves.
    NotExecutable { id: usize },
    /// No builtin has this name.
    UnknownFunction { name: String },
    /// The builtin is reserved.
    NotImplemented { name: String },
    /// The builtin needs the articles of the corpus, and they are not
    /// loaded.
    ArticlesNotLoaded { name: String },
    /// The instruction lacks an operand, or the operand has no value yet.
    OperandMissing { id: usize },
    /// An operand of the instruction is not of the kind that it takes.
    OperandMismatch { id: usize },
    /// No title matches.
    TitleNotFound { what: String },
    /// The index holds no article under a title that matched. An index that
    /// holds its articles never gives rise to this.
    ArticleMissing { title: String },
    /// The instruction counted more than an integer holds.
    IntegerOverflow { id: usize },
}

/// The mathematical value of a [`RuntimeError`].
#[allow(inconsistent_fields)]
pub enum RuntimeErrorModel {
    EmptyProgram,
    NotExecutable { id: nat },
    UnknownFunction { name: Seq<char> },
    NotImplemented { name: Seq<char> },
    ArticlesNotLoaded { name: Seq<char> },
    OperandMissing { id: nat },
    OperandMismatch { id: nat },
    TitleNotFound { what: Seq<char> },
    ArticleMissing { title: Seq<char> },
    IntegerOverflow { id: nat },
}

impl View for RuntimeError {
    type V = RuntimeErrorModel;

    open spec fn view(&self) -> RuntimeErrorModel {
        match self {
            RuntimeError::EmptyProgram => RuntimeErrorModel::EmptyProgram,
            RuntimeError::NotExecutable { id } => RuntimeErrorModel::NotExecutable {
                id: *id as nat,
            },
            RuntimeError::UnknownFunction { name } => RuntimeErrorModel::UnknownFunction {
                name: name@,
            },
            RuntimeError::NotImplemented { name } => RuntimeErrorModel::NotImplemented {
                name: name@,
            },
            RuntimeError::ArticlesNotLoaded { name } => RuntimeErrorModel::ArticlesNotLoaded {
                name: name@,
            },
            RuntimeError::OperandMissing { id } => RuntimeErrorModel::OperandMissing {
                id: *id as nat,
            },
            RuntimeError::OperandMismatch { id } => RuntimeErrorModel::OperandMismatch {
                id: *id as nat,
            },
            RuntimeError::TitleNotFound { what } => RuntimeErrorModel::TitleNotFound {
                what: what@,
            },
            RuntimeError::ArticleMissing { title } => RuntimeErrorModel::ArticleMissing {
                title: title@,
            },
            RuntimeError::IntegerOverflow { id } => RuntimeErrorModel::IntegerOverflow {
                id: *id as nat,
            },
        }
    }
}

/// The values computed so far, by the id of their instruction.
pub type Store = Map<nat, ValueModel>;

/// What evaluating an instruction yields.
pub type Evaluation = Result<ValueModel, RuntimeErrorModel>;

/// What reading several values yields.
pub type Evaluations = Result<Seq<ValueModel>, RuntimeErrorModel>;

pub open spec fn integer(n: int) -> ValueModel {
    ValueModel::Primitive(PrimitiveModel::Integer(n))
}

pub open spec fn article(a: ArticleModel) -> ValueModel {
    ValueModel::Primitive(PrimitiveModel::Article(a))
}

pub open spec fn category(name: Seq<char>) -> ValueModel {
    ValueModel::Primitive(PrimitiveModel::Category(name))
}

/// The `k`-th operand of an instruction.
pub open spec fn operand_at(inst: InstModel, k: int) -> Result<InstModel, RuntimeErrorModel> {
    if 0 <= k < inst.operands().len() {
        Ok(inst.operands()[k])
    } else {
        Err(RuntimeErrorModel::OperandMissing { id: inst.id })
    }
}

/// The value of the `k`-th operand of an instruction.
pub open spec fn operand_value(store: Store, inst: InstModel, k: int) -> Evaluation {
    match operand_at(inst, k) {
        Ok(p) => if store.contains_key(p.id) {
            Ok(store[p.id])
        } else {
            Err(RuntimeErrorModel::OperandMissing { id: inst.id })
        },
        Err(e) => Err(e),
    }
}

/// The elements of the `k`-th operand of an instruction, which must be an
/// array.
pub open spec fn operand_array(store: Store, inst: InstModel, k: int) -> Evaluations {
    match operand_value(store, inst, k) {
        Ok(ValueModel::Array(items)) => Ok(items),
        Ok(_) => Err(RuntimeErrorModel::OperandMismatch { id: inst.id }),
        Err(e) => Err(e),
    }
}

/// The text of the `k`-th operand of an instruction, which must be a leaf of
/// the given kind.
pub open spec fn operand_text(inst: InstModel, k: int, kind: InstructionType) -> Result<
    Seq<char>,
    RuntimeErrorModel,
> {
    match operand_at(inst, k) {
        Ok(p) => if p.kind == kind && p.data is Some {
            Ok(p.data->0)
        } else {
            Err(RuntimeErrorModel::OperandMismatch { id: inst.id })
        },
        Err(e) => Err(e),
    }
}

/// The elements of the first `n` of `s` without repetition, each where it
/// is first seen.
pub open spec fn distinct_upto(s: Seq<ValueModel>, n: int) -> Seq<ValueModel>
    decreases n,
{
    if n <= 0 {
        Seq::empty()
    } else {
        let before = distinct_upto(s, n - 1);
        if before.contains(s[n - 1]) {
            before
        } else {
            before.push(s[n - 1])
        }
    }
}

/// The elements of `s` without repetition, each where it is first seen.
pub open spec fn distinct(s: Seq<ValueModel>) -> Seq<ValueModel> {
    distinct_upto(s, s.len() as int)
}

/// How often `v` occurs among the first `n` of `s`.
pub open spec fn count_upto(s: Seq<ValueModel>, v: ValueModel, n: int) -> int
    decreases n,
{
    if n <= 0 {
        0
    } else if s[n - 1] == v {
        count_upto(s, v, n - 1) + 1
    } else {
        count_upto(s, v, n - 1)
    }
}

/// Whether `v` occurs in each of the arrays from the `from`-th on.
pub open spec fn in_all(arrays: Seq<Seq<ValueModel>>, from: int, v: ValueModel) -> bool {
    forall|k: int| from <= k < arrays.len() ==> (#[trigger] arrays[k]).contains(v)
}

/// Of the first `n` elements of the first array, those that occur in each
/// of the other arrays, without repetition, each where it is first seen.
pub open spec fn common_upto(arrays: Seq<Seq<ValueModel>>, n: int) -> Seq<ValueModel>
    decreases n,
{
    if n <= 0 || arrays.len() == 0 {
        Seq::empty()
    } else {
        let before = common_upto(arrays, n - 1);
        let v = arrays[0][n - 1];
        if !before.contains(v) && in_all(arrays, 1, v) {
            before.push(v)
        } else {
            before
        }
    }
}

/// The elements that occur in each of the arrays, without repetition, in
/// the order in which the first array first shows them.
pub open spec fn common(arrays: Seq<Seq<ValueModel>>) -> Seq<ValueModel> {
    if arrays.len() == 0 {
        Seq::empty()
    } else {
        common_upto(arrays, arrays[0].len() as int)
    }
}

/// The operand arrays of an instruction from the `k`-th on, after `acc`.
pub open spec fn operand_arrays(
    store: Store,
    inst: InstModel,
    k: int,
    acc: Seq<Seq<ValueModel>>,
) -> Result<Seq<Seq<ValueModel>>, RuntimeErrorModel>
    decreases inst.operands().len() - k,
{
    if 0 <= k < inst.operands().len() {
        match operand_array(store, inst, k) {
            Ok(items) => operand_arrays(store, inst, k + 1, acc.push(items)),
            Err(e) => Err(e),
        }
    } else {
        Ok(acc)
    }
}

/// `&`: an array of the values that occur in every operand array.
pub open spec fn eval_intercross(store: Store, inst: InstModel) -> Evaluation {
    match operand_arrays(store, inst, 0, Seq::empty()) {
        Ok(arrays) => Ok(ValueModel::Array(common(arrays))),
        Err(e) => Err(e),
    }
}

/// The concatenation of the arrays from the `k`-th on, after `acc`.
pub open spec fn joined(arrays: Seq<Seq<ValueModel>>, k: int, acc: Seq<ValueModel>) -> Seq<
    ValueModel,
>
    decreases arrays.len() - k,
{
    if 0 <= k < arrays.len() {
        joined(arrays, k + 1, acc + arrays[k])
    } else {
        acc
    }
}

/// `|`: an array of the elements of the operand arrays, one array after the
/// other.
pub open spec fn eval_concat(store: Store, inst: InstModel) -> Evaluation {
    match operand_arrays(store, inst, 0, Seq::empty()) {
        Ok(arrays) => Ok(ValueModel::Array(joined(arrays, 0, Seq::empty()))),
        Err(e) => Err(e),
    }
}

/// `count`: the number of elements of an array or of a set.
pub open spec fn eval_count(store: Store, inst: InstModel) -> Evaluation {
    match operand_value(store, inst, 0) {
        Ok(ValueModel::Array(items)) => count_value(inst, items),
        Ok(ValueModel::SetOf(items)) => count_value(inst, items),
        Ok(_) => Err(RuntimeErrorModel::OperandMismatch { id: inst.id }),
        Err(e) => Err(e),
    }
}

/// The number of `items` as a value.
pub open spec fn count_value(inst: InstModel, items: Seq<ValueModel>) -> Evaluation {
    if items.len() <= i64::MAX {
        Ok(integer(items.len() as int))
    } else {
        Err(RuntimeErrorModel::IntegerOverflow { id: inst.id })
    }
}

/// `set`: the elements of an array without repetition, each where it is
/// first seen.
pub open spec fn eval_set(store: Store, inst: InstModel) -> Evaluation {
    match operand_array(store, inst, 0) {
        Ok(items) => Ok(ValueModel::SetOf(distinct(items))),
        Err(e) => Err(e),
    }
}

/// A value and how often it occurs.
pub struct Group {
    pub value: ValueModel,
    pub count: int,
}

/// The distinct elements of an array in the order in which they are first
/// seen, each with the number of its occurrences.
pub open spec fn groups(items: Seq<ValueModel>) -> Seq<Group> {
    Seq::new(
        distinct(items).len(),
        |j: int|
            Group { value: distinct(items)[j], count: count_upto(
                items,
                distinct(items)[j],
                items.len() as int,
            ) },
    )
}

/// Where a group of `count` goes into groups that are sorted by falling
/// count: behind the groups from the `i`-th on that have at least that
/// count.
pub open spec fn insert_position(sorted: Seq<Group>, count: int, i: int) -> int
    decreases sorted.len() - i,
{
    if 0 <= i < sorted.len() && sorted[i].count >= count {
        insert_position(sorted, count, i + 1)
    } else {
        i
    }
}

/// The first `n` groups sorted by falling count; groups of equal count keep
/// their order.
pub open spec fn sorted_upto(gs: Seq<Group>, n: int) -> Seq<Group>
    decreases n,
{
    if n <= 0 {
        Seq::empty()
    } else {
        let before = sorted_upto(gs, n - 1);
        before.insert(insert_position(before, gs[n - 1].count, 0), gs[n - 1])
    }
}

/// The groups as tuples of a value and its count.
pub open spec fn group_tuples(gs: Seq<Group>) -> Seq<ValueModel> {
    Seq::new(gs.len(), |j: int| ValueModel::Tuple(seq![gs[j].value, integer(gs[j].count)]))
}

/// `group_sum`: for each distinct element of an array a tuple of the
/// element and the number of its occurrences, sorted by falling number;
/// among equal numbers the element first seen comes first.
pub open spec fn eval_group_sum(store: Store, inst: InstModel) -> Evaluation {
    match operand_array(store, inst, 0) {
        Ok(items) => if items.len() <= i64::MAX {
            Ok(
                ValueModel::Array(
                    group_tuples(sorted_upto(groups(items), groups(items).len() as int)),
                ),
            )
        } else {
            Err(RuntimeErrorModel::IntegerOverflow { id: inst.id })
        },
        Err(e) => Err(e),
    }
}

/// The elements of the arrays in `items` from the `i`-th on, one array
/// after the other, after `acc`. An element that is no array is an error.
pub open spec fn flatten_from(
    inst: InstModel,
    items: Seq<ValueModel>,
    i: int,
    acc: Seq<ValueModel>,
) -> Evaluations
    decreases items.len() - i,
{
    if 0 <= i < items.len() {
        match items[i] {
            ValueModel::Array(inner) => flatten_from(inst, items, i + 1, acc + inner),
            _ => Err(RuntimeErrorModel::OperandMismatch { id: inst.id }),
        }
    } else {
        Ok(acc)
    }
}

/// `flatten`: the elements of the arrays in an array, one array after the
/// other.
pub open spec fn eval_flatten(store: Store, inst: InstModel) -> Evaluation {
    match operand_array(store, inst, 0) {
        Ok(items) => match flatten_from(inst, items, 0, Seq::empty()) {
            Ok(flat) => Ok(ValueModel::Array(flat)),
            Err(e) => Err(e),
        },
        Err(e) => Err(e),
    }
}

/// The names as category values.
pub open spec fn category_values(names: Seq<Seq<char>>) -> Seq<ValueModel> {
    Seq::new(names.len(), |j: int| category(names[j]))
}

/// `map` with `category` from the `i`-th element on, after `acc`: for each
/// article that the category index knows, an array of its categories;
/// nothing for any other element.
pub open spec fn map_category_from(
    categories: Seq<CategoriesModel>,
    items: Seq<ValueModel>,
    i: int,
    acc: Seq<ValueModel>,
) -> Seq<ValueModel>
    decreases items.len() - i,
{
    if 0 <= i < items.len() {
        match items[i] {
            ValueModel::Primitive(PrimitiveModel::Article(a)) => match categories_of(
                categories,
                a.title,
            ) {
                Some(names) => map_category_from(
                    categories,
                    items,
                    i + 1,
                    acc.push(ValueModel::Array(category_values(names))),
                ),
                None => map_category_from(categories, items, i + 1, acc),
            },
            _ => map_category_from(categories, items, i + 1, acc),
        }
    } else {
        acc
    }
}

/// The article that a redirect leads to, where the index can follow it to
/// its end; any other article stays as it is.
pub open spec fn redirected(titles: Seq<ArticleModel>, a: ArticleModel) -> ArticleModel {
    if is_redirect_text(a.text) {
        match resolve(titles, a.title, titles.len()) {
            Some(target) => target,
            None => a,
        }
    } else {
        a
    }
}

/// `map` with `redirect` from the `i`-th element on, after `acc`: for each
/// article what it redirects to; nothing for any other element.
pub open spec fn map_redirect_from(
    titles: Seq<ArticleModel>,
    items: Seq<ValueModel>,
    i: int,
    acc: Seq<ValueModel>,
) -> Seq<ValueModel>
    decreases items.len() - i,
{
    if 0 <= i < items.len() {
        match items[i] {
            ValueModel::Primitive(PrimitiveModel::Article(a)) => map_redirect_from(
                titles,
                items,
                i + 1,
                acc.push(article(redirected(titles, a))),
            ),
            _ => map_redirect_from(titles, items, i + 1, acc),
        }
    } else {
        acc
    }
}

/// `map`: applies the function that the second operand names to each
/// element of the array that the first operand is. Only `category` and
/// `redirect` are implemented.
pub open spec fn eval_map(store: Store, corpus: CorpusModel, inst: InstModel) -> Evaluation {
    match operand_text(inst, 1, InstructionType::UseFunction) {
        Ok(name) => if name == "category"@ {
            match operand_array(store, inst, 0) {
                Ok(items) => Ok(
                    ValueModel::Array(
                        map_category_from(corpus.categories, items, 0, Seq::empty()),
                    ),
                ),
                Err(e) => Err(e),
            }
        } else if name == "redirect"@ {
            match operand_array(store, inst, 0) {
                Ok(items) => Ok(
                    ValueModel::Array(map_redirect_from(corpus.titles, items, 0, Seq::empty())),
                ),
                Err(e) => Err(e),
            }
        } else {
            Err(RuntimeErrorModel::NotImplemented { name })
        },
        Err(e) => Err(e),
    }
}

/// How the title builtin `name` compares titles.
pub open spec fn title_option(name: Seq<char>) -> TitleIndexFindOption {
    if name == "title:exact"@ {
        TitleIndexFindOption::Exact
    } else if name == "title:contains"@ {
        TitleIndexFindOption::Contains
    } else if name == "title:startswith"@ {
        TitleIndexFindOption::StartsWith
    } else {
        TitleIndexFindOption::EndsWith
    }
}

/// The articles under the titles from the `i`-th on, after `acc`. A title
/// without an article is an error.
pub open spec fn articles_from(
    entries: Seq<ArticleModel>,
    titles: Seq<Seq<char>>,
    i: int,
    acc: Seq<ValueModel>,
) -> Evaluations
    decreases titles.len() - i,
{
    if 0 <= i < titles.len() {
        match article_of(entries, titles[i]) {
            Some(a) => articles_from(entries, titles, i + 1, acc.push(article(a))),
            None => Err(RuntimeErrorModel::ArticleMissing { title: titles[i] }),
        }
    } else {
        Ok(acc)
    }
}

/// `title`: the article under the title that the constant operand gives.
/// `title:exact`, `title:contains`, `title:startswith`, `title:endswith`:
/// an array of the articles whose titles match the constant operand, in the
/// order of the index. It is an error if there is none.
pub open spec fn eval_title(corpus: CorpusModel, inst: InstModel) -> Evaluation {
    match operand_text(inst, 0, InstructionType::Constant) {
        Ok(what) => if inst.text() == "title"@ {
            match article_of(corpus.titles, what) {
                Some(a) => Ok(article(a)),
                None => Err(RuntimeErrorModel::TitleNotFound { what }),
            }
        } else {
            let titles = matching_titles(corpus.titles, what, title_option(inst.text()));
            if titles.len() == 0 {
                Err(RuntimeErrorModel::TitleNotFound { what })
            } else {
                match articles_from(corpus.titles, titles, 0, Seq::empty()) {
                    Ok(found) => Ok(ValueModel::Array(found)),
                    Err(e) => Err(e),
                }
            }
        },
        Err(e) => Err(e),
    }
}

/// The builtins that look articles up by title.
pub open spec fn is_title_function(name: Seq<char>) -> bool {
    name == "title"@ || name == "title:exact"@ || name == "title:contains"@ || name
        == "title:startswith"@ || name == "title:endswith"@
}

/// The builtins that read the bodies of the loaded articles.
pub open spec fn is_body_function(name: Seq<char>) -> bool {
    name == "body:contains"@ || name == "body:menu_exists"@
}

/// The builtins that the analyzer knows and the machine does not implement.
pub open spec fn is_reserved_function(name: Seq<char>) -> bool {
    name == "sort"@ || name == "filter"@ || name == "bind"@
}

/// What a call computes, by the name of the builtin.
pub open spec fn eval_func(store: Store, corpus: CorpusModel, inst: InstModel) -> Evaluation {
    let name = inst.text();
    if is_title_function(name) {
        eval_title(corpus, inst)
    } else if is_body_function(name) {
        if corpus.loaded {
            Err(RuntimeErrorModel::NotImplemented { name })
        } else {
            Err(RuntimeErrorModel::ArticlesNotLoaded { name })
        }
    } else if name == "count"@ {
        eval_count(store, inst)
    } else if name == "set"@ {
        eval_set(store, inst)
    } else if name == "group_sum"@ {
        eval_group_sum(store, inst)
    } else if name == "map"@ {
        eval_map(store, corpus, inst)
    } else if name == "flatten"@ {
        eval_flatten(store, inst)
    } else if is_reserved_function(name) {
        Err(RuntimeErrorModel::NotImplemented { name })
    } else {
        Err(RuntimeErrorModel::UnknownFunction { name })
    }
}

/// What an instruction computes from the values computed before it.
pub open spec fn eval_inst(store: Store, corpus: CorpusModel, inst: InstModel) -> Evaluation {
    match inst.kind {
        InstructionType::FunctionCall => eval_func(store, corpus, inst),
        InstructionType::Intercross => eval_intercross(store, inst),
        InstructionType::Concat => eval_concat(store, inst),
        _ => Err(RuntimeErrorModel::NotExecutable { id: inst.id }),
    }
}

/// The values after the instructions from the `i`-th on have run in their
/// order, each on the values before it.
pub open spec fn run_from(
    insts: Seq<InstModel>,
    corpus: CorpusModel,
    i: int,
    store: Store,
) -> Result<Store, RuntimeErrorModel>
    decreases insts.len() - i,
{
    if 0 <= i < insts.len() {
        match eval_inst(store, corpus, insts[i]) {
            Ok(value) => run_from(insts, corpus, i + 1, store.insert(insts[i].id, value)),
            Err(e) => Err(e),
        }
    } else {
        Ok(store)
    }
}

/// The result of a schedule: the value of its last instruction after all
/// have run in their order, or the first error met.
pub open spec fn run_program(insts: Seq<InstModel>, corpus: CorpusModel) -> Evaluation {
    if insts.len() == 0 {
        Err(RuntimeErrorModel::EmptyProgram)
    } else {
        match run_from(insts, corpus, 0, Map::empty()) {
            Ok(store) => Ok(store[insts.last().id]),
            Err(e) => Err(e),
        }
    }
}

/// Evaluation is a function of the schedule and the corpus alone: two runs
/// of equal schedules against equal corpora have equal results.
/// [`VirtualMachine::run`] computes this function.
pub proof fn lemma_run_deterministic(
    first: Seq<InstModel>,
    second: Seq<InstModel>,
    corpus: CorpusModel,
    other: CorpusModel,
)
    requires
        first == second,
        corpus == other,
    ensures
        run_program(first, corpus) == run_program(second, other),
{
}

/// The values that a machine holds, by the id of their instruction.
pub open spec fn store_of<'a>(var: Map<usize, RuntimeVariableAbstractData<'a>>) -> Store {
    Map::new(
        |id: nat| id <= usize::MAX && var.contains_key(id as usize),
        |id: nat| var[id as usize]@,
    )
}

/// The mathematical value of what an instruction yielded.
pub open spec fn evaluation_of<'a>(
    r: Result<RuntimeVariableAbstractData<'a>, RuntimeError>,
) -> Evaluation {
    match r {
        Ok(v) => Ok(v@),
        Err(e) => Err(e@),
    }
}

/// The mathematical value of what a run yielded.
pub open spec fn outcome_of<'a>(r: Result<RuntimeVariable<'a>, RuntimeError>) -> Evaluation {
    match r {
        Ok(v) => Ok(v.data@),
        Err(e) => Err(e@),
    }
}

/// The mathematical values of borrowed arrays.
pub open spec fn arrays_view<'a>(arrays: Seq<&Vec<RuntimeVariableAbstractData<'a>>>) -> Seq<
    Seq<ValueModel>,
> {
    Seq::new(arrays.len(), |k: int| values(arrays[k]@))
}

/// The elements of `items` at the places `firsts`.
pub open spec fn picked(items: Seq<ValueModel>, firsts: Seq<usize>) -> Seq<ValueModel> {
    Seq::new(firsts.len(), |j: int| items[firsts[j] as int])
}

/// The groups of `gs` at the places `order`.
pub open spec fn ordered(gs: Seq<Group>, order: Seq<usize>) -> Seq<Group> {
    Seq::new(order.len(), |p: int| gs[order[p] as int])
}

/// What is distinct among the first `n` holds each of the first `n`.
pub proof fn lemma_distinct_complete(s: Seq<ValueModel>, n: int)
    requires
        0 <= n <= s.len(),
    ensures
        forall|k: int| 0 <= k < n ==> distinct_upto(s, n).contains(#[trigger] s[k]),
        forall|j: int|
            0 <= j < distinct_upto(s, n).len() ==> exists|k: int|
                0 <= k < n && s[k] == #[trigger] distinct_upto(s, n)[j],
    decreases n,
{
    if n > 0 {
        lemma_distinct_complete(s, n - 1);
        let before = distinct_upto(s, n - 1);
        let now = distinct_upto(s, n);
        assert forall|k: int| 0 <= k < n implies now.contains(#[trigger] s[k]) by {
            if k < n - 1 {
                let j = choose|j: int| 0 <= j < before.len() && before[j] == s[k];
                assert(now[j] == s[k]);
            } else if before.contains(s[n - 1]) {
            } else {
                assert(now[now.len() - 1] == s[k]);
            }
        }
        assert forall|j: int| 0 <= j < now.len() implies exists|k: int|
            0 <= k < n && s[k] == #[trigger] now[j] by {
            if j < before.len() {
                let k = choose|k: int| 0 <= k < n - 1 && s[k] == before[j];
                assert(s[k] == now[j]);
            } else {
                assert(s[n - 1] == now[j]);
            }
        }
    }
}

/// What is distinct holds nothing twice.
pub proof fn lemma_distinct_no_duplicates(s: Seq<ValueModel>, n: int)
    ensures
        forall|p: int, q: int|
            0 <= p < q < distinct_upto(s, n).len() ==> distinct_upto(s, n)[p] != distinct_upto(
                s,
                n,
            )[q],
    decreases n,
{
    if n > 0 {
        lemma_distinct_no_duplicates(s, n - 1);
        let before = distinct_upto(s, n - 1);
        let now = distinct_upto(s, n);
        assert forall|p: int, q: int| 0 <= p < q < now.len() implies now[p] != now[q] by {
            if q >= before.len() {
                assert(before[p] == now[p]);
                assert(!before.contains(s[n - 1]));
            }
        }
    }
}

/// A value that is not among the first `n` occurs among them no times.
pub proof fn lemma_absent_count(s: Seq<ValueModel>, v: ValueModel, n: int)
    requires
        0 <= n <= s.len(),
        !distinct_upto(s, n).contains(v),
    ensures
        count_upto(s, v, n) == 0,
    decreases n,
{
    if n > 0 {
        lemma_distinct_complete(s, n);
        lemma_distinct_complete(s, n - 1);
        assert(s[n - 1] != v);
        let before = distinct_upto(s, n - 1);
        if before.contains(v) {
            let j = choose|j: int| 0 <= j < before.len() && before[j] == v;
            assert(distinct_upto(s, n)[j] == v);
        }
        lemma_absent_count(s, v, n - 1);
    }
}

/// A value occurs among the first `n` at most `n` times.
pub proof fn lemma_count_bound(s: Seq<ValueModel>, v: ValueModel, n: int)
    requires
        0 <= n,
    ensures
        0 <= count_upto(s, v, n) <= n,
    decreases n,
{
    if n > 0 {
        lemma_count_bound(s, v, n - 1);
    }
}

/// What is distinct of a sequence that holds nothing twice is the sequence.
pub proof fn lemma_distinct_of_distinct(s: Seq<ValueModel>, n: int)
    requires
        0 <= n <= s.len(),
        forall|p: int, q: int| 0 <= p < q < s.len() ==> s[p] != s[q],
    ensures
        distinct_upto(s, n) == s.take(n),
    decreases n,
{
    if n > 0 {
        lemma_distinct_of_distinct(s, n - 1);
        let before = distinct_upto(s, n - 1);
        if before.contains(s[n - 1]) {
            let j = choose|j: int| 0 <= j < before.len() && before[j] == s[n - 1];
            assert(s[j] == s[n - 1]);
        }
        assert(before.push(s[n - 1]) =~= s.take(n));
    } else {
        assert(s.take(n) =~= Seq::<ValueModel>::empty());
    }
}

/// Making a set of the elements of a set changes nothing: what is distinct
/// of what is distinct of a sequence is what is distinct of the sequence.
pub proof fn lemma_distinct_idempotent(s: Seq<ValueModel>)
    ensures
        distinct(distinct(s)) == distinct(s),
{
    lemma_distinct_no_duplicates(s, s.len() as int);
    lemma_distinct_of_distinct(distinct(s), distinct(s).len() as int);
    assert(distinct(s).take(distinct(s).len() as int) =~= distinct(s));
}

/// What is common to arrays holds a value exactly when the first array
/// shows it among its first `n` and each of the other arrays holds it.
pub proof fn lemma_common_member(arrays: Seq<Seq<ValueModel>>, n: int, v: ValueModel)
    requires
        arrays.len() > 0,
        0 <= n <= arrays[0].len(),
    ensures
        common_upto(arrays, n).contains(v) <==> (in_all(arrays, 1, v) && arrays[0].take(
            n,
        ).contains(v)),
    decreases n,
{
    if n > 0 {
        lemma_common_member(arrays, n - 1, v);
        let before = common_upto(arrays, n - 1);
        let now = common_upto(arrays, n);
        let x = arrays[0][n - 1];
        let shown = arrays[0].take(n);
        let shown_before = arrays[0].take(n - 1);
        assert(shown[n - 1] == x);
        if now.contains(v) {
            let j = choose|j: int| 0 <= j < now.len() && now[j] == v;
            if j < before.len() {
                assert(before[j] == v);
                let k = choose|k: int| 0 <= k < shown_before.len() && shown_before[k] == v;
                assert(shown[k] == v);
            } else {
                assert(v == x);
            }
        }
        if in_all(arrays, 1, v) && shown.contains(v) {
            let k = choose|k: int| 0 <= k < shown.len() && shown[k] == v;
            if k < n - 1 {
                assert(shown_before[k] == v);
                let j = choose|j: int| 0 <= j < before.len() && before[j] == v;
                assert(now[j] == v);
            } else if before.contains(v) {
                let j = choose|j: int| 0 <= j < before.len() && before[j] == v;
                assert(now[j] == v);
            } else {
                assert(now[now.len() - 1] == v);
            }
        }
    } else {
        assert(arrays[0].take(n) =~= Seq::<ValueModel>::empty());
    }
}

/// What is common to arrays holds nothing twice.
pub proof fn lemma_common_no_duplicates(arrays: Seq<Seq<ValueModel>>, n: int)
    ensures
        forall|p: int, q: int|
            0 <= p < q < common_upto(arrays, n).len() ==> common_upto(arrays, n)[p]
                != common_upto(arrays, n)[q],
    decreases n,
{
    if n > 0 && arrays.len() > 0 {
        lemma_common_no_duplicates(arrays, n - 1);
        let before = common_upto(arrays, n - 1);
        let now = common_upto(arrays, n);
        assert forall|p: int, q: int| 0 <= p < q < now.len() implies now[p] != now[q] by {
            if q >= before.len() {
                assert(before[p] == now[p]);
                assert(!before.contains(arrays[0][n - 1]));
            }
        }
    }
}

/// `&` keeps exactly the values that every operand array holds: the result
/// of intercrossing arrays holds a value exactly when each of the arrays
/// holds it, and holds no value twice.
pub proof fn lemma_intercross_is_intersection(arrays: Seq<Seq<ValueModel>>)
    requires
        arrays.len() > 0,
    ensures
        forall|v: ValueModel| #[trigger] common(arrays).contains(v) <==> in_all(arrays, 0, v),
        forall|p: int, q: int|
            0 <= p < q < common(arrays).len() ==> common(arrays)[p] != common(arrays)[q],
{
    lemma_common_no_duplicates(arrays, arrays[0].len() as int);
    assert(arrays[0].take(arrays[0].len() as int) =~= arrays[0]);
    assert forall|v: ValueModel| #[trigger] common(arrays).contains(v) <==> in_all(
        arrays,
        0,
        v,
    ) by {
        lemma_common_member(arrays, arrays[0].len() as int, v);
    }
}

/// Where a group goes into sorted groups, the groups before it have at
/// least its count and the group at its place has less.
pub proof fn lemma_insert_position(sorted: Seq<Group>, count: int, i: int)
    requires
        0 <= i <= sorted.len(),
    ensures
        i <= insert_position(sorted, count, i) <= sorted.len(),
        forall|k: int| i <= k < insert_position(sorted, count, i) ==> sorted[k].count >= count,
        insert_position(sorted, count, i) < sorted.len() ==> sorted[insert_position(
            sorted,
            count,
            i,
        )].count < count,
    decreases sorted.len() - i,
{
    if i < sorted.len() && sorted[i].count >= count {
        lemma_insert_position(sorted, count, i + 1);
    }
}

/// Sorted groups stand in the order of falling count.
pub proof fn lemma_sorted_falls(gs: Seq<Group>, n: int)
    requires
        0 <= n <= gs.len(),
    ensures
        sorted_upto(gs, n).len() == n,
        forall|p: int, q: int|
            0 <= p < q < n ==> sorted_upto(gs, n)[p].count >= sorted_upto(gs, n)[q].count,
    decreases n,
{
    if n > 0 {
        lemma_sorted_falls(gs, n - 1);
        let before = sorted_upto(gs, n - 1);
        let g = gs[n - 1];
        let at = insert_position(before, g.count, 0);
        lemma_insert_position(before, g.count, 0);
        let now = before.insert(at, g);
        assert forall|p: int, q: int| 0 <= p < q < n implies now[p].count >= now[q].count by {
            if q < at {
                assert(now[p] == before[p] && now[q] == before[q]);
            } else if q == at {
                assert(now[p] == before[p]);
            } else if p < at {
                assert(now[p] == before[p] && now[q] == before[q - 1]);
                if at < before.len() {
                    assert(before[at].count < g.count);
                    if q - 1 > at {
                        assert(before[at].count >= before[q - 1].count);
                    }
                }
            } else if p == at {
                assert(now[q] == before[q - 1]);
                if q - 1 > at {
                    assert(before[at].count >= before[q - 1].count);
                }
            } else {
                assert(now[p] == before[p - 1] && now[q] == before[q - 1]);
            }
        }
    }
}

/// Titles under which the entries hold articles all have their articles.
pub proof fn lemma_articles_from_found(
    entries: Seq<ArticleModel>,
    titles: Seq<Seq<char>>,
    i: int,
    acc: Seq<ValueModel>,
)
    requires
        0 <= i,
        forall|k: int| 0 <= k < titles.len() ==> article_of(entries, #[trigger] titles[k]) is Some,
    ensures
        articles_from(entries, titles, i, acc) is Ok,
    decreases titles.len() - i,
{
    if i < titles.len() {
        let a = article_of(entries, titles[i])->0;
        lemma_articles_from_found(entries, titles, i + 1, acc.push(article(a)));
    }
}

/// A title builtin never misses the article of a title that matched.
pub proof fn lemma_title_finds_articles(corpus: CorpusModel, inst: InstModel)
    ensures
        !(eval_title(corpus, inst) matches Err(e) && e is ArticleMissing),
{
    if let Ok(what) = operand_text(inst, 0, InstructionType::Constant) {
        let option = title_option(inst.text());
        lemma_matching_are_titles(corpus.titles, what, option, 0, Seq::empty());
        lemma_articles_from_found(
            corpus.titles,
            matching_titles(corpus.titles, what, option),
            0,
            Seq::empty(),
        );
    }
}

/// The number of elements of the arrays from the `k`-th on together.
pub open spec fn total_len(arrays: Seq<Seq<ValueModel>>, k: int) -> int
    decreases arrays.len() - k,
{
    if 0 <= k < arrays.len() {
        arrays[k].len() + total_len(arrays, k + 1)
    } else {
        0
    }
}

/// Counting is additive over `|` for any number of arrays: arrays joined
/// one after the other have as many elements as the arrays together.
pub proof fn lemma_joined_len(arrays: Seq<Seq<ValueModel>>, k: int, acc: Seq<ValueModel>)
    ensures
        joined(arrays, k, acc).len() == acc.len() + total_len(arrays, k),
    decreases arrays.len() - k,
{
    if 0 <= k < arrays.len() {
        lemma_joined_len(arrays, k + 1, acc + arrays[k]);
    }
}

/// Counting is additive over `|`: the concatenation of two arrays has as
/// many elements as the two together.
pub proof fn lemma_count_of_concat(a: Seq<ValueModel>, b: Seq<ValueModel>)
    ensures
        joined(seq![a, b], 0, Seq::empty()) == a + b,
        joined(seq![a, b], 0, Seq::empty()).len() == a.len() + b.len(),
{
    let arrays = seq![a, b];
    assert(joined(arrays, 2, Seq::empty() + a + b) == Seq::<ValueModel>::empty() + a + b);
    assert(joined(arrays, 1, Seq::empty() + a) == joined(arrays, 2, Seq::empty() + a + b));
    assert(joined(arrays, 0, Seq::empty()) == joined(arrays, 1, Seq::empty() + a));
    assert(Seq::<ValueModel>::empty() + a + b =~= a + b);
}

/// Appends a copy of each of `items` to `result`.
fn append_clones<'a>(
    result: &mut Vec<RuntimeVariableAbstractData<'a>>,
    items: &Vec<RuntimeVariableAbstractData<'a>>,
)
    ensures
        values(final(result)@) == values(old(result)@) + values(items@),
{
    let mut j: usize = 0;
    while j < items.len()
        invariant
            0 <= j <= items.len(),
            values(result@) == values(old(result)@) + values(items@).take(j as int),
        decreases items.len() - j,
    {
        let ghost before = values(result@);
        result.push(items[j].clone());
        assert(values(result@) =~= before.push(items[j as int]@));
        assert(values(items@).take(j + 1) =~= values(items@).take(j as int).push(
            items[j as int]@,
        ));
        j += 1;
        assert(values(result@) =~= values(old(result)@) + values(items@).take(j as int));
    }
    assert(values(items@).take(items.len() as int) =~= values(items@));
}

/// The machine: a schedule of instructions.
pub struct VirtualMachine<'a> {
    insts: Vec<&'a Instruction>,
    debug: bool,
}

impl<'a> VirtualMachine<'a> {
    /// The schedule of the machine.
    pub closed spec fn program(&self) -> Seq<InstModel> {
        models(self.insts@)
    }

    /// A machine for the schedule `insts`.
    pub fn from(insts: Vec<&'a Instruction>, debug: bool) -> (vm: VirtualMachine<'a>)
        ensures
            vm.program() == models(insts@),
    {
        VirtualMachine { insts, debug }
    }

    /// Runs the schedule against `reference`: every instruction in its
    /// order, each on the values of those before it. The result is the value
    /// of the last instruction, together with that instruction, or the first
    /// error met.
    pub fn run<'b>(&'b self, reference: &'b RuntimeRef<'b>) -> (r: Result<
        RuntimeVariable<'b>,
        RuntimeError,
    >)
        ensures
            outcome_of(r) == run_program(self.program(), reference@),
            r matches Ok(value) ==> self.program().len() > 0 && value.inst@
                == self.program().last(),
    {
        let data = self.evaluate(reference)?;
        let last: &'b Instruction = self.insts[self.insts.len() - 1];
        assert(self.program().last() == last@);
        Ok(RuntimeVariable { inst: last, data })
    }

    /// Runs the schedule against `reference` and returns the value of the
    /// last instruction, or the first error met.
    pub fn evaluate<'b>(&self, reference: &'b RuntimeRef<'b>) -> (r: Result<
        RuntimeVariableAbstractData<'b>,
        RuntimeError,
    >)
        ensures
            evaluation_of(r) == run_program(self.program(), reference@),
            r is Ok ==> self.program().len() > 0,
    {
        let ghost program = self.program();
        let ghost corpus = reference@;
        if self.insts.len() == 0 {
            return Err(RuntimeError::EmptyProgram);
        }
        let mut rt_var: HashMap<usize, RuntimeVariableAbstractData<'b>> = HashMap::new();
        assert(store_of(rt_var@) =~= Map::<nat, ValueModel>::empty());
        let mut i: usize = 0;
        while i < self.insts.len()
            invariant
                0 <= i <= self.insts.len(),
                program == models(self.insts@),
                corpus == reference@,
                run_from(program, corpus, i as int, store_of(rt_var@)) == run_from(
                    program,
                    corpus,
                    0,
                    Map::empty(),
                ),
                i > 0 ==> rt_var@.contains_key(self.insts[i - 1].id),
            decreases self.insts.len() - i,
        {
            let inst: &Instruction = self.insts[i];
            assert(program[i as int] == inst@);
            let value = match self.eval_inst(&rt_var, reference, inst) {
                Ok(value) => value,
                Err(e) => {
                    return Err(e);
                },
            };
            let ghost before = store_of(rt_var@);
            let ghost data = value@;
            rt_var.insert(inst.id, value);
            assert(store_of(rt_var@) =~= before.insert(inst.id as nat, data));
            i += 1;
        }
        let last: &Instruction = self.insts[self.insts.len() - 1];
        assert(program.last() == last@);
        match rt_var.get(&last.id) {
            Some(value) => Ok(value.clone()),
            None => Err(RuntimeError::EmptyProgram),
        }
    }

    fn eval_inst<'b>(
        &self,
        var: &HashMap<usize, RuntimeVariableAbstractData<'b>>,
        reference: &'b RuntimeRef<'b>,
        inst: &Instruction,
    ) -> (r: Result<RuntimeVariableAbstractData<'b>, RuntimeError>)
        ensures
            evaluation_of(r) == eval_inst(store_of(var@), reference@, inst@),
    {
        match inst.inst_type {
            InstructionType::FunctionCall => self.eval_func(var, reference, inst),
            InstructionType::Intercross => self.eval_intercross(var, inst),
            InstructionType::Concat => self.eval_concat(var, inst),
            _ => Err(RuntimeError::NotExecutable { id: inst.id }),
        }
    }

    fn eval_func<'b>(
        &self,
        var: &HashMap<usize, RuntimeVariableAbstractData<'b>>,
        reference: &'b RuntimeRef<'b>,
        inst: &Instruction,
    ) -> (r: Result<RuntimeVariableAbstractData<'b>, RuntimeError>)
        ensures
            evaluation_of(r) == eval_func(store_of(var@), reference@, inst@),
    {
        let name = Self::text_of(inst);
        if str_equal(name, "title") || str_equal(name, "title:exact") || str_equal(
            name,
            "title:contains",
        ) || str_equal(name, "title:startswith") || str_equal(name, "title:endswith") {
            self.eval_func_title(reference, inst)
        } else if str_equal(name, "body:contains") || str_equal(name, "body:menu_exists") {
            self.eval_func_body(reference, inst)
        } else if str_equal(name, "count") {
            self.eval_func_count(var, inst)
        } else if str_equal(name, "set") {
            self.eval_func_set(var, inst)
        } else if str_equal(name, "group_sum") {
            self.eval_func_group_sum(var, inst)
        } else if str_equal(name, "map") {
            self.eval_func_map(var, reference, inst)
        } else if str_equal(name, "flatten") {
            self.eval_func_flatten(var, inst)
        } else if str_equal(name, "sort") || str_equal(name, "filter") || str_equal(name, "bind") {
            Err(RuntimeError::NotImplemented { name: Self::owned(name) })
        } else {
            Err(RuntimeError::UnknownFunction { name: Self::owned(name) })
        }
    }

    /// A string with the characters of `text`.
    fn owned(text: &str) -> (r: String)
        ensures
            r@ == text@,
    {
        text.to_owned()
    }

    /// The text in the `data` of an instruction; empty where there is none.
    fn text_of<'b>(inst: &'b Instruction) -> (r: &'b str)
        ensures
            r@ == inst@.text(),
    {
        proof {
            reveal_strlit("");
        }
        match &inst.data {
            Some(text) => text.as_str(),
            None => "",
        }
    }

    /// The number of operands of an instruction.
    fn operand_count(inst: &Instruction) -> (n: usize)
        ensures
            n == inst@.operands().len(),
    {
        match &inst.params {
            Some(params) => params.len(),
            None => 0,
        }
    }

    /// The `k`-th operand of an instruction.
    fn operand<'b>(inst: &'b Instruction, k: usize) -> (r: Result<&'b Instruction, RuntimeError>)
        ensures
            match r {
                Ok(p) => operand_at(inst@, k as int) == Ok::<_, RuntimeErrorModel>(p@),
                Err(e) => operand_at(inst@, k as int) == Err::<InstModel, _>(e@),
            },
    {
        match &inst.params {
            Some(params) => {
                if k < params.len() {
                    assert(inst@.operands()[k as int] == params[k as int]@);
                    Ok(&*params[k])
                } else {
                    Err(RuntimeError::OperandMissing { id: inst.id })
                }
            },
            None => Err(RuntimeError::OperandMissing { id: inst.id }),
        }
    }

    /// The value of the `k`-th operand of an instruction.
    fn operand_value<'b, 'c>(
        var: &'c HashMap<usize, RuntimeVariableAbstractData<'b>>,
        inst: &Instruction,
        k: usize,
    ) -> (r: Result<&'c RuntimeVariableAbstractData<'b>, RuntimeError>)
        ensures
            match r {
                Ok(v) => operand_value(store_of(var@), inst@, k as int) == Ok::<
                    _,
                    RuntimeErrorModel,
                >(v@),
                Err(e) => operand_value(store_of(var@), inst@, k as int) == Err::<ValueModel, _>(
                    e@,
                ),
            },
    {
        let p = Self::operand(inst, k)?;
        match var.get(&p.id) {
            Some(v) => Ok(v),
            None => Err(RuntimeError::OperandMissing { id: inst.id }),
        }
    }

    /// The elements of the `k`-th operand of an instruction, which must be
    /// an array.
    fn operand_array<'b, 'c>(
        var: &'c HashMap<usize, RuntimeVariableAbstractData<'b>>,
        inst: &Instruction,
        k: usize,
    ) -> (r: Result<&'c Vec<RuntimeVariableAbstractData<'b>>, RuntimeError>)
        ensures
            match r {
                Ok(items) => operand_array(store_of(var@), inst@, k as int) == Ok::<
                    _,
                    RuntimeErrorModel,
                >(values(items@)),
                Err(e) => operand_array(store_of(var@), inst@, k as int) == Err::<
                    Seq<ValueModel>,
                    _,
                >(e@),
            },
    {
        let v = Self::operand_value(var, inst, k)?;
        match v.array() {
            Some(items) => Ok(&**items),
            None => Err(RuntimeError::OperandMismatch { id: inst.id }),
        }
    }

    /// The text of the `k`-th operand of an instruction, which must be a
    /// leaf of the given kind.
    fn operand_text<'b>(inst: &'b Instruction, k: usize, kind: InstructionType) -> (r: Result<
        &'b str,
        RuntimeError,
    >)
        ensures
            match r {
                Ok(text) => operand_text(inst@, k as int, kind) == Ok::<_, RuntimeErrorModel>(
                    text@,
                ),
                Err(e) => operand_text(inst@, k as int, kind) == Err::<Seq<char>, _>(e@),
            },
    {
        let p = Self::operand(inst, k)?;
        if p.inst_type == kind {
            match &p.data {
                Some(text) => Ok(text.as_str()),
                None => Err(RuntimeError::OperandMismatch { id: inst.id }),
            }
        } else {
            Err(RuntimeError::OperandMismatch { id: inst.id })
        }
    }

    /// The operand arrays of an instruction.
    fn operand_arrays<'b, 'c>(
        var: &'c HashMap<usize, RuntimeVariableAbstractData<'b>>,
        inst: &Instruction,
    ) -> (r: Result<Vec<&'c Vec<RuntimeVariableAbstractData<'b>>>, RuntimeError>)
        ensures
            match r {
                Ok(arrays) => operand_arrays(store_of(var@), inst@, 0, Seq::empty()) == Ok::<
                    _,
                    RuntimeErrorModel,
                >(arrays_view(arrays@)),
                Err(e) => operand_arrays(store_of(var@), inst@, 0, Seq::empty()) == Err::<
                    Seq<Seq<ValueModel>>,
                    _,
                >(e@),
            },
    {
        let count = Self::operand_count(inst);
        let mut arrays: Vec<&'c Vec<RuntimeVariableAbstractData<'b>>> = Vec::new();
        assert(arrays_view(arrays@) =~= Seq::<Seq<ValueModel>>::empty());
        let mut k: usize = 0;
        while k < count
            invariant
                0 <= k <= count,
                count == inst@.operands().len(),
                operand_arrays(store_of(var@), inst@, k as int, arrays_view(arrays@))
                    == operand_arrays(store_of(var@), inst@, 0, Seq::empty()),
            decreases count - k,
        {
            let items = Self::operand_array(var, inst, k)?;
            let ghost before = arrays_view(arrays@);
            arrays.push(items);
            assert(arrays_view(arrays@) =~= before.push(values(items@)));
            k += 1;
        }
        Ok(arrays)
    }

    /// Whether `item` is in each of the arrays but the first.
    fn in_others<'b>(
        arrays: &Vec<&Vec<RuntimeVariableAbstractData<'b>>>,
        item: &RuntimeVariableAbstractData<'b>,
    ) -> (r: bool)
        ensures
            r == in_all(arrays_view(arrays@), 1, item@),
    {
        let mut k: usize = 1;
        while k < arrays.len()
            invariant
                1 <= k,
                forall|j: int| 1 <= j < k && j < arrays.len() ==> (#[trigger] arrays_view(
                    arrays@,
                )[j]).contains(item@),
            decreases arrays.len() - k,
        {
            if !contains_value(arrays[k], item) {
                assert(!arrays_view(arrays@)[k as int].contains(item@));
                return false;
            }
            k += 1;
        }
        true
    }

    fn eval_intercross<'b>(
        &self,
        var: &HashMap<usize, RuntimeVariableAbstractData<'b>>,
        inst: &Instruction,
    ) -> (r: Result<RuntimeVariableAbstractData<'b>, RuntimeError>)
        ensures
            evaluation_of(r) == eval_intercross(store_of(var@), inst@),
    {
        let arrays = Self::operand_arrays(var, inst)?;
        let mut result: Vec<RuntimeVariableAbstractData<'b>> = Vec::new();
        assert(values(result@) =~= Seq::<ValueModel>::empty());
        if arrays.len() > 0 {
            let first = arrays[0];
            let mut n: usize = 0;
            while n < first.len()
                invariant
                    0 <= n <= first.len(),
                    arrays.len() > 0,
                    first == arrays[0],
                    values(result@) == common_upto(arrays_view(arrays@), n as int),
                decreases first.len() - n,
            {
                assert(arrays_view(arrays@)[0][n as int] == first[n as int]@);
                if !contains_value(&result, &first[n]) && Self::in_others(&arrays, &first[n]) {
                    let ghost before = values(result@);
                    result.push(first[n].clone());
                    assert(values(result@) =~= before.push(first[n as int]@));
                }
                n += 1;
            }
            assert(arrays_view(arrays@)[0].len() == first.len());
        }
        Ok(RuntimeVariableAbstractData::array_of(result))
    }

    fn eval_concat<'b>(
        &self,
        var: &HashMap<usize, RuntimeVariableAbstractData<'b>>,
        inst: &Instruction,
    ) -> (r: Result<RuntimeVariableAbstractData<'b>, RuntimeError>)
        ensures
            evaluation_of(r) == eval_concat(store_of(var@), inst@),
    {
        let arrays = Self::operand_arrays(var, inst)?;
        let mut result: Vec<RuntimeVariableAbstractData<'b>> = Vec::new();
        assert(values(result@) =~= Seq::<ValueModel>::empty());
        let mut k: usize = 0;
        while k < arrays.len()
            invariant
                0 <= k <= arrays.len(),
                joined(arrays_view(arrays@), k as int, values(result@)) == joined(
                    arrays_view(arrays@),
                    0,
                    Seq::empty(),
                ),
            decreases arrays.len() - k,
        {
            append_clones(&mut result, arrays[k]);
            k += 1;
        }
        Ok(RuntimeVariableAbstractData::array_of(result))
    }

    #[verifier::loop_isolation(false)]
    fn eval_func_title<'b>(&self, reference: &RuntimeRef<'b>, inst: &Instruction) -> (r: Result<
        RuntimeVariableAbstractData<'b>,
        RuntimeError,
    >)
        ensures
            evaluation_of(r) == eval_title(reference@, inst@),
    {
        let what = Self::operand_text(inst, 0, InstructionType::Constant)?;
        let name = Self::text_of(inst);
        if str_equal(name, "title") {
            match reference.title_index.find_one_by(what) {
                Some(exact_title) => match reference.title_index.get_no_redirect(
                    exact_title.as_str(),
                ) {
                    Some(found) => Ok(
                        RuntimeVariableAbstractData::Primitive(
                            RuntimeVariableAbstractPrimitiveData::Article(found),
                        ),
                    ),
                    None => Err(RuntimeError::ArticleMissing { title: Self::owned(what) }),
                },
                None => Err(RuntimeError::TitleNotFound { what: Self::owned(what) }),
            }
        } else {
            let option = if str_equal(name, "title:exact") {
                TitleIndexFindOption::Exact
            } else if str_equal(name, "title:contains") {
                TitleIndexFindOption::Contains
            } else if str_equal(name, "title:startswith") {
                TitleIndexFindOption::StartsWith
            } else {
                TitleIndexFindOption::EndsWith
            };
            let titles = reference.title_index.find_by(what, option);
            if titles.len() == 0 {
                return Err(RuntimeError::TitleNotFound { what: Self::owned(what) });
            }
            let ghost entries = reference@.titles;
            let ghost wanted = titles_view(titles@);
            let mut articles: Vec<RuntimeVariableAbstractData<'b>> = Vec::new();
            assert(values(articles@) =~= Seq::<ValueModel>::empty());
            let mut i: usize = 0;
            while i < titles.len()
                invariant
                    0 <= i <= titles.len(),
                    entries == reference.title_index@,
                    wanted == titles_view(titles@),
                    articles_from(entries, wanted, i as int, values(articles@)) == articles_from(
                        entries,
                        wanted,
                        0,
                        Seq::empty(),
                    ),
                decreases titles.len() - i,
            {
                assert(wanted[i as int] == titles[i as int]@);
                match reference.title_index.get_no_redirect(titles[i].as_str()) {
                    Some(found) => {
                        let ghost before = values(articles@);
                        articles.push(
                            RuntimeVariableAbstractData::Primitive(
                                RuntimeVariableAbstractPrimitiveData::Article(found),
                            ),
                        );
                        assert(values(articles@) =~= before.push(article(found@)));
                    },
                    None => {
                        return Err(
                            RuntimeError::ArticleMissing { title: Self::owned(titles[i].as_str()) },
                        );
                    },
                }
                i += 1;
            }
            Ok(RuntimeVariableAbstractData::array_of(articles))
        }
    }

    fn eval_func_body<'b>(&self, reference: &RuntimeRef<'b>, inst: &Instruction) -> (r: Result<
        RuntimeVariableAbstractData<'b>,
        RuntimeError,
    >)
        ensures
            r matches Err(e) && e@ == (if reference@.loaded {
                RuntimeErrorModel::NotImplemented { name: inst@.text() }
            } else {
                RuntimeErrorModel::ArticlesNotLoaded { name: inst@.text() }
            }),
    {
        let name = Self::owned(Self::text_of(inst));
        if reference.articles.is_none() {
            Err(RuntimeError::ArticlesNotLoaded { name })
        } else {
            Err(RuntimeError::NotImplemented { name })
        }
    }

    /// The number of `items` as a value.
    fn counted<'b>(inst: &Instruction, items: &Vec<RuntimeVariableAbstractData<'b>>) -> (r: Result<
        RuntimeVariableAbstractData<'b>,
        RuntimeError,
    >)
        ensures
            evaluation_of(r) == count_value(inst@, values(items@)),
    {
        let n = items.len();
        if n as u64 > 9223372036854775807u64 {
            Err(RuntimeError::IntegerOverflow { id: inst.id })
        } else {
            Ok(RuntimeVariableAbstractData::integer_of(n as i64))
        }
    }

    fn eval_func_count<'b>(
        &self,
        var: &HashMap<usize, RuntimeVariableAbstractData<'b>>,
        inst: &Instruction,
    ) -> (r: Result<RuntimeVariableAbstractData<'b>, RuntimeError>)
        ensures
            evaluation_of(r) == eval_count(store_of(var@), inst@),
    {
        let value = Self::operand_value(var, inst, 0)?;
        match value {
            RuntimeVariableAbstractData::Array(e) => {
                assert(value@->Array_0 =~= values(e@));
                Self::counted(inst, &**e)
            },
            RuntimeVariableAbstractData::SetOf(e) => {
                assert(value@->SetOf_0 =~= values(e@));
                Self::counted(inst, &**e)
            },
            _ => Err(RuntimeError::OperandMismatch { id: inst.id }),
        }
    }

    fn eval_func_set<'b>(
        &self,
        var: &HashMap<usize, RuntimeVariableAbstractData<'b>>,
        inst: &Instruction,
    ) -> (r: Result<RuntimeVariableAbstractData<'b>, RuntimeError>)
        ensures
            evaluation_of(r) == eval_set(store_of(var@), inst@),
    {
        let array = Self::operand_array(var, inst, 0)?;
        let mut result: Vec<RuntimeVariableAbstractData<'b>> = Vec::new();
        assert(values(result@) =~= Seq::<ValueModel>::empty());
        let mut i: usize = 0;
        while i < array.len()
            invariant
                0 <= i <= array.len(),
                values(result@) == distinct_upto(values(array@), i as int),
            decreases array.len() - i,
        {
            if !contains_value(&result, &array[i]) {
                let ghost before = values(result@);
                result.push(array[i].clone());
                assert(values(result@) =~= before.push(array[i as int]@));
            }
            i += 1;
        }
        Ok(RuntimeVariableAbstractData::set_of(result))
    }

    /// The first of the places `firsts` at which `items` holds `item`.
    fn find_first<'b>(
        items: &Vec<RuntimeVariableAbstractData<'b>>,
        firsts: &Vec<usize>,
        item: &RuntimeVariableAbstractData<'b>,
    ) -> (r: Option<usize>)
        requires
            forall|j: int| 0 <= j < firsts.len() ==> firsts[j] < items.len(),
        ensures
            match r {
                Some(j) => j < firsts.len() && items[firsts[j as int] as int]@ == item@,
                None => forall|j: int| 0 <= j < firsts.len() ==> items[firsts[j] as int]@ != item@,
            },
    {
        let mut j: usize = 0;
        while j < firsts.len()
            invariant
                0 <= j <= firsts.len(),
                forall|j: int| 0 <= j < firsts.len() ==> firsts[j] < items.len(),
                forall|p: int| 0 <= p < j ==> items[firsts[p] as int]@ != item@,
            decreases firsts.len() - j,
        {
            if items[firsts[j]].same(item) {
                return Some(j);
            }
            j += 1;
        }
        None
    }

    #[verifier::loop_isolation(false)]
    #[verifier::rlimit(50)]
    fn eval_func_group_sum<'b>(
        &self,
        var: &HashMap<usize, RuntimeVariableAbstractData<'b>>,
        inst: &Instruction,
    ) -> (r: Result<RuntimeVariableAbstractData<'b>, RuntimeError>)
        ensures
            evaluation_of(r) == eval_group_sum(store_of(var@), inst@),
    {
        let array = Self::operand_array(var, inst, 0)?;
        if array.len() as u64 > 9223372036854775807u64 {
            return Err(RuntimeError::IntegerOverflow { id: inst.id });
        }
        let ghost items = values(array@);
        // where each distinct element is first seen, and how often it occurs
        let mut firsts: Vec<usize> = Vec::new();
        let mut counts: Vec<i64> = Vec::new();
        let mut i: usize = 0;
        assert(picked(items, firsts@) =~= distinct_upto(items, 0));
        while i < array.len()
            invariant
                0 <= i <= array.len(),
                firsts.len() == counts.len(),
                forall|j: int| 0 <= j < firsts.len() ==> firsts[j] < i,
                picked(items, firsts@) == distinct_upto(items, i as int),
                forall|j: int|
                    0 <= j < counts.len() ==> counts[j] == count_upto(
                        items,
                        items[firsts[j] as int],
                        i as int,
                    ),
            decreases array.len() - i,
        {
            let ghost keys = picked(items, firsts@);
            proof {
                lemma_distinct_no_duplicates(items, i as int);
            }
            match Self::find_first(array, &firsts, &array[i]) {
                Some(j) => {
                    proof {
                        lemma_count_bound(items, items[firsts[j as int] as int], i as int);
                    }
                    assert(keys[j as int] == items[i as int]);
                    let bumped = counts[j] + 1;
                    counts.set(j, bumped);
                    assert forall|p: int| 0 <= p < counts.len() implies counts[p] == count_upto(
                        items,
                        items[firsts[p] as int],
                        i + 1,
                    ) by {
                        if p != j {
                            assert(keys[p] != keys[j as int]);
                        }
                    }
                },
                None => {
                    assert(!keys.contains(items[i as int])) by {
                        if keys.contains(items[i as int]) {
                            let p = choose|p: int|
                                0 <= p < keys.len() && keys[p] == items[i as int];
                            assert(items[firsts[p] as int] == keys[p]);
                        }
                    }
                    proof {
                        lemma_absent_count(items, items[i as int], i as int);
                    }
                    firsts.push(i);
                    counts.push(1);
                    assert(picked(items, firsts@) =~= keys.push(items[i as int]));
                    assert forall|p: int| 0 <= p < counts.len() implies counts[p] == count_upto(
                        items,
                        items[firsts[p] as int],
                        i + 1,
                    ) by {
                        if p < counts.len() - 1 {
                            assert(keys[p] == items[firsts[p] as int]);
                        }
                    }
                },
            }
            i += 1;
        }
        let ghost gs = groups(items);
        assert(gs.len() == firsts.len());
        assert forall|j: int| 0 <= j < gs.len() implies gs[j].value == items[firsts[j] as int]
            && gs[j].count == counts[j] by {
            assert(picked(items, firsts@)[j] == items[firsts[j] as int]);
        }
        // the places of the groups, sorted by falling count
        let mut order: Vec<usize> = Vec::new();
        let mut t: usize = 0;
        assert(ordered(gs, order@) =~= sorted_upto(gs, 0));
        while t < firsts.len()
            invariant
                0 <= t <= firsts.len(),
                order.len() == t,
                forall|p: int| 0 <= p < order.len() ==> order[p] < t,
                ordered(gs, order@) == sorted_upto(gs, t as int),
            decreases firsts.len() - t,
        {
            let ghost sorted = ordered(gs, order@);
            let mut p: usize = 0;
            while p < order.len() && counts[order[p]] >= counts[t]
                invariant
                    0 <= p <= order.len(),
                    insert_position(sorted, gs[t as int].count, p as int) == insert_position(
                        sorted,
                        gs[t as int].count,
                        0,
                    ),
                decreases order.len() - p,
            {
                assert(sorted[p as int] == gs[order[p as int] as int]);
                p += 1;
            }
            assert(p < order.len() ==> sorted[p as int] == gs[order[p as int] as int]);
            order.insert(p, t);
            assert(ordered(gs, order@) =~= sorted.insert(p as int, gs[t as int]));
            t += 1;
        }
        let ghost sorted = sorted_upto(gs, gs.len() as int);
        let mut result: Vec<RuntimeVariableAbstractData<'b>> = Vec::new();
        let mut q: usize = 0;
        while q < order.len()
            invariant
                0 <= q <= order.len(),
                result.len() == q,
                forall|p: int| 0 <= p < q ==> result[p]@ == group_tuples(sorted)[p],
            decreases order.len() - q,
        {
            let place = order[q];
            assert(sorted[q as int] == gs[place as int]);
            let mut parts: Vec<RuntimeVariableAbstractData<'b>> = Vec::new();
            parts.push(array[firsts[place]].clone());
            parts.push(RuntimeVariableAbstractData::integer_of(counts[place]));
            assert(values(parts@) =~= seq![
                sorted[q as int].value,
                integer(sorted[q as int].count),
            ]);
            result.push(RuntimeVariableAbstractData::tuple_of(parts));
            q += 1;
        }
        assert(values(result@) =~= group_tuples(sorted));
        Ok(RuntimeVariableAbstractData::array_of(result))
    }

    /// The names as an array of category values.
    fn category_array<'b>(names: &'b Vec<String>) -> (r: RuntimeVariableAbstractData<'b>)
        ensures
            r@ == ValueModel::Array(category_values(texts(names@))),
    {
        let mut items: Vec<RuntimeVariableAbstractData<'b>> = Vec::new();
        let mut j: usize = 0;
        while j < names.len()
            invariant
                0 <= j <= names.len(),
                items.len() == j,
                forall|p: int| 0 <= p < j ==> items[p]@ == category(names[p]@),
            decreases names.len() - j,
        {
            items.push(
                RuntimeVariableAbstractData::Primitive(
                    RuntimeVariableAbstractPrimitiveData::Category(names[j].as_str()),
                ),
            );
            j += 1;
        }
        assert(values(items@) =~= category_values(texts(names@)));
        RuntimeVariableAbstractData::array_of(items)
    }

    /// The article that `found` redirects to; `found` itself where it is no
    /// redirect, or where its redirects cannot be followed to their end.
    fn redirect_of<'b>(reference: &RuntimeRef<'b>, found: &Article) -> (r: Article)
        ensures
            r@ == redirected(reference@.titles, found@),
    {
        if found.is_redirect() {
            match reference.title_index.get(found.title.as_str()) {
                Some(target) => target,
                None => found.clone(),
            }
        } else {
            found.clone()
        }
    }

    fn eval_func_map<'b>(
        &self,
        var: &HashMap<usize, RuntimeVariableAbstractData<'b>>,
        reference: &'b RuntimeRef<'b>,
        inst: &Instruction,
    ) -> (r: Result<RuntimeVariableAbstractData<'b>, RuntimeError>)
        ensures
            evaluation_of(r) == eval_map(store_of(var@), reference@, inst@),
    {
        let name = Self::operand_text(inst, 1, InstructionType::UseFunction)?;
        if str_equal(name, "category") {
            let array = Self::operand_array(var, inst, 0)?;
            let ghost items = values(array@);
            let ghost categories = reference@.categories;
            let mut result: Vec<RuntimeVariableAbstractData<'b>> = Vec::new();
            assert(values(result@) =~= Seq::<ValueModel>::empty());
            let mut i: usize = 0;
            while i < array.len()
                invariant
                    0 <= i <= array.len(),
                    items == values(array@),
                    categories == reference.category_index@,
                    map_category_from(categories, items, i as int, values(result@))
                        == map_category_from(categories, items, 0, Seq::empty()),
                decreases array.len() - i,
            {
                assert(items[i as int] == array[i as int]@);
                match &array[i] {
                    RuntimeVariableAbstractData::Primitive(
                        RuntimeVariableAbstractPrimitiveData::Article(found),
                    ) => {
                        match reference.category_index.get(found.title.as_str()) {
                            Some(names) => {
                                let ghost before = values(result@);
                                result.push(Self::category_array(names));
                                assert(values(result@) =~= before.push(
                                    ValueModel::Array(category_values(texts(names@))),
                                ));
                            },
                            None => {},
                        }
                    },
                    _ => {},
                }
                i += 1;
            }
            Ok(RuntimeVariableAbstractData::array_of(result))
        } else if str_equal(name, "redirect") {
            let array = Self::operand_array(var, inst, 0)?;
            let ghost items = values(array@);
            let ghost titles = reference@.titles;
            let mut result: Vec<RuntimeVariableAbstractData<'b>> = Vec::new();
            assert(values(result@) =~= Seq::<ValueModel>::empty());
            let mut i: usize = 0;
            while i < array.len()
                invariant
                    0 <= i <= array.len(),
                    items == values(array@),
                    titles == reference@.titles,
                    map_redirect_from(titles, items, i as int, values(result@))
                        == map_redirect_from(titles, items, 0, Seq::empty()),
                decreases array.len() - i,
            {
                assert(items[i as int] == array[i as int]@);
                match &array[i] {
                    RuntimeVariableAbstractData::Primitive(
                        RuntimeVariableAbstractPrimitiveData::Article(found),
                    ) => {
                        let ghost before = values(result@);
                        let target = Self::redirect_of(reference, found);
                        result.push(
                            RuntimeVariableAbstractData::Primitive(
                                RuntimeVariableAbstractPrimitiveData::Article(target),
                            ),
                        );
                        assert(values(result@) =~= before.push(article(target@)));
                    },
                    _ => {},
                }
                i += 1;
            }
            Ok(RuntimeVariableAbstractData::array_of(result))
        } else {
            Err(RuntimeError::NotImplemented { name: Self::owned(name) })
        }
    }

    #[verifier::loop_isolation(false)]
    fn eval_func_flatten<'b>(
        &self,
        var: &HashMap<usize, RuntimeVariableAbstractData<'b>>,
        inst: &Instruction,
    ) -> (r: Result<RuntimeVariableAbstractData<'b>, RuntimeError>)
        ensures
            evaluation_of(r) == eval_flatten(store_of(var@), inst@),
    {
        let array = Self::operand_array(var, inst, 0)?;
        let ghost items = values(array@);
        let mut result: Vec<RuntimeVariableAbstractData<'b>> = Vec::new();
        assert(values(result@) =~= Seq::<ValueModel>::empty());
        let mut i: usize = 0;
        while i < array.len()
            invariant
                0 <= i <= array.len(),
                items == values(array@),
                flatten_from(inst@, items, i as int, values(result@)) == flatten_from(
                    inst@,
                    items,
                    0,
                    Seq::empty(),
                ),
            decreases array.len() - i,
        {
            assert(items[i as int] == array[i as int]@);
            match array[i].array() {
                Some(inner) => {
                    append_clones(&mut result, &**inner);
                },
                None => {
                    return Err(RuntimeError::OperandMismatch { id: inst.id });
                },
            }
            i += 1;
        }
        Ok(RuntimeVariableAbstractData::array_of(result))
    }
}

} // verus!
