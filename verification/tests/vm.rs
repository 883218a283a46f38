use wiki_query::engine::ir::{IRBuilder, Instruction, InstructionType};
use wiki_query::engine::printer::Printer;
use wiki_query::engine::query::{query, QueryError};
use wiki_query::engine::ir::CompileError;
use wiki_query::engine::semantic_type::SemanticError;
use std::collections::HashSet;
use wiki_query::engine::semantic_type::SemanticType;
use wiki_query::engine::value::{
    RuntimeVariableAbstractData, RuntimeVariableAbstractPrimitiveData,
};
use wiki_query::engine::vm::{RuntimeError, RuntimeRef, RuntimeVariable, VirtualMachine};
use wiki_query::index::category::CategoryIndex;
use wiki_query::index::title::TitleIndex;
use wiki_query::model::article::Article;

fn article(title: &str, text: &str) -> Article {
    Article { title: String::from(title), text: String::from(text) }
}

/// 851 titles hold "동방", 213 of them hold "프로젝트" too, and 40 more hold
/// "프로젝트" alone.
fn corpus() -> (TitleIndex, CategoryIndex) {
    let mut tindex = TitleIndex::new();
    let mut cindex = CategoryIndex::new();
    for i in 0..850 {
        let title = if i < 213 {
            format!("동방 프로젝트 {}", i)
        } else {
            format!("{} 동방", i)
        };
        let text = if i % 50 == 49 {
            format!("#redirect 동방 프로젝트 {}", i % 7)
        } else {
            format!("본문 {}", i)
        };
        let mut categories = vec![String::from("동방")];
        if i % 2 == 0 {
            categories.push(String::from("짝수"));
        }
        if i % 3 == 0 {
            categories.push(String::from("셋"));
        }
        if i % 10 != 9 {
            cindex.insert(title.clone(), categories);
        }
        tindex.insert(article(&title, &text));
    }
    for i in 0..40 {
        tindex.insert(article(&format!("프로젝트 {}", i), "본문"));
    }
    tindex.insert(article("동방지령전", "동방지령전은 게임이다. [[분류:동방 프로젝트]]"));
    cindex.insert(String::from("동방지령전"), vec![String::from("동방 프로젝트")]);
    (tindex, cindex)
}

fn small() -> (TitleIndex, CategoryIndex) {
    let mut tindex = TitleIndex::new();
    tindex.insert(article("abcdef", "first"));
    tindex.insert(article("abcxyz", "second"));
    tindex.insert(article("x1", "#redirect abcdef"));
    tindex.insert(article("x2", "#redirect abcdef"));
    tindex.insert(article("x3", "third"));
    tindex.insert(article("x4", "#redirect x1"));
    tindex.insert(article("x5", "#redirect nowhere"));
    let mut cindex = CategoryIndex::new();
    cindex.insert(String::from("abcdef"), vec![String::from("p"), String::from("q")]);
    cindex.insert(String::from("abcxyz"), vec![String::from("q")]);
    cindex.insert(String::from("x3"), vec![String::from("r"), String::from("q"), String::from("r")]);
    cindex.insert(String::from("x5"), vec![]);
    (tindex, cindex)
}

fn with_result<R>(
    fixture: &(TitleIndex, CategoryIndex),
    target: &str,
    check: impl FnOnce(Result<RuntimeVariable, RuntimeError>) -> R,
) -> R {
    let irb = IRBuilder::from(target).unwrap();
    let head_inst = irb.build();
    let insts = IRBuilder::ir_flatten(&head_inst);
    let vm = VirtualMachine::from(insts, false);
    let rt_ref = RuntimeRef { category_index: &fixture.1, title_index: &fixture.0, articles: None };
    check(vm.run(&rt_ref))
}

fn _uncover_integer(rt_var: &RuntimeVariable) -> i64 {
    match &rt_var.data {
        RuntimeVariableAbstractData::Primitive(e) => match e {
            RuntimeVariableAbstractPrimitiveData::Integer(value) => *value,
            _ => unreachable!(),
        },
        _ => unreachable!(),
    }
}

fn integer(fixture: &(TitleIndex, CategoryIndex), target: &str) -> i64 {
    with_result(fixture, target, |r| _uncover_integer(&r.unwrap()))
}

fn printed(fixture: &(TitleIndex, CategoryIndex), target: &str) -> String {
    with_result(fixture, target, |r| Printer::new().do_print(r.unwrap()))
}

fn array_titles(value: &RuntimeVariableAbstractData) -> Vec<String> {
    value
        .unwrap_array()
        .iter()
        .map(|x| x.unwrap_primitive().unwrap_article().title.clone())
        .collect()
}

fn titles(fixture: &(TitleIndex, CategoryIndex), target: &str) -> Vec<String> {
    with_result(fixture, target, |r| array_titles(&r.unwrap().data))
}

fn inst(
    id: usize,
    inst_type: InstructionType,
    data: Option<&str>,
    params: Option<Vec<Instruction>>,
) -> Instruction {
    Instruction {
        id,
        inst_type,
        semantic_type: SemanticType::Void,
        data: data.map(String::from),
        params: params.map(|ps| ps.into_iter().map(Box::new).collect()),
    }
}

fn call(id: usize, name: &str, params: Vec<Instruction>) -> Instruction {
    inst(id, InstructionType::FunctionCall, Some(name), Some(params))
}

fn constant(id: usize, text: &str) -> Instruction {
    inst(id, InstructionType::Constant, Some(text), None)
}

fn reference(id: usize) -> Instruction {
    inst(id, InstructionType::FunctionCall, None, None)
}

fn run_error(fixture: &(TitleIndex, CategoryIndex), insts: Vec<&Instruction>) -> RuntimeError {
    let vm = VirtualMachine::from(insts, false);
    let rt_ref = RuntimeRef { category_index: &fixture.1, title_index: &fixture.0, articles: None };
    vm.run(&rt_ref).unwrap_err()
}

#[test]
fn vm_title_load_test() {
    let fixture = corpus();
    with_result(&fixture, "count(title:contains(\"동방\"))", |r| {
        assert_eq!(_uncover_integer(&r.unwrap()), 851)
    });
}

#[test]
fn vm_array_to_set_test() {
    let fixture = corpus();
    let is_set = with_result(&fixture, "set(title:contains(\"동방\"))", |r| match r.unwrap().data {
        RuntimeVariableAbstractData::SetOf(_) => true,
        _ => false,
    });
    assert_eq!(is_set, true);
}

#[test]
fn vm_group_sum_test() {
    let fixture = corpus();
    let is_array = with_result(
        &fixture,
        "group_sum(flatten(map(map(title:contains(\"동방\"), redirect), category)))",
        |r| match r.unwrap().data {
            RuntimeVariableAbstractData::Array(_) => true,
            _ => false,
        },
    );
    assert_eq!(is_array, true);
}

#[test]
fn vm_intercross_test() {
    let fixture = corpus();
    assert_eq!(
        integer(&fixture, "count(title:contains(\"동방\") & title:contains(\"프로젝트\") )"),
        213
    );
}

#[test]
fn vm_startswith_finds_the_article() {
    let fixture = small();
    with_result(&fixture, "title:startswith(\"abcd\")", |r| {
        let value = r.unwrap();
        assert_eq!(value.inst.data.as_deref(), Some("title:startswith"));
        let items = value.data.unwrap_array();
        assert_eq!(items.len(), 1);
        let found = items[0].unwrap_primitive().unwrap_article();
        assert_eq!(found.title, "abcdef");
        assert_eq!(found.text, "first");
    });
    assert_eq!(titles(&fixture, "title:startswith(\"abc\")"), vec!["abcdef", "abcxyz"]);
    assert_eq!(titles(&fixture, "title:endswith(\"xyz\")"), vec!["abcxyz"]);
    assert_eq!(titles(&fixture, "title:contains(\"c\")"), vec!["abcdef", "abcxyz"]);
}

#[test]
fn vm_exact_finds_the_article() {
    let fixture = corpus();
    with_result(&fixture, "title:exact(\"동방지령전\")", |r| {
        let value = r.unwrap();
        let items = value.data.unwrap_array();
        assert_eq!(items.len(), 1);
        let found = items[0].unwrap_primitive().unwrap_article();
        assert_eq!(found.title, "동방지령전");
        assert!(!found.text.is_empty());
    });
}

#[test]
fn vm_set_of_redirects_is_distinct() {
    let fixture = small();
    let all = titles(&fixture, "map(title:startswith(\"x\"), redirect)");
    assert_eq!(all, vec!["abcdef", "abcdef", "x3", "abcdef", "x5"]);
    with_result(&fixture, "set(map(title:startswith(\"x\"), redirect))", |r| {
        let value = r.unwrap();
        let items: Vec<String> = value
            .data
            .unwrap_setof()
            .iter()
            .map(|x| x.unwrap_primitive().unwrap_article().title.clone())
            .collect();
        assert_eq!(items, vec!["abcdef", "x3", "x5"]);
    });
    assert_eq!(integer(&fixture, "count(set(map(title:startswith(\"x\"), redirect)))"), 3);
}

#[test]
fn vm_group_sum_sorts_by_falling_count() {
    let fixture = small();
    let target = "group_sum(flatten(map(map(title:contains(\"x\"), redirect), category)))";
    // abcxyz -> [q]; x1, x2, x4 -> abcdef -> [p, q] each; x3 -> [r, q, r]; x5 -> []
    with_result(&fixture, target, |r| {
        let value = r.unwrap();
        let groups: Vec<(String, i64)> = value
            .data
            .unwrap_array()
            .iter()
            .map(|t| {
                let parts = t.unwrap_tuple();
                assert_eq!(parts.len(), 2);
                (
                    String::from(parts[0].unwrap_primitive().unwrap_category()),
                    *parts[1].unwrap_primitive().unwrap_integer(),
                )
            })
            .collect();
        assert_eq!(
            groups,
            vec![(String::from("q"), 5), (String::from("p"), 3), (String::from("r"), 2)]
        );
    });
    let ties = "group_sum(flatten(map(title:startswith(\"abc\"), category)))";
    assert_eq!(printed(&fixture, ties), "[\n    (q, 2),\n    (p, 1),\n]\n");
    let ties = "group_sum(flatten(map(title:exact(\"x3\") | title:exact(\"abcdef\"), category)))";
    assert_eq!(printed(&fixture, ties), "[\n    (r, 2),\n    (q, 2),\n    (p, 1),\n]\n");
}

#[test]
fn vm_map_category_drops_unknown_articles() {
    let fixture = small();
    assert_eq!(integer(&fixture, "count(title:startswith(\"x\"))"), 5);
    assert_eq!(integer(&fixture, "count(map(title:startswith(\"x\"), category))"), 2);
    assert_eq!(
        printed(&fixture, "map(title:startswith(\"x\"), category)"),
        "[\n        [\n        r,\n        q,\n        r,\n    ]\n,\n        [\n    ]\n,\n]\n"
    );
    assert_eq!(integer(&fixture, "count(flatten(map(title:startswith(\"x\"), category)))"), 3);
}

#[test]
fn vm_concat_and_intercross() {
    let fixture = small();
    assert_eq!(
        titles(&fixture, "title:startswith(\"abc\") | title:exact(\"x3\") | title:endswith(\"def\")"),
        vec!["abcdef", "abcxyz", "x3", "abcdef"]
    );
    assert_eq!(
        titles(&fixture, "title:contains(\"b\") & title:contains(\"x\")"),
        vec!["abcxyz"]
    );
    assert_eq!(
        titles(
            &fixture,
            "(title:contains(\"a\") | title:contains(\"a\")) & (title:contains(\"c\") | title:exact(\"x3\"))"
        ),
        vec!["abcdef", "abcxyz"]
    );
    assert_eq!(titles(&fixture, "title:exact(\"x3\") & title:exact(\"x1\")"), Vec::<String>::new());
    assert_eq!(
        titles(&fixture, "title:contains(\"x\") & title:contains(\"x\") & title:endswith(\"3\")"),
        vec!["x3"]
    );
}

#[test]
fn vm_count_is_additive_over_concat() {
    let fixture = corpus();
    let a = integer(&fixture, "count(title:contains(\"동방\"))");
    let b = integer(&fixture, "count(title:contains(\"프로젝트\"))");
    let both = integer(&fixture, "count(title:contains(\"동방\") | title:contains(\"프로젝트\"))");
    assert_eq!(a, 851);
    assert_eq!(b, 253);
    assert_eq!(both, a + b);
}

#[test]
fn vm_set_is_idempotent() {
    let fixture = small();
    let irb = IRBuilder::from("set(map(title:contains(\"x\"), redirect))").unwrap();
    let head = irb.build();
    let insts = IRBuilder::ir_flatten(&head);
    let vm = VirtualMachine::from(insts, false);
    let rt_ref = RuntimeRef { category_index: &fixture.1, title_index: &fixture.0, articles: None };
    let once = vm.run(&rt_ref).unwrap();
    // feed the elements of the set to `set` again
    let elements: Vec<RuntimeVariableAbstractData> = once.data.unwrap_setof().to_vec();
    let again = RuntimeVariableAbstractData::SetOf(Box::new(dedup(&elements)));
    assert!(again.same(&once.data));
    assert_eq!(elements.len(), 4);
}

fn dedup<'a>(items: &[RuntimeVariableAbstractData<'a>]) -> Vec<RuntimeVariableAbstractData<'a>> {
    let mut out: Vec<RuntimeVariableAbstractData<'a>> = Vec::new();
    for item in items {
        if !out.iter().any(|x| x.same(item)) {
            out.push(item.clone());
        }
    }
    out
}

#[test]
fn vm_runs_are_deterministic() {
    let fixture = corpus();
    let target = "group_sum(flatten(map(map(title:contains(\"동방\"), redirect), category)))";
    let first = with_result(&fixture, target, |r| format!("{:?}", r.unwrap().data));
    let second = with_result(&fixture, target, |r| format!("{:?}", r.unwrap().data));
    assert_eq!(first, second);
    let irb = IRBuilder::from(target).unwrap();
    let head = irb.build();
    let vm = VirtualMachine::from(IRBuilder::ir_flatten(&head), false);
    let rt_ref = RuntimeRef { category_index: &fixture.1, title_index: &fixture.0, articles: None };
    let one = vm.run(&rt_ref).unwrap();
    let two = vm.run(&rt_ref).unwrap();
    assert!(one.data.same(&two.data));
}

#[test]
fn vm_title_errors() {
    let fixture = small();
    with_result(&fixture, "title:contains(\"none\")", |r| match r {
        Err(RuntimeError::TitleNotFound { what }) => assert_eq!(what, "none"),
        other => panic!("{:?}", other),
    });
    with_result(&fixture, "count(title:exact(\"abc\"))", |r| match r {
        Err(RuntimeError::TitleNotFound { what }) => assert_eq!(what, "abc"),
        other => panic!("{:?}", other),
    });
}

#[test]
fn vm_title_looks_one_article_up() {
    let fixture = small();
    let program = call(2, "title", vec![constant(1, "x1")]);
    let vm = VirtualMachine::from(vec![&program], false);
    let rt_ref = RuntimeRef { category_index: &fixture.1, title_index: &fixture.0, articles: None };
    let value = vm.run(&rt_ref).unwrap();
    let found = value.data.unwrap_primitive().unwrap_article();
    assert_eq!(found.title, "x1");
    assert_eq!(found.text, "#redirect abcdef");
    let program = call(2, "title", vec![constant(1, "x")]);
    match run_error(&fixture, vec![&program]) {
        RuntimeError::TitleNotFound { what } => assert_eq!(what, "x"),
        other => panic!("{:?}", other),
    }
}

#[test]
fn vm_reserved_functions() {
    let fixture = small();
    with_result(&fixture, "sort(title:contains(\"x\"), cmp_array)", |r| match r {
        Err(RuntimeError::NotImplemented { name }) => assert_eq!(name, "sort"),
        other => panic!("{:?}", other),
    });
    with_result(&fixture, "map(map(title:contains(\"x\"), category), select_max_len)", |r| {
        match r {
            Err(RuntimeError::NotImplemented { name }) => assert_eq!(name, "select_max_len"),
            other => panic!("{:?}", other),
        }
    });
    let program = call(2, "body:contains", vec![constant(1, "x")]);
    match run_error(&fixture, vec![&program]) {
        RuntimeError::ArticlesNotLoaded { name } => assert_eq!(name, "body:contains"),
        other => panic!("{:?}", other),
    }
    let vm = VirtualMachine::from(vec![&program], false);
    let loaded = RuntimeRef {
        category_index: &fixture.1,
        title_index: &fixture.0,
        articles: Some(vec![article("a", "b")]),
    };
    match vm.run(&loaded) {
        Err(RuntimeError::NotImplemented { name }) => assert_eq!(name, "body:contains"),
        other => panic!("{:?}", other),
    }
}

#[test]
fn vm_malformed_programs() {
    let fixture = small();
    assert!(matches!(run_error(&fixture, vec![]), RuntimeError::EmptyProgram));
    let leaf = constant(7, "x");
    assert!(matches!(run_error(&fixture, vec![&leaf]), RuntimeError::NotExecutable { id: 7 }));
    let unknown = call(3, "nothing", vec![]);
    match run_error(&fixture, vec![&unknown]) {
        RuntimeError::UnknownFunction { name } => assert_eq!(name, "nothing"),
        other => panic!("{:?}", other),
    }
    let nameless = reference(4);
    match run_error(&fixture, vec![&nameless]) {
        RuntimeError::UnknownFunction { name } => assert_eq!(name, ""),
        other => panic!("{:?}", other),
    }
    let count = call(3, "count", vec![]);
    assert!(matches!(run_error(&fixture, vec![&count]), RuntimeError::OperandMissing { id: 3 }));
    let count = call(3, "count", vec![call(2, "title:exact", vec![constant(1, "x3")])]);
    assert!(matches!(run_error(&fixture, vec![&count]), RuntimeError::OperandMissing { id: 3 }));
    let inner = call(2, "count", vec![call(1, "title:exact", vec![constant(0, "x3")])]);
    let first = inner.params.as_ref().unwrap()[0].as_ref();
    let outer = call(3, "count", vec![reference(2)]);
    assert!(matches!(
        run_error(&fixture, vec![first, &inner, &outer]),
        RuntimeError::OperandMismatch { id: 3 }
    ));
    let title = call(2, "title:exact", vec![call(1, "count", vec![])]);
    assert!(matches!(run_error(&fixture, vec![&title]), RuntimeError::OperandMismatch { id: 2 }));
    let flat = call(3, "flatten", vec![reference(1)]);
    assert!(matches!(
        run_error(&fixture, vec![first, &flat]),
        RuntimeError::OperandMismatch { id: 3 }
    ));
    let map = call(3, "map", vec![reference(1), constant(2, "category")]);
    assert!(matches!(
        run_error(&fixture, vec![first, &map]),
        RuntimeError::OperandMismatch { id: 3 }
    ));
    let both = inst(5, InstructionType::Concat, None, Some(vec![reference(1), reference(2)]));
    assert!(matches!(
        run_error(&fixture, vec![first, &inner, &both]),
        RuntimeError::OperandMismatch { id: 5 }
    ));
    let none = inst(5, InstructionType::Intercross, None, None);
    let vm = VirtualMachine::from(vec![&none], false);
    let rt_ref = RuntimeRef { category_index: &fixture.1, title_index: &fixture.0, articles: None };
    assert_eq!(vm.run(&rt_ref).unwrap().data.unwrap_array().len(), 0);
}

#[test]
fn value_equality_and_accessors() {
    let a = RuntimeVariableAbstractData::Primitive(RuntimeVariableAbstractPrimitiveData::Integer(3));
    let b = RuntimeVariableAbstractData::Primitive(RuntimeVariableAbstractPrimitiveData::Integer(4));
    let c = RuntimeVariableAbstractData::Primitive(RuntimeVariableAbstractPrimitiveData::Category("3"));
    let s = RuntimeVariableAbstractData::Primitive(RuntimeVariableAbstractPrimitiveData::String(
        String::from("3"),
    ));
    let art = RuntimeVariableAbstractData::Primitive(RuntimeVariableAbstractPrimitiveData::Article(
        article("t", "x"),
    ));
    let art2 = RuntimeVariableAbstractData::Primitive(RuntimeVariableAbstractPrimitiveData::Article(
        article("t", "y"),
    ));
    assert!(a.same(&a.clone()));
    assert!(!a.same(&b));
    assert!(!a.same(&c));
    assert!(!c.same(&s));
    assert!(art.same(&art.clone()));
    assert!(!art.same(&art2));
    let array = RuntimeVariableAbstractData::array_of(vec![a.clone(), b.clone()]);
    let swapped = RuntimeVariableAbstractData::array_of(vec![b.clone(), a.clone()]);
    let set = RuntimeVariableAbstractData::set_of(vec![a.clone(), b.clone()]);
    let tuple = RuntimeVariableAbstractData::tuple_of(vec![a.clone(), b.clone()]);
    assert!(array.same(&array.clone()));
    assert!(!array.same(&swapped));
    assert!(!array.same(&set));
    assert!(!set.same(&tuple));
    assert!(!array.same(&RuntimeVariableAbstractData::array_of(vec![a.clone()])));
    assert!(RuntimeVariableAbstractData::Void.same(&RuntimeVariableAbstractData::Void));
    assert!(!RuntimeVariableAbstractData::Void.same(&a));
    assert!(array.array().is_some() && array.setof().is_none() && array.tuple().is_none());
    assert!(set.setof().is_some() && set.array().is_none() && set.primitive().is_none());
    assert!(tuple.tuple().is_some() && a.primitive().is_some() && a.array().is_none());
    let p = a.unwrap_primitive();
    assert_eq!(p.integer(), Some(&3));
    assert!(p.article().is_none() && p.category().is_none() && p.string().is_none());
    assert_eq!(c.unwrap_primitive().category(), Some("3"));
    assert_eq!(s.unwrap_primitive().string().map(|x| x.as_str()), Some("3"));
    assert_eq!(s.unwrap_primitive().unwrap_string(), "3");
    assert_eq!(art.unwrap_primitive().article().unwrap().title, "t");
    assert!(RuntimeVariableAbstractData::integer_of(3).same(&a));
}

#[test]
fn printer_renders_values() {
    let fixture = small();
    assert_eq!(printed(&fixture, "count(title:contains(\"x\"))"), "6");
    assert_eq!(
        printed(&fixture, "title:startswith(\"abc\")"),
        "[\n    abcdef,\n    abcxyz,\n]\n"
    );
    assert_eq!(
        printed(&fixture, "set(flatten(map(title:startswith(\"abc\"), category)))"),
        "(\n    p,\n    q,\n)\n"
    );
    let leaf = constant(0, "x");
    let show = |data: RuntimeVariableAbstractData| {
        Printer::new().do_print(RuntimeVariable { inst: &leaf, data })
    };
    assert_eq!(show(RuntimeVariableAbstractData::Void), "None");
    assert_eq!(show(RuntimeVariableAbstractData::integer_of(0)), "0");
    assert_eq!(show(RuntimeVariableAbstractData::integer_of(-120)), "-120");
    assert_eq!(show(RuntimeVariableAbstractData::integer_of(i64::MAX)), "9223372036854775807");
    assert_eq!(show(RuntimeVariableAbstractData::integer_of(i64::MIN)), "-9223372036854775808");
    assert_eq!(
        show(RuntimeVariableAbstractData::Primitive(RuntimeVariableAbstractPrimitiveData::String(
            String::from("text")
        ))),
        "text"
    );
    assert_eq!(show(RuntimeVariableAbstractData::tuple_of(vec![])), "()");
    assert_eq!(
        show(RuntimeVariableAbstractData::tuple_of(vec![
            RuntimeVariableAbstractData::integer_of(1),
            RuntimeVariableAbstractData::Void,
            RuntimeVariableAbstractData::integer_of(3),
        ])),
        "(1, None, 3)"
    );
    assert_eq!(show(RuntimeVariableAbstractData::array_of(vec![])), "[\n]\n");
    assert_eq!(show(RuntimeVariableAbstractData::set_of(vec![])), "(\n)\n");
}

#[test]
fn query_compiles_and_runs() {
    let fixture = small();
    let rt_ref = RuntimeRef { category_index: &fixture.1, title_index: &fixture.0, articles: None };
    let value = query("count(title:startswith(\"abc\"))", &rt_ref).unwrap();
    assert_eq!(value, RuntimeVariableAbstractData::integer_of(2));
    let value = query("set(flatten(map(title:startswith(\"abc\"), category)))", &rt_ref).unwrap();
    assert_eq!(
        value,
        RuntimeVariableAbstractData::set_of(vec![
            RuntimeVariableAbstractData::Primitive(RuntimeVariableAbstractPrimitiveData::Category("p")),
            RuntimeVariableAbstractData::Primitive(RuntimeVariableAbstractPrimitiveData::Category("q")),
        ])
    );
    match query("count(foo(\"bar\"))", &rt_ref) {
        Err(QueryError::Compile(CompileError::Semantic(SemanticError::FunctionNotFound {
            name,
        }))) => assert_eq!(name, "foo"),
        other => panic!("{:?}", other),
    }
    match query("count(", &rt_ref) {
        Err(e @ QueryError::Compile(CompileError::Parse(_))) => assert_eq!(
            e.message(),
            "Unexpected token: expected a name, got the end of the command."
        ),
        other => panic!("{:?}", other),
    }
    match query("title:exact(\"nothing\")", &rt_ref) {
        Err(e @ QueryError::Runtime(RuntimeError::TitleNotFound { .. })) => {
            assert_eq!(e.message(), "Cannot find title 'nothing'")
        }
        other => panic!("{:?}", other),
    }
}

#[test]
fn values_are_equal_and_hash_alike() {
    let a = RuntimeVariableAbstractData::array_of(vec![
        RuntimeVariableAbstractData::integer_of(1),
        RuntimeVariableAbstractData::Primitive(RuntimeVariableAbstractPrimitiveData::Article(
            article("t", "x"),
        )),
    ]);
    let b = a.clone();
    let c = RuntimeVariableAbstractData::array_of(vec![RuntimeVariableAbstractData::integer_of(1)]);
    assert!(a == b);
    assert!(a != c);
    assert_eq!(article("t", "x"), article("t", "x"));
    assert_ne!(article("t", "x"), article("t", "y"));
    let mut seen = HashSet::new();
    assert!(seen.insert(a));
    assert!(!seen.insert(b));
    assert!(seen.insert(c));
    assert_eq!(seen.len(), 2);
}

#[test]
fn error_messages() {
    let fixture = small();
    let first = call(2, "count", vec![]);
    assert_eq!(run_error(&fixture, vec![&first]).message(), "Instruction v2 lacks an operand!");
    let leaf = constant(17, "x");
    assert_eq!(
        run_error(&fixture, vec![&leaf]).message(),
        "Instruction v17 cannot be executed by itself!"
    );
    assert_eq!(run_error(&fixture, vec![]).message(), "There is nothing to run!");
    let unknown = call(3, "nothing", vec![]);
    assert_eq!(run_error(&fixture, vec![&unknown]).message(), "'nothing' function not found!");
    let body = call(3, "body:contains", vec![constant(1, "x")]);
    assert_eq!(
        run_error(&fixture, vec![&body]).message(),
        "You must load the dump if you want to use 'body:contains'!"
    );
    let sort = call(3, "sort", vec![]);
    assert_eq!(run_error(&fixture, vec![&sort]).message(), "'sort' function is not implemented!");
}
