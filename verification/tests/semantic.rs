use wiki_query::engine::parser::Parser;
use wiki_query::engine::semantic::{check_semantic, param_type_eq_generic, visit_infer_func_use};
use wiki_query::engine::semantic_type::{
    SemanticError, SemanticFunctionType, SemanticPrimitiveType, SemanticType,
};

fn get_si() -> SemanticType {
    SemanticType::Array(Box::new(SemanticType::SetOf(Box::new(SemanticType::Tuple(
        vec![
            Box::new(SemanticType::Primitive(SemanticPrimitiveType::String)),
            Box::new(SemanticType::Primitive(SemanticPrimitiveType::Integer)),
        ],
    )))))
}

fn get_ii() -> SemanticType {
    SemanticType::Array(Box::new(SemanticType::SetOf(Box::new(SemanticType::Tuple(
        vec![
            Box::new(SemanticType::Primitive(SemanticPrimitiveType::Integer)),
            Box::new(SemanticType::Primitive(SemanticPrimitiveType::Integer)),
        ],
    )))))
}

fn prim(p: SemanticPrimitiveType) -> SemanticType {
    SemanticType::Primitive(p)
}

fn array(t: SemanticType) -> SemanticType {
    SemanticType::Array(Box::new(t))
}

fn set(t: SemanticType) -> SemanticType {
    SemanticType::SetOf(Box::new(t))
}

fn tuple(ts: Vec<SemanticType>) -> SemanticType {
    SemanticType::Tuple(ts.into_iter().map(Box::new).collect())
}

fn samples() -> Vec<SemanticType> {
    vec![
        SemanticType::Void,
        prim(SemanticPrimitiveType::Article),
        prim(SemanticPrimitiveType::Category),
        prim(SemanticPrimitiveType::Integer),
        array(SemanticType::Void),
        array(prim(SemanticPrimitiveType::Article)),
        array(array(prim(SemanticPrimitiveType::Category))),
        set(prim(SemanticPrimitiveType::Article)),
        set(SemanticType::Void),
        tuple(vec![]),
        tuple(vec![prim(SemanticPrimitiveType::Category), prim(SemanticPrimitiveType::Integer)]),
        tuple(vec![prim(SemanticPrimitiveType::Integer), prim(SemanticPrimitiveType::Integer)]),
        SemanticType::Function(SemanticFunctionType::Category),
        SemanticType::Function(SemanticFunctionType::Redirect),
        get_si(),
        get_ii(),
    ]
}

fn infer(target: &str) -> Result<SemanticType, SemanticError> {
    let mut p = Parser::from(target);
    let mut root = p.parse().unwrap();
    check_semantic(&mut root)
}

#[test]
fn type_eq_test() {
    assert!(get_si().eq(&get_si()));
    assert!(!get_si().eq(&get_ii()));
}

#[test]
fn type_infer_concat_test() {
    assert!(match get_si().infer_concat(&get_si()) {
        Ok(_) => true,
        Err(_) => false,
    });
    assert!(match get_si().infer_concat(&get_ii()) {
        Ok(_) => false,
        Err(_) => true,
    });
}

#[test]
fn type_infer_test() {
    let mut p = Parser::from("title:startswith(\"abcd\") & title:startswith(\"abcd\")");
    let mut root = p.parse().unwrap();

    let inferred_type = check_semantic(&mut root).unwrap();

    let target_type = SemanticType::Array(Box::new(SemanticType::Primitive(
        SemanticPrimitiveType::Article,
    )));

    assert!(inferred_type.eq(&target_type));
}

#[test]
fn type_infer_test_2() {
    let mut p = Parser::from("flatten(map(title:contains(\"동방\"), category))");
    let mut root = p.parse().unwrap();

    let inferred_type = check_semantic(&mut root).unwrap();

    let target_type = SemanticType::Array(Box::new(SemanticType::Primitive(
        SemanticPrimitiveType::Category,
    )));

    assert!(inferred_type.eq(&target_type));
}

#[test]
fn type_infer_test_3() {
    let mut p = Parser::from("count(flatten(map(title:contains(\"동방\"), category)))");
    let mut root = p.parse().unwrap();

    let inferred_type = check_semantic(&mut root).unwrap();

    let target_type = Box::new(SemanticType::Primitive(SemanticPrimitiveType::Integer));

    assert!(inferred_type.eq(&target_type));
}

#[test]
fn type_infer_test_4() {
    let mut p = Parser::from("set(flatten(map(title:contains(\"동방\"), category)))");
    let mut root = p.parse().unwrap();

    let inferred_type = check_semantic(&mut root).unwrap();

    let target_type = SemanticType::SetOf(Box::new(SemanticType::Primitive(
        SemanticPrimitiveType::Category,
    )));

    assert!(inferred_type.eq(&target_type));
}

#[test]
fn type_infer_test_5() {
    let mut p = Parser::from("group_sum(flatten(map(title:contains(\"동방\"), category)))");
    let mut root = p.parse().unwrap();

    let inferred_type = check_semantic(&mut root).unwrap();

    let target_type = SemanticType::Array(Box::new(SemanticType::Tuple(vec![
        Box::new(SemanticType::Primitive(SemanticPrimitiveType::Category)),
        Box::new(SemanticType::Primitive(SemanticPrimitiveType::Integer)),
    ])));

    assert!(inferred_type.eq(&target_type));
}

#[test]
fn type_infer_test_6() {
    let mut p =
        Parser::from("sort(flatten(map(title:contains(\"동방\"), category)), cmp_array)");
    let mut root = p.parse().unwrap();

    let inferred_type = check_semantic(&mut root).unwrap();

    let target_type = SemanticType::Array(Box::new(SemanticType::Primitive(
        SemanticPrimitiveType::Category,
    )));

    assert!(inferred_type.eq(&target_type));
}

#[test]
fn type_equality_is_an_equivalence() {
    let all = samples();
    for a in &all {
        assert!(a.eq(a));
        assert!(a.eq(&a.clone()));
        for b in &all {
            assert_eq!(a.eq(b), b.eq(a));
            for c in &all {
                if a.eq(b) && b.eq(c) {
                    assert!(a.eq(c));
                }
            }
        }
    }
}

#[test]
fn type_equality_is_structural() {
    let void = SemanticType::Void;
    assert!(void.eq(&SemanticType::Void));
    assert!(!void.eq(&prim(SemanticPrimitiveType::Article)));
    assert!(!prim(SemanticPrimitiveType::Article).eq(&void));
    assert!(!prim(SemanticPrimitiveType::Article).eq(&prim(SemanticPrimitiveType::Category)));
    assert!(!array(prim(SemanticPrimitiveType::Article)).eq(&set(prim(SemanticPrimitiveType::Article))));
    assert!(!array(SemanticType::Void).eq(&array(prim(SemanticPrimitiveType::Article))));
    assert!(!tuple(vec![prim(SemanticPrimitiveType::Integer)])
        .eq(&tuple(vec![prim(SemanticPrimitiveType::Integer), prim(SemanticPrimitiveType::Integer)])));
    assert!(SemanticType::Function(SemanticFunctionType::Select)
        .eq(&SemanticType::Function(SemanticFunctionType::Select)));
    assert!(!SemanticType::Function(SemanticFunctionType::Select)
        .eq(&SemanticType::Function(SemanticFunctionType::Redirect)));
    assert!(!SemanticType::Function(SemanticFunctionType::Select).eq(&void));
}

#[test]
fn concat_with_void() {
    for t in samples() {
        let left = SemanticType::Void.infer_concat(&t).unwrap();
        assert!(left.eq(&t));
    }
    for t in [SemanticType::Void, array(prim(SemanticPrimitiveType::Article)), set(SemanticType::Void)] {
        let right = t.infer_concat(&SemanticType::Void).unwrap();
        assert!(right.eq(&t));
    }
    let p = prim(SemanticPrimitiveType::Article).infer_concat(&SemanticType::Void).unwrap();
    assert!(p.eq(&SemanticType::Void));
    assert!(tuple(vec![]).infer_concat(&SemanticType::Void).is_err());
}

#[test]
fn concat_table() {
    let article = prim(SemanticPrimitiveType::Article);
    let category = prim(SemanticPrimitiveType::Category);
    assert!(article.infer_concat(&article).unwrap().eq(&article));
    assert!(article.infer_concat(&category).is_err());
    assert!(article.infer_concat(&array(article.clone())).unwrap().eq(&array(article.clone())));
    assert!(article
        .infer_concat(&array(SemanticType::Void))
        .unwrap()
        .eq(&array(SemanticType::Void)));
    assert!(article.infer_concat(&array(category.clone())).is_err());
    assert!(article.infer_concat(&set(article.clone())).unwrap().eq(&set(article.clone())));
    assert!(article.infer_concat(&set(category.clone())).is_err());
    assert!(article.infer_concat(&tuple(vec![article.clone()])).is_err());
    assert!(array(article.clone()).infer_concat(&article).unwrap().eq(&array(article.clone())));
    assert!(array(article.clone()).infer_concat(&category).is_err());
    assert!(array(article.clone())
        .infer_concat(&array(article.clone()))
        .unwrap()
        .eq(&array(article.clone())));
    assert!(array(article.clone()).infer_concat(&array(category.clone())).is_err());
    assert!(array(article.clone()).infer_concat(&set(article.clone())).is_err());
    assert!(set(article.clone()).infer_concat(&set(article.clone())).unwrap().eq(&set(article.clone())));
    assert!(set(article.clone()).infer_concat(&array(article.clone())).is_err());
    let pair = tuple(vec![category.clone(), prim(SemanticPrimitiveType::Integer)]);
    assert!(pair.infer_concat(&pair).unwrap().eq(&array(pair.clone())));
    assert!(pair.infer_concat(&article).is_err());
    let function = SemanticType::Function(SemanticFunctionType::Category);
    assert!(function.infer_concat(&function).is_err());
    assert!(article.infer_concat(&function).is_err());
    match article.infer_concat(&category) {
        Err(SemanticError::CannotConcat { left, right }) => {
            assert!(left.eq(&article));
            assert!(right.eq(&category));
        }
        other => panic!("{:?}", other),
    }
}

#[test]
fn intercross_only_containers_with_themselves() {
    for t in samples() {
        let a = array(t.clone());
        assert!(a.infer_intercross(&a).unwrap().eq(&a));
        let s = set(t.clone());
        assert!(s.infer_intercross(&s).unwrap().eq(&s));
        assert!(a.infer_intercross(&s).is_err());
        assert!(s.infer_intercross(&a).is_err());
    }
    let article = prim(SemanticPrimitiveType::Article);
    assert!(article.infer_intercross(&article).is_err());
    assert!(SemanticType::Void.infer_intercross(&SemanticType::Void).is_err());
    assert!(tuple(vec![]).infer_intercross(&tuple(vec![])).is_err());
    let function = SemanticType::Function(SemanticFunctionType::Category);
    assert!(function.infer_intercross(&function).is_err());
    assert!(array(article.clone())
        .infer_intercross(&array(prim(SemanticPrimitiveType::Category)))
        .is_err());
    match article.infer_intercross(&SemanticType::Void) {
        Err(SemanticError::CannotIntercross { left, right }) => {
            assert!(left.eq(&article));
            assert!(right.eq(&SemanticType::Void));
        }
        other => panic!("{:?}", other),
    }
}

#[test]
fn unknown_function_is_named() {
    match infer("count(foo(\"bar\"))") {
        Err(SemanticError::FunctionNotFound { name }) => assert_eq!(name, "foo"),
        other => panic!("{:?}", other),
    }
    match infer("map(title:exact(\"a\"), nothing)") {
        Err(SemanticError::FunctionNotFound { name }) => assert_eq!(name, "nothing"),
        other => panic!("{:?}", other),
    }
}

#[test]
fn arity_is_checked_before_the_arguments() {
    match infer("count(foo(\"bar\"), foo(\"baz\"))") {
        Err(SemanticError::ArityMismatch { name, expected, found }) => {
            assert_eq!(name, "count");
            assert_eq!(expected, 1);
            assert_eq!(found, 2);
        }
        other => panic!("{:?}", other),
    }
    match infer("map(title:exact(\"a\"))") {
        Err(SemanticError::ArityMismatch { name, expected, found }) => {
            assert_eq!(name, "map");
            assert_eq!(expected, 2);
            assert_eq!(found, 1);
        }
        other => panic!("{:?}", other),
    }
    match infer("title:exact()") {
        Err(SemanticError::ArityMismatch { name, expected, found }) => {
            assert_eq!(name, "title:exact");
            assert_eq!(expected, 1);
            assert_eq!(found, 0);
        }
        other => panic!("{:?}", other),
    }
}

#[test]
fn parameter_mismatch_reports_both_types() {
    match infer("count(\"abc\")") {
        Err(SemanticError::ParameterMismatch { name, position, expected, found }) => {
            assert_eq!(name, "count");
            assert_eq!(position, 1);
            assert!(expected.eq(&array(SemanticType::Void)));
            assert!(found.eq(&prim(SemanticPrimitiveType::String)));
        }
        other => panic!("{:?}", other),
    }
    match infer("set(count(title:exact(\"a\")))") {
        Err(SemanticError::ParameterMismatch { name, position, expected, found }) => {
            assert_eq!(name, "set");
            assert_eq!(position, 1);
            assert!(expected.eq(&array(SemanticType::Void)));
            assert!(found.eq(&prim(SemanticPrimitiveType::Integer)));
        }
        other => panic!("{:?}", other),
    }
    match infer("flatten(title:exact(\"a\"))") {
        Err(SemanticError::ParameterMismatch { name, expected, found, .. }) => {
            assert_eq!(name, "flatten");
            assert!(expected.eq(&array(array(SemanticType::Void))));
            assert!(found.eq(&array(prim(SemanticPrimitiveType::Article))));
        }
        other => panic!("{:?}", other),
    }
    match infer("title:contains(title:exact(\"a\"))") {
        Err(SemanticError::ParameterMismatch { name, expected, found, .. }) => {
            assert_eq!(name, "title:contains");
            assert!(expected.eq(&prim(SemanticPrimitiveType::String)));
            assert!(found.eq(&array(prim(SemanticPrimitiveType::Article))));
        }
        other => panic!("{:?}", other),
    }
    match infer("map(title:exact(\"a\"), title:exact(\"b\"))") {
        Err(SemanticError::FunctionExpected { name, position, found }) => {
            assert_eq!(name, "map");
            assert_eq!(position, 2);
            assert!(found.eq(&array(prim(SemanticPrimitiveType::Article))));
        }
        other => panic!("{:?}", other),
    }
}

#[test]
fn count_accepts_arrays_and_sets() {
    let integer = prim(SemanticPrimitiveType::Integer);
    assert!(infer("count(title:exact(\"a\"))").unwrap().eq(&integer));
    assert!(infer("count(set(title:exact(\"a\")))").unwrap().eq(&integer));
    assert!(infer("count(map(title:exact(\"a\"), category))").unwrap().eq(&integer));
}

#[test]
fn higher_order_rules() {
    let article = prim(SemanticPrimitiveType::Article);
    let category = prim(SemanticPrimitiveType::Category);
    assert!(infer("map(title:exact(\"a\"), redirect)").unwrap().eq(&array(article.clone())));
    assert!(infer("map(title:exact(\"a\"), category)")
        .unwrap()
        .eq(&array(array(category.clone()))));
    assert!(infer("map(map(title:exact(\"a\"), category), select_max_len)")
        .unwrap()
        .eq(&array(category.clone())));
    assert!(infer("map(group_sum(flatten(map(title:exact(\"a\"), category))), unwrap_tuple1)")
        .unwrap()
        .eq(&array(category.clone())));
    assert!(infer("map(group_sum(flatten(map(title:exact(\"a\"), category))), unwrap_tuple2)")
        .unwrap()
        .eq(&array(prim(SemanticPrimitiveType::Integer))));
    match infer("map(map(title:exact(\"a\"), category), redirect)") {
        Err(SemanticError::OperandMismatch { function, found }) => {
            assert_eq!(function, SemanticFunctionType::Redirect);
            assert!(found.eq(&array(category.clone())));
        }
        other => panic!("{:?}", other),
    }
    match infer("map(title:exact(\"a\"), cmp_array)") {
        Err(SemanticError::OperandMissing { function, expected }) => {
            assert_eq!(function, SemanticFunctionType::CmpArray);
            assert_eq!(expected, 2);
        }
        other => panic!("{:?}", other),
    }
    match infer("sort(title:exact(\"a\"), redirect)") {
        Err(SemanticError::ComparatorMismatch { found }) => assert!(found.eq(&article)),
        other => panic!("{:?}", other),
    }
    match infer("group_sum(map(title:exact(\"a\"), category))") {
        Err(SemanticError::ElementNotPrimitive { name, found }) => {
            assert_eq!(name, "group_sum");
            assert!(found.eq(&array(category.clone())));
        }
        other => panic!("{:?}", other),
    }
}

#[test]
fn infer_func_use_directly() {
    let article = prim(SemanticPrimitiveType::Article);
    let r = visit_infer_func_use(&SemanticFunctionType::Category, Some(&article), None).unwrap();
    assert!(r.eq(&array(prim(SemanticPrimitiveType::Category))));
    assert!(matches!(
        visit_infer_func_use(&SemanticFunctionType::Category, None, None),
        Err(SemanticError::OperandMissing { expected: 1, .. })
    ));
    let r = visit_infer_func_use(&SemanticFunctionType::Select, Some(&set(article.clone())), None)
        .unwrap();
    assert!(r.eq(&article));
    let r = visit_infer_func_use(
        &SemanticFunctionType::CmpTuple1,
        Some(&article),
        Some(&article),
    )
    .unwrap();
    assert!(r.eq(&prim(SemanticPrimitiveType::Integer)));
    assert!(visit_infer_func_use(
        &SemanticFunctionType::CmpTuple2,
        Some(&article),
        Some(&array(article.clone()))
    )
    .is_err());
    let one = tuple(vec![article.clone()]);
    assert!(visit_infer_func_use(&SemanticFunctionType::UnwrapTuple1, Some(&one), None).is_err());
}

#[test]
fn generic_signatures() {
    let article = prim(SemanticPrimitiveType::Article);
    assert!(param_type_eq_generic(&array(article.clone()), &array(SemanticType::Void)));
    assert!(param_type_eq_generic(&array(array(article.clone())), &array(SemanticType::Void)));
    assert!(!param_type_eq_generic(&set(article.clone()), &array(SemanticType::Void)));
    assert!(!param_type_eq_generic(&array(article.clone()), &array(array(SemanticType::Void))));
    assert!(param_type_eq_generic(&article, &SemanticType::Void));
    assert!(!param_type_eq_generic(&article, &prim(SemanticPrimitiveType::Category)));
}

#[test]
fn reserved_and_function_values() {
    match infer("filter(title:exact(\"a\"), category)") {
        Err(SemanticError::NotImplemented { name }) => assert_eq!(name, "filter"),
        other => panic!("{:?}", other),
    }
    match infer("bind(title:exact(\"a\"))") {
        Err(SemanticError::NotImplemented { name }) => assert_eq!(name, "bind"),
        other => panic!("{:?}", other),
    }
    match infer("category") {
        Err(SemanticError::FunctionAsValue { function }) => {
            assert_eq!(function, SemanticFunctionType::Category)
        }
        other => panic!("{:?}", other),
    }
    assert!(matches!(infer("category & category"), Err(SemanticError::CannotIntercross { .. })));
    assert!(matches!(infer("category | category"), Err(SemanticError::CannotConcat { .. })));
    assert!(matches!(
        infer("title:exact(\"a\") & count(title:exact(\"a\"))"),
        Err(SemanticError::CannotIntercross { .. })
    ));
}

#[test]
fn analyzer_annotates_every_node() {
    let mut p = Parser::from("count(title:contains(\"a\") | title:exact(\"b\"))");
    let mut root = p.parse().unwrap();
    check_semantic(&mut root).unwrap();
    let integer = prim(SemanticPrimitiveType::Integer);
    let articles = array(prim(SemanticPrimitiveType::Article));
    assert!(root.semantic_type.as_ref().unwrap().eq(&integer));
    assert!(root.expr_and.semantic_type.as_ref().unwrap().eq(&integer));
    let count = root.expr_and.expr_ors[0].expr_cases[0].func.as_ref().unwrap();
    assert!(count.semantic_type.as_ref().unwrap().eq(&integer));
    let arg = &count.args.as_ref().unwrap().args[0];
    assert!(arg.semantic_type.as_ref().unwrap().eq(&articles));
    let or = &arg.expr_and.as_ref().unwrap().expr_ors[0];
    assert!(or.semantic_type.as_ref().unwrap().eq(&articles));
    for case in &or.expr_cases {
        assert!(case.semantic_type.as_ref().unwrap().eq(&articles));
        let func = case.func.as_ref().unwrap();
        assert!(func.semantic_type.as_ref().unwrap().eq(&articles));
        let literal = &func.args.as_ref().unwrap().args[0];
        assert!(literal
            .semantic_type
            .as_ref()
            .unwrap()
            .eq(&prim(SemanticPrimitiveType::String)));
    }
}

#[test]
fn semantic_error_messages() {
    let message = |target: &str| infer(target).unwrap_err().message();
    assert_eq!(message("count(foo(\"bar\"))"), "'foo' function not found!");
    assert_eq!(message("filter(a)"), "'filter' function is not implemented!");
    assert_eq!(
        message("count(a, b)"),
        "'count' function must have 1 parameter(s), not 2!"
    );
    assert_eq!(
        message("count(\"abc\")"),
        "Parameter 1 of 'count' function must be 'Array(Void)' type! Current type is 'String'."
    );
    assert_eq!(
        message("flatten(set(title:exact(\"a\")))"),
        "Parameter 1 of 'flatten' function must be 'Array(Array(Void))' type! Current type is 'Set(Article)'."
    );
    assert_eq!(
        message("map(title:exact(\"a\"), count(title:exact(\"a\")))"),
        "Parameter 2 of 'map' function must be a function! Current type is 'Integer'."
    );
    assert_eq!(
        message("group_sum(group_sum(flatten(map(title:exact(\"a\"), category))))"),
        "The elements of the array given to 'group_sum' function must be primitive. Current type is 'Tuple(Category, Integer)'."
    );
    assert_eq!(
        message("map(title:exact(\"a\"), cmp_tuple1)"),
        "'cmp_tuple1' function must have 2 parameter(s)!"
    );
    assert_eq!(
        message("map(title:exact(\"a\"), unwrap_tuple2)"),
        "'unwrap_tuple2' function does not take 'Article'!"
    );
    assert_eq!(
        message("sort(title:exact(\"a\"), category)"),
        "The second parameter of 'sort' function must return 'Integer'! Currently, 'Array(Category)' is returned!"
    );
    assert_eq!(
        message("title:exact(\"a\") | set(title:exact(\"a\"))"),
        "Types 'Array(Article)' and 'Set(Article)' cannot be concatenated!"
    );
    assert_eq!(
        message("title:exact(\"a\") & redirect"),
        "Types 'Array(Article)' and 'Function(redirect)' cannot be intercrossed!"
    );
    assert_eq!(message("select_min_len"), "'select' function stands where a value is required!");
    assert_eq!(get_si().describe(), "Array(Set(Tuple(String, Integer)))");
    assert_eq!(tuple(vec![]).describe(), "Tuple()");
    assert_eq!(SemanticType::Void.describe(), "Void");
    assert_eq!(prim(SemanticPrimitiveType::Boolean).describe(), "Boolean");
}
