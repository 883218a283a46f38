use wiki_query::engine::ir::{CompileError, IRBuilder, Instruction, InstructionType};
use wiki_query::engine::semantic_type::{SemanticError, SemanticPrimitiveType, SemanticType};
use wiki_query::engine::tokenizer::TokenType;

fn lines(target: &str) -> Vec<String> {
    let irb = IRBuilder::from(target).unwrap();
    let head_inst = irb.build();
    let y = IRBuilder::ir_flatten(&head_inst);
    y.iter()
        .map(|x| format!("v{} = {} # {:?}", x.id, x.to_string(), x.semantic_type))
        .collect()
}

fn check_ids(inst: &Instruction) {
    if let Some(params) = &inst.params {
        for p in params {
            assert!(p.id < inst.id);
            check_ids(p);
        }
    }
}

#[test]
fn ir_build_test() {
    let target = "count(set(flatten(map(title:contains(\"동방\"), category))))";
    let irb = IRBuilder::from(target).unwrap();

    let head_inst = irb.build();
    let y = IRBuilder::ir_flatten(&head_inst);

    let printed: Vec<String> = y
        .iter()
        .map(|x| format!("v{} = {} # {:?}", x.id, x.to_string(), x.semantic_type))
        .collect();

    assert_eq!(
        printed,
        vec![
            "v2 = title:contains(\"동방\") # Array(Primitive(Article))",
            "v4 = map(v2, ref(\"category\")) # Array(Array(Primitive(Category)))",
            "v5 = flatten(v4) # Array(Primitive(Category))",
            "v6 = set(v5) # SetOf(Primitive(Category))",
            "v7 = count(v6) # Primitive(Integer)",
        ]
    );
}

#[test]
fn ir_operators_lower_to_nary_instructions() {
    assert_eq!(
        lines("title:exact(\"a\") & title:exact(\"b\") & title:exact(\"c\")"),
        vec![
            "v2 = title:exact(\"a\") # Array(Primitive(Article))",
            "v4 = title:exact(\"b\") # Array(Primitive(Article))",
            "v6 = title:exact(\"c\") # Array(Primitive(Article))",
            "v7 = &(v2, v4, v6) # Array(Primitive(Article))",
        ]
    );
    assert_eq!(
        lines("count(title:exact(\"a\") | (title:exact(\"b\") | title:exact(\"c\")))"),
        vec![
            "v4 = title:exact(\"b\") # Array(Primitive(Article))",
            "v6 = title:exact(\"c\") # Array(Primitive(Article))",
            "v2 = title:exact(\"a\") # Array(Primitive(Article))",
            "v7 = |(v4, v6) # Array(Primitive(Article))",
            "v8 = |(v2, v7) # Array(Primitive(Article))",
            "v9 = count(v8) # Primitive(Integer)",
        ]
    );
}

#[test]
fn ir_single_operand_lowers_to_itself() {
    let head = IRBuilder::from("((title:exact(\"a\")))").unwrap().build();
    assert_eq!(head.inst_type, InstructionType::FunctionCall);
    assert_eq!(head.id, 2);
    assert_eq!(head.data.as_deref(), Some("title:exact"));
    let params = head.params.as_ref().unwrap();
    assert_eq!(params.len(), 1);
    assert_eq!(params[0].inst_type, InstructionType::Constant);
    assert_eq!(params[0].id, 1);
    assert_eq!(params[0].data.as_deref(), Some("a"));
    assert!(params[0].params.is_none());
    assert!(params[0]
        .semantic_type
        .eq(&SemanticType::Primitive(SemanticPrimitiveType::String)));
}

#[test]
fn ir_ids_are_post_order() {
    let targets = [
        "count(set(flatten(map(title:contains(\"동방\"), category))))",
        "group_sum(flatten(map(map(title:contains(\"a\"), redirect), category)))",
        "count(title:exact(\"a\") | (title:exact(\"b\") & title:exact(\"c\")) | title:exact(\"d\"))",
    ];
    for target in targets {
        let head = IRBuilder::from(target).unwrap().build();
        check_ids(&head);
        let flat = IRBuilder::ir_flatten(&head);
        assert!(std::ptr::eq(*flat.last().unwrap(), &head));
        for (at, inst) in flat.iter().enumerate() {
            assert!(inst.inst_type != InstructionType::UseFunction);
            assert!(inst.inst_type != InstructionType::Constant);
            for p in inst.params.as_ref().unwrap() {
                assert!(p.id < inst.id);
                let leaf = p.inst_type == InstructionType::UseFunction
                    || p.inst_type == InstructionType::Constant;
                let earlier = flat[..at].iter().any(|q| q.id == p.id);
                assert_eq!(earlier, !leaf);
            }
        }
    }
}

#[test]
fn ir_rendering() {
    let head = IRBuilder::from("map(title:exact(\"a\"), redirect)").unwrap().build();
    assert_eq!(head.to_string(), "map(v2, ref(\"redirect\"))");
    assert_eq!(head.params_to_string(), "v2, ref(\"redirect\")");
    let params = head.params.as_ref().unwrap();
    assert_eq!(params[0].to_string(), "title:exact(\"a\")");
    assert_eq!(params[0].params_to_string(), "\"a\"");
    assert_eq!(params[1].to_string(), "ref(\"redirect\")");
    assert_eq!(params[1].params_to_string(), "{}");
    let many = Instruction {
        id: 1234567890,
        inst_type: InstructionType::Concat,
        semantic_type: SemanticType::Void,
        data: None,
        params: Some(vec![
            Box::new(Instruction {
                id: 0,
                inst_type: InstructionType::Intercross,
                semantic_type: SemanticType::Void,
                data: None,
                params: Some(vec![]),
            }),
            Box::new(Instruction {
                id: 1090,
                inst_type: InstructionType::FunctionCall,
                semantic_type: SemanticType::Void,
                data: Some(String::from("f")),
                params: None,
            }),
        ]),
    };
    assert_eq!(many.to_string(), "|(v0, v1090)");
    assert_eq!(many.params.as_ref().unwrap()[0].to_string(), "&()");
    assert_eq!(many.params.as_ref().unwrap()[1].to_string(), "f({})");
}

#[test]
fn ir_builder_reports_errors() {
    match IRBuilder::from("count(") {
        Err(CompileError::Parse(e)) => {
            assert_eq!(e.expected, TokenType::Name);
            assert_eq!(e.found.token_type, TokenType::Eof);
        }
        other => panic!("{:?}", other.map(|_| ())),
    }
    match IRBuilder::from("count(foo(\"bar\"))") {
        Err(CompileError::Semantic(SemanticError::FunctionNotFound { name })) => {
            assert_eq!(name, "foo")
        }
        other => panic!("{:?}", other.map(|_| ())),
    }
}
