use n3_builder::{
    BuildError, Error, Expr, Graph, GraphError, LetType, NodeLet, Operator, Seed, Value, Variable,
};

fn decl(name: &str, shortcut: Option<&str>, ty: LetType, value: Option<Value>) -> NodeLet {
    NodeLet {
        name: name.to_string(),
        shortcut: shortcut.map(|s| s.to_string()),
        ty,
        value,
    }
}

fn reference(name: &str) -> Value {
    Value::Ref(name.to_string())
}

fn add_expr(lhs: Value, rhs: Value) -> Value {
    Value::Expr(Box::new(Expr { op: Operator::Add, lhs, rhs: Some(rhs) }))
}

fn graph_error(e: Error) -> GraphError {
    match e {
        Error::BuildError(BuildError::GraphError(e)) => e,
        other => panic!("not a graph error: {:?}", other),
    }
}

fn sample(id: u64) -> Graph {
    Graph::try_with_variables(
        id,
        vec![
            decl("num", Some("n"), LetType::Dim, Some(Value::UInt(3))),
            decl("width", None, LetType::UInt, Some(add_expr(reference("n"), Value::UInt(1)))),
        ],
    )
    .unwrap()
}

#[test]
fn built_graph_stamps_ids_and_resolves_references() {
    let g = sample(7);
    assert_eq!(g.id, 7);
    for v in g.variables() {
        assert_eq!(v.id, Some(7));
        assert_eq!(v.id_old, Some(7));
    }
    let width = g.get("width").unwrap();
    match &width.value {
        Some(Value::Expr(e)) => {
            assert!(matches!(e.lhs, Value::Variable(0)));
            assert!(matches!(e.rhs, Some(Value::UInt(1))));
        }
        _ => panic!("width is not an expression"),
    }
}

#[test]
fn reference_resolves_through_the_shortcut_index() {
    let g = Graph::try_with_variables(
        1,
        vec![
            decl("a", Some("x"), LetType::Int, None),
            decl("b", None, LetType::Int, Some(reference("x"))),
        ],
    )
    .unwrap();
    assert!(matches!(g.get("b").unwrap().value, Some(Value::Variable(0))));
}

#[test]
fn name_hidden_by_a_shortcut_does_not_resolve() {
    let r = Graph::try_with_variables(
        1,
        vec![
            decl("a", Some("x"), LetType::Int, None),
            decl("b", None, LetType::Int, Some(reference("a"))),
        ],
    );
    assert_eq!(
        graph_error(r.unwrap_err()),
        GraphError::NoSuchVariable {
            name: "a".to_string(),
            candidates: vec!["x".to_string(), "b".to_string()],
        }
    );
}

#[test]
fn unresolved_reference_lists_shortcut_keys() {
    let r = Graph::try_with_variables(
        1,
        vec![decl("a", Some("s"), LetType::Int, Some(reference("z")))],
    );
    assert_eq!(
        graph_error(r.unwrap_err()),
        GraphError::NoSuchVariable { name: "z".to_string(), candidates: vec!["s".to_string()] }
    );
}

#[test]
fn shortcut_index_has_one_entry_per_variable() {
    let mut g = sample(2);
    // "n" is the key of "num"; "width" is its own key.
    g.apply(vec![("n".to_string(), Some(Value::UInt(9)))], true).unwrap();
    g.apply(vec![("width".to_string(), Some(Value::UInt(4)))], true).unwrap();
    assert!(matches!(g.get("num").unwrap().value, Some(Value::UInt(9))));
    assert!(matches!(g.get("width").unwrap().value, Some(Value::UInt(4))));
    // the name of a variable with a shortcut is not a key
    let e = graph_error(g.apply(vec![("num".to_string(), None)], true).unwrap_err());
    assert_eq!(
        e,
        GraphError::NoSuchVariable {
            name: "num".to_string(),
            candidates: vec!["n".to_string(), "width".to_string()],
        }
    );
}

#[test]
fn declared_shortcut_wins_over_a_bare_name() {
    let g = Graph::try_with_variables(
        1,
        vec![
            decl("a", Some("b"), LetType::Int, None),
            decl("b", None, LetType::Int, None),
            decl("c", None, LetType::Int, Some(reference("b"))),
        ],
    )
    .unwrap();
    assert!(matches!(g.get("c").unwrap().value, Some(Value::Variable(0))));
    // "b" the variable is not a key of the index; the candidates list each key once
    let e = graph_error(g.get("z").unwrap_err());
    assert!(matches!(e, GraphError::NoSuchVariable { .. }));
    let mut g = g;
    let e = graph_error(g.apply(vec![("z".to_string(), None)], true).unwrap_err());
    assert_eq!(
        e,
        GraphError::NoSuchVariable {
            name: "z".to_string(),
            candidates: vec!["b".to_string(), "c".to_string()],
        }
    );
}

#[test]
fn build_rejects_a_repeated_shortcut() {
    let r = Graph::try_with_variables(
        1,
        vec![decl("a", Some("s"), LetType::Int, None), decl("c", Some("s"), LetType::Int, None)],
    );
    assert_eq!(
        graph_error(r.unwrap_err()),
        GraphError::DuplicatedVariable { name: "s".to_string() }
    );
}

#[test]
fn build_rejects_a_dangling_handle() {
    let r = Graph::try_with_variables(
        1,
        vec![decl("a", None, LetType::Int, Some(add_expr(Value::Int(1), Value::Variable(5))))],
    );
    assert_eq!(
        graph_error(r.unwrap_err()),
        GraphError::DanglingHandle { name: "a".to_string(), handle: 5 }
    );
}

#[test]
fn build_rejects_duplicate_names() {
    let r = Graph::try_with_variables(
        1,
        vec![decl("a", None, LetType::Int, None), decl("a", None, LetType::UInt, None)],
    );
    assert_eq!(
        graph_error(r.unwrap_err()),
        GraphError::DuplicatedVariable { name: "a".to_string() }
    );
}

#[test]
fn adding_a_duplicate_fails_and_changes_nothing() {
    let mut seed = Seed::new();
    let mut g = Graph::with_one_var(&mut seed, "a", Some(Value::Int(-1)));
    let e = graph_error(g.add(Variable::with_name_value("a".to_string(), None)).unwrap_err());
    assert_eq!(e, GraphError::DuplicatedVariable { name: "a".to_string() });
    assert_eq!(g.variables().len(), 1);
    assert!(matches!(g.get("a").unwrap().value, Some(Value::Int(-1))));
    g.add(Variable::with_name_value("b".to_string(), None)).unwrap();
    assert_eq!(g.variables().len(), 2);
    let mut s = Variable::with_name_value("c".to_string(), None);
    s.shortcut = Some("k".to_string());
    g.add(s).unwrap();
    // a name may equal another variable's shortcut
    g.add(Variable::with_name_value("k".to_string(), None)).unwrap();
    assert_eq!(g.variables().len(), 4);
    let mut t = Variable::with_name_value("d".to_string(), None);
    t.shortcut = Some("k".to_string());
    assert_eq!(
        graph_error(g.add(t).unwrap_err()),
        GraphError::DuplicatedVariable { name: "k".to_string() }
    );
    assert_eq!(g.get("b").unwrap().id, Some(g.id));
}

#[test]
fn missing_name_lists_every_candidate() {
    let g = Graph::try_with_variables(
        3,
        vec![decl("a", None, LetType::Int, None), decl("b", None, LetType::Int, None)],
    )
    .unwrap();
    let e = graph_error(g.get("c").unwrap_err());
    assert_eq!(
        e,
        GraphError::NoSuchVariable {
            name: "c".to_string(),
            candidates: vec!["a".to_string(), "b".to_string()],
        }
    );
}

#[test]
fn unresolved_reference_fails_build_with_candidates() {
    let r = Graph::try_with_variables(
        3,
        vec![
            decl("a", None, LetType::Int, Some(reference("zz"))),
            decl("b", None, LetType::Int, None),
        ],
    );
    assert_eq!(
        graph_error(r.unwrap_err()),
        GraphError::NoSuchVariable {
            name: "zz".to_string(),
            candidates: vec!["a".to_string(), "b".to_string()],
        }
    );
}

#[test]
fn apply_stops_at_first_missing_name() {
    let mut g = sample(4);
    let r = g.apply(
        vec![
            ("width".to_string(), Some(Value::UInt(8))),
            ("depth".to_string(), Some(Value::UInt(2))),
        ],
        false,
    );
    assert_eq!(
        graph_error(r.unwrap_err()),
        GraphError::NoSuchVariable {
            name: "depth".to_string(),
            candidates: vec!["num".to_string(), "width".to_string()],
        }
    );
    assert!(matches!(g.get("width").unwrap().value, Some(Value::UInt(8))));
}

#[test]
fn load_dims_weakly_fills_only_empty_values() {
    let mut g = Graph::try_with_variables(
        5,
        vec![decl("n", None, LetType::Dim, None), decl("m", None, LetType::Dim, Some(Value::UInt(5)))],
    )
    .unwrap();
    g.load_dims_weakly(vec![
        ("n".to_string(), Some(Value::UInt(10))),
        ("m".to_string(), Some(Value::UInt(10))),
    ]);
    assert!(matches!(g.get("n").unwrap().value, Some(Value::UInt(10))));
    assert!(matches!(g.get("m").unwrap().value, Some(Value::UInt(5))));
}

#[test]
fn unload_dims_takes_dimension_values() {
    let mut g = sample(6);
    let dims = g.unload_dims();
    assert_eq!(dims.len(), 1);
    assert_eq!(dims[0].0, "num");
    assert!(matches!(dims[0].1, Some(Value::UInt(3))));
    assert!(g.get("num").unwrap().value.is_none());
    assert!(g.get("width").unwrap().value.is_some());
    g.load_dims_weakly(dims);
    assert!(matches!(g.get("num").unwrap().value, Some(Value::UInt(3))));
}

#[test]
fn cycle_fails_build_naming_both_variables() {
    let r = Graph::try_with_variables(
        8,
        vec![
            decl("a", None, LetType::Int, Some(add_expr(reference("b"), Value::Int(1)))),
            decl("b", None, LetType::Int, Some(add_expr(reference("a"), Value::Int(1)))),
        ],
    );
    match graph_error(r.unwrap_err()) {
        GraphError::CycledVariables { mut names } => {
            names.sort();
            assert_eq!(names, vec!["a".to_string(), "b".to_string()]);
        }
        other => panic!("not a cycle: {:?}", other),
    }
}

#[test]
fn self_reference_is_a_cycle() {
    let r = Graph::try_with_variables(
        8,
        vec![
            decl("ok", None, LetType::Int, Some(Value::Int(0))),
            decl("a", None, LetType::Int, Some(add_expr(reference("a"), Value::Int(1)))),
        ],
    );
    assert_eq!(
        graph_error(r.unwrap_err()),
        GraphError::CycledVariables { names: vec!["a".to_string()] }
    );
}

#[test]
fn chain_without_cycle_builds() {
    let g = Graph::try_with_variables(
        8,
        vec![
            decl("a", None, LetType::Int, Some(reference("b"))),
            decl("b", None, LetType::Int, Some(reference("c"))),
            decl("c", None, LetType::Int, Some(Value::Int(2))),
        ],
    )
    .unwrap();
    assert!(matches!(g.get("a").unwrap().value, Some(Value::Variable(1))));
    assert!(matches!(g.get("b").unwrap().value, Some(Value::Variable(2))));
}

#[test]
fn clone_gets_a_fresh_id_and_keeps_references_inside() {
    let mut seed = Seed::starting_after(20);
    let g = sample(20);
    let c = g.clone_safe(&mut seed);
    assert_eq!(c.id, 21);
    assert_ne!(c.id, g.id);
    let d = g.clone_safe(&mut seed);
    assert_eq!(d.id, 22);
    for v in c.variables() {
        assert_eq!(v.id, Some(21));
        assert_eq!(v.id_old, Some(20));
        if let Some(Value::Expr(e)) = &v.value {
            match e.lhs {
                Value::Variable(h) => assert!(h < c.variables().len()),
                _ => panic!("lhs is not a handle"),
            }
        }
    }
    assert_eq!(c.get("num").unwrap().shortcut.as_deref(), Some("n"));
}

#[test]
fn replace_to_uses_shortcut_keys() {
    let g = sample(9);
    let r = g.replace_to(Some(add_expr(reference("n"), reference("unknown")))).unwrap();
    match r {
        Some(Value::Expr(e)) => {
            assert!(matches!(e.lhs, Value::Variable(0)));
            assert!(matches!(&e.rhs, Some(Value::Ref(s)) if s == "unknown"));
        }
        _ => panic!("not an expression"),
    }
    assert!(g.replace_to(None).unwrap().is_none());
    assert!(matches!(g.replace_to(Some(Value::Bool(true))).unwrap(), Some(Value::Bool(true))));
}

#[test]
fn seed_issues_increasing_ids() {
    let mut seed = Seed::new();
    let a = seed.generate();
    let b = seed.generate();
    assert_eq!(a, 1);
    assert_eq!(b, 2);
    let g = Graph::new(&mut seed);
    assert_eq!(g.id, 3);
    assert_eq!(Graph::with_id(42).into_variables().len(), 0);
}
