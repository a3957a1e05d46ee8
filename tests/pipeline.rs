use n3_builder::{
    exec_node_cannot_have_shapes, Code, NodeRoot, BuildError, Error, ExecIR, ExternIR, FinalNodeType, Graph,
    IRData, NodeIR, NodeIRData, Out, Shape, Shapes, TensorGraph, TensorNode, TensorNodeError, Value, unwrap_outs,
};

fn shapes(entries: Vec<(&str, Option<Vec<u64>>)>) -> Shapes {
    Shapes(
        entries
            .into_iter()
            .map(|(k, v)| {
                (k.to_string(), v.map(|dims| Shape(dims.into_iter().map(Value::UInt).collect())))
            })
            .collect(),
    )
}

fn data(id: u64, name: &str) -> IRData {
    IRData { id, name: name.to_string(), graph: Graph::with_id(id), input: None, output: None }
}

fn ext(id: u64, name: &str, input: Option<Shapes>, output: Option<Shapes>) -> TensorNode {
    TensorNode::Extern(ExternIR { data: data(id, name), input_shapes: input, output_shapes: output })
}

fn exec(id: u64, name: &str) -> TensorNode {
    TensorNode::Exec(ExecIR { data: data(id, name) })
}

fn node(id: u64, name: &str, inner: Vec<TensorNode>) -> TensorNode {
    TensorNode::Node(NodeIR {
        name: name.to_string(),
        graph: Graph::with_id(id),
        tensor_graph: TensorGraph(inner),
        data: NodeIRData { id, input: None, output: None, repeat: None },
    })
}

fn dynamic() -> Shapes {
    shapes(vec![("x", None)])
}

fn first_dim(s: &Shapes) -> u64 {
    match &s.0[0].1 {
        Some(Shape(dims)) => match dims[0] {
            Value::UInt(d) => d,
            _ => panic!("not a number"),
        },
        None => panic!("no shape"),
    }
}

#[test]
fn output_shapes_skip_a_dynamic_tail() {
    let g = TensorGraph(vec![
        ext(1, "a", None, Some(shapes(vec![("x", Some(vec![16]))]))),
        ext(2, "b", None, Some(shapes(vec![("x", Some(vec![32]))]))),
        ext(3, "c", None, Some(dynamic())),
    ]);
    assert_eq!(first_dim(g.get_output_shapes().unwrap()), 32);
}

#[test]
fn output_shapes_fall_back_to_the_last_node() {
    let g = TensorGraph(vec![ext(1, "a", None, None), ext(2, "b", None, Some(dynamic()))]);
    let s = g.get_output_shapes().unwrap();
    assert!(s.is_dynamic());
    let g = TensorGraph(vec![ext(1, "a", None, Some(dynamic())), ext(2, "b", None, None)]);
    assert!(g.get_output_shapes().is_none());
}

#[test]
fn named_dynamic_shape_is_concrete() {
    // a single unknown shape under another name is not the dynamic marker
    let g = TensorGraph(vec![
        ext(1, "a", None, Some(shapes(vec![("x", Some(vec![4]))]))),
        ext(2, "b", None, Some(shapes(vec![("y", None)]))),
    ]);
    let s = g.get_output_shapes().unwrap();
    assert_eq!(s.0[0].0, "y");
    assert!(!shapes(vec![("x", None), ("y", None)]).is_dynamic());
}

#[test]
fn input_shapes_come_from_the_placeholder_outputs() {
    let inner = vec![
        node(0, "Input", vec![ext(5, "in", None, Some(shapes(vec![("x", Some(vec![3]))])))]),
        ext(6, "body", Some(shapes(vec![("x", Some(vec![7]))])), None),
    ];
    let g = TensorGraph(inner);
    assert_eq!(first_dim(g.get_input_shapes().unwrap()), 3);
    let g = TensorGraph(vec![ext(6, "body", Some(shapes(vec![("x", Some(vec![7]))])), None)]);
    assert_eq!(first_dim(g.get_input_shapes().unwrap()), 7);
}

#[test]
fn nested_node_reports_its_pipeline_shapes() {
    let n = node(
        4,
        "Block",
        vec![
            ext(1, "a", Some(shapes(vec![("x", Some(vec![2]))])), Some(shapes(vec![("x", Some(vec![5]))]))),
            ext(2, "b", None, Some(dynamic())),
        ],
    );
    assert_eq!(first_dim(n.get_output_shapes().unwrap()), 5);
    assert_eq!(first_dim(n.get_input_shapes().unwrap()), 2);
}

#[test]
fn pipeline_mixing_kinds_answers_input_shapes() {
    let g = TensorGraph(vec![
        node(0, "Input", vec![ext(5, "in", None, Some(shapes(vec![("x", Some(vec![1]))])))]),
        ext(2, "ext", None, Some(shapes(vec![("x", Some(vec![9]))]))),
        exec(3, "run"),
    ]);
    assert_eq!(first_dim(g.get_input_shapes().unwrap()), 1);
    assert!(exec_node_cannot_have_shapes(&g.0[2]));
    assert!(!exec_node_cannot_have_shapes(&g.0[1]));
}

#[test]
fn node_accessors() {
    let mut n = ext(11, "conv", None, None);
    assert_eq!(n.get_id(), 11);
    assert_eq!(n.name(), "conv");
    assert!(!n.is_input());
    n.set_id(12);
    assert_eq!(n.get_id(), 12);
    assert_eq!(n.name(), "conv");
    assert!(node(0, "Input", vec![]).is_input());
    assert!(!node(1, "Block", vec![]).is_input());
    assert_eq!(exec(1, "x").ty(), FinalNodeType::Exec);
    assert_eq!(n.ty(), FinalNodeType::Default);
}

#[test]
fn unwrap_node_rejects_other_kinds() {
    assert!(node(3, "Block", vec![]).unwrap_node().is_ok());
    match exec(3, "run").unwrap_node() {
        Err(Error::BuildError(BuildError::TensorNodeError(e))) => assert_eq!(
            e,
            TensorNodeError::MismatchedType {
                expected: FinalNodeType::Default,
                given: FinalNodeType::Exec,
            }
        ),
        _ => panic!("expected a type mismatch"),
    }
}

#[test]
fn declared_outs_win_over_synthesized_ones() {
    let s = shapes(vec![("x", Some(vec![1])), ("y", None)]);
    let outs = unwrap_outs(4, &s, None);
    assert_eq!(outs.len(), 2);
    assert_eq!(outs[0].0, "x");
    assert_eq!(outs[0].1.id, Some(4));
    assert_eq!(outs[0].1.name.as_deref(), Some("x"));
    assert_eq!(outs[1].0, "y");
    assert_eq!(outs[1].1.name.as_deref(), Some("y"));
    let declared = vec![("z".to_string(), Out { id: Some(9), name: None })];
    let outs = unwrap_outs(4, &s, Some(declared));
    assert_eq!(outs.len(), 1);
    assert_eq!(outs[0].0, "z");
    assert_eq!(outs[0].1.id, Some(9));
}

#[test]
fn ir_data_tags_inputs_and_outputs() {
    let s = shapes(vec![("x", Some(vec![2]))]);
    let d = IRData::new("conv".to_string(), Graph::with_id(3), Some(&s), None);
    assert_eq!(d.id, 0);
    assert_eq!(d.name, "conv");
    let input = d.input.unwrap();
    assert_eq!(input[0].0, "x");
    assert_eq!(input[0].1.id, Some(0));
    assert!(d.output.is_none());
    let d = IRData::new("conv".to_string(), Graph::with_id(3), None, Some(&s));
    assert_eq!(d.output.unwrap()[0].1.id, Some(1));
}

#[test]
fn cloning_a_script_node_clones_its_graph() {
    let mut seed = n3_builder::Seed::starting_after(40);
    let n = ext(7, "script", Some(shapes(vec![("x", Some(vec![3]))])), None);
    let c = n.clone_safe(&mut seed);
    assert_eq!(c.get_id(), 7);
    assert_eq!(c.name(), "script");
    match c {
        TensorNode::Extern(e) => {
            assert_eq!(e.data.graph.id, 41);
            assert_eq!(first_dim(e.input_shapes.as_ref().unwrap()), 3);
        }
        _ => panic!("kind changed"),
    }
}

#[test]
fn pipeline_builds_every_kind_in_order() {
    let mut root = NodeRoot::new();
    root.add_extern_source("Relu".to_string(), "def relu(x): ...".to_string());
    root.add_extern_source("in".to_string(), "def source(): ...".to_string());
    let block = node(
        4,
        "Block",
        vec![
            node(0, "Input", vec![ext(5, "in", Some(shapes(vec![("x", Some(vec![3]))])), Some(shapes(vec![("x", Some(vec![3]))])))]),
            ext(6, "Relu", None, Some(shapes(vec![("out", Some(vec![8]))]))),
        ],
    );
    let g = TensorGraph(vec![block, ext(7, "Relu", None, None), exec(8, "Train")]);
    let codes = g.build(&root).unwrap();
    assert_eq!(codes.len(), 3);
    match &codes[0] {
        Code::Node(c) => {
            assert_eq!(c.name, "Block");
            assert_eq!(c.graph.len(), 2);
            assert_eq!(c.input[0].0, "x");
            assert_eq!(c.input[0].1.id, Some(4));
            assert_eq!(c.output[0].0, "out");
            assert_eq!(c.output[0].1.name.as_deref(), Some("out"));
        }
        _ => panic!("first is not a node"),
    }
    match &codes[1] {
        Code::Extern(c) => {
            assert_eq!(c.name, "Relu");
            assert_eq!(c.script.name, "Relu");
            assert_eq!(c.script.source, "def relu(x): ...");
        }
        _ => panic!("second is not a script"),
    }
    assert!(matches!(&codes[2], Code::Exec(c) if c.name == "Train"));
}

#[test]
fn pipeline_build_fails_on_a_missing_script() {
    let root = NodeRoot::new();
    let g = TensorGraph(vec![ext(1, "Missing", None, None)]);
    match g.build(&root) {
        Err(Error::BuildError(BuildError::TensorNodeError(e))) => {
            assert_eq!(e, TensorNodeError::NoSuchNode { name: "Missing".to_string() })
        }
        _ => panic!("expected a missing script"),
    }
}

#[test]
fn node_ir_reports_its_pipeline_shapes() {
    let ir = NodeIR {
        name: "Block".to_string(),
        graph: Graph::with_id(2),
        tensor_graph: TensorGraph(vec![ext(
            1,
            "a",
            Some(shapes(vec![("x", Some(vec![6]))])),
            Some(shapes(vec![("x", Some(vec![12]))])),
        )]),
        data: NodeIRData { id: 2, input: None, output: None, repeat: None },
    };
    assert_eq!(first_dim(ir.get_input_shapes().unwrap()), 6);
    assert_eq!(first_dim(ir.get_output_shapes().unwrap()), 12);
}
