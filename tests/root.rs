use n3_builder::{
    check_name, env_key, env_key_from, BuildError, CacheSlot, CudaMachine, EnvVars, Error,
    ExecIR, Graph, IRData, NodeCache, NodeRoot, Query, TensorNode,
    TensorNodeError,
};

fn tensor_node_error(e: Error) -> TensorNodeError {
    match e {
        Error::BuildError(BuildError::TensorNodeError(e)) => e,
        other => panic!("not a node error: {:?}", other),
    }
}

#[test]
fn env_key_is_prefixed_upper_snake_case() {
    assert_eq!(env_key("batch size"), "N3_BATCH_SIZE");
    assert_eq!(env_key("root"), "N3_ROOT");
    assert_eq!(env_key("learningRate"), "N3_LEARNING_RATE");
    assert_eq!(env_key_from("EPOCH"), "N3_EPOCH");
}

#[test]
fn env_fills_only_missing_values() {
    let env = vec![
        ("N3_ROOT".to_string(), "/data".to_string()),
        ("N3_EPOCH".to_string(), "7".to_string()),
        ("N3_ROOT".to_string(), "/other".to_string()),
    ];
    let vars = EnvVars::load(
        vec![
            Query { name: "root".to_string(), value: None },
            Query { name: "epoch".to_string(), value: Some("1".to_string()) },
            Query { name: "batch size".to_string(), value: None },
        ],
        &env,
    )
    .unwrap();
    let q = vars.queries();
    assert_eq!(q[0].value.as_deref(), Some("/data"));
    assert_eq!(q[1].value.as_deref(), Some("1"));
    assert_eq!(q[2].value, None);
}

#[test]
fn env_fills_repeated_names_alike() {
    let env = vec![("N3_ROOT".to_string(), "/data".to_string())];
    let vars = EnvVars::load(
        vec![
            Query { name: "root".to_string(), value: None },
            Query { name: "root".to_string(), value: Some("/mine".to_string()) },
        ],
        &env,
    )
    .unwrap();
    assert_eq!(vars.queries()[0].value.as_deref(), Some("/data"));
    assert_eq!(vars.queries()[1].value.as_deref(), Some("/mine"));
}

#[test]
fn registry_builds_once_per_name() {
    let mut cache: NodeCache<u64> = NodeCache::new();
    cache.add_source("A".to_string(), "node A".to_string());
    assert!(matches!(cache.get("A").unwrap(), CacheSlot::Source(s) if s == "node A"));
    cache.add_built("A".to_string(), 5);
    assert!(matches!(cache.get("A").unwrap(), CacheSlot::Built(5)));
    cache.add_source("A".to_string(), "node A'".to_string());
    assert!(matches!(cache.get("A").unwrap(), CacheSlot::Source(s) if s == "node A'"));
    assert_eq!(
        tensor_node_error(cache.get("B").unwrap_err()),
        TensorNodeError::NoSuchNode { name: "B".to_string() }
    );
}

#[test]
fn root_keeps_nodes_and_scripts_apart() {
    let mut root = NodeRoot::new();
    root.add_source("Linear".to_string(), "node Linear".to_string());
    root.add_extern_source("Script".to_string(), "def f(): pass".to_string());
    assert!(root.get("Linear").is_ok());
    assert!(root.get("Script").is_err());
    assert!(root.get_extern("Script").is_ok());
    assert_eq!(
        tensor_node_error(root.get_extern("Linear").unwrap_err()),
        TensorNodeError::NoSuchNode { name: "Linear".to_string() }
    );
    assert_eq!(root.generate(), 1);
    assert_eq!(root.generate(), 2);
}

#[test]
fn mismatched_name_is_reported() {
    assert!(check_name("LeNet", "LeNet".to_string()).is_ok());
    assert_eq!(
        tensor_node_error(check_name("LeNet", "LeNet5".to_string()).unwrap_err()),
        TensorNodeError::MismatchedName {
            expected: "LeNet".to_string(),
            given: "LeNet5".to_string(),
        }
    );
}

#[test]
fn cuda_offers_its_first_device() {
    let c = CudaMachine::get_candidates();
    assert_eq!(c.len(), 1);
    assert_eq!(c[0].device.as_deref(), Some("cuda"));
    assert_eq!(c[0].id.as_deref(), Some("0"));
}

#[test]
fn source_is_built_once_then_found_built() {
    let mut root = NodeRoot::new();
    root.add_source("Linear".to_string(), "node Linear".to_string());
    assert_eq!(root.source_to_build("Linear").unwrap().as_deref(), Some("node Linear"));
    let node = TensorNode::Exec(ExecIR {
        data: IRData {
            id: 1,
            name: "Linear".to_string(),
            graph: Graph::with_id(1),
            input: None,
            output: None,
        },
    });
    root.add_built("Linear".to_string(), node);
    assert_eq!(root.source_to_build("Linear").unwrap(), None);
    assert_eq!(
        tensor_node_error(root.source_to_build("Conv").unwrap_err()),
        TensorNodeError::NoSuchNode { name: "Conv".to_string() }
    );
}
