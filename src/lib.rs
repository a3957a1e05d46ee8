//! Builder for graph-description programs: variable tables with reference
//! resolution, identity-preserving cloning and node pipelines.
mod cache;
mod cycle;
mod env;
mod error;
mod graph;
mod machine;
mod seed;
mod tensor;
mod value;

pub use cache::{check_name, CacheSlot, NodeCache, NodeRoot, PythonScript};
pub use cycle::find_cycle;
pub use env::{env_key, env_key_from, EnvVars, Query};
pub use error::{
    BuildError, Error, ExternalError, GraphCallError, GraphError, GraphNodeError,
    TensorNodeError,
};
pub use graph::{Graph, NodeLet, Values};
pub use machine::{CudaMachine, DeviceQuery};
pub use seed::Seed;
pub use tensor::{
    exec_node_cannot_have_shapes, unwrap_outs, Code, ExecCode, ExecIR, ExternCode, ExternIR, FinalNodeType, IRData, NodeCode, NodeIR, NodeIRData,
    Outs, Shape, Shapes, TensorGraph, TensorNode,
};
pub use value::{duplicate_opt, Expr, LetType, Operator, Out, Value, Variable};
