use crate::cache::{is_no_such_node, CacheSlot, NodeRoot, PythonScript};
use crate::error::{Error, TensorNodeError};
use crate::graph::{cloned, Graph};
use crate::seed::Seed;
use crate::value::{Out, Value};
use vstd::prelude::*;
use vstd::string::StrSliceExecFns;

verus! {

/// The dimensions of one tensor.
#[derive(Debug)]
pub struct Shape(pub Vec<Value>);

/// Named tensor shapes; a shape that is not known is `None`.
#[derive(Debug)]
pub struct Shapes(pub Vec<(String, Option<Shape>)>);

/// Named outputs.
pub type Outs = Vec<(String, Out)>;

/// The data of a graph-bearing node.  Id 0 marks the input placeholder.
#[derive(Debug)]
pub struct NodeIRData {
    pub id: u64,
    pub input: Option<Outs>,
    pub output: Option<Outs>,
    pub repeat: Option<Value>,
}

/// A node that holds a graph of variables and a pipeline of its own.
#[derive(Debug)]
pub struct NodeIR {
    pub name: String,
    pub graph: Graph,
    pub tensor_graph: TensorGraph,
    pub data: NodeIRData,
}

/// The data that every node of a pipeline carries.
#[derive(Debug)]
pub struct IRData {
    pub id: u64,
    pub name: String,
    pub graph: Graph,
    pub input: Option<Outs>,
    pub output: Option<Outs>,
}

/// A node run by an outside script, with the shapes it declares.
#[derive(Debug)]
pub struct ExternIR {
    pub data: IRData,
    pub input_shapes: Option<Shapes>,
    pub output_shapes: Option<Shapes>,
}

/// The terminal node of a pipeline; it has no shapes.
#[derive(Debug)]
pub struct ExecIR {
    pub data: IRData,
}

/// A pipeline: nodes in the order data flows through them.
#[derive(Debug)]
pub struct TensorGraph(pub Vec<TensorNode>);

/// The kind of a node as a caller asks for it.
#[derive(Debug, Clone, Copy, PartialEq, Eq, Structural)]
pub enum FinalNodeType {
    Default,
    Exec,
}

#[derive(Debug)]
pub enum TensorNode {
    Node(NodeIR),
    Extern(ExternIR),
    Exec(ExecIR),
}

/// A single shape named `x` that is not known: an output whose rank is
/// still open.
pub open spec fn is_dynamic(s: Shapes) -> bool {
    &&& s.0@.len() == 1
    &&& s.0@[0].0@ == seq!['x']
    &&& s.0@[0].1 is None
}

/// The node is the input placeholder of its pipeline.
pub open spec fn is_input_node(n: TensorNode) -> bool {
    match n {
        TensorNode::Node(ir) => ir.data.id == 0,
        _ => false,
    }
}

/// The output shapes of a node.
pub open spec fn outputs_of(n: TensorNode) -> Option<Shapes>
    decreases n, 0int,
{
    match n {
        TensorNode::Node(ir) => scan_outputs(ir.tensor_graph.0@, ir.tensor_graph.0@.len() - 1),
        TensorNode::Extern(e) => e.output_shapes,
        TensorNode::Exec(_) => None,
    }
}

/// The output shapes of a pipeline, scanning back from position `k`: the
/// first shapes that are known and not dynamic, else those of the last node.
pub open spec fn scan_outputs(nodes: Seq<TensorNode>, k: int) -> Option<Shapes>
    decreases nodes, k + 1,
{
    if k < 0 || k >= nodes.len() {
        if nodes.len() > 0 && k < 0 {
            outputs_of(nodes.last())
        } else {
            None
        }
    } else {
        match outputs_of(nodes[k]) {
            Some(s) => if is_dynamic(s) {
                scan_outputs(nodes, k - 1)
            } else {
                Some(s)
            },
            None => scan_outputs(nodes, k - 1),
        }
    }
}

/// The input shapes of a node.
pub open spec fn inputs_of(n: TensorNode) -> Option<Shapes>
    decreases n, 0int,
{
    match n {
        TensorNode::Node(ir) => pipeline_inputs(ir.tensor_graph.0@),
        TensorNode::Extern(e) => e.input_shapes,
        TensorNode::Exec(_) => None,
    }
}

/// The input shapes of a pipeline: those its input placeholder puts out,
/// else those its first node takes.
pub open spec fn pipeline_inputs(nodes: Seq<TensorNode>) -> Option<Shapes>
    decreases nodes, 1int,
{
    if nodes.len() == 0 {
        None
    } else if is_input_node(nodes[0]) {
        outputs_of(nodes[0])
    } else {
        inputs_of(nodes[0])
    }
}

/// Asking the node for its output shapes meets no terminal node.
pub open spec fn outputs_ok(n: TensorNode) -> bool
    decreases n, 0int,
{
    match n {
        TensorNode::Node(ir) => ir.tensor_graph.0@.len() > 0 && scan_ok(
            ir.tensor_graph.0@,
            ir.tensor_graph.0@.len() - 1,
        ),
        TensorNode::Extern(_) => true,
        TensorNode::Exec(_) => false,
    }
}

/// Scanning back from position `k` meets no terminal node.
pub open spec fn scan_ok(nodes: Seq<TensorNode>, k: int) -> bool
    decreases nodes, k + 1,
{
    if k < 0 || k >= nodes.len() {
        true
    } else {
        outputs_ok(nodes[k]) && match outputs_of(nodes[k]) {
            Some(s) => is_dynamic(s) ==> scan_ok(nodes, k - 1),
            None => scan_ok(nodes, k - 1),
        }
    }
}

/// Asking the node for its input shapes meets no terminal node.
pub open spec fn inputs_ok(n: TensorNode) -> bool
    decreases n, 0int,
{
    match n {
        TensorNode::Node(ir) => pipeline_inputs_ok(ir.tensor_graph.0@),
        TensorNode::Extern(_) => true,
        TensorNode::Exec(_) => false,
    }
}

pub open spec fn pipeline_inputs_ok(nodes: Seq<TensorNode>) -> bool
    decreases nodes, 1int,
{
    nodes.len() > 0 && if is_input_node(nodes[0]) {
        outputs_ok(nodes[0])
    } else {
        inputs_ok(nodes[0])
    }
}

/// `r` refers to the shapes `s`.
pub open spec fn refers_to(r: Option<&Shapes>, s: Option<Shapes>) -> bool {
    match r {
        Some(x) => s == Some(*x),
        None => s is None,
    }
}

/// Whether `node` is the terminal kind, which has no shapes to ask for.
pub fn exec_node_cannot_have_shapes(node: &TensorNode) -> (r: bool)
    ensures
        r == node is Exec,
{
    match node {
        TensorNode::Exec(_) => true,
        _ => false,
    }
}

impl Shapes {
    /// A single shape named `x` that is not known.
    pub fn is_dynamic(&self) -> (r: bool)
        ensures
            r == is_dynamic(*self),
    {
        if self.0.len() != 1 {
            return false;
        }
        let name = self.0[0].0.as_str();
        if name.unicode_len() != 1 {
            return false;
        }
        let c = name.get_char(0);
        assert(c == 'x' ==> name@ =~= seq!['x']);
        c == 'x' && self.0[0].1.is_none()
    }
}

impl TensorGraph {
    /// The input shapes: the outputs of the input placeholder where the
    /// pipeline starts with one, else the inputs of its first node.
    pub fn get_input_shapes(&self) -> (r: Option<&Shapes>)
        requires
            pipeline_inputs_ok(self.0@),
        ensures
            refers_to(r, pipeline_inputs(self.0@)),
        decreases self, 1int,
    {
        let input_node = &self.0[0];
        if input_node.is_input() {
            input_node.get_output_shapes()
        } else {
            input_node.get_input_shapes()
        }
    }

    /// The output shapes: scanning back from the last node, the first that
    /// are known and not dynamic, else those of the last node.
    pub fn get_output_shapes(&self) -> (r: Option<&Shapes>)
        requires
            self.0@.len() > 0,
            scan_ok(self.0@, self.0@.len() - 1),
        ensures
            refers_to(r, scan_outputs(self.0@, self.0@.len() - 1)),
        decreases self, 1int,
    {
        let n = self.0.len();
        let mut i: usize = n;
        while i > 0
            invariant
                n == self.0@.len(),
                n > 0,
                i <= n,
                scan_ok(self.0@, i - 1),
                scan_outputs(self.0@, n - 1) == scan_outputs(self.0@, i - 1),
            decreases i,
        {
            let node = &self.0[i - 1];
            proof {
                assert(decreases_to!(self => self.0));
                assert(decreases_to!(self.0 => self.0@));
                assert(decreases_to!(self.0@ => self.0@[i - 1]));
            }
            match node.get_output_shapes() {
                Some(shapes) => {
                    if !shapes.is_dynamic() {
                        return Some(shapes);
                    }
                },
                None => {},
            }
            i = i - 1;
        }
        let last = &self.0[n - 1];
        proof {
            assert(decreases_to!(self.0@ => self.0@[n - 1]));
        }
        last.get_output_shapes()
    }
}

impl TensorNode {
    pub fn is_input(&self) -> (r: bool)
        ensures
            r == is_input_node(*self),
    {
        match self {
            TensorNode::Node(node) => node.data.id == 0,
            TensorNode::Extern(_) => false,
            TensorNode::Exec(_) => false,
        }
    }

    pub open spec fn node_name(self) -> String {
        match self {
            TensorNode::Node(node) => node.name,
            TensorNode::Extern(node) => node.data.name,
            TensorNode::Exec(node) => node.data.name,
        }
    }

    pub open spec fn node_id(self) -> u64 {
        match self {
            TensorNode::Node(node) => node.data.id,
            TensorNode::Extern(node) => node.data.id,
            TensorNode::Exec(node) => node.data.id,
        }
    }

    pub fn name(&self) -> (r: &str)
        ensures
            r@ == self.node_name()@,
    {
        match self {
            TensorNode::Node(node) => node.name.as_str(),
            TensorNode::Extern(node) => node.data.name.as_str(),
            TensorNode::Exec(node) => node.data.name.as_str(),
        }
    }

    pub fn ty(&self) -> (r: FinalNodeType)
        ensures
            r == (if self is Exec {
                FinalNodeType::Exec
            } else {
                FinalNodeType::Default
            }),
    {
        match self {
            TensorNode::Node(_) | TensorNode::Extern(_) => FinalNodeType::Default,
            TensorNode::Exec(_) => FinalNodeType::Exec,
        }
    }

    pub fn get_id(&self) -> (r: u64)
        ensures
            r == self.node_id(),
    {
        match self {
            TensorNode::Node(node) => node.data.id,
            TensorNode::Extern(node) => node.data.id,
            TensorNode::Exec(node) => node.data.id,
        }
    }

    /// Sets the id and changes nothing else.
    pub fn set_id(&mut self, id: u64)
        ensures
            final(self).node_id() == id,
            final(self).node_name() == old(self).node_name(),
            match (*old(self), *final(self)) {
                (TensorNode::Node(a), TensorNode::Node(b)) => b == NodeIR {
                    data: NodeIRData { id, ..a.data },
                    ..a
                },
                (TensorNode::Extern(a), TensorNode::Extern(b)) => b == ExternIR {
                    data: IRData { id, ..a.data },
                    ..a
                },
                (TensorNode::Exec(a), TensorNode::Exec(b)) => b == ExecIR {
                    data: IRData { id, ..a.data },
                },
                _ => false,
            },
    {
        match self {
            TensorNode::Node(node) => node.data.id = id,
            TensorNode::Extern(node) => node.data.id = id,
            TensorNode::Exec(node) => node.data.id = id,
        }
    }

    pub fn get_input_shapes(&self) -> (r: Option<&Shapes>)
        requires
            inputs_ok(*self),
        ensures
            refers_to(r, inputs_of(*self)),
        decreases self, 0int,
    {
        match self {
            TensorNode::Node(node) => node.tensor_graph.get_input_shapes(),
            TensorNode::Extern(node) => match &node.input_shapes {
                Some(s) => Some(s),
                None => None,
            },
            TensorNode::Exec(_) => None,
        }
    }

    pub fn get_output_shapes(&self) -> (r: Option<&Shapes>)
        requires
            outputs_ok(*self),
        ensures
            refers_to(r, outputs_of(*self)),
        decreases self, 0int,
    {
        match self {
            TensorNode::Node(node) => node.tensor_graph.get_output_shapes(),
            TensorNode::Extern(node) => match &node.output_shapes {
                Some(s) => Some(s),
                None => None,
            },
            TensorNode::Exec(_) => None,
        }
    }

    /// The graph-bearing node, or a type mismatch for any other kind.
    pub fn unwrap_node(self) -> (r: Result<NodeIR, Error>)
        ensures
            self matches TensorNode::Node(n) ==> r == Ok::<NodeIR, Error>(n),
            !(self is Node) ==> r is Err && r->Err_0.tensor_node_error() == Some(
                TensorNodeError::MismatchedType {
                    expected: FinalNodeType::Default,
                    given: if self is Exec {
                        FinalNodeType::Exec
                    } else {
                        FinalNodeType::Default
                    },
                },
            ),
    {
        let given = self.ty();
        match self {
            TensorNode::Node(node) => Ok(node),
            _ => Err(
                Error::from_tensor_node(
                    TensorNodeError::MismatchedType { expected: FinalNodeType::Default, given },
                ),
            ),
        }
    }
}

/// The node reports output shapes that are known and not dynamic.
pub open spec fn concrete_outputs(n: TensorNode) -> bool {
    outputs_of(n) is Some && !is_dynamic(outputs_of(n)->0)
}

proof fn lemma_scan(nodes: Seq<TensorNode>, j: int)
    requires
        nodes.len() > 0,
        -1 <= j < nodes.len(),
    ensures
        forall|k: int|
            0 <= k <= j && #[trigger] concrete_outputs(nodes[k]) && (forall|m: int|
                k < m <= j ==> !concrete_outputs(#[trigger] nodes[m])) ==> scan_outputs(nodes, j)
                == outputs_of(nodes[k]),
        (forall|m: int| 0 <= m <= j ==> !concrete_outputs(#[trigger] nodes[m])) ==> scan_outputs(
            nodes,
            j,
        ) == outputs_of(nodes.last()),
    decreases j + 1,
{
    if j >= 0 {
        lemma_scan(nodes, j - 1);
        if !concrete_outputs(nodes[j]) {
            assert(scan_outputs(nodes, j) == scan_outputs(nodes, j - 1));
        }
    }
}

/// Asking a pipeline for its output shapes skips, from the end, each node
/// whose shapes are unknown or a single dynamic shape, and returns those of
/// the nearest node that has concrete ones; where none has, the last node's.
pub proof fn output_shapes_skip_dynamic(nodes: Seq<TensorNode>)
    requires
        nodes.len() > 0,
    ensures
        forall|k: int|
            0 <= k < nodes.len() && #[trigger] concrete_outputs(nodes[k]) && (forall|m: int|
                k < m < nodes.len() ==> !concrete_outputs(#[trigger] nodes[m])) ==> scan_outputs(
                nodes,
                nodes.len() - 1,
            ) == outputs_of(nodes[k]),
        (forall|m: int| 0 <= m < nodes.len() ==> !concrete_outputs(#[trigger] nodes[m]))
            ==> scan_outputs(nodes, nodes.len() - 1) == outputs_of(nodes.last()),
{
    lemma_scan(nodes, nodes.len() - 1);
}

/// The outputs named after the keys of `shapes`, in order, each tagged
/// with the node `id`.
pub open spec fn outs_from_shapes(id: u64, shapes: Shapes) -> Seq<(Seq<char>, Option<u64>, Option<Seq<char>>)> {
    Seq::new(
        shapes.0@.len(),
        |i: int| (shapes.0@[i].0@, Some(id), Some(shapes.0@[i].0@)),
    )
}

pub open spec fn outs_view(outs: Seq<(String, Out)>) -> Seq<(Seq<char>, Option<u64>, Option<Seq<char>>)> {
    Seq::new(
        outs.len(),
        |i: int|
            (outs[i].0@, outs[i].1.id, match outs[i].1.name {
                Some(n) => Some(n@),
                None => None,
            }),
    )
}

/// The outputs a node declares, or, where it declares none, one output per
/// shape its pipeline reports, named after the shape and tagged with `id`.
pub fn unwrap_outs(id: u64, shapes: &Shapes, outs: Option<Outs>) -> (r: Outs)
    ensures
        outs matches Some(o) ==> r == o,
        outs is None ==> outs_view(r@) == outs_from_shapes(id, *shapes),
{
    match outs {
        Some(o) => o,
        None => {
            let mut r: Outs = Vec::new();
            let mut i: usize = 0;
            while i < shapes.0.len()
                invariant
                    i <= shapes.0@.len(),
                    r@.len() == i,
                    forall|j: int|
                        0 <= j < i ==> (#[trigger] outs_view(r@)[j]) == outs_from_shapes(id, *shapes)[j],
                decreases shapes.0@.len() - i,
            {
                let ghost before = r@;
                let key = shapes.0[i].0.clone();
                let name = shapes.0[i].0.clone();
                r.push((key, Out { id: Some(id), name: Some(name.clone()) }));
                proof {
                    assert forall|j: int| 0 <= j < i + 1 implies (#[trigger] outs_view(r@)[j]) == outs_from_shapes(id, *shapes)[j] by {
                        if j < i {
                            assert(r@[j] == before[j]);
                            assert(outs_view(r@)[j] == outs_view(before)[j]);
                        } else {
                            assert(r@[j].0@ == shapes.0@[j].0@);
                            assert(r@[j].1.name == Some(name));
                            assert(outs_view(r@)[j] == (r@[j].0@, Some(id), Some(name@)));
                        }
                    }
                }
                i = i + 1;
            }
            assert(outs_view(r@) =~= outs_from_shapes(id, *shapes));
            r
        },
    }
}

/// A copy of outputs.
fn duplicate_outs(outs: &Outs) -> (r: Outs)
    ensures
        r@ == outs@,
{
    let mut r: Outs = Vec::new();
    let mut i: usize = 0;
    while i < outs.len()
        invariant
            i <= outs@.len(),
            r@ == outs@.take(i as int),
        decreases outs@.len() - i,
    {
        r.push((outs[i].0.clone(), outs[i].1.duplicate()));
        i = i + 1;
        assert(r@ =~= outs@.take(i as int));
    }
    assert(outs@.take(i as int) =~= outs@);
    r
}

/// Shapes as names and dimensions.
pub open spec fn shapes_view(s: Shapes) -> Seq<(Seq<char>, Option<Seq<Value>>)> {
    entries_view(s.0@)
}

pub open spec fn entry_view(e: (String, Option<Shape>)) -> (Seq<char>, Option<Seq<Value>>) {
    (e.0@, match e.1 {
        Some(sh) => Some(sh.0@),
        None => None,
    })
}

pub open spec fn entries_view(e: Seq<(String, Option<Shape>)>) -> Seq<(Seq<char>, Option<Seq<Value>>)> {
    Seq::new(e.len(), |i: int| entry_view(e[i]))
}

pub open spec fn opt_shapes_view(s: Option<Shapes>) -> Option<Seq<(Seq<char>, Option<Seq<Value>>)>> {
    match s {
        Some(x) => Some(shapes_view(x)),
        None => None,
    }
}

pub open spec fn opt_outs_view(o: Option<Outs>) -> Option<Seq<(String, Out)>> {
    match o {
        Some(x) => Some(x@),
        None => None,
    }
}

fn duplicate_opt_outs(outs: &Option<Outs>) -> (r: Option<Outs>)
    ensures
        opt_outs_view(r) == opt_outs_view(*outs),
{
    match outs {
        Some(o) => Some(duplicate_outs(o)),
        None => None,
    }
}

fn shapes_to_outs(id: u64, shapes: Option<&Shapes>) -> (r: Option<Outs>)
    ensures
        shapes is None ==> r is None,
        shapes matches Some(s) ==> r matches Some(o) && outs_view(o@) == outs_from_shapes(id, *s),
{
    match shapes {
        Some(s) => Some(unwrap_outs(id, s, None)),
        None => None,
    }
}

impl IRData {
    /// The data of a node not yet placed in a pipeline (id 0), with its
    /// inputs tagged 0 and its outputs tagged 1.
    pub fn new(name: String, graph: Graph, input: Option<&Shapes>, output: Option<&Shapes>) -> (r: IRData)
        ensures
            r.id == 0,
            r.name == name,
            r.graph == graph,
            input is None ==> r.input is None,
            input matches Some(s) ==> r.input matches Some(o) && outs_view(o@) == outs_from_shapes(0, *s),
            output is None ==> r.output is None,
            output matches Some(s) ==> r.output matches Some(o) && outs_view(o@) == outs_from_shapes(1, *s),
    {
        IRData { id: 0, name, graph, input: shapes_to_outs(0, input), output: shapes_to_outs(1, output) }
    }

    /// A copy whose graph is cloned under a fresh id.
    pub fn clone_safe(&self, seed: &mut Seed) -> (r: IRData)
        requires
            self.graph.wf(),
            old(seed).next_id() < u64::MAX,
        ensures
            r.id == self.id,
            r.name == self.name,
            opt_outs_view(r.input) == opt_outs_view(self.input),
            opt_outs_view(r.output) == opt_outs_view(self.output),
            r.graph.wf(),
            r.graph.gid() == old(seed).next_id(),
            final(seed).next_id() == r.graph.gid() + 1,
            r.graph.vars() == cloned(self.graph.vars(), r.graph.gid()),
    {
        IRData {
            id: self.id,
            name: self.name.clone(),
            graph: self.graph.clone_safe(seed),
            input: duplicate_opt_outs(&self.input),
            output: duplicate_opt_outs(&self.output),
        }
    }
}

fn duplicate_shape(s: &Shape) -> (r: Shape)
    ensures
        r.0@ == s.0@,
{
    let mut v: Vec<Value> = Vec::new();
    let mut i: usize = 0;
    while i < s.0.len()
        invariant
            i <= s.0@.len(),
            v@ == s.0@.take(i as int),
        decreases s.0@.len() - i,
    {
        v.push(s.0[i].duplicate());
        i = i + 1;
        assert(v@ =~= s.0@.take(i as int));
    }
    assert(s.0@.take(i as int) =~= s.0@);
    Shape(v)
}

fn duplicate_shapes(s: &Option<Shapes>) -> (r: Option<Shapes>)
    ensures
        opt_shapes_view(r) == opt_shapes_view(*s),
{
    match s {
        None => None,
        Some(shapes) => {
            let mut v: Vec<(String, Option<Shape>)> = Vec::new();
            let mut i: usize = 0;
            while i < shapes.0.len()
                invariant
                    i <= shapes.0@.len(),
                    v@.len() == i,
                    forall|j: int| 0 <= j < i ==> entry_view(#[trigger] v@[j]) == entry_view(shapes.0@[j]),
                decreases shapes.0@.len() - i,
            {
                let shape = match &shapes.0[i].1 {
                    Some(x) => Some(duplicate_shape(x)),
                    None => None,
                };
                let ghost before = v@;
                v.push((shapes.0[i].0.clone(), shape));
                proof {
                    assert forall|j: int| 0 <= j < i + 1 implies entry_view(#[trigger] v@[j]) == entry_view(shapes.0@[j]) by {
                        if j < i {
                            assert(v@[j] == before[j]);
                        }
                    }
                }
                i = i + 1;
            }
            let r = Shapes(v);
            assert(shapes_view(r) =~= shapes_view(*shapes));
            Some(r)
        },
    }
}

impl TensorNode {
    /// A copy of a script or terminal node whose graph is cloned under a
    /// fresh id; its shapes and outputs are kept.
    pub fn clone_safe(&self, seed: &mut Seed) -> (r: TensorNode)
        requires
            !(*self is Node),
            match *self {
                TensorNode::Extern(e) => e.data.graph.wf(),
                TensorNode::Exec(e) => e.data.graph.wf(),
                _ => true,
            },
            old(seed).next_id() < u64::MAX,
        ensures
            r.node_id() == self.node_id(),
            r.node_name() == self.node_name(),
            final(seed).next_id() == old(seed).next_id() + 1,
            match (*self, r) {
                (TensorNode::Extern(a), TensorNode::Extern(b)) => opt_shapes_view(b.input_shapes)
                    == opt_shapes_view(a.input_shapes) && opt_shapes_view(b.output_shapes)
                    == opt_shapes_view(a.output_shapes) && b.data.graph.gid() == old(seed).next_id()
                    && b.data.graph.vars() == cloned(a.data.graph.vars(), b.data.graph.gid()),
                (TensorNode::Exec(a), TensorNode::Exec(b)) => b.data.graph.gid() == old(seed).next_id()
                    && b.data.graph.vars() == cloned(a.data.graph.vars(), b.data.graph.gid()),
                _ => false,
            },
    {
        match self {
            TensorNode::Extern(e) => TensorNode::Extern(
                ExternIR {
                    data: e.data.clone_safe(seed),
                    input_shapes: duplicate_shapes(&e.input_shapes),
                    output_shapes: duplicate_shapes(&e.output_shapes),
                },
            ),
            TensorNode::Exec(e) => TensorNode::Exec(ExecIR { data: e.data.clone_safe(seed) }),
            TensorNode::Node(_) => vstd::pervasive::unreached(),
        }
    }
}

/// A built graph-bearing node: its outputs named and its pipeline built.
#[derive(Debug)]
pub struct NodeCode {
    pub name: String,
    pub input: Outs,
    pub output: Outs,
    pub graph: Vec<Code>,
}

/// A built script node, with the script it runs.
#[derive(Debug)]
pub struct ExternCode {
    pub name: String,
    pub input: Option<Outs>,
    pub output: Option<Outs>,
    pub script: PythonScript,
}

/// A built terminal node.
#[derive(Debug)]
pub struct ExecCode {
    pub name: String,
}

/// A node in its final, executable-description form.
#[derive(Debug)]
pub enum Code {
    Node(NodeCode),
    Extern(ExternCode),
    Exec(ExecCode),
}

/// Building the node meets no unfinished case: it repeats nothing, and
/// where it declares no inputs or outputs its pipeline reports them.
pub open spec fn lowerable(n: TensorNode) -> bool
    decreases n, 0int,
{
    match n {
        TensorNode::Node(ir) => {
            &&& ir.data.repeat is None
            &&& ir.data.input is None ==> pipeline_inputs_ok(ir.tensor_graph.0@) && pipeline_inputs(
                ir.tensor_graph.0@,
            ) is Some
            &&& ir.data.output is None ==> ir.tensor_graph.0@.len() > 0 && scan_ok(
                ir.tensor_graph.0@,
                ir.tensor_graph.0@.len() - 1,
            ) && scan_outputs(ir.tensor_graph.0@, ir.tensor_graph.0@.len() - 1) is Some
            &&& all_lowerable(ir.tensor_graph.0@, ir.tensor_graph.0@.len() as int)
        },
        _ => true,
    }
}

/// The first `k` nodes are lowerable.
pub open spec fn all_lowerable(nodes: Seq<TensorNode>, k: int) -> bool
    decreases nodes, k,
{
    if k <= 0 || k > nodes.len() {
        k <= 0
    } else {
        all_lowerable(nodes, k - 1) && lowerable(nodes[k - 1])
    }
}

/// The name of the first script node, in pipeline order and depth first,
/// whose script is not registered.
pub open spec fn missing_script(n: TensorNode, scripts: Map<Seq<char>, CacheSlot<PythonScript>>) -> Option<Seq<char>>
    decreases n, 0int,
{
    match n {
        TensorNode::Node(ir) => first_missing(ir.tensor_graph.0@, ir.tensor_graph.0@.len() as int, scripts),
        TensorNode::Extern(e) => if scripts.contains_key(e.data.name@) {
            None
        } else {
            Some(e.data.name@)
        },
        TensorNode::Exec(_) => None,
    }
}

/// The first missing script among the first `k` nodes.
pub open spec fn first_missing(
    nodes: Seq<TensorNode>,
    k: int,
    scripts: Map<Seq<char>, CacheSlot<PythonScript>>,
) -> Option<Seq<char>>
    decreases nodes, k,
{
    if k <= 0 || k > nodes.len() {
        None
    } else {
        match first_missing(nodes, k - 1, scripts) {
            Some(m) => Some(m),
            None => missing_script(nodes[k - 1], scripts),
        }
    }
}

/// `c` is what building `n` gives: the same kind under the same name; for a
/// graph-bearing node, the outputs it declares or those its pipeline
/// reports tagged with its id, and each node of its pipeline built in
/// order; for a script node, its outputs and the script registered under
/// its name in `scripts`, with its text.
pub open spec fn code_of(c: Code, n: TensorNode, scripts: Map<Seq<char>, CacheSlot<PythonScript>>) -> bool
    decreases n, 0int,
{
    match n {
        TensorNode::Node(ir) => match c {
            Code::Node(x) => {
                &&& x.name == ir.name
                &&& match ir.data.input {
                    Some(o) => x.input == o,
                    None => outs_view(x.input@) == outs_from_shapes(
                        ir.data.id,
                        pipeline_inputs(ir.tensor_graph.0@)->0,
                    ),
                }
                &&& match ir.data.output {
                    Some(o) => x.output == o,
                    None => outs_view(x.output@) == outs_from_shapes(
                        ir.data.id,
                        scan_outputs(ir.tensor_graph.0@, ir.tensor_graph.0@.len() - 1)->0,
                    ),
                }
                &&& x.graph@.len() == ir.tensor_graph.0@.len()
                &&& all_codes(x.graph@, ir.tensor_graph.0@, ir.tensor_graph.0@.len() as int, scripts)
            },
            _ => false,
        },
        TensorNode::Extern(e) => match c {
            Code::Extern(x) => x.name == e.data.name && x.script.name@ == e.data.name@
                && x.script.source@ == script_text(scripts[e.data.name@]) && x.input == e.data.input
                && x.output == e.data.output,
            _ => false,
        },
        TensorNode::Exec(e) => match c {
            Code::Exec(x) => x.name == e.data.name,
            _ => false,
        },
    }
}

/// The text of a registered script, built or not.
pub open spec fn script_text(slot: CacheSlot<PythonScript>) -> Seq<char> {
    match slot {
        CacheSlot::Source(t) => t@,
        CacheSlot::Built(s) => s.source@,
    }
}

/// Each of the first `k` codes is what building its node gives.
pub open spec fn all_codes(
    codes: Seq<Code>,
    nodes: Seq<TensorNode>,
    k: int,
    scripts: Map<Seq<char>, CacheSlot<PythonScript>>,
) -> bool
    decreases nodes, k,
{
    if k <= 0 || k > nodes.len() {
        k <= 0
    } else {
        all_codes(codes, nodes, k - 1, scripts) && k - 1 < codes.len() && code_of(
            codes[k - 1],
            nodes[k - 1],
            scripts,
        )
    }
}

proof fn lemma_all_codes(
    codes: Seq<Code>,
    nodes: Seq<TensorNode>,
    k: int,
    scripts: Map<Seq<char>, CacheSlot<PythonScript>>,
)
    requires
        0 <= k <= nodes.len(),
        k <= codes.len(),
        forall|j: int| 0 <= j < k ==> code_of(#[trigger] codes[j], nodes[j], scripts),
    ensures
        all_codes(codes, nodes, k, scripts),
    decreases k,
{
    if k > 0 {
        lemma_all_codes(codes, nodes, k - 1, scripts);
    }
}

proof fn lemma_first_missing_at(
    nodes: Seq<TensorNode>,
    k: int,
    i: int,
    scripts: Map<Seq<char>, CacheSlot<PythonScript>>,
)
    requires
        0 <= i < k <= nodes.len(),
        first_missing(nodes, i, scripts) is None,
        missing_script(nodes[i], scripts) is Some,
    ensures
        first_missing(nodes, k, scripts) == missing_script(nodes[i], scripts),
    decreases k,
{
    if k > i + 1 {
        lemma_first_missing_at(nodes, k - 1, i, scripts);
    }
}

proof fn lemma_all_lowerable(nodes: Seq<TensorNode>, k: int, j: int)
    requires
        all_lowerable(nodes, k),
        0 <= j < k,
    ensures
        lowerable(nodes[j]),
    decreases k,
{
    if j < k - 1 {
        lemma_all_lowerable(nodes, k - 1, j);
    }
}

/// The script registered under `name`.
fn script_of(root: &NodeRoot, name: &String) -> (r: Result<PythonScript, Error>)
    requires
        root.wf(),
    ensures
        r is Ok <==> root.scripts().contains_key(name@),
        r matches Ok(s) ==> s.name@ == name@ && s.source@ == script_text(root.scripts()[name@]),
        r matches Err(e) ==> is_no_such_node(e, name@),
{
    match root.get_extern(name.as_str()) {
        Ok(CacheSlot::Built(s)) => Ok(PythonScript { name: name.clone(), source: s.source.clone() }),
        Ok(CacheSlot::Source(t)) => Ok(PythonScript { name: name.clone(), source: t.clone() }),
        Err(e) => Err(e),
    }
}

impl TensorGraph {
    /// Builds every node, in order; stops at the first script that is not
    /// registered.
    pub fn build(self, root: &NodeRoot) -> (r: Result<Vec<Code>, Error>)
        requires
            root.wf(),
            all_lowerable(self.0@, self.0@.len() as int),
        ensures
            r is Ok <==> first_missing(self.0@, self.0@.len() as int, root.scripts()) is None,
            r matches Ok(codes) ==> codes@.len() == self.0@.len() && forall|k: int|
                0 <= k < codes@.len() ==> code_of(#[trigger] codes@[k], self.0@[k], root.scripts()),
            r matches Err(e) ==> is_no_such_node(
                e,
                first_missing(self.0@, self.0@.len() as int, root.scripts())->0,
            ),
        decreases self, 1int,
    {
        let ghost orig = self.0@;
        let n = self.0.len();
        let mut nodes = self.0;
        let mut codes: Vec<Code> = Vec::new();
        let mut i: usize = 0;
        while i < n
            invariant
                n == orig.len(),
                orig == self.0@,
                i <= n,
                codes@.len() == i,
                nodes@ == orig.subrange(i as int, n as int),
                all_lowerable(orig, n as int),
                first_missing(orig, i as int, root.scripts()) is None,
                root.wf(),
                forall|k: int| 0 <= k < i ==> code_of(#[trigger] codes@[k], orig[k], root.scripts()),
            decreases n - i,
        {
            let node = nodes.remove(0);
            proof {
                assert(node == orig[i as int]);
                lemma_all_lowerable(orig, n as int, i as int);
                assert(decreases_to!(self => self.0));
                assert(decreases_to!(self.0 => self.0@));
                assert(decreases_to!(self.0@ => self.0@[i as int]));
                assert(nodes@ =~= orig.subrange(i + 1, n as int));
            }
            match node.build_to_code(root) {
                Ok(code) => {
                    codes.push(code);
                },
                Err(e) => {
                    proof {
                        lemma_first_missing_at(orig, n as int, i as int, root.scripts());
                    }
                    return Err(e);
                },
            }
            i = i + 1;
        }
        Ok(codes)
    }
}

impl NodeIR {
    /// The input shapes of the node's pipeline.
    pub fn get_input_shapes(&self) -> (r: Option<&Shapes>)
        requires
            pipeline_inputs_ok(self.tensor_graph.0@),
        ensures
            refers_to(r, pipeline_inputs(self.tensor_graph.0@)),
    {
        self.tensor_graph.get_input_shapes()
    }

    /// The output shapes of the node's pipeline.
    pub fn get_output_shapes(&self) -> (r: Option<&Shapes>)
        requires
            self.tensor_graph.0@.len() > 0,
            scan_ok(self.tensor_graph.0@, self.tensor_graph.0@.len() - 1),
        ensures
            refers_to(r, scan_outputs(self.tensor_graph.0@, self.tensor_graph.0@.len() - 1)),
    {
        self.tensor_graph.get_output_shapes()
    }

    /// Builds the node: the outputs it declares, or those its pipeline
    /// reports, tagged with its id; then its pipeline.
    pub fn build(self, root: &NodeRoot) -> (r: Result<NodeCode, Error>)
        requires
            root.wf(),
            lowerable(TensorNode::Node(self)),
        ensures
            r is Ok <==> missing_script(TensorNode::Node(self), root.scripts()) is None,
            r matches Ok(c) ==> code_of(Code::Node(c), TensorNode::Node(self), root.scripts()),
            r matches Err(e) ==> is_no_such_node(
                e,
                missing_script(TensorNode::Node(self), root.scripts())->0,
            ),
        decreases self, 0int,
    {
        let ghost nodes = self.tensor_graph.0@;
        let id = self.data.id;
        let input = match self.data.input {
            Some(o) => o,
            None => {
                let shapes = self.tensor_graph.get_input_shapes().unwrap();
                unwrap_outs(id, shapes, None)
            },
        };
        let output = match self.data.output {
            Some(o) => o,
            None => {
                let shapes = self.tensor_graph.get_output_shapes().unwrap();
                unwrap_outs(id, shapes, None)
            },
        };
        proof {
            assert(decreases_to!(self => self.tensor_graph));
        }
        let graph = match self.tensor_graph.build(root) {
            Ok(g) => g,
            Err(e) => return Err(e),
        };
        proof {
            lemma_all_codes(graph@, nodes, nodes.len() as int, root.scripts());
        }
        Ok(NodeCode { name: self.name, input, output, graph })
    }
}

impl TensorNode {
    /// Builds the node into its final form.
    pub fn build_to_code(self, root: &NodeRoot) -> (r: Result<Code, Error>)
        requires
            root.wf(),
            lowerable(self),
        ensures
            r is Ok <==> missing_script(self, root.scripts()) is None,
            r matches Ok(c) ==> code_of(c, self, root.scripts()),
            r matches Err(e) ==> is_no_such_node(e, missing_script(self, root.scripts())->0),
        decreases self, 0int,
    {
        match self {
            TensorNode::Node(node) => {
                proof {
                    assert(decreases_to!(self => node));
                }
                match node.build(root) {
                    Ok(c) => Ok(Code::Node(c)),
                    Err(e) => Err(e),
                }
            },
            TensorNode::Extern(node) => {
                let script = match script_of(root, &node.data.name) {
                    Ok(s) => s,
                    Err(e) => return Err(e),
                };
                Ok(
                    Code::Extern(
                        ExternCode {
                            name: node.data.name,
                            input: node.data.input,
                            output: node.data.output,
                            script,
                        },
                    ),
                )
            },
            TensorNode::Exec(node) => Ok(Code::Exec(ExecCode { name: node.data.name })),
        }
    }
}

} // verus!
