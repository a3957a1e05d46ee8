use crate::cycle::{acyclic, find_cycle, is_cycle, refers};
use crate::error::{
    is_cycled_variables, is_dangling_handle, is_duplicated_variable, is_no_such_variable, views, Error, GraphError,
};
use crate::seed::Seed;
use crate::value::{duplicate_opt, Expr, LetType, Value, Variable};
use vstd::prelude::*;

verus! {

/// A table of variables.  A reference between variables is a handle: the
/// position of the referred variable in the table.
#[derive(Debug)]
pub struct Graph {
    pub id: u64,
    variables: Vec<Variable>,
}

/// A declaration of a variable, as a definition writes it.
#[derive(Debug)]
pub struct NodeLet {
    pub name: String,
    pub shortcut: Option<String>,
    pub ty: LetType,
    pub value: Option<Value>,
}

/// Overrides: a name and the value to put under it.
pub type Values = Vec<(String, Option<Value>)>;

/// The names of the variables, in order.
pub open spec fn names_of(vars: Seq<Variable>) -> Seq<Seq<char>> {
    vars.map_values(|v: Variable| v.name@)
}

pub open spec fn distinct_names(vars: Seq<Variable>) -> bool {
    forall|i: int, j: int|
        0 <= i < vars.len() && 0 <= j < vars.len() && i != j ==> #[trigger] vars[i].name@
            != #[trigger] vars[j].name@
}

/// No two variables declare the same shortcut.
pub open spec fn distinct_shortcuts(vars: Seq<Variable>) -> bool {
    forall|i: int, j: int|
        0 <= i < vars.len() && 0 <= j < vars.len() && i != j && vars[i].shortcut is Some
            && vars[j].shortcut is Some ==> #[trigger] vars[i].key() != #[trigger] vars[j].key()
}

/// The variables' shortcuts, in order.
pub open spec fn shortcuts_of(vars: Seq<Variable>) -> Seq<Option<String>> {
    vars.map_values(|v: Variable| v.shortcut)
}

/// The position of the variable that declares the shortcut `k`.
pub open spec fn index_of_shortcut(vars: Seq<Variable>, k: Seq<char>) -> Option<int> {
    if exists|i: int| 0 <= i < vars.len() && vars[i].shortcut is Some && #[trigger] vars[i].key() == k {
        Some(choose|i: int| 0 <= i < vars.len() && vars[i].shortcut is Some && #[trigger] vars[i].key() == k)
    } else {
        None
    }
}

/// The position of the variable named `k` that declares no shortcut.
pub open spec fn index_of_bare(vars: Seq<Variable>, k: Seq<char>) -> Option<int> {
    if exists|i: int| 0 <= i < vars.len() && vars[i].shortcut is None && #[trigger] vars[i].key() == k {
        Some(choose|i: int| 0 <= i < vars.len() && vars[i].shortcut is None && #[trigger] vars[i].key() == k)
    } else {
        None
    }
}

/// The variable that the key `k` reaches in the shortcut index: the one
/// declaring the shortcut `k`, else the one named `k` that declares none.
pub open spec fn index_of_key(vars: Seq<Variable>, k: Seq<char>) -> Option<int> {
    match index_of_shortcut(vars, k) {
        Some(i) => Some(i),
        None => index_of_bare(vars, k),
    }
}

/// Variable `i` declares no shortcut and its name is another's shortcut, so
/// the shortcut index does not reach it.
pub open spec fn shadowed(vars: Seq<Variable>, i: int) -> bool {
    vars[i].shortcut is None && index_of_shortcut(vars, vars[i].name@) is Some
}

/// The keys of the shortcut index, each once, in the order of the table.
pub open spec fn index_keys(vars: Seq<Variable>, k: int) -> Seq<Seq<char>>
    decreases k,
{
    if k <= 0 || k > vars.len() {
        Seq::empty()
    } else if shadowed(vars, k - 1) {
        index_keys(vars, k - 1)
    } else {
        index_keys(vars, k - 1).push(vars[k - 1].key())
    }
}

/// The position of the variable named `k`.
pub open spec fn index_of_name(vars: Seq<Variable>, k: Seq<char>) -> Option<int> {
    if exists|i: int| 0 <= i < vars.len() && #[trigger] vars[i].name@ == k {
        Some(choose|i: int| 0 <= i < vars.len() && #[trigger] vars[i].name@ == k)
    } else {
        None
    }
}

/// The shortcut index: each key to the position of its variable.
pub open spec fn shortcut_index(vars: Seq<Variable>) -> Map<Seq<char>, int> {
    Map::new(|k: Seq<char>| index_of_key(vars, k) is Some, |k: Seq<char>| index_of_key(vars, k)->0)
}

/// The index that a lookup consults: the shortcut index or the names.
pub open spec fn lookup(vars: Seq<Variable>, k: Seq<char>, by_shortcut: bool) -> Option<int> {
    if by_shortcut {
        index_of_key(vars, k)
    } else {
        index_of_name(vars, k)
    }
}

pub open spec fn consulted(vars: Seq<Variable>, by_shortcut: bool) -> Seq<Seq<char>> {
    if by_shortcut {
        index_keys(vars, vars.len() as int)
    } else {
        names_of(vars)
    }
}

pub open spec fn with_value(v: Variable, x: Option<Value>) -> Variable {
    Variable { value: x, ..v }
}

/// The table after the overrides `ov` are put in order.
pub open spec fn applied(
    vars: Seq<Variable>,
    ov: Seq<(String, Option<Value>)>,
    by_shortcut: bool,
) -> Seq<Variable>
    decreases ov.len(),
{
    if ov.len() == 0 {
        vars
    } else {
        let prev = applied(vars, ov.drop_last(), by_shortcut);
        match lookup(vars, ov.last().0@, by_shortcut) {
            Some(i) => prev.update(i, with_value(prev[i], ov.last().1)),
            None => prev,
        }
    }
}

/// The table after the values `ov` are loaded in order, each only into a
/// variable that holds none.
pub open spec fn loaded(vars: Seq<Variable>, ov: Seq<(String, Option<Value>)>) -> Seq<Variable>
    decreases ov.len(),
{
    if ov.len() == 0 {
        vars
    } else {
        let prev = loaded(vars, ov.drop_last());
        match index_of_name(vars, ov.last().0@) {
            Some(i) => if prev[i].value is None {
                prev.update(i, with_value(prev[i], ov.last().1))
            } else {
                prev
            },
            None => prev,
        }
    }
}

/// A value with each name that is a key of the shortcut index replaced by
/// the handle of its variable.
pub open spec fn canonical(vars: Seq<Variable>, v: Value) -> Value
    decreases v,
{
    match v {
        Value::Ref(n) => match index_of_key(vars, n@) {
            Some(i) => Value::Variable(i as usize),
            None => v,
        },
        Value::Expr(e) => Value::Expr(
            Box::new(
                Expr {
                    op: e.op,
                    lhs: canonical(vars, e.lhs),
                    rhs: match e.rhs {
                        Some(r) => Some(canonical(vars, r)),
                        None => None,
                    },
                },
            ),
        ),
        _ => v,
    }
}

pub open spec fn is_dim(v: Variable) -> bool {
    v.ty == Some(LetType::Dim)
}

/// The dimension variables' names and values, in order.
pub open spec fn dims_of(vars: Seq<Variable>) -> Seq<(Seq<char>, Option<Value>)>
    decreases vars.len(),
{
    if vars.len() == 0 {
        Seq::empty()
    } else {
        let prev = dims_of(vars.drop_last());
        if is_dim(vars.last()) {
            prev.push((vars.last().name@, vars.last().value))
        } else {
            prev
        }
    }
}

/// The table with every dimension variable emptied.
pub open spec fn without_dims(vars: Seq<Variable>) -> Seq<Variable> {
    Seq::new(
        vars.len(),
        |i: int|
            if is_dim(vars[i]) {
                with_value(vars[i], None)
            } else {
                vars[i]
            },
    )
}

/// The table that declarations make, before references are resolved.
pub open spec fn declared(id: u64, decls: Seq<NodeLet>) -> Seq<Variable> {
    Seq::new(
        decls.len(),
        |i: int|
            Variable {
                id: Some(id),
                id_old: Some(id),
                name: decls[i].name,
                shortcut: decls[i].shortcut,
                ty: Some(decls[i].ty),
                value: decls[i].value,
            },
    )
}

/// The value with each name replaced by the handle of the variable whose
/// key in the shortcut index it is, or the first name, left operand before
/// right, that is no key.
pub open spec fn resolved(vars: Seq<Variable>, v: Value) -> Result<Value, Seq<char>>
    decreases v,
{
    match v {
        Value::Ref(n) => match index_of_key(vars, n@) {
            Some(i) => Ok(Value::Variable(i as usize)),
            None => Err(n@),
        },
        Value::Expr(e) => match resolved(vars, e.lhs) {
            Err(m) => Err(m),
            Ok(l) => match e.rhs {
                None => Ok(Value::Expr(Box::new(Expr { op: e.op, lhs: l, rhs: None }))),
                Some(x) => match resolved(vars, x) {
                    Err(m) => Err(m),
                    Ok(r) => Ok(Value::Expr(Box::new(Expr { op: e.op, lhs: l, rhs: Some(r) }))),
                },
            },
        },
        _ => Ok(v),
    }
}

pub open spec fn resolved_opt(vars: Seq<Variable>, o: Option<Value>) -> Result<Option<Value>, Seq<char>> {
    match o {
        None => Ok(None),
        Some(v) => match resolved(vars, v) {
            Ok(x) => Ok(Some(x)),
            Err(m) => Err(m),
        },
    }
}

/// The table with every value resolved.
pub open spec fn resolved_table(vars: Seq<Variable>) -> Seq<Variable> {
    Seq::new(
        vars.len(),
        |i: int| with_value(vars[i], resolved_opt(vars, vars[i].value)->Ok_0),
    )
}

/// Every value of the table resolves.
pub open spec fn all_resolve(vars: Seq<Variable>) -> bool {
    forall|i: int| 0 <= i < vars.len() ==> (#[trigger] resolved_opt(vars, vars[i].value)) is Ok
}

/// The table copied into the graph `id`.
pub open spec fn cloned(vars: Seq<Variable>, id: u64) -> Seq<Variable> {
    Seq::new(vars.len(), |i: int| Variable { id: Some(id), ..vars[i] })
}

/// Every handle in the table leads to a variable of the table.
pub open spec fn closed(vars: Seq<Variable>) -> bool {
    forall|i: int, h: nat| 0 <= i < vars.len() && #[trigger] refers(vars[i], h) ==> h < vars.len()
}

/// A handle of `v` that is `n` or more.
fn dangling(v: &Value, n: usize) -> (r: Option<usize>)
    ensures
        r matches Some(h) ==> v.handles().contains(h as nat) && h >= n,
        r is None ==> forall|h: nat| #[trigger] v.handles().contains(h) ==> h < n,
    decreases v,
{
    match v {
        Value::Variable(h) => {
            let hh = *h;
            assert(v.handles() == set![hh as nat]);
            if hh >= n {
                Some(hh)
            } else {
                assert forall|h: nat| #[trigger] v.handles().contains(h) implies h < n by {
                    assert(h == hh as nat);
                }
                None
            }
        },
        Value::Expr(e) => match dangling(&e.lhs, n) {
            Some(h) => Some(h),
            None => match &e.rhs {
                Some(x) => {
                    let r = dangling(x, n);
                    proof {
                        assert(v.handles() == e.lhs.handles() + x.handles());
                        if r is None {
                            assert forall|h: nat| #[trigger] v.handles().contains(h) implies h < n by {
                                if !e.lhs.handles().contains(h) {
                                    assert(x.handles().contains(h));
                                }
                            }
                        }
                    }
                    r
                },
                None => {
                    assert(v.handles() == e.lhs.handles());
                    None
                },
            },
        },
        _ => {
            assert(v.handles() =~= Set::empty());
            None
        },
    }
}

/// Resolving adds only handles of variables of the table.
proof fn lemma_resolved_handles(vars: Seq<Variable>, v: Value)
    requires
        vars.len() <= usize::MAX,
    ensures
        resolved(vars, v) is Ok ==> forall|h: nat|
            #[trigger] resolved(vars, v)->Ok_0.handles().contains(h) ==> v.handles().contains(h)
                || h < vars.len(),
    decreases v,
{
    match v {
        Value::Expr(e) => {
            lemma_resolved_handles(vars, e.lhs);
            match e.rhs {
                Some(r) => lemma_resolved_handles(vars, r),
                None => {},
            }
            if resolved(vars, v) is Ok {
                let x = resolved(vars, v)->Ok_0;
                let l = resolved(vars, e.lhs)->Ok_0;
                assert forall|h: nat| #[trigger] x.handles().contains(h) implies v.handles().contains(h)
                    || h < vars.len() by {
                    match e.rhs {
                        Some(r) => {
                            let rr = resolved(vars, r)->Ok_0;
                            assert(x.handles() == l.handles() + rr.handles());
                            assert(v.handles() == e.lhs.handles() + r.handles());
                            if l.handles().contains(h) {
                            } else {
                                assert(rr.handles().contains(h));
                            }
                        },
                        None => {
                            assert(x.handles() == l.handles());
                            assert(v.handles() == e.lhs.handles());
                        },
                    }
                }
            }
        },
        Value::Ref(n) => {
            if index_of_key(vars, n@) is Some {
                let i = index_of_key(vars, n@)->0;
                assert(0 <= i < vars.len());
                assert forall|h: nat| #[trigger] resolved(vars, v)->Ok_0.handles().contains(h) implies h < vars.len() by {
                    assert(resolved(vars, v)->Ok_0 == Value::Variable(i as usize));
                    assert(set![i as usize as nat].contains(h));
                }
            }
        },
        _ => {},
    }
}

/// Finds the variable that declares the shortcut `k`.
fn find_shortcut(vars: &Vec<Variable>, k: &String) -> (r: Option<usize>)
    requires
        distinct_shortcuts(vars@),
    ensures
        r matches Some(i) ==> index_of_shortcut(vars@, k@) == Some(i as int),
        r is None ==> index_of_shortcut(vars@, k@) is None,
{
    let mut i: usize = 0;
    while i < vars.len()
        invariant
            i <= vars@.len(),
            distinct_shortcuts(vars@),
            forall|j: int| 0 <= j < i && vars@[j].shortcut is Some ==> #[trigger] vars@[j].key() != k@,
        decreases vars@.len() - i,
    {
        if let Some(s) = &vars[i].shortcut {
            if *s == *k {
                assert(vars@[i as int].key() == k@);
                let ghost c = choose|j: int|
                    0 <= j < vars@.len() && vars@[j].shortcut is Some && #[trigger] vars@[j].key() == k@;
                assert(vars@[c].key() == vars@[i as int].key());
                return Some(i);
            }
        }
        i = i + 1;
    }
    None
}

/// Finds the variable that the key `k` reaches in the shortcut index.
fn find_key(vars: &Vec<Variable>, k: &String) -> (r: Option<usize>)
    requires
        distinct_names(vars@),
        distinct_shortcuts(vars@),
    ensures
        r matches Some(i) ==> index_of_key(vars@, k@) == Some(i as int),
        r is None ==> index_of_key(vars@, k@) is None,
{
    if let Some(i) = find_shortcut(vars, k) {
        return Some(i);
    }
    let mut i: usize = 0;
    while i < vars.len()
        invariant
            i <= vars@.len(),
            distinct_names(vars@),
            index_of_shortcut(vars@, k@) is None,
            forall|j: int| 0 <= j < i && vars@[j].shortcut is None ==> #[trigger] vars@[j].key() != k@,
        decreases vars@.len() - i,
    {
        if vars[i].shortcut.is_none() && vars[i].name == *k {
            assert(vars@[i as int].key() == k@);
            let ghost c = choose|j: int|
                0 <= j < vars@.len() && vars@[j].shortcut is None && #[trigger] vars@[j].key() == k@;
            assert(vars@[c].name@ == vars@[c].key());
            assert(vars@[c].name@ == vars@[i as int].name@);
            return Some(i);
        }
        i = i + 1;
    }
    None
}

/// Finds the variable named `k`.
fn find_name(vars: &Vec<Variable>, k: &String) -> (r: Option<usize>)
    requires
        distinct_names(vars@),
    ensures
        r matches Some(i) ==> index_of_name(vars@, k@) == Some(i as int),
        r is None ==> index_of_name(vars@, k@) is None,
{
    let mut i: usize = 0;
    while i < vars.len()
        invariant
            i <= vars@.len(),
            distinct_names(vars@),
            forall|j: int| 0 <= j < i ==> #[trigger] vars@[j].name@ != k@,
        decreases vars@.len() - i,
    {
        if vars[i].name == *k {
            assert(vars@[i as int].name@ == k@);
            let ghost c = choose|j: int| 0 <= j < vars@.len() && #[trigger] vars@[j].name@ == k@;
            assert(vars@[c].name@ == vars@[i as int].name@);
            return Some(i);
        }
        i = i + 1;
    }
    None
}

fn resolve_value(vars: &Vec<Variable>, v: &Value) -> (r: Result<Value, String>)
    requires
        distinct_names(vars@),
        distinct_shortcuts(vars@),
    ensures
        r matches Ok(x) ==> resolved(vars@, *v) == Ok::<Value, Seq<char>>(x),
        r matches Err(m) ==> resolved(vars@, *v) == Err::<Value, Seq<char>>(m@),
    decreases v,
{
    match v {
        Value::Ref(n) => match find_key(vars, n) {
            Some(i) => Ok(Value::Variable(i)),
            None => Err(n.clone()),
        },
        Value::Expr(e) => {
            let lhs = match resolve_value(vars, &e.lhs) {
                Ok(x) => x,
                Err(m) => return Err(m),
            };
            let rhs = match &e.rhs {
                Some(x) => match resolve_value(vars, x) {
                    Ok(y) => Some(y),
                    Err(m) => return Err(m),
                },
                None => None,
            };
            Ok(Value::Expr(Box::new(Expr { op: e.op, lhs, rhs })))
        },
        _ => Ok(v.duplicate()),
    }
}

fn clone_name(s: &Option<String>) -> (r: Option<String>)
    ensures
        r == *s,
{
    match s {
        Some(x) => Some(x.clone()),
        None => None,
    }
}

/// The names of the variables, or the keys of the shortcut index, in order.
fn collect_names(vars: &Vec<Variable>, by_shortcut: bool) -> (r: Vec<String>)
    requires
        distinct_shortcuts(vars@),
    ensures
        views(r@) == consulted(vars@, by_shortcut),
{
    let mut r: Vec<String> = Vec::new();
    let mut i: usize = 0;
    while i < vars.len()
        invariant
            i <= vars@.len(),
            distinct_shortcuts(vars@),
            views(r@) == if by_shortcut {
                index_keys(vars@, i as int)
            } else {
                names_of(vars@).take(i as int)
            },
        decreases vars@.len() - i,
    {
        let ghost before = r@;
        if by_shortcut {
            let hidden = vars[i].shortcut.is_none() && find_shortcut(vars, &vars[i].name).is_some();
            if !hidden {
                r.push(vars[i].key_str().clone());
            }
            assert(views(r@) =~= index_keys(vars@, i + 1));
        } else {
            r.push(vars[i].name.clone());
            assert(r@.drop_last() == before);
            assert(views(r@) =~= views(before).push(vars@[i as int].name@));
            assert(views(r@) =~= names_of(vars@).take(i + 1));
        }
        i = i + 1;
    }
    assert(names_of(vars@).take(i as int) =~= names_of(vars@));
    r
}

/// A deep copy of the value canonicalized against the shortcut index.
fn canonicalize(vars: &Vec<Variable>, v: &Value) -> (r: Value)
    requires
        distinct_names(vars@),
        distinct_shortcuts(vars@),
    ensures
        r == canonical(vars@, *v),
    decreases v,
{
    match v {
        Value::Ref(n) => match find_key(vars, n) {
            Some(i) => Value::Variable(i),
            None => v.duplicate(),
        },
        Value::Expr(e) => {
            let lhs = canonicalize(vars, &e.lhs);
            let rhs = match &e.rhs {
                Some(x) => Some(canonicalize(vars, x)),
                None => None,
            };
            Value::Expr(Box::new(Expr { op: e.op, lhs, rhs }))
        },
        _ => v.duplicate(),
    }
}

impl Graph {
    /// The table, in order.
    pub closed spec fn vars(&self) -> Seq<Variable> {
        self.variables@
    }

    /// The graph's id.
    pub closed spec fn gid(&self) -> u64 {
        self.id
    }

    /// Names are unique, declared shortcuts are unique, and each
    /// variable belongs to this graph.
    pub open spec fn wf(&self) -> bool {
        &&& distinct_names(self.vars())
        &&& distinct_shortcuts(self.vars())
        &&& forall|i: int| 0 <= i < self.vars().len() ==> (#[trigger] self.vars()[i]).id == Some(self.gid())
    }

    /// The graph's id.
    pub fn get_id(&self) -> (r: u64)
        ensures
            r == self.gid(),
    {
        self.id
    }

    pub fn with_id(id: u64) -> (r: Graph)
        ensures
            r.wf(),
            r.gid() == id,
            r.vars().len() == 0,
    {
        Graph { id, variables: Vec::new() }
    }

    pub fn new(seed: &mut Seed) -> (r: Graph)
        requires
            old(seed).next_id() < u64::MAX,
        ensures
            r.wf(),
            r.gid() == old(seed).next_id(),
            final(seed).next_id() == r.gid() + 1,
            r.vars().len() == 0,
    {
        Graph::with_id(seed.generate())
    }

    /// A graph that holds one variable, `name`, with `value`.
    pub fn with_one_var(seed: &mut Seed, name: &str, value: Option<Value>) -> (r: Graph)
        requires
            old(seed).next_id() < u64::MAX,
        ensures
            r.wf(),
            r.gid() == old(seed).next_id(),
            final(seed).next_id() == r.gid() + 1,
            r.vars().len() == 1,
            r.vars()[0] == (Variable {
                id: Some(r.gid()),
                id_old: Some(r.gid()),
                name: r.vars()[0].name,
                shortcut: None,
                ty: None,
                value,
            }),
            r.vars()[0].name@ == name@,
    {
        let mut graph = Graph::new(seed);
        let var = Variable::with_name_value(name.to_string(), value);
        graph.variables.push(
            Variable { id: Some(graph.id), id_old: Some(graph.id), ..var },
        );
        graph
    }

    /// Builds a graph from declarations: every name in a value is resolved
    /// to the handle of the variable it refers to.  Fails where a name or a
    /// key is declared twice, where a name refers to no variable, and where
    /// references run in a cycle.
    pub fn try_with_variables(id: u64, variables: Vec<NodeLet>) -> (r: Result<Graph, Error>)
        ensures
            r is Ok <==> distinct_names(declared(id, variables@)) && distinct_shortcuts(
                declared(id, variables@),
            ) && closed(declared(id, variables@)) && all_resolve(declared(id, variables@)) && acyclic(
                resolved_table(declared(id, variables@)),
            ),
            r matches Ok(g) ==> g.wf() && g.gid() == id && g.vars() == resolved_table(
                declared(id, variables@),
            ),
            r matches Ok(g) ==> closed(g.vars()),
            r matches Err(e) ==> {
                let vars = declared(id, variables@);
                if !(distinct_names(vars) && distinct_shortcuts(vars)) {
                    exists|i: int, j: int|
                        0 <= i < vars.len() && 0 <= j < vars.len() && i != j && ((vars[i].name@
                            == vars[j].name@ && is_duplicated_variable(e, vars[i].name@)) || (
                        vars[i].shortcut is Some && vars[j].shortcut is Some && vars[i].key()
                            == vars[j].key() && is_duplicated_variable(e, vars[i].key())))
                } else if !closed(vars) {
                    exists|i: int, h: nat|
                        0 <= i < vars.len() && #[trigger] refers(vars[i], h) && h >= vars.len()
                            && is_dangling_handle(e, vars[i].name@)
                } else if !all_resolve(vars) {
                    exists|i: int|
                        0 <= i < vars.len() && (forall|j: int|
                            0 <= j < i ==> (#[trigger] resolved_opt(vars, vars[j].value)) is Ok)
                            && resolved_opt(vars, vars[i].value) is Err && is_no_such_variable(
                            e,
                            resolved_opt(vars, vars[i].value)->Err_0,
                            index_keys(vars, vars.len() as int),
                        )
                } else {
                    exists|c: Seq<int>|
                        is_cycle(resolved_table(vars), c) && is_cycled_variables(
                            e,
                            c.map_values(|k: int| vars[k].name@),
                        )
                }
            },
    {
        let ghost decls = variables@;
        let ghost spec_vars = declared(id, variables@);
        let mut vars: Vec<Variable> = Vec::new();
        let mut i: usize = 0;
        while i < variables.len()
            invariant
                i <= variables@.len(),
                decls == variables@,
                spec_vars == declared(id, decls),
                vars@ == spec_vars.take(i as int),
            decreases variables@.len() - i,
        {
            let d = &variables[i];
            vars.push(
                Variable {
                    id: Some(id),
                    id_old: Some(id),
                    name: d.name.clone(),
                    shortcut: clone_name(&d.shortcut),
                    ty: Some(d.ty),
                    value: duplicate_opt(&d.value),
                },
            );
            i = i + 1;
            assert(vars@ =~= spec_vars.take(i as int));
        }
        assert(vars@ =~= spec_vars);
        // Names and declared shortcuts are unique.
        let n = vars.len();
        let mut i: usize = 0;
        while i < n
            invariant
                n == vars@.len(),
                vars@ == spec_vars,
                spec_vars == declared(id, variables@),
                i <= n,
                forall|a: int, b: int|
                    0 <= a < i && 0 <= b < i && a != b ==> #[trigger] vars@[a].name@
                        != #[trigger] vars@[b].name@,
                forall|a: int, b: int|
                    0 <= a < i && 0 <= b < i && a != b && vars@[a].shortcut is Some
                        && vars@[b].shortcut is Some ==> #[trigger] vars@[a].key()
                        != #[trigger] vars@[b].key(),
            decreases n - i,
        {
            let mut j: usize = 0;
            while j < i
                invariant
                    n == vars@.len(),
                    vars@ == spec_vars,
                    spec_vars == declared(id, variables@),
                    j <= i < n,
                    forall|b: int| 0 <= b < j ==> #[trigger] vars@[b].name@ != vars@[i as int].name@,
                    forall|b: int|
                        0 <= b < j && vars@[b].shortcut is Some && vars@[i as int].shortcut is Some
                            ==> #[trigger] vars@[b].key() != vars@[i as int].key(),
                decreases i - j,
            {
                if vars[i].name == vars[j].name {
                    proof {
                        assert(vars@[i as int].name@ == vars@[j as int].name@);
                        assert(!distinct_names(spec_vars));
                    }
                    let name = vars[i].name.clone();
                    return Err(Error::from_graph(GraphError::DuplicatedVariable { name }));
                }
                if vars[i].shortcut.is_some() && vars[j].shortcut.is_some()
                    && *vars[i].key_str() == *vars[j].key_str() {
                    proof {
                        assert(vars@[i as int].key() == vars@[j as int].key());
                        assert(!distinct_shortcuts(spec_vars));
                    }
                    let name = vars[i].key_str().clone();
                    return Err(Error::from_graph(GraphError::DuplicatedVariable { name }));
                }
                j = j + 1;
            }
            i = i + 1;
        }
        // Every handle leads into the table.
        let mut i: usize = 0;
        while i < n
            invariant
                n == vars@.len(),
                vars@ == spec_vars,
                spec_vars == declared(id, variables@),
                i <= n,
                distinct_names(spec_vars),
                distinct_shortcuts(spec_vars),
                spec_vars.len() == n,
                forall|a: int, h: nat| 0 <= a < i && #[trigger] refers(spec_vars[a], h) ==> h < n,
            decreases n - i,
        {
            if let Some(v) = &vars[i].value {
                if let Some(h) = dangling(v, n) {
                    proof {
                        assert(refers(spec_vars[i as int], h as nat));
                        assert(!closed(spec_vars));
                    }
                    let name = vars[i].name.clone();
                    return Err(Error::from_graph(GraphError::DanglingHandle { name, handle: h }));
                }
            }
            i = i + 1;
        }
        assert(closed(spec_vars));
        // Every name refers to a variable.
        let mut values: Vec<Option<Value>> = Vec::new();
        let mut i: usize = 0;
        while i < n
            invariant
                closed(spec_vars),
                n == vars@.len(),
                vars@ == spec_vars,
                spec_vars == declared(id, variables@),
                distinct_names(spec_vars),
                spec_vars.len() == n,
                distinct_shortcuts(spec_vars),
                i <= n,
                values@.len() == i,
                forall|j: int| 0 <= j < i ==> (#[trigger] resolved_opt(spec_vars, spec_vars[j].value)) == Ok::<Option<Value>, Seq<char>>(values@[j]),
            decreases n - i,
        {
            let v = match &vars[i].value {
                Some(x) => match resolve_value(&vars, x) {
                    Ok(y) => Some(y),
                    Err(m) => {
                        proof {
                            assert(resolved_opt(spec_vars, spec_vars[i as int].value) is Err);
                            assert(!all_resolve(spec_vars));
                            assert forall|j: int| 0 <= j < i implies (#[trigger] resolved_opt(spec_vars, spec_vars[j].value)) is Ok by {
                                assert(resolved_opt(spec_vars, spec_vars[j].value) == Ok::<Option<Value>, Seq<char>>(values@[j]));
                            }
                        }
                        let candidates = collect_names(&vars, true);
                        return Err(Error::from_graph(GraphError::NoSuchVariable { name: m, candidates }));
                    },
                },
                None => None,
            };
            values.push(v);
            i = i + 1;
        }
        assert(all_resolve(spec_vars));
        let mut i: usize = 0;
        while i < n
            invariant
                n == vars@.len(),
                spec_vars.len() == n,
                values@.len() == n,
                i <= n,
                all_resolve(spec_vars),
                spec_vars == declared(id, variables@),
                forall|j: int| 0 <= j < n ==> (#[trigger] resolved_opt(spec_vars, spec_vars[j].value)) == Ok::<Option<Value>, Seq<char>>(values@[j]),
                forall|j: int| 0 <= j < i ==> vars@[j] == #[trigger] resolved_table(spec_vars)[j],
                forall|j: int| i <= j < n ==> vars@[j] == #[trigger] spec_vars[j],
            decreases n - i,
        {
            let v = duplicate_opt(&values[i]);
            vars[i].value = v;
            assert(resolved_opt(spec_vars, spec_vars[i as int].value) == Ok::<Option<Value>, Seq<char>>(values@[i as int]));
            assert(vars@[i as int] == resolved_table(spec_vars)[i as int]);
            i = i + 1;
        }
        assert(vars@ =~= resolved_table(spec_vars));
        match find_cycle(&vars) {
            Some(c) => {
                proof {
                    let cs = c@.map_values(|x: usize| x as int);
                    assert forall|m: int| 0 <= m < c@.len() implies (#[trigger] c@[m]) < n by {
                        assert(crate::cycle::edge(vars@, cs[m], cs[crate::cycle::next_on(m, cs.len() as int)]));
                    }
                }
                let mut names: Vec<String> = Vec::new();
                let mut k: usize = 0;
                while k < c.len()
                    invariant
                        vars@ == resolved_table(spec_vars),
                        n == vars@.len(),
                        k <= c@.len(),
                        names@.len() == k,
                        forall|m: int| 0 <= m < c@.len() ==> (#[trigger] c@[m]) < n,
                        forall|m: int| 0 <= m < k ==> (#[trigger] names@[m])@ == spec_vars[c@[m] as int].name@,
                    decreases c@.len() - k,
                {
                    names.push(vars[c[k]].name.clone());
                    k = k + 1;
                }
                proof {
                    let cs = c@.map_values(|x: usize| x as int);
                    assert(views(names@) =~= cs.map_values(|m: int| spec_vars[m].name@));
                }
                Err(Error::from_graph(GraphError::CycledVariables { names }))
            },
            None => {
                proof {
                    assert forall|j: int| 0 <= j < n implies (#[trigger] vars@[j]).id == Some(id) by {
                        assert(vars@[j] == resolved_table(spec_vars)[j]);
                    }
                    assert(names_of(vars@) =~= names_of(spec_vars));
                    assert(shortcuts_of(vars@) =~= shortcuts_of(spec_vars));
                    lemma_same_lookup(vars@, spec_vars, Seq::empty());
                    assert forall|i: int, h: nat|
                        0 <= i < n && #[trigger] refers(vars@[i], h) implies h < n by {
                        assert(vars@[i] == resolved_table(spec_vars)[i]);
                        let v = spec_vars[i].value->0;
                        lemma_resolved_handles(spec_vars, v);
                        if !(h < n) {
                            assert(refers(spec_vars[i], h));
                        }
                    }
                }
                Ok(Graph { id, variables: vars })
            },
        }
    }

    /// Adds `variable` under its name, stamped with this graph's id.  Fails,
    /// and leaves the graph as it was, where its name is taken, or where it
    /// declares a shortcut that another variable declares.
    pub fn add(&mut self, variable: Variable) -> (r: Result<(), Error>)
        requires
            old(self).wf(),
        ensures
            final(self).wf(),
            final(self).gid() == old(self).gid(),
            r is Ok <==> index_of_name(old(self).vars(), variable.name@) is None && (
            variable.shortcut is None || index_of_shortcut(old(self).vars(), variable.key()) is None),
            r is Ok ==> final(self).vars() == old(self).vars().push(
                Variable { id: Some(old(self).gid()), id_old: Some(old(self).gid()), ..variable },
            ),
            r matches Err(e) ==> final(self).vars() == old(self).vars() && (if index_of_name(
                old(self).vars(),
                variable.name@,
            ) is Some {
                is_duplicated_variable(e, variable.name@)
            } else {
                is_duplicated_variable(e, variable.key())
            }),
    {
        if find_name(&self.variables, &variable.name).is_some() {
            return Err(Error::from_graph(GraphError::DuplicatedVariable { name: variable.name }));
        }
        if variable.shortcut.is_some() && find_shortcut(&self.variables, variable.key_str()).is_some() {
            let name = variable.key_str().clone();
            return Err(Error::from_graph(GraphError::DuplicatedVariable { name }));
        }
        let ghost before = self.variables@;
        let id = self.id;
        self.variables.push(Variable { id: Some(id), id_old: Some(id), ..variable });
        proof {
            let n = before.len() as int;
            assert forall|i: int, j: int|
                0 <= i < self.variables@.len() && 0 <= j < self.variables@.len() && i != j
                    implies #[trigger] self.variables@[i].name@ != #[trigger] self.variables@[j].name@ by {
                if i == n {
                    assert(before[j].name@ == self.variables@[j].name@);
                } else if j == n {
                    assert(before[i].name@ == self.variables@[i].name@);
                }
            }
            assert forall|i: int, j: int|
                0 <= i < self.variables@.len() && 0 <= j < self.variables@.len() && i != j
                    && self.variables@[i].shortcut is Some && self.variables@[j].shortcut is Some
                    implies #[trigger] self.variables@[i].key() != #[trigger] self.variables@[j].key() by {
                if i == n {
                    assert(before[j].key() == self.variables@[j].key());
                } else if j == n {
                    assert(before[i].key() == self.variables@[i].key());
                }
            }
        }
        Ok(())
    }

    /// Puts each override in order into the variable that it names, looked
    /// up by key where `shortcut` holds, else by name.  At the first name
    /// that is not found it stops with the names of the index consulted.
    pub fn apply(&mut self, variables: Values, shortcut: bool) -> (r: Result<(), Error>)
        requires
            old(self).wf(),
        ensures
            final(self).wf(),
            final(self).gid() == old(self).gid(),
            r is Ok <==> forall|k: int|
                0 <= k < variables@.len() ==> lookup(
                    old(self).vars(),
                    (#[trigger] variables@[k]).0@,
                    shortcut,
                ) is Some,
            r is Ok ==> final(self).vars() == applied(old(self).vars(), variables@, shortcut),
            r matches Err(e) ==> exists|k: int|
                0 <= k < variables@.len() && lookup(
                    old(self).vars(),
                    (#[trigger] variables@[k]).0@,
                    shortcut,
                ) is None && (forall|m: int|
                    0 <= m < k ==> lookup(old(self).vars(), (#[trigger] variables@[m]).0@, shortcut)
                        is Some) && final(self).vars() == applied(
                    old(self).vars(),
                    variables@.take(k),
                    shortcut,
                ) && is_no_such_variable(
                    e,
                    variables@[k].0@,
                    consulted(old(self).vars(), shortcut),
                ),
    {
        let ghost old_vars = self.variables@;
        let mut k: usize = 0;
        while k < variables.len()
            invariant
                k <= variables@.len(),
                self.wf(),
                self.gid() == old(self).gid(),
                old_vars == old(self).vars(),
                distinct_names(old_vars),
                distinct_shortcuts(old_vars),
                names_of(self.variables@) == names_of(old_vars),
                shortcuts_of(self.variables@) == shortcuts_of(old_vars),
                self.variables@ == applied(old_vars, variables@.take(k as int), shortcut),
                forall|m: int|
                    0 <= m < k ==> lookup(old_vars, (#[trigger] variables@[m]).0@, shortcut) is Some,
            decreases variables@.len() - k,
        {
            let found = if shortcut {
                find_key(&self.variables, &variables[k].0)
            } else {
                find_name(&self.variables, &variables[k].0)
            };
            proof {
                lemma_same_lookup(self.variables@, old_vars, variables@[k as int].0@);
                lemma_same_lookup(old_vars, old_vars, variables@[k as int].0@);
            }
            match found {
                Some(i) => {
                    let v = duplicate_opt(&variables[k].1);
                    let ghost before = self.variables@;
                    self.variables[i].value = v;
                    proof {
                        assert(variables@.take(k + 1).drop_last() =~= variables@.take(k as int));
                        assert(self.variables@ =~= before.update(i as int, with_value(before[i as int], variables@[k as int].1)));
                        assert(names_of(self.variables@) =~= names_of(old_vars));
                        assert(shortcuts_of(self.variables@) =~= shortcuts_of(old_vars));
                        lemma_same_lookup(self.variables@, old_vars, Seq::empty());
                        assert forall|j: int| 0 <= j < self.variables@.len() implies (
                        #[trigger] self.variables@[j]).id == Some(self.id) by {
                            assert(before[j].id == Some(self.id));
                        }
                    }
                },
                None => {
                    let candidates = collect_names(&self.variables, shortcut);
                    let name = variables[k].0.clone();
                    proof {
                        assert(names_of(self.variables@) == names_of(old_vars));
                        lemma_same_lookup(self.variables@, old_vars, Seq::empty());
                        lemma_same_entries(self.variables@, old_vars);
                        assert(index_keys(self.variables@, self.variables@.len() as int) == index_keys(old_vars, old_vars.len() as int));
                    }
                    return Err(Error::from_graph(GraphError::NoSuchVariable { name, candidates }));
                },
            }
            k = k + 1;
        }
        assert(variables@.take(k as int) =~= variables@);
        Ok(())
    }

    /// The variable named `name`, or the names of all variables where none is.
    pub fn get(&self, name: &str) -> (r: Result<&Variable, Error>)
        requires
            self.wf(),
        ensures
            r matches Ok(v) ==> index_of_name(self.vars(), name@) matches Some(i) && *v
                == self.vars()[i],
            r matches Err(e) ==> index_of_name(self.vars(), name@) is None && is_no_such_variable(
                e,
                name@,
                names_of(self.vars()),
            ),
    {
        let key = name.to_string();
        match find_name(&self.variables, &key) {
            Some(i) => Ok(&self.variables[i]),
            None => {
                let candidates = collect_names(&self.variables, false);
                Err(Error::from_graph(GraphError::NoSuchVariable { name: key, candidates }))
            },
        }
    }

    /// The value canonicalized against the shortcut index: each name that is
    /// a key of the index becomes the handle of its variable.
    pub fn replace_to(&self, variable: Option<Value>) -> (r: Result<Option<Value>, Error>)
        requires
            self.wf(),
        ensures
            r == Ok::<Option<Value>, Error>(
                match variable {
                    Some(v) => Some(canonical(self.vars(), v)),
                    None => None,
                },
            ),
    {
        match &variable {
            Some(v) => Ok(Some(canonicalize(&self.variables, v))),
            None => Ok(None),
        }
    }

    /// Empties every dimension variable and returns the names and values
    /// that they held, in order.
    pub fn unload_dims(&mut self) -> (r: Values)
        requires
            old(self).wf(),
        ensures
            final(self).wf(),
            final(self).gid() == old(self).gid(),
            final(self).vars() == without_dims(old(self).vars()),
            r@.len() == dims_of(old(self).vars()).len(),
            forall|k: int|
                0 <= k < r@.len() ==> (#[trigger] r@[k]).0@ == dims_of(old(self).vars())[k].0
                    && r@[k].1 == dims_of(old(self).vars())[k].1,
    {
        let ghost old_vars = self.variables@;
        let mut r: Values = Vec::new();
        let mut i: usize = 0;
        while i < self.variables.len()
            invariant
                i <= self.variables@.len(),
                self.variables@.len() == old_vars.len(),
                old_vars == old(self).vars(),
                self.gid() == old(self).gid(),
                forall|j: int| 0 <= j < i ==> self.variables@[j] == #[trigger] without_dims(old_vars)[j],
                forall|j: int| i <= j < old_vars.len() ==> self.variables@[j] == #[trigger] old_vars[j],
                r@.len() == dims_of(old_vars.take(i as int)).len(),
                forall|k: int|
                    0 <= k < r@.len() ==> (#[trigger] r@[k]).0@ == dims_of(old_vars.take(i as int))[k].0
                        && r@[k].1 == dims_of(old_vars.take(i as int))[k].1,
            decreases old_vars.len() - i,
        {
            assert(old_vars.take(i + 1).drop_last() =~= old_vars.take(i as int));
            if self.variables[i].ty == Some(LetType::Dim) {
                let name = self.variables[i].name.clone();
                let value = self.variables[i].value.take();
                r.push((name, value));
            }
            i = i + 1;
        }
        proof {
            assert(old_vars.take(i as int) =~= old_vars);
            assert(self.variables@ =~= without_dims(old_vars));
            assert(names_of(self.variables@) =~= names_of(old_vars));
            assert(shortcuts_of(self.variables@) =~= shortcuts_of(old_vars));
            lemma_same_lookup(self.variables@, old_vars, Seq::empty());
            assert forall|j: int| 0 <= j < self.variables@.len() implies (
            #[trigger] self.variables@[j]).id == Some(self.id) by {
                assert(old_vars[j].id == Some(self.id));
            }
        }
        r
    }

    /// Loads each value in order into the variable it names, only where that
    /// variable holds no value.
    pub fn load_dims_weakly(&mut self, values: Values)
        requires
            old(self).wf(),
            forall|k: int|
                0 <= k < values@.len() ==> index_of_name(old(self).vars(), (#[trigger] values@[k]).0@)
                    is Some,
        ensures
            final(self).wf(),
            final(self).gid() == old(self).gid(),
            final(self).vars() == loaded(old(self).vars(), values@),
    {
        let ghost old_vars = self.variables@;
        let mut k: usize = 0;
        while k < values.len()
            invariant
                k <= values@.len(),
                self.wf(),
                self.gid() == old(self).gid(),
                old_vars == old(self).vars(),
                distinct_names(old_vars),
                distinct_shortcuts(old_vars),
                names_of(self.variables@) == names_of(old_vars),
                shortcuts_of(self.variables@) == shortcuts_of(old_vars),
                self.variables@ == loaded(old_vars, values@.take(k as int)),
                forall|m: int|
                    0 <= m < values@.len() ==> index_of_name(old_vars, (#[trigger] values@[m]).0@) is Some,
            decreases values@.len() - k,
        {
            let found = find_name(&self.variables, &values[k].0);
            proof {
                lemma_same_lookup(self.variables@, old_vars, values@[k as int].0@);
                assert(values@.take(k + 1).drop_last() =~= values@.take(k as int));
                assert(index_of_name(old_vars, values@[k as int].0@) is Some);
            }
            let i = found.unwrap();
            if self.variables[i].value.is_none() {
                let v = duplicate_opt(&values[k].1);
                let ghost before = self.variables@;
                self.variables[i].value = v;
                proof {
                    assert(self.variables@ =~= before.update(i as int, with_value(before[i as int], values@[k as int].1)));
                    assert(names_of(self.variables@) =~= names_of(old_vars));
                    assert(shortcuts_of(self.variables@) =~= shortcuts_of(old_vars));
                    lemma_same_lookup(self.variables@, old_vars, Seq::empty());
                    assert forall|j: int| 0 <= j < self.variables@.len() implies (
                    #[trigger] self.variables@[j]).id == Some(self.id) by {
                        assert(before[j].id == Some(self.id));
                    }
                }
            }
            k = k + 1;
        }
        assert(values@.take(k as int) =~= values@);
    }

    /// A copy under a fresh id: each variable keeps the graph it was declared
    /// in and now belongs to the copy.  Handles are positions in the table,
    /// so the copy's references lead to the copy's own variables.
    pub fn clone_safe(&self, seed: &mut Seed) -> (r: Graph)
        requires
            self.wf(),
            old(seed).next_id() < u64::MAX,
        ensures
            r.wf(),
            r.gid() == old(seed).next_id(),
            final(seed).next_id() == r.gid() + 1,
            r.vars() == cloned(self.vars(), r.gid()),
            closed(self.vars()) ==> closed(r.vars()),
    {
        let id = seed.generate();
        let mut vars: Vec<Variable> = Vec::new();
        let mut i: usize = 0;
        while i < self.variables.len()
            invariant
                i <= self.variables@.len(),
                vars@ == cloned(self.variables@, id).take(i as int),
            decreases self.variables@.len() - i,
        {
            let v = &self.variables[i];
            vars.push(
                Variable {
                    id: Some(id),
                    id_old: v.id_old,
                    name: v.name.clone(),
                    shortcut: clone_name(&v.shortcut),
                    ty: v.ty,
                    value: duplicate_opt(&v.value),
                },
            );
            i = i + 1;
            assert(vars@ =~= cloned(self.variables@, id).take(i as int));
        }
        assert(vars@ =~= cloned(self.variables@, id));
        proof {
            assert(names_of(vars@) =~= names_of(self.variables@));
            assert(shortcuts_of(vars@) =~= shortcuts_of(self.variables@));
            lemma_same_lookup(vars@, self.variables@, Seq::empty());
            assert forall|i: int, h: nat| 0 <= i < vars@.len() && #[trigger] refers(vars@[i], h) && closed(self.variables@) implies h < vars@.len() by {
                assert(refers(self.variables@[i], h));
            }
        }
        Graph { id, variables: vars }
    }

    /// The table, in order.
    pub fn variables(&self) -> (r: &Vec<Variable>)
        ensures
            r@ == self.vars(),
    {
        &self.variables
    }

    /// The table, in order.
    pub fn into_variables(self) -> (r: Vec<Variable>)
        ensures
            r@ == self.vars(),
    {
        self.variables
    }
}

/// Two tables with the same names and shortcuts, one of them well-formed,
/// look names and keys up alike and have the same index keys.
proof fn lemma_same_lookup(a: Seq<Variable>, b: Seq<Variable>, k: Seq<char>)
    requires
        names_of(a) == names_of(b),
        shortcuts_of(a) == shortcuts_of(b),
        distinct_names(b),
        distinct_shortcuts(b),
    ensures
        index_of_name(a, k) == index_of_name(b, k),
        index_of_shortcut(a, k) == index_of_shortcut(b, k),
        index_of_bare(a, k) == index_of_bare(b, k),
        index_of_key(a, k) == index_of_key(b, k),
        distinct_names(a),
        distinct_shortcuts(a),
        forall|m: int| index_keys(a, m) == index_keys(b, m),
{
    lemma_same_entries(a, b);
    lemma_same_index(a, b, k);
    assert forall|m: int| index_keys(a, m) == index_keys(b, m) by {
        lemma_same_index_keys(a, b, m);
    }
}

proof fn lemma_same_entries(a: Seq<Variable>, b: Seq<Variable>)
    requires
        names_of(a) == names_of(b),
        shortcuts_of(a) == shortcuts_of(b),
    ensures
        a.len() == b.len(),
        forall|i: int| 0 <= i < a.len() ==> #[trigger] a[i].name@ == b[i].name@ && a[i].shortcut == b[i].shortcut && a[i].key() == b[i].key(),
{
    assert(a.len() == names_of(a).len());
    assert(b.len() == names_of(b).len());
    assert forall|i: int| 0 <= i < a.len() implies #[trigger] a[i].name@ == b[i].name@ && a[i].shortcut == b[i].shortcut && a[i].key() == b[i].key() by {
        assert(names_of(a)[i] == names_of(b)[i]);
        assert(shortcuts_of(a)[i] == shortcuts_of(b)[i]);
    }
}

proof fn lemma_same_index(a: Seq<Variable>, b: Seq<Variable>, k: Seq<char>)
    requires
        names_of(a) == names_of(b),
        shortcuts_of(a) == shortcuts_of(b),
        distinct_names(b),
        distinct_shortcuts(b),
    ensures
        index_of_name(a, k) == index_of_name(b, k),
        index_of_shortcut(a, k) == index_of_shortcut(b, k),
        index_of_bare(a, k) == index_of_bare(b, k),
        index_of_key(a, k) == index_of_key(b, k),
        distinct_names(a),
        distinct_shortcuts(a),
{
    lemma_same_entries(a, b);
    if index_of_name(b, k) is Some {
        let j = index_of_name(b, k)->0;
        assert(a[j].name@ == k);
    }
    if index_of_name(a, k) is Some {
        let j = index_of_name(a, k)->0;
        assert(b[j].name@ == k);
    }
    if index_of_shortcut(b, k) is Some {
        let j = index_of_shortcut(b, k)->0;
        assert(a[j].name@ == b[j].name@);
        assert(a[j].key() == k);
    }
    if index_of_shortcut(a, k) is Some {
        let j = index_of_shortcut(a, k)->0;
        assert(b[j].name@ == a[j].name@);
        assert(b[j].key() == k);
    }
    if index_of_bare(b, k) is Some {
        let j = index_of_bare(b, k)->0;
        assert(a[j].name@ == b[j].name@);
        assert(a[j].key() == k);
    }
    if index_of_bare(a, k) is Some {
        let j = index_of_bare(a, k)->0;
        assert(b[j].name@ == a[j].name@);
        assert(b[j].key() == k);
    }
    assert forall|i: int, j: int|
        0 <= i < a.len() && 0 <= j < a.len() && i != j && a[i].shortcut is Some
            && a[j].shortcut is Some implies #[trigger] a[i].key() != #[trigger] a[j].key() by {
        assert(a[i].name@ == b[i].name@);
        assert(a[j].name@ == b[j].name@);
    }
    assert forall|i: int, j: int|
        0 <= i < a.len() && 0 <= j < a.len() && i != j implies #[trigger] a[i].name@
            != #[trigger] a[j].name@ by {
        assert(b[i].name@ == a[i].name@);
        assert(b[j].name@ == a[j].name@);
    }
}

proof fn lemma_same_index_keys(a: Seq<Variable>, b: Seq<Variable>, m: int)
    requires
        names_of(a) == names_of(b),
        shortcuts_of(a) == shortcuts_of(b),
        distinct_names(b),
        distinct_shortcuts(b),
    ensures
        index_keys(a, m) == index_keys(b, m),
    decreases m,
{
    lemma_same_entries(a, b);
    if 0 < m <= a.len() {
        lemma_same_index_keys(a, b, m - 1);
        lemma_same_index(a, b, a[m - 1].name@);
    }
}

/// A built graph is indexed by shortcut: every variable belongs to the
/// graph, and where no variable's name is another's shortcut the shortcut
/// index holds exactly one entry per variable, its shortcut where it
/// declares one, else its name.
pub proof fn built_graph_is_indexed(g: Graph)
    requires
        g.wf(),
        forall|i: int| 0 <= i < g.vars().len() ==> !shadowed(g.vars(), i),
    ensures
        forall|i: int| 0 <= i < g.vars().len() ==> (#[trigger] g.vars()[i]).id == Some(g.gid()),
        forall|i: int|
            0 <= i < g.vars().len() ==> #[trigger] shortcut_index(g.vars()).contains_key(
                g.vars()[i].key(),
            ) && shortcut_index(g.vars())[g.vars()[i].key()] == i,
        forall|k: Seq<char>|
            #[trigger] shortcut_index(g.vars()).contains_key(k) ==> exists|i: int|
                0 <= i < g.vars().len() && g.vars()[i].key() == k,
{
    let vars = g.vars();
    assert forall|i: int| 0 <= i < vars.len() implies #[trigger] shortcut_index(vars).contains_key(
        vars[i].key(),
    ) && shortcut_index(vars)[vars[i].key()] == i by {
        let k = vars[i].key();
        assert(!shadowed(vars, i));
        if vars[i].shortcut is Some {
            assert(vars[i].key() == k);
            let c = choose|j: int| 0 <= j < vars.len() && vars[j].shortcut is Some && #[trigger] vars[j].key() == k;
            assert(vars[c].key() == vars[i].key());
        } else {
            assert(vars[i].key() == k);
            let c = choose|j: int| 0 <= j < vars.len() && vars[j].shortcut is None && #[trigger] vars[j].key() == k;
            assert(vars[c].name@ == vars[i].name@);
        }
    }
    assert forall|k: Seq<char>| #[trigger] shortcut_index(vars).contains_key(k) implies exists|i: int|
        0 <= i < vars.len() && vars[i].key() == k by {
        let i = index_of_key(vars, k)->0;
        assert(vars[i].key() == k);
    }
}

/// Loading weakly never replaces a value that is set, and sets each empty
/// variable that the values name to the value given for it.
pub proof fn load_is_weak(g: Graph, values: Seq<(String, Option<Value>)>)
    requires
        g.wf(),
        forall|a: int, b: int|
            0 <= a < values.len() && 0 <= b < values.len() && a != b ==> (#[trigger] values[a]).0@
                != (#[trigger] values[b]).0@,
    ensures
        loaded(g.vars(), values).len() == g.vars().len(),
        forall|i: int|
            0 <= i < g.vars().len() && (#[trigger] g.vars()[i]).value is Some ==> loaded(
                g.vars(),
                values,
            )[i] == g.vars()[i],
        forall|i: int, k: int|
            0 <= i < g.vars().len() && 0 <= k < values.len() && (#[trigger] g.vars()[i]).value is None
                && (#[trigger] values[k]).0@ == g.vars()[i].name@ ==> loaded(g.vars(), values)[i]
                == with_value(g.vars()[i], values[k].1),
    decreases values.len(),
{
    let vars = g.vars();
    if values.len() > 0 {
        let prev = values.drop_last();
        load_is_weak(g, prev);
        let last = values.last();
        match index_of_name(vars, last.0@) {
            Some(j) => {
                assert(vars[j].name@ == last.0@);
            },
            None => {},
        }
        assert forall|i: int, k: int|
            0 <= i < vars.len() && 0 <= k < values.len() && (#[trigger] vars[i]).value is None
                && (#[trigger] values[k]).0@ == vars[i].name@ implies loaded(vars, values)[i]
                == with_value(vars[i], values[k].1) by {
            let j = index_of_name(vars, last.0@);
            if k == values.len() - 1 {
                assert(vars[i].name@ == last.0@);
                assert(j is Some);
                assert(vars[j->0].name@ == vars[i].name@);
                assert(j->0 == i);
                if (exists|m: int| 0 <= m < prev.len() && (#[trigger] prev[m]).0@ == vars[i].name@) {
                    let m = choose|m: int| 0 <= m < prev.len() && (#[trigger] prev[m]).0@ == vars[i].name@;
                    assert(values[m] == prev[m]);
                    assert(false);
                }
                lemma_loaded_untouched(vars, prev, i);
            } else {
                assert(prev[k] == values[k]);
                if j is Some {
                    assert(vars[j->0].name@ == last.0@);
                    assert(values[values.len() - 1] == last);
                    assert(last.0@ != values[k].0@);
                    assert(j->0 != i);
                }
            }
        }
    }
}

/// A variable whose name no value names keeps its value through loading.
proof fn lemma_loaded_untouched(vars: Seq<Variable>, values: Seq<(String, Option<Value>)>, i: int)
    requires
        distinct_names(vars),
        0 <= i < vars.len(),
        forall|m: int| 0 <= m < values.len() ==> (#[trigger] values[m]).0@ != vars[i].name@,
    ensures
        loaded(vars, values).len() == vars.len(),
        loaded(vars, values)[i] == vars[i],
    decreases values.len(),
{
    if values.len() > 0 {
        let prev = values.drop_last();
        assert forall|m: int| 0 <= m < prev.len() implies (#[trigger] prev[m]).0@ != vars[i].name@ by {
            assert(prev[m] == values[m]);
        }
        lemma_loaded_untouched(vars, prev, i);
        let last = values.last();
        assert(last == values[values.len() - 1]);
        match index_of_name(vars, last.0@) {
            Some(j) => {
                assert(vars[j].name@ == last.0@);
            },
            None => {},
        }
    }
}

/// A clone has an id of its own, and each of its references leads to one of
/// its own variables.
pub proof fn clone_is_detached(g: Graph, c: Graph, next_id: u64)
    requires
        g.wf(),
        closed(g.vars()),
        g.gid() < next_id,
        c.gid() == next_id,
        c.vars() == cloned(g.vars(), next_id),
    ensures
        c.gid() != g.gid(),
        closed(c.vars()),
        forall|i: int| 0 <= i < c.vars().len() ==> (#[trigger] c.vars()[i]).id == Some(c.gid())
            && c.vars()[i].id_old == g.vars()[i].id_old,
{
    assert forall|i: int, h: nat| 0 <= i < c.vars().len() && #[trigger] refers(c.vars()[i], h) implies h < c.vars().len() by {
        assert(refers(g.vars()[i], h));
    }
}

} // verus!
