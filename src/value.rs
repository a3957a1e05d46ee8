use vstd::prelude::*;

verus! {

#[derive(Debug, Clone, Copy, PartialEq, Eq, Structural)]
pub enum Operator {
    Add,
    Sub,
    Mul,
    Div,
    Mod,
    Pow,
    Neg,
}

/// The declared type of a variable.
#[derive(Debug, Clone, Copy, PartialEq, Eq, Structural)]
pub enum LetType {
    Bool,
    UInt,
    Int,
    Real,
    Node,
    Dim,
}

/// A named output of a node: the node's id and the output's name.
#[derive(Debug)]
pub struct Out {
    pub id: Option<u64>,
    pub name: Option<String>,
}

/// A value of a variable.  `Ref` names a variable that has not been
/// resolved yet; `Variable` is a handle, the position of a variable in the
/// table of the graph that owns the value.  A real number is kept as the
/// bit pattern of an IEEE-754 double.
#[derive(Debug)]
pub enum Value {
    Bool(bool),
    UInt(u64),
    Int(i64),
    Real(u64),
    Node(String),
    Dim(Out, u64),
    Ref(String),
    Variable(usize),
    Expr(Box<Expr>),
}

/// An operation on one or two values.
#[derive(Debug)]
pub struct Expr {
    pub op: Operator,
    pub lhs: Value,
    pub rhs: Option<Value>,
}

/// A cell of a graph's table.  `id` is the graph it belongs to now, `id_old`
/// the graph it was declared in.
#[derive(Debug)]
pub struct Variable {
    pub id: Option<u64>,
    pub id_old: Option<u64>,
    pub name: String,
    pub shortcut: Option<String>,
    pub ty: Option<LetType>,
    pub value: Option<Value>,
}

impl Out {
    pub fn duplicate(&self) -> (r: Out)
        ensures
            r == *self,
    {
        let name = match &self.name {
            Some(n) => Some(n.clone()),
            None => None,
        };
        Out { id: self.id, name }
    }
}

impl Value {
    /// A deep copy.
    pub fn duplicate(&self) -> (r: Value)
        ensures
            r == *self,
        decreases self,
    {
        match self {
            Value::Bool(b) => Value::Bool(*b),
            Value::UInt(u) => Value::UInt(*u),
            Value::Int(i) => Value::Int(*i),
            Value::Real(x) => Value::Real(*x),
            Value::Node(s) => Value::Node(s.clone()),
            Value::Dim(o, d) => Value::Dim(o.duplicate(), *d),
            Value::Ref(s) => Value::Ref(s.clone()),
            Value::Variable(h) => Value::Variable(*h),
            Value::Expr(e) => {
                let lhs = e.lhs.duplicate();
                let rhs = match &e.rhs {
                    Some(r) => Some(r.duplicate()),
                    None => None,
                };
                Value::Expr(Box::new(Expr { op: e.op, lhs, rhs }))
            },
        }
    }

    /// The handles that the value mentions.
    pub open spec fn handles(self) -> Set<nat>
        decreases self,
    {
        match self {
            Value::Variable(h) => set![h as nat],
            Value::Expr(e) => {
                let l = e.lhs.handles();
                match e.rhs {
                    Some(r) => l + r.handles(),
                    None => l,
                }
            },
            _ => Set::empty(),
        }
    }

    /// Whether the value still names a variable that is not resolved.
    pub open spec fn has_names(self) -> bool
        decreases self,
    {
        match self {
            Value::Ref(_) => true,
            Value::Expr(e) => e.lhs.has_names() || match e.rhs {
                Some(r) => r.has_names(),
                None => false,
            },
            _ => false,
        }
    }
}

/// A deep copy of an optional value.
pub fn duplicate_opt(v: &Option<Value>) -> (r: Option<Value>)
    ensures
        r == *v,
{
    match v {
        Some(x) => Some(x.duplicate()),
        None => None,
    }
}

impl Variable {
    /// The key of the variable in the shortcut index: its shortcut where it
    /// declares one, else its name.
    pub open spec fn key(self) -> Seq<char> {
        match self.shortcut {
            Some(s) => s@,
            None => self.name@,
        }
    }

    pub fn key_str(&self) -> (r: &String)
        ensures
            r@ == self.key(),
    {
        match &self.shortcut {
            Some(s) => s,
            None => &self.name,
        }
    }

    /// A variable with a name and a value and nothing else.
    pub fn with_name_value(name: String, value: Option<Value>) -> (r: Variable)
        ensures
            r.name == name,
            r.value == value,
            r.id is None,
            r.id_old is None,
            r.shortcut is None,
            r.ty is None,
    {
        Variable { id: None, id_old: None, name, shortcut: None, ty: None, value }
    }
}

} // verus!
