use vstd::prelude::*;

verus! {

broadcast use vstd::std_specs::vec::group_vec_axioms, vstd::seq::group_seq_axioms;

/// Width in bytes of one stack slot; every local variable occupies one slot.
pub const REGISTER_SIZE: usize = 8;

/// A value type of the source language: `int`, or a pointer to another type.
#[derive(Debug)]
pub enum Type {
    Int,
    Ptr(Box<Type>),
}

/// Storage size in bytes of a value of type `t`.
pub open spec fn type_size(t: Type) -> nat {
    match t {
        Type::Int => 4,
        Type::Ptr(_) => 8,
    }
}

impl Type {
    pub fn size(&self) -> (r: usize)
        ensures
            r as nat == type_size(*self),
    {
        match self {
            Type::Int => 4,
            Type::Ptr(_) => 8,
        }
    }
}

impl Clone for Type {
    fn clone(&self) -> (r: Self)
        ensures
            r == *self,
        decreases self,
    {
        match self {
            Type::Int => Type::Int,
            Type::Ptr(inner) => Type::Ptr(Box::new((**inner).clone())),
        }
    }
}

/// Binary operators of the AST.
#[derive(Debug, Clone, Copy, PartialEq, Eq)]
pub enum Operator2 {
    Add,
    Sub,
    Mul,
    Div,
    Eq,
    Ne,
    Lt,
    Lte,
}

/// A function parameter: its name and declared type.
#[derive(Debug)]
pub struct Parameter {
    pub name: String,
    pub ty: Type,
}

impl Parameter {
    pub fn new(name: String, ty: Type) -> (r: Self)
        ensures
            r.name@ == name@,
            r.ty == ty,
    {
        Self { name, ty }
    }

    pub fn name(&self) -> (r: &str)
        ensures
            r@ == self.name@,
    {
        self.name.as_str()
    }

    pub fn ty(&self) -> (r: &Type)
        ensures
            *r == self.ty,
    {
        &self.ty
    }
}

impl Clone for Parameter {
    fn clone(&self) -> (r: Self)
        ensures
            r.name@ == self.name@,
            r.ty == self.ty,
    {
        Parameter { name: self.name.clone(), ty: self.ty.clone() }
    }
}

/// A use of a local variable, resolved to its frame slot `rbp - offset`.
#[derive(Debug)]
pub struct LocalVariable {
    pub name: String,
    pub offset: usize,
    pub ty: Type,
}

impl LocalVariable {
    pub fn new(name: String, offset: usize, ty: Type) -> (r: Self)
        ensures
            r.name@ == name@,
            r.offset == offset,
            r.ty == ty,
    {
        Self { name, offset, ty }
    }

    pub fn name(&self) -> (r: &str)
        ensures
            r@ == self.name@,
    {
        self.name.as_str()
    }

    pub fn offset(&self) -> (r: usize)
        ensures
            r == self.offset,
    {
        self.offset
    }

    pub fn ty(&self) -> (r: &Type)
        ensures
            *r == self.ty,
    {
        &self.ty
    }
}

/// `if (condition) then_statement [else else_statement]`.
#[derive(Debug)]
pub struct IfElse {
    pub condition: Box<Node>,
    pub then_statement: Box<Node>,
    pub else_statement: Option<Box<Node>>,
}

impl IfElse {
    pub fn new(
        condition: Box<Node>,
        then_statement: Box<Node>,
        else_statement: Option<Box<Node>>,
    ) -> (r: Self)
        ensures
            r.condition == condition,
            r.then_statement == then_statement,
            r.else_statement == else_statement,
    {
        Self { condition, then_statement, else_statement }
    }

    pub fn condition(&self) -> (r: &Box<Node>)
        ensures
            *r == self.condition,
    {
        &self.condition
    }

    pub fn then_statement(&self) -> (r: &Box<Node>)
        ensures
            *r == self.then_statement,
    {
        &self.then_statement
    }

    pub fn else_statement(&self) -> (r: &Option<Box<Node>>)
        ensures
            *r == self.else_statement,
    {
        &self.else_statement
    }
}

/// `for (init; cond; next) body`; a `while` loop has neither `init` nor `next`.
#[derive(Debug)]
pub struct For {
    pub init: Option<Box<Node>>,
    pub cond: Option<Box<Node>>,
    pub next: Option<Box<Node>>,
    pub body: Box<Node>,
}

impl For {
    pub fn new(
        init: Option<Box<Node>>,
        cond: Option<Box<Node>>,
        next: Option<Box<Node>>,
        body: Box<Node>,
    ) -> (r: Self)
        ensures
            r.init == init,
            r.cond == cond,
            r.next == next,
            r.body == body,
    {
        Self { init, cond, next, body }
    }

    pub fn init(&self) -> (r: &Option<Box<Node>>)
        ensures
            *r == self.init,
    {
        &self.init
    }

    pub fn cond(&self) -> (r: &Option<Box<Node>>)
        ensures
            *r == self.cond,
    {
        &self.cond
    }

    pub fn next(&self) -> (r: &Option<Box<Node>>)
        ensures
            *r == self.next,
    {
        &self.next
    }

    pub fn body(&self) -> (r: &Box<Node>)
        ensures
            *r == self.body,
    {
        &self.body
    }
}

/// A call `name(args...)`, with the type recorded for its result.
#[derive(Debug)]
pub struct CallFunction {
    pub name: String,
    pub args: Vec<Node>,
    pub return_type: Option<Type>,
}

impl CallFunction {
    pub fn name(&self) -> (r: &str)
        ensures
            r@ == self.name@,
    {
        self.name.as_str()
    }

    pub fn args(&self) -> (r: &Vec<Node>)
        ensures
            *r == self.args,
    {
        &self.args
    }

    pub fn new(name: String, args: Vec<Node>, return_type: Option<Type>) -> (r: Self)
        ensures
            r.name@ == name@,
            r.args == args,
            r.return_type == return_type,
    {
        Self { name, args, return_type }
    }
}

/// A top-level function definition.
#[derive(Debug)]
pub struct DefineFunction {
    pub name: String,
    pub params: Vec<Parameter>,
    pub statements: Vec<Node>,
}

impl DefineFunction {
    pub fn new(name: String, params: Vec<Parameter>, statements: Vec<Node>) -> (r: Self)
        ensures
            r.name@ == name@,
            r.params == params,
            r.statements == statements,
    {
        Self { name, params, statements }
    }

    pub fn name(&self) -> (r: &str)
        ensures
            r@ == self.name@,
    {
        self.name.as_str()
    }

    pub fn params(&self) -> (r: &Vec<Parameter>)
        ensures
            *r == self.params,
    {
        &self.params
    }

    pub fn statements(&self) -> (r: &Vec<Node>)
        ensures
            *r == self.statements,
    {
        &self.statements
    }
}

/// A declaration statement `type name;`.
#[derive(Debug)]
pub struct DefineVariable {
    pub name: String,
    pub ty: Type,
}

impl DefineVariable {
    pub fn new(name: String, ty: Type) -> (r: Self)
        ensures
            r.name@ == name@,
            r.ty == ty,
    {
        Self { name, ty }
    }

    pub fn name(&self) -> (r: &str)
        ensures
            r@ == self.name@,
    {
        self.name.as_str()
    }

    pub fn ty(&self) -> (r: &Type)
        ensures
            *r == self.ty,
    {
        &self.ty
    }
}

impl From<Parameter> for DefineVariable {
    fn from(p: Parameter) -> (r: Self) {
        Self { name: p.name, ty: p.ty }
    }
}

impl vstd::std_specs::convert::FromSpecImpl<Parameter> for DefineVariable {
    open spec fn obeys_from_spec() -> bool {
        true
    }

    open spec fn from_spec(p: Parameter) -> Self {
        DefineVariable { name: p.name, ty: p.ty }
    }
}

/// A node of the abstract syntax tree.
#[derive(Debug)]
pub enum Node {
    Operator2 { op: Operator2, left: Box<Node>, right: Box<Node> },
    Assign { left: Box<Node>, right: Box<Node> },
    Addr(Box<Node>),
    Deref(Box<Node>),
    CallFunction(CallFunction),
    DefineFunction(DefineFunction),
    IfElse(IfElse),
    For(For),
    Return(Box<Node>),
    LocalVariable(LocalVariable),
    Num(i64),
    Block(Vec<Node>),
    DefineVariable(DefineVariable),
}

/// The mathematical model of an AST node: names as character sequences,
/// children as sequences of models.
pub enum NodeView {
    Op2 { op: Operator2, left: Box<NodeView>, right: Box<NodeView> },
    Assign { left: Box<NodeView>, right: Box<NodeView> },
    Addr(Box<NodeView>),
    Deref(Box<NodeView>),
    Call { name: Seq<char>, args: Seq<NodeView>, return_type: Option<Type> },
    Function { name: Seq<char>, params: Seq<(Seq<char>, Type)>, body: Seq<NodeView> },
    IfElse { cond: Box<NodeView>, then_: Box<NodeView>, else_: Option<Box<NodeView>> },
    For {
        init: Option<Box<NodeView>>,
        cond: Option<Box<NodeView>>,
        next: Option<Box<NodeView>>,
        body: Box<NodeView>,
    },
    Return(Box<NodeView>),
    LocalVar { name: Seq<char>, offset: usize, ty: Type },
    Num(i64),
    Block(Seq<NodeView>),
    DefineVar { name: Seq<char>, ty: Type },
}

pub open spec fn params_view(ps: Seq<Parameter>) -> Seq<(Seq<char>, Type)> {
    ps.map_values(|p: Parameter| (p.name@, p.ty))
}

pub open spec fn opt_view(o: Option<Box<Node>>) -> Option<Box<NodeView>>
    decreases o,
{
    match o {
        Some(b) => Some(Box::new(node_view(*b))),
        None => None,
    }
}

pub open spec fn node_view(n: Node) -> NodeView
    decreases n,
{
    match n {
        Node::Operator2 { op, left, right } => NodeView::Op2 {
            op,
            left: Box::new(node_view(*left)),
            right: Box::new(node_view(*right)),
        },
        Node::Assign { left, right } => NodeView::Assign {
            left: Box::new(node_view(*left)),
            right: Box::new(node_view(*right)),
        },
        Node::Addr(v) => NodeView::Addr(Box::new(node_view(*v))),
        Node::Deref(v) => NodeView::Deref(Box::new(node_view(*v))),
        Node::CallFunction(c) => NodeView::Call {
            name: c.name@,
            args: nodes_view(c.args@),
            return_type: c.return_type,
        },
        Node::DefineFunction(f) => NodeView::Function {
            name: f.name@,
            params: params_view(f.params@),
            body: nodes_view(f.statements@),
        },
        Node::IfElse(i) => NodeView::IfElse {
            cond: Box::new(node_view(*i.condition)),
            then_: Box::new(node_view(*i.then_statement)),
            else_: opt_view(i.else_statement),
        },
        Node::For(f) => NodeView::For {
            init: opt_view(f.init),
            cond: opt_view(f.cond),
            next: opt_view(f.next),
            body: Box::new(node_view(*f.body)),
        },
        Node::Return(v) => NodeView::Return(Box::new(node_view(*v))),
        Node::LocalVariable(lv) => NodeView::LocalVar {
            name: lv.name@,
            offset: lv.offset,
            ty: lv.ty,
        },
        Node::Num(n) => NodeView::Num(n),
        Node::Block(v) => NodeView::Block(nodes_view(v@)),
        Node::DefineVariable(d) => NodeView::DefineVar { name: d.name@, ty: d.ty },
    }
}

pub open spec fn nodes_view(s: Seq<Node>) -> Seq<NodeView>
    decreases s,
{
    if s.len() == 0 {
        Seq::empty()
    } else {
        nodes_view(s.drop_last()).push(node_view(s.last()))
    }
}

pub proof fn lemma_nodes_view(s: Seq<Node>)
    ensures
        nodes_view(s).len() == s.len(),
        forall|i: int| 0 <= i < s.len() ==> #[trigger] nodes_view(s)[i] == node_view(s[i]),
    decreases s.len(),
{
    if s.len() > 0 {
        lemma_nodes_view(s.drop_last());
    }
}

pub proof fn lemma_nodes_view_push(s: Seq<Node>, n: Node)
    ensures
        nodes_view(s.push(n)) == nodes_view(s).push(node_view(n)),
{
    assert(s.push(n).drop_last() =~= s);
}

/// The type an expression is declared to have, where it has one.
pub open spec fn node_type(n: NodeView) -> Option<Type>
    decreases n,
{
    match n {
        NodeView::Num(_) => Some(Type::Int),
        NodeView::LocalVar { ty, .. } => Some(ty),
        NodeView::Deref(v) => match node_type(*v) {
            Some(Type::Ptr(t)) => Some(*t),
            _ => None,
        },
        NodeView::Addr(v) => match node_type(*v) {
            Some(t) => Some(Type::Ptr(Box::new(t))),
            None => None,
        },
        NodeView::Op2 { left, .. } => node_type(*left),
        NodeView::Call { return_type, .. } => return_type,
        _ => None,
    }
}

impl Node {
    pub fn new_op2(op: Operator2, left: Box<Self>, right: Box<Self>) -> (r: Self)
        ensures
            r == (Node::Operator2 { op, left, right }),
    {
        Self::Operator2 { op, left, right }
    }

    pub fn new_assign(left: Box<Self>, right: Box<Self>) -> (r: Self)
        ensures
            r == (Node::Assign { left, right }),
    {
        Self::Assign { left, right }
    }

    pub fn as_local_value(&self) -> (r: Option<&LocalVariable>)
        ensures
            match *self {
                Node::LocalVariable(lv) => r == Some(&lv),
                _ => r is None,
            },
    {
        match self {
            Self::LocalVariable(s) => Some(s),
            _ => None,
        }
    }

    pub fn declare_type(&self) -> (r: Option<Type>)
        ensures
            r == node_type(self@),
        decreases self,
    {
        match self {
            Self::LocalVariable(lv) => Some(lv.ty.clone()),
            Self::Operator2 { left, .. } => left.declare_type(),
            Self::Deref(v) => match v.declare_type() {
                Some(Type::Ptr(t)) => Some(*t),
                _ => None,
            },
            Self::Addr(v) => match v.declare_type() {
                Some(t) => Some(Type::Ptr(Box::new(t))),
                None => None,
            },
            Self::Num(_) => Some(Type::Int),
            Self::CallFunction(cf) => match &cf.return_type {
                Some(t) => Some(t.clone()),
                None => None,
            },
            _ => None,
        }
    }
}

impl View for Node {
    type V = NodeView;

    open spec fn view(&self) -> NodeView {
        node_view(*self)
    }
}

} // verus!
