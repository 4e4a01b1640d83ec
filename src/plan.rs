//! The source tree that the compiler reads and the render plan it produces.
use vstd::prelude::*;
use crate::expr::{Expr, ExprSpec};
use crate::scan::{segs_view, SegSpec, Substitutable};

verus! {

/// An attribute of a source element: its name and raw value.
#[derive(Debug)]
pub struct SourceAttr {
    pub name: String,
    pub value: String,
}

/// A node of a parsed markup tree.
#[derive(Debug)]
pub enum Node {
    /// A document or fragment root; its children are compiled in order.
    Document(Vec<Node>),
    Element { name: String, attrs: Vec<SourceAttr>, children: Vec<Node> },
    Text(String),
    Doctype,
    Comment,
    ProcessingInstruction,
    DocumentFragment,
}

/// A node, as text.
pub enum NodeSpec {
    Document(Seq<NodeSpec>),
    Element { name: Seq<char>, attrs: Seq<(Seq<char>, Seq<char>)>, children: Seq<NodeSpec> },
    Text(Seq<char>),
    Skipped,
}

pub open spec fn source_attrs_view(a: Seq<SourceAttr>) -> Seq<(Seq<char>, Seq<char>)> {
    a.map_values(|x: SourceAttr| (x.name@, x.value@))
}

pub open spec fn node_view(n: Node) -> NodeSpec
    decreases n,
{
    match n {
        Node::Document(c) => NodeSpec::Document(nodes_view(c@)),
        Node::Element { name, attrs, children } => NodeSpec::Element {
            name: name@,
            attrs: source_attrs_view(attrs@),
            children: nodes_view(children@),
        },
        Node::Text(t) => NodeSpec::Text(t@),
        _ => NodeSpec::Skipped,
    }
}

pub open spec fn nodes_view(s: Seq<Node>) -> Seq<NodeSpec>
    decreases s,
{
    if s.len() == 0 {
        seq![]
    } else {
        nodes_view(s.subrange(0, s.len() - 1)).push(node_view(s[s.len() - 1]))
    }
}

impl View for Node {
    type V = NodeSpec;

    open spec fn view(&self) -> NodeSpec {
        node_view(*self)
    }
}

pub proof fn lemma_nodes_view(s: Seq<Node>)
    ensures
        nodes_view(s).len() == s.len(),
        forall|i: int| 0 <= i < s.len() ==> #[trigger] nodes_view(s)[i] == node_view(s[i]),
    decreases s.len(),
{
    if s.len() > 0 {
        lemma_nodes_view(s.subrange(0, s.len() - 1));
    }
}

/// A plain attribute of a compiled element, with its value split into segments.
#[derive(Debug)]
pub struct Attribute {
    pub name: String,
    pub value: Substitutable,
}

impl View for Attribute {
    type V = (Seq<char>, Seq<SegSpec>);

    open spec fn view(&self) -> (Seq<char>, Seq<SegSpec>) {
        (self.name@, segs_view(self.value.children@))
    }
}

pub open spec fn attrs_view(a: Seq<Attribute>) -> Seq<(Seq<char>, Seq<SegSpec>)> {
    a.map_values(|x: Attribute| x@)
}

/// One instruction of a render plan.
#[derive(Debug)]
pub enum Instruction {
    /// Text written escaped.
    Literal(String),
    /// A value rendered at this point.
    Interpolate(Expr),
    Element { name: String, attrs: Vec<Attribute>, body: Vec<Instruction> },
    /// The body, only where the condition is true.
    If { cond: Expr, body: Vec<Instruction> },
    /// The body once per item of a list, with the item bound to `binding`.
    For { binding: String, iterable: Expr, body: Vec<Instruction> },
}

/// An instruction, as text.
pub enum PlanSpec {
    Literal(Seq<char>),
    Interpolate(ExprSpec),
    Element { name: Seq<char>, attrs: Seq<(Seq<char>, Seq<SegSpec>)>, body: Seq<PlanSpec> },
    If { cond: ExprSpec, body: Seq<PlanSpec> },
    For { binding: Seq<char>, iterable: ExprSpec, body: Seq<PlanSpec> },
}

pub open spec fn instr_view(i: Instruction) -> PlanSpec
    decreases i,
{
    match i {
        Instruction::Literal(t) => PlanSpec::Literal(t@),
        Instruction::Interpolate(e) => PlanSpec::Interpolate(e@),
        Instruction::Element { name, attrs, body } => PlanSpec::Element {
            name: name@,
            attrs: attrs_view(attrs@),
            body: plan_view(body@),
        },
        Instruction::If { cond, body } => PlanSpec::If { cond: cond@, body: plan_view(body@) },
        Instruction::For { binding, iterable, body } => PlanSpec::For {
            binding: binding@,
            iterable: iterable@,
            body: plan_view(body@),
        },
    }
}

pub open spec fn plan_view(s: Seq<Instruction>) -> Seq<PlanSpec>
    decreases s,
{
    if s.len() == 0 {
        seq![]
    } else {
        plan_view(s.subrange(0, s.len() - 1)).push(instr_view(s[s.len() - 1]))
    }
}

impl View for Instruction {
    type V = PlanSpec;

    open spec fn view(&self) -> PlanSpec {
        instr_view(*self)
    }
}

pub proof fn lemma_plan_view(s: Seq<Instruction>)
    ensures
        plan_view(s).len() == s.len(),
        forall|i: int| 0 <= i < s.len() ==> #[trigger] plan_view(s)[i] == instr_view(s[i]),
    decreases s.len(),
{
    if s.len() > 0 {
        lemma_plan_view(s.subrange(0, s.len() - 1));
    }
}

/// The view of a concatenation is the concatenation of the views.
pub proof fn lemma_plan_view_concat(a: Seq<Instruction>, b: Seq<Instruction>)
    ensures
        plan_view(a + b) == plan_view(a) + plan_view(b),
{
    lemma_plan_view(a);
    lemma_plan_view(b);
    lemma_plan_view(a + b);
    assert(plan_view(a + b) =~= plan_view(a) + plan_view(b));
}

} // verus!
