//! Compiling a source tree into a render plan.
use vstd::prelude::*;
use crate::directive::{directives_of, failing_attr, parse_from_attrs, DirSpec, Directives};
use crate::error::CompileError;
use crate::plan::{
    instr_view, lemma_nodes_view, lemma_plan_view, lemma_plan_view_concat, node_view, nodes_view,
    plan_view, Instruction, Node, NodeSpec, PlanSpec,
};
use crate::scan::{parse_inline, segments_of, segs_view, SegSpec, Segment};

verus! {

/// The instruction for one segment of text content.
pub open spec fn seg_instr(s: SegSpec) -> PlanSpec {
    match s {
        SegSpec::Literal(t) => PlanSpec::Literal(t),
        SegSpec::Expr(e) => PlanSpec::Interpolate(e),
    }
}

/// `core` inside the element's loop, inside its condition: the condition is
/// outermost and gates the whole loop.
pub open spec fn wrap(d: DirSpec, core: PlanSpec) -> PlanSpec {
    let looped = match d.iter {
        Some(it) => PlanSpec::For { binding: it.0, iterable: it.1, body: seq![core] },
        None => core,
    };
    match d.cond {
        Some(c) => PlanSpec::If { cond: c, body: seq![looped] },
        None => looped,
    }
}

/// The instructions that one source node compiles to; `None` when a directive
/// or placeholder in it does not parse.
pub open spec fn compile_node(n: NodeSpec) -> Option<Seq<PlanSpec>>
    decreases n,
{
    match n {
        NodeSpec::Document(c) => compile_nodes(c),
        NodeSpec::Element { name, attrs, children } => match directives_of(attrs) {
            Some(d) => if d.replace is Some {
                Some(seq![wrap(d, PlanSpec::Interpolate(d.replace->0))])
            } else if d.content is Some {
                Some(seq![wrap(d, PlanSpec::Element { name, attrs: d.plain, body: seq![PlanSpec::Interpolate(d.content->0)] })])
            } else {
                match compile_nodes(children) {
                    Some(b) => Some(seq![wrap(d, PlanSpec::Element { name, attrs: d.plain, body: b })]),
                    None => None,
                }
            },
            None => None,
        },
        NodeSpec::Text(t) => match segments_of(t) {
            Some(v) => Some(v.map_values(|s: SegSpec| seg_instr(s))),
            None => None,
        },
        NodeSpec::Skipped => Some(seq![]),
    }
}

/// The instructions of a sequence of nodes, concatenated in order.
pub open spec fn compile_nodes(s: Seq<NodeSpec>) -> Option<Seq<PlanSpec>>
    decreases s,
{
    if s.len() == 0 {
        Some(seq![])
    } else {
        match compile_nodes(s.subrange(0, s.len() - 1)) {
            Some(a) => match compile_node(s[s.len() - 1]) {
                Some(b) => Some(a + b),
                None => None,
            },
            None => None,
        }
    }
}

/// Where compiling a node fails: the element, the attribute, and the text that
/// did not parse (element and attribute are empty for text content).
pub open spec fn error_site(n: NodeSpec) -> (Seq<char>, Seq<char>, Seq<char>)
    decreases n,
{
    match n {
        NodeSpec::Document(c) => error_site_all(c),
        NodeSpec::Element { name, attrs, children } => if directives_of(attrs) is None {
            (name, failing_attr(attrs).0, failing_attr(attrs).1)
        } else {
            error_site_all(children)
        },
        NodeSpec::Text(t) => (seq![], seq![], t),
        NodeSpec::Skipped => (seq![], seq![], seq![]),
    }
}

/// Where compiling a sequence of nodes fails: at the first node that fails.
pub open spec fn error_site_all(s: Seq<NodeSpec>) -> (Seq<char>, Seq<char>, Seq<char>)
    decreases s,
{
    if s.len() == 0 {
        (seq![], seq![], seq![])
    } else if compile_nodes(s.subrange(0, s.len() - 1)) is None {
        error_site_all(s.subrange(0, s.len() - 1))
    } else {
        error_site(s[s.len() - 1])
    }
}

proof fn lemma_error_site_all(s: Seq<NodeSpec>, i: int)
    requires
        0 <= i < s.len(),
        compile_nodes(s.subrange(0, i)) is Some,
        compile_node(s[i]) is None,
    ensures
        error_site_all(s) == error_site(s[i]),
    decreases s.len(),
{
    let p = s.subrange(0, s.len() - 1);
    if s.len() == i + 1 {
        assert(p =~= s.subrange(0, i));
    } else {
        assert(p.subrange(0, i) =~= s.subrange(0, i));
        assert(p[i] == s[i]);
        assert(p.subrange(0, i + 1).subrange(0, i) =~= p.subrange(0, i));
        assert(p.subrange(0, i + 1)[i] == p[i]);
        lemma_compile_nodes_none(p, i + 1);
        lemma_error_site_all(p, i);
    }
}

proof fn lemma_compile_nodes_none(s: Seq<NodeSpec>, k: int)
    requires
        0 <= k <= s.len(),
        compile_nodes(s.subrange(0, k)) is None,
    ensures
        compile_nodes(s) is None,
    decreases s.len() - k,
{
    if k == s.len() {
        assert(s.subrange(0, k) =~= s);
    } else {
        assert(s.subrange(0, k + 1).subrange(0, k) =~= s.subrange(0, k));
        lemma_compile_nodes_none(s, k + 1);
    }
}

fn single(i: Instruction) -> (r: Vec<Instruction>)
    ensures
        plan_view(r@) == seq![instr_view(i)],
{
    let mut r = Vec::new();
    r.push(i);
    proof {
        lemma_plan_view(r@);
    }
    assert(plan_view(r@) =~= seq![instr_view(i)]);
    r
}

/// Compiles one source node.
pub fn compile_node_exec(n: &Node) -> (r: Result<Vec<Instruction>, CompileError>)
    ensures
        match r {
            Ok(v) => compile_node(n@) == Some(plan_view(v@)),
            Err(e) => compile_node(n@) is None && (e.element@, e.attribute@, e.cause.text@) == error_site(n@),
        },
    decreases n,
{
    match n {
        Node::Document(c) => compile_children(c),
        Node::Element { name, attrs, children } => {
            let d = match parse_from_attrs(name, attrs) {
                Ok(d) => d,
                Err(e) => {
                    return Err(e);
                },
            };
            let ghost ds = d@;
            let Directives { replacement, content, conditional, iterator, plain_attrs } = d;
            let core = match replacement {
                Some(e) => Instruction::Interpolate(e),
                None => match content {
                    Some(e) => Instruction::Element {
                        name: name.clone(),
                        attrs: plain_attrs,
                        body: single(Instruction::Interpolate(e)),
                    },
                    None => {
                        let b = match compile_children(children) {
                            Ok(b) => b,
                            Err(e) => {
                                return Err(e);
                            },
                        };
                        Instruction::Element { name: name.clone(), attrs: plain_attrs, body: b }
                    },
                },
            };
            let looped = match iterator {
                Some(it) => Instruction::For { binding: it.binding, iterable: it.expr, body: single(core) },
                None => core,
            };
            let top = match conditional {
                Some(c) => Instruction::If { cond: c, body: single(looped) },
                None => looped,
            };
            Ok(single(top))
        },
        Node::Text(t) => match parse_inline(t.as_str()) {
            Ok(v) => Ok(text_instructions(v.children)),
            Err(cause) => {
                let r = CompileError { element: String::new(), attribute: String::new(), cause };
                assert(r.element@ =~= Seq::<char>::empty());
                assert(r.attribute@ =~= Seq::<char>::empty());
                Err(r)
            },
        },
        _ => {
            let r: Vec<Instruction> = Vec::new();
            assert(plan_view(r@) =~= seq![]);
            Ok(r)
        },
    }
}

fn text_instructions(segs: Vec<Segment>) -> (r: Vec<Instruction>)
    ensures
        plan_view(r@) == segs_view(segs@).map_values(|s: SegSpec| seg_instr(s)),
{
    let ghost orig = segs@;
    let n = segs.len();
    let mut segs = segs;
    let mut out: Vec<Instruction> = Vec::new();
    let mut k: usize = 0;
    proof {
        lemma_plan_view(out@);
    }
    while segs.len() > 0
        invariant
            k <= orig.len(),
            n == orig.len(),
            segs@.len() == orig.len() - k,
            segs@ == orig.subrange(k as int, orig.len() as int),
            plan_view(out@) == segs_view(orig.subrange(0, k as int)).map_values(|s: SegSpec| seg_instr(s)),
        decreases segs@.len(),
    {
        let seg = segs.remove(0);
        assert(seg == orig[k as int]);
        let ghost sv = seg@;
        let ins = match seg {
            Segment::Literal(t) => Instruction::Literal(t),
            Segment::Expr(e) => Instruction::Interpolate(e),
        };
        let ghost before = out@;
        out.push(ins);
        proof {
            assert(instr_view(ins) == seg_instr(sv));
            assert(out@.subrange(0, out@.len() - 1) =~= before);
            assert(plan_view(out@) == plan_view(before).push(instr_view(ins)));
            assert(segs_view(orig.subrange(0, k + 1)) =~= segs_view(orig.subrange(0, k as int)).push(sv));
            assert(plan_view(out@) =~= segs_view(orig.subrange(0, k + 1)).map_values(|s: SegSpec| seg_instr(s)));
        }
        k = k + 1;
        assert(segs@ =~= orig.subrange(k as int, orig.len() as int));
    }
    assert(orig.subrange(0, k as int) =~= orig);
    out
}

/// Compiles a sequence of sibling nodes, concatenating their instructions.
pub fn compile_children(c: &Vec<Node>) -> (r: Result<Vec<Instruction>, CompileError>)
    ensures
        match r {
            Ok(v) => compile_nodes(nodes_view(c@)) == Some(plan_view(v@)),
            Err(e) => compile_nodes(nodes_view(c@)) is None && (e.element@, e.attribute@, e.cause.text@)
                == error_site_all(nodes_view(c@)),
        },
    decreases c,
{
    let ghost cv = nodes_view(c@);
    proof {
        lemma_nodes_view(c@);
    }
    let mut out: Vec<Instruction> = Vec::new();
    assert(cv.subrange(0, 0) =~= seq![]);
    assert(plan_view(out@) =~= seq![]);
    let mut i: usize = 0;
    while i < c.len()
        invariant
            i <= c@.len(),
            cv == nodes_view(c@),
            cv.len() == c@.len(),
            forall|j: int| 0 <= j < c@.len() ==> #[trigger] cv[j] == node_view(c@[j]),
            compile_nodes(cv.subrange(0, i as int)) == Some(plan_view(out@)),
        decreases c@.len() - i,
    {
        assert(decreases_to!(c => c@[i as int]));
        let part = compile_node_exec(&c[i]);
        assert(cv.subrange(0, i + 1).subrange(0, i as int) =~= cv.subrange(0, i as int));
        assert(cv.subrange(0, i + 1)[i as int] == node_view(c@[i as int]));
        match part {
            Ok(mut v) => {
                let ghost before = out@;
                let ghost vv = v@;
                out.append(&mut v);
                proof {
                    lemma_plan_view_concat(before, vv);
                }
            },
            Err(e) => {
                proof {
                    lemma_compile_nodes_none(cv, i + 1);
                    lemma_error_site_all(cv, i as int);
                }
                return Err(e);
            },
        }
        i = i + 1;
    }
    assert(cv.subrange(0, i as int) =~= cv);
    Ok(out)
}

/// The children of a template's root: its own tag is never emitted.
pub open spec fn root_children(n: NodeSpec) -> Seq<NodeSpec> {
    match n {
        NodeSpec::Document(c) => c,
        NodeSpec::Element { children, .. } => children,
        _ => seq![],
    }
}

/// A compiled, immutable render plan.
#[derive(Debug)]
pub struct Template {
    pub plan: Vec<Instruction>,
}

impl View for Template {
    type V = Seq<PlanSpec>;

    open spec fn view(&self) -> Seq<PlanSpec> {
        plan_view(self.plan@)
    }
}

/// Compiles the content of a template's root node into a plan.
pub fn compile_template(root: &Node) -> (r: Result<Template, CompileError>)
    ensures
        match r {
            Ok(t) => compile_nodes(root_children(root@)) == Some(t@),
            Err(e) => compile_nodes(root_children(root@)) is None && (e.element@, e.attribute@, e.cause.text@)
                == error_site_all(root_children(root@)),
        },
{
    match root {
        Node::Document(c) => match compile_children(c) {
            Ok(plan) => Ok(Template { plan }),
            Err(e) => Err(e),
        },
        Node::Element { children, .. } => match compile_children(children) {
            Ok(plan) => Ok(Template { plan }),
            Err(e) => Err(e),
        },
        _ => {
            let plan: Vec<Instruction> = Vec::new();
            assert(plan_view(plan@) =~= seq![]);
            Ok(Template { plan })
        },
    }
}

} // verus!
