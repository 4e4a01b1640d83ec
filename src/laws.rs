//! Laws that hold of compiling and rendering, proved over the specifications.
use vstd::prelude::*;
use crate::compile::{compile_node, compile_nodes, root_children, seg_instr, wrap};
use crate::directive::{directives_of, is_directive_name, DirSpec};
use crate::plan::{NodeSpec, PlanSpec};
use crate::render::{attr_values, render_instr, render_loop, render_seq, segs_text, value_html};
use crate::scan::{find_pair, lit, segments_of, SegSpec};
use crate::target::{attr_text, attrs_text, close_tag, open_tag};
use crate::text::{html_escape, lemma_escape_has_no_markup};
use crate::value::{eval, self_name, ValueSpec};
use crate::expr::ExprSpec;

verus! {

/// `s` holds no `{{`, so no placeholder.
pub open spec fn no_placeholder(s: Seq<char>) -> bool {
    forall|k: int| 0 <= k < s.len() - 1 ==> !(#[trigger] s[k] == '{' && s[k + 1] == '{')
}

/// Attributes that are neither directives nor hold placeholders.
pub open spec fn plain_attrs(attrs: Seq<(Seq<char>, Seq<char>)>) -> bool {
    forall|k: int| 0 <= k < attrs.len() ==> !is_directive_name(#[trigger] attrs[k].0) && no_placeholder(attrs[k].1)
}

/// A tree with no directive and no placeholder anywhere.
pub open spec fn is_plain(n: NodeSpec) -> bool
    decreases n,
{
    match n {
        NodeSpec::Document(c) => all_plain(c),
        NodeSpec::Element { name, attrs, children } => plain_attrs(attrs) && all_plain(children),
        NodeSpec::Text(t) => no_placeholder(t),
        NodeSpec::Skipped => true,
    }
}

pub open spec fn all_plain(s: Seq<NodeSpec>) -> bool
    decreases s,
{
    if s.len() == 0 {
        true
    } else {
        all_plain(s.subrange(0, s.len() - 1)) && is_plain(s[s.len() - 1])
    }
}

/// The markup of a source tree written back out: elements with their
/// attributes, escaped text, and nothing for comments and the like.
pub open spec fn markup_of(n: NodeSpec) -> Seq<char>
    decreases n,
{
    match n {
        NodeSpec::Document(c) => markup_of_all(c),
        NodeSpec::Element { name, attrs, children } => open_tag(name, attrs) + markup_of_all(children) + close_tag(name),
        NodeSpec::Text(t) => html_escape(t),
        NodeSpec::Skipped => seq![],
    }
}

pub open spec fn markup_of_all(s: Seq<NodeSpec>) -> Seq<char>
    decreases s,
{
    if s.len() == 0 {
        seq![]
    } else {
        markup_of_all(s.subrange(0, s.len() - 1)) + markup_of(s[s.len() - 1])
    }
}

proof fn lemma_find_pair_absent(s: Seq<char>, a: char, b: char, from: int)
    requires
        0 <= from,
        forall|k: int| from <= k < s.len() - 1 ==> !(#[trigger] s[k] == a && s[k + 1] == b),
    ensures
        find_pair(s, a, b, from) == -1,
    decreases s.len() - from,
{
    if from + 1 < s.len() {
        lemma_find_pair_absent(s, a, b, from + 1);
    }
}

/// Scanning a string without `{{` gives one literal equal to it, or no
/// segment at all when it is empty.
pub proof fn law_no_placeholder_is_literal(s: Seq<char>)
    requires
        no_placeholder(s),
    ensures
        segments_of(s) == Some(lit(s)),
        s.len() == 0 ==> segments_of(s) == Some(Seq::<SegSpec>::empty()),
        s.len() > 0 ==> segments_of(s) == Some(seq![SegSpec::Literal(s)]),
{
    lemma_find_pair_absent(s, '{', '{', 0);
    assert(s.subrange(0, s.len() as int) =~= s);
}

proof fn lemma_render_seq_concat(a: Seq<PlanSpec>, b: Seq<PlanSpec>, sc: Seq<(Seq<char>, ValueSpec)>)
    requires
        render_seq(a, sc) is Some,
        render_seq(b, sc) is Some,
    ensures
        render_seq(a + b, sc) == Some(render_seq(a, sc)->0 + render_seq(b, sc)->0),
    decreases b.len(),
{
    if b.len() == 0 {
        assert(a + b =~= a);
        assert(render_seq(a, sc)->0 + render_seq(b, sc)->0 =~= render_seq(a, sc)->0);
    } else {
        let bp = b.subrange(0, b.len() - 1);
        lemma_render_seq_concat(a, bp, sc);
        assert((a + b).subrange(0, (a + b).len() - 1) =~= a + bp);
        assert((a + b)[(a + b).len() - 1] == b[b.len() - 1]);
        assert(render_seq(a, sc)->0 + render_seq(bp, sc)->0 + render_instr(b[b.len() - 1], sc)->0
            =~= render_seq(a, sc)->0 + (render_seq(bp, sc)->0 + render_instr(b[b.len() - 1], sc)->0));
    }
}

/// The plain attributes, each with its value as one literal (or none).
pub open spec fn literal_attrs(attrs: Seq<(Seq<char>, Seq<char>)>) -> Seq<(Seq<char>, Seq<SegSpec>)> {
    attrs.map_values(|a: (Seq<char>, Seq<char>)| (a.0, lit(a.1)))
}

proof fn lemma_plain_directives(attrs: Seq<(Seq<char>, Seq<char>)>)
    requires
        plain_attrs(attrs),
    ensures
        directives_of(attrs) == Some(DirSpec { replace: None, content: None, cond: None, iter: None, plain: literal_attrs(attrs) }),
    decreases attrs.len(),
{
    if attrs.len() == 0 {
        assert(literal_attrs(attrs) =~= seq![]);
    } else {
        let p = attrs.drop_last();
        assert forall|k: int| 0 <= k < p.len() implies !is_directive_name(#[trigger] p[k].0) && no_placeholder(p[k].1) by {
            assert(p[k] == attrs[k]);
        }
        lemma_plain_directives(p);
        let a = attrs.last();
        assert(a == attrs[attrs.len() - 1]);
        law_no_placeholder_is_literal(a.1);
        assert(literal_attrs(p).push((a.0, lit(a.1))) =~= literal_attrs(attrs));
    }
}

proof fn lemma_literal_attr_values(attrs: Seq<(Seq<char>, Seq<char>)>, sc: Seq<(Seq<char>, ValueSpec)>)
    ensures
        attr_values(literal_attrs(attrs), sc) == Some(attrs),
    decreases attrs.len(),
{
    let la = literal_attrs(attrs);
    if attrs.len() == 0 {
        assert(attrs =~= seq![]);
    } else {
        let p = attrs.drop_last();
        lemma_literal_attr_values(p, sc);
        assert(la.drop_last() =~= literal_attrs(p));
        let v = attrs.last().1;
        if v.len() == 0 {
            assert(segs_text(lit(v), sc) == Some(Seq::<char>::empty()));
            assert(v =~= Seq::<char>::empty());
        } else {
            let l = lit(v);
            assert(l == seq![SegSpec::Literal(v)]);
            assert(l.drop_last() =~= Seq::<SegSpec>::empty());
            assert(segs_text(l.drop_last(), sc) == Some(Seq::<char>::empty()));
            assert(l.last() == SegSpec::Literal(v));
            assert(segs_text(l, sc) == Some(Seq::<char>::empty() + v));
            assert(Seq::<char>::empty() + v =~= v);
        }
        assert(p.push((attrs.last().0, v)) =~= attrs);
    }
}

proof fn lemma_plain_text(t: Seq<char>, sc: Seq<(Seq<char>, ValueSpec)>)
    requires
        no_placeholder(t),
    ensures
        compile_node(NodeSpec::Text(t)) is Some,
        render_seq(compile_node(NodeSpec::Text(t))->0, sc) == Some(html_escape(t)),
{
    law_no_placeholder_is_literal(t);
    let p = compile_node(NodeSpec::Text(t))->0;
    assert(p == lit(t).map_values(|x: SegSpec| seg_instr(x)));
    if t.len() == 0 {
        assert(p =~= Seq::<PlanSpec>::empty());
        assert(render_seq(p, sc) == Some(Seq::<char>::empty()));
        assert(html_escape(t) =~= Seq::<char>::empty());
    } else {
        assert(lit(t) == seq![SegSpec::Literal(t)]);
        assert(p.len() == 1);
        assert(p[0] == PlanSpec::Literal(t));
        assert(p.subrange(0, 0) =~= Seq::<PlanSpec>::empty());
        assert(render_seq(p.subrange(0, 0), sc) == Some(Seq::<char>::empty()));
        assert(render_instr(p[0], sc) == Some(html_escape(t)));
        assert(Seq::<char>::empty() + html_escape(t) =~= html_escape(t));
    }
}

proof fn lemma_plain_node(n: NodeSpec, sc: Seq<(Seq<char>, ValueSpec)>)
    requires
        is_plain(n),
    ensures
        compile_node(n) is Some,
        render_seq(compile_node(n)->0, sc) == Some(markup_of(n)),
    decreases n,
{
    match n {
        NodeSpec::Document(c) => {
            lemma_plain_nodes(c, sc);
            assert(compile_node(n) == compile_nodes(c));
            assert(markup_of(n) == markup_of_all(c));
        },
        NodeSpec::Element { name, attrs, children } => {
            lemma_plain_directives(attrs);
            lemma_plain_nodes(children, sc);
            lemma_literal_attr_values(attrs, sc);
            let d = directives_of(attrs)->0;
            let b = compile_nodes(children)->0;
            let core = PlanSpec::Element { name, attrs: d.plain, body: b };
            assert(wrap(d, core) == core);
            let p = compile_node(n)->0;
            assert(p == seq![core]);
            assert(p.subrange(0, 0) =~= Seq::<PlanSpec>::empty());
            assert(render_seq(p.subrange(0, 0), sc) == Some(Seq::<char>::empty()));
            assert(p[0] == core);
            assert(render_instr(core, sc) == Some(open_tag(name, attrs) + markup_of_all(children) + close_tag(name)));
            assert(Seq::<char>::empty() + render_instr(core, sc)->0 =~= render_instr(core, sc)->0);
            assert(render_seq(p, sc) == Some(render_instr(core, sc)->0));
            assert(markup_of(n) == open_tag(name, attrs) + markup_of_all(children) + close_tag(name));
        },
        NodeSpec::Text(t) => {
            lemma_plain_text(t, sc);
        },
        NodeSpec::Skipped => {
            assert(compile_node(n)->0 =~= seq![]);
        },
    }
}

proof fn lemma_plain_nodes(s: Seq<NodeSpec>, sc: Seq<(Seq<char>, ValueSpec)>)
    requires
        all_plain(s),
    ensures
        compile_nodes(s) is Some,
        render_seq(compile_nodes(s)->0, sc) == Some(markup_of_all(s)),
    decreases s,
{
    if s.len() > 0 {
        let p = s.subrange(0, s.len() - 1);
        let last = s[s.len() - 1];
        lemma_plain_nodes(p, sc);
        lemma_plain_node(last, sc);
        lemma_render_seq_concat(compile_nodes(p)->0, compile_node(last)->0, sc);
    }
}

/// A template with no directive and no placeholder compiles, and renders its
/// root's content back as written, whatever data it is bound to.
pub proof fn law_plain_template_round_trip(root: NodeSpec, data: ValueSpec)
    requires
        all_plain(root_children(root)),
    ensures
        compile_nodes(root_children(root)) is Some,
        render_seq(compile_nodes(root_children(root))->0, seq![(self_name(), data)]) == Some(markup_of_all(root_children(root))),
{
    lemma_plain_nodes(root_children(root), seq![(self_name(), data)]);
}

/// The plan of a plain tree: each element with its attributes as literal
/// values and its children's plans, each non-empty text as one literal, and
/// nothing for comments and the like.
pub open spec fn mirror(n: NodeSpec) -> Seq<PlanSpec>
    decreases n,
{
    match n {
        NodeSpec::Document(c) => mirror_all(c),
        NodeSpec::Element { name, attrs, children } => seq![
            PlanSpec::Element { name, attrs: literal_attrs(attrs), body: mirror_all(children) },
        ],
        NodeSpec::Text(t) => if t.len() == 0 {
            seq![]
        } else {
            seq![PlanSpec::Literal(t)]
        },
        NodeSpec::Skipped => seq![],
    }
}

pub open spec fn mirror_all(s: Seq<NodeSpec>) -> Seq<PlanSpec>
    decreases s,
{
    if s.len() == 0 {
        seq![]
    } else {
        mirror_all(s.subrange(0, s.len() - 1)) + mirror(s[s.len() - 1])
    }
}

/// A node with no directive and no placeholder anywhere compiles to its
/// mirror.
pub proof fn law_plain_node_compiles_to_mirror(n: NodeSpec)
    requires
        is_plain(n),
    ensures
        compile_node(n) == Some(mirror(n)),
    decreases n,
{
    match n {
        NodeSpec::Document(c) => {
            lemma_mirror_all(c);
        },
        NodeSpec::Element { name, attrs, children } => {
            lemma_plain_directives(attrs);
            lemma_mirror_all(children);
            let d = directives_of(attrs)->0;
            let core = PlanSpec::Element { name, attrs: d.plain, body: mirror_all(children) };
            assert(wrap(d, core) == core);
        },
        NodeSpec::Text(t) => {
            law_no_placeholder_is_literal(t);
            let p = compile_node(n)->0;
            if t.len() == 0 {
                assert(p =~= mirror(n));
            } else {
                assert(lit(t) == seq![SegSpec::Literal(t)]);
                assert(p =~= mirror(n));
            }
        },
        NodeSpec::Skipped => {},
    }
}

proof fn lemma_mirror_all(s: Seq<NodeSpec>)
    requires
        all_plain(s),
    ensures
        compile_nodes(s) == Some(mirror_all(s)),
    decreases s,
{
    if s.len() > 0 {
        lemma_mirror_all(s.subrange(0, s.len() - 1));
        law_plain_node_compiles_to_mirror(s[s.len() - 1]);
    }
}

/// A template with no directive and no placeholder compiles to the mirror of
/// its root's content: the same elements, in order, with their attributes as
/// literal values, and its texts as literals.
pub proof fn law_plain_template_compiles_to_mirror(root: NodeSpec)
    requires
        all_plain(root_children(root)),
    ensures
        compile_nodes(root_children(root)) == Some(mirror_all(root_children(root))),
{
    lemma_mirror_all(root_children(root));
}

/// An element with both a condition and an iterator compiles to the loop
/// inside the condition, so the condition is evaluated once, outside the loop,
/// and gates all of it.
pub proof fn law_condition_wraps_loop(
    name: Seq<char>,
    attrs: Seq<(Seq<char>, Seq<char>)>,
    children: Seq<NodeSpec>,
)
    requires
        directives_of(attrs) is Some,
        directives_of(attrs)->0.cond is Some,
        directives_of(attrs)->0.iter is Some,
        directives_of(attrs)->0.replace is None,
        directives_of(attrs)->0.content is None,
        compile_nodes(children) is Some,
    ensures
        compile_node(NodeSpec::Element { name, attrs, children }) == Some(
            seq![
                PlanSpec::If {
                    cond: directives_of(attrs)->0.cond->0,
                    body: seq![
                        PlanSpec::For {
                            binding: (directives_of(attrs)->0.iter->0).0,
                            iterable: (directives_of(attrs)->0.iter->0).1,
                            body: seq![
                                PlanSpec::Element {
                                    name,
                                    attrs: directives_of(attrs)->0.plain,
                                    body: compile_nodes(children)->0,
                                },
                            ],
                        },
                    ],
                },
            ],
        ),
{
}

/// A false condition suppresses everything under it, including a loop whose
/// list does not even evaluate.
pub proof fn law_false_condition_renders_nothing(
    cond: ExprSpec,
    body: Seq<PlanSpec>,
    sc: Seq<(Seq<char>, ValueSpec)>,
)
    requires
        eval(cond, sc) == Some(ValueSpec::Bool(false)),
    ensures
        render_instr(PlanSpec::If { cond, body }, sc) == Some(Seq::<char>::empty()),
{
}

/// Under a true condition, a loop over `n` items renders its body once per
/// item, the last item's output last.
pub proof fn law_true_condition_runs_loop(
    cond: ExprSpec,
    binding: Seq<char>,
    iterable: ExprSpec,
    body: Seq<PlanSpec>,
    items: Seq<ValueSpec>,
    sc: Seq<(Seq<char>, ValueSpec)>,
)
    requires
        eval(cond, sc) == Some(ValueSpec::Bool(true)),
        eval(iterable, sc) == Some(ValueSpec::List(items)),
        items.len() > 0,
        render_loop(body, binding, items.drop_last(), sc) is Some,
        render_seq(body, sc.push((binding, items.last()))) is Some,
    ensures
        render_instr(PlanSpec::If { cond, body: seq![PlanSpec::For { binding, iterable, body }] }, sc) == Some(
            render_loop(body, binding, items.drop_last(), sc)->0 + render_seq(body, sc.push((binding, items.last())))->0,
        ),
        render_loop(body, binding, Seq::<ValueSpec>::empty(), sc) == Some(Seq::<char>::empty()),
{
    let f = PlanSpec::For { binding, iterable, body };
    let s = seq![f];
    assert(s.subrange(0, 0) =~= Seq::<PlanSpec>::empty());
    assert(render_seq(s.subrange(0, 0), sc) == Some(Seq::<char>::empty()));
    assert(s[0] == f);
    assert(items.subrange(0, items.len() - 1) == items.drop_last());
    assert(items[items.len() - 1] == items.last());
    assert(render_instr(f, sc) == render_loop(body, binding, items, sc));
    assert(render_loop(body, binding, items, sc) == Some(
        render_loop(body, binding, items.drop_last(), sc)->0 + render_seq(body, sc.push((binding, items.last())))->0,
    ));
    assert(render_seq(s, sc) == Some(Seq::<char>::empty() + render_instr(f, sc)->0));
    assert(Seq::<char>::empty() + render_instr(f, sc)->0 =~= render_instr(f, sc)->0);
}

/// `o` written `n` times.
pub open spec fn repeated(o: Seq<char>, n: nat) -> Seq<char>
    decreases n,
{
    if n == 0 {
        seq![]
    } else {
        repeated(o, (n - 1) as nat) + o
    }
}

/// A loop over `n` items whose body renders `o` for each of them renders `o`
/// exactly `n` times.
pub proof fn law_loop_renders_body_per_item(
    body: Seq<PlanSpec>,
    binding: Seq<char>,
    items: Seq<ValueSpec>,
    sc: Seq<(Seq<char>, ValueSpec)>,
    o: Seq<char>,
)
    requires
        forall|k: int| 0 <= k < items.len() ==> render_seq(body, sc.push((binding, #[trigger] items[k]))) == Some(o),
    ensures
        render_loop(body, binding, items, sc) == Some(repeated(o, items.len())),
    decreases items.len(),
{
    if items.len() > 0 {
        let p = items.subrange(0, items.len() - 1);
        assert forall|k: int| 0 <= k < p.len() implies render_seq(body, sc.push((binding, #[trigger] p[k]))) == Some(o) by {
            assert(p[k] == items[k]);
        }
        law_loop_renders_body_per_item(body, binding, p, sc, o);
        assert(render_seq(body, sc.push((binding, items[items.len() - 1]))) == Some(o));
    }
}

proof fn lemma_render_seq_split(a: Seq<PlanSpec>, b: Seq<PlanSpec>, sc: Seq<(Seq<char>, ValueSpec)>)
    ensures
        render_seq(a + b, sc) == match (render_seq(a, sc), render_seq(b, sc)) {
            (Some(x), Some(y)) => Some(x + y),
            _ => None::<Seq<char>>,
        },
    decreases b.len(),
{
    if b.len() == 0 {
        assert(a + b =~= a);
        if render_seq(a, sc) is Some {
            assert(render_seq(a, sc)->0 + Seq::<char>::empty() =~= render_seq(a, sc)->0);
        }
    } else {
        let bp = b.subrange(0, b.len() - 1);
        let last = b[b.len() - 1];
        lemma_render_seq_split(a, bp, sc);
        assert((a + b).subrange(0, (a + b).len() - 1) =~= a + bp);
        assert((a + b)[(a + b).len() - 1] == last);
        if render_seq(a, sc) is Some && render_seq(bp, sc) is Some && render_instr(last, sc) is Some {
            let x = render_seq(a, sc)->0;
            let y = render_seq(bp, sc)->0;
            let z = render_instr(last, sc)->0;
            assert(x + y + z =~= x + (y + z));
        }
    }
}

/// An element under a false condition renders as if it were not in the
/// template at all: whatever stands before and after it renders the same.
pub proof fn law_false_condition_is_as_if_deleted(
    before: Seq<PlanSpec>,
    cond: ExprSpec,
    body: Seq<PlanSpec>,
    after: Seq<PlanSpec>,
    sc: Seq<(Seq<char>, ValueSpec)>,
)
    requires
        eval(cond, sc) == Some(ValueSpec::Bool(false)),
    ensures
        render_seq(before + seq![PlanSpec::If { cond, body }] + after, sc) == render_seq(before + after, sc),
{
    let i = PlanSpec::If { cond, body };
    let one = seq![i];
    assert(one.subrange(0, 0) =~= Seq::<PlanSpec>::empty());
    assert(render_seq(one.subrange(0, 0), sc) == Some(Seq::<char>::empty()));
    assert(one[0] == i);
    assert(one.len() == 1);
    assert(render_instr(i, sc) == Some(Seq::<char>::empty()));
    assert(render_seq(one, sc) == Some(Seq::<char>::empty() + Seq::<char>::empty()));
    assert(Seq::<char>::empty() + Seq::<char>::empty() =~= Seq::<char>::empty());
    lemma_render_seq_split(before, one, sc);
    lemma_render_seq_split(before + one, after, sc);
    lemma_render_seq_split(before, after, sc);
    if render_seq(before, sc) is Some {
        let x = render_seq(before, sc)->0;
        assert(x + Seq::<char>::empty() =~= x);
    }
}

/// An attribute whose value is a placeholder for text `s` is written as
/// ` attr="` + `s` escaped + `"` in the element's start tag, and the escaped
/// text holds no quote, so it cannot end the attribute early.
pub proof fn law_attribute_placeholder_is_escaped(
    name: Seq<char>,
    attr: Seq<char>,
    e: ExprSpec,
    body: Seq<PlanSpec>,
    sc: Seq<(Seq<char>, ValueSpec)>,
    s: Seq<char>,
)
    requires
        eval(e, sc) == Some(ValueSpec::Text(s)),
        render_seq(body, sc) is Some,
    ensures
        render_instr(PlanSpec::Element { name, attrs: seq![(attr, seq![SegSpec::Expr(e)])], body }, sc) == Some(
            seq!['<'] + name + (seq![' '] + attr + seq!['=', '"'] + html_escape(s) + seq!['"']) + seq!['>']
                + render_seq(body, sc)->0 + close_tag(name),
        ),
        forall|k: int| 0 <= k < html_escape(s).len() ==> html_escape(s)[k] != '"',
{
    lemma_escape_has_no_markup(s);
    let segs = seq![SegSpec::Expr(e)];
    assert(segs.drop_last() =~= Seq::<SegSpec>::empty());
    assert(segs_text(segs.drop_last(), sc) == Some(Seq::<char>::empty()));
    assert(segs_text(segs, sc) == Some(Seq::<char>::empty() + s));
    assert(Seq::<char>::empty() + s =~= s);
    let attrs = seq![(attr, segs)];
    assert(attrs.drop_last() =~= Seq::<(Seq<char>, Seq<SegSpec>)>::empty());
    assert(attr_values(attrs.drop_last(), sc) == Some(Seq::<(Seq<char>, Seq<char>)>::empty()));
    let av = seq![(attr, s)];
    assert(Seq::<(Seq<char>, Seq<char>)>::empty().push((attr, s)) =~= av);
    assert(attr_values(attrs, sc) == Some(av));
    assert(av.drop_last() =~= Seq::<(Seq<char>, Seq<char>)>::empty());
    assert(attrs_text(av.drop_last()) == Seq::<char>::empty());
    assert(av.last() == (attr, s));
    assert(attrs_text(av) == Seq::<char>::empty() + attr_text((attr, s)));
    assert(Seq::<char>::empty() + attr_text((attr, s)) =~= attr_text((attr, s)));
}

/// Text rendered from data never holds a `<`, so never a tag such as `<script`.
pub proof fn law_text_value_has_no_tag(t: Seq<char>)
    ensures
        value_html(ValueSpec::Text(t)) == Some(html_escape(t)),
        forall|k: int| 0 <= k < html_escape(t).len() ==> html_escape(t)[k] != '<',
{
    lemma_escape_has_no_markup(t);
}

/// An attribute value is written between two quotes with no quote inside, so
/// a value holding `"` cannot end the attribute early.
pub proof fn law_attribute_stays_quoted(name: Seq<char>, value: Seq<char>)
    ensures
        attr_text((name, value)) == seq![' '] + name + seq!['=', '"'] + html_escape(value) + seq!['"'],
        forall|k: int| 0 <= k < html_escape(value).len() ==> html_escape(value)[k] != '"',
{
    lemma_escape_has_no_markup(value);
}

} // verus!
