//! The interpreter: executing a render plan against bound values.
use vstd::prelude::*;
use crate::plan::{attrs_view, lemma_plan_view, plan_view, Attribute, Instruction, PlanSpec};
use crate::scan::{segs_view, SegSpec, Segment};
use crate::target::{close_tag, open_tag, pairs_view, AttrPair, QName, RenderError, RenderTarget};
use crate::text::{html_escape, int_text, push_int, push_str};
use crate::value::{
    bool_text, eval, eval_exec, lemma_values_view, scope_view, value_text, value_view, values_view, Value,
    ValueSpec,
};

verus! {

/// The text of one attribute-value segment: literals as they are, values as plain text.
pub open spec fn piece_text(s: SegSpec, scope: Seq<(Seq<char>, ValueSpec)>) -> Option<Seq<char>> {
    match s {
        SegSpec::Literal(t) => Some(t),
        SegSpec::Expr(e) => match eval(e, scope) {
            Some(v) => value_text(v),
            None => None,
        },
    }
}

/// The text of an attribute value: its segments' texts, concatenated.
pub open spec fn segs_text(segs: Seq<SegSpec>, scope: Seq<(Seq<char>, ValueSpec)>) -> Option<Seq<char>>
    decreases segs.len(),
{
    if segs.len() == 0 {
        Some(seq![])
    } else {
        match segs_text(segs.drop_last(), scope) {
            Some(a) => match piece_text(segs.last(), scope) {
                Some(b) => Some(a + b),
                None => None,
            },
            None => None,
        }
    }
}

/// Each attribute with its value evaluated.
pub open spec fn attr_values(attrs: Seq<(Seq<char>, Seq<SegSpec>)>, scope: Seq<(Seq<char>, ValueSpec)>) -> Option<
    Seq<(Seq<char>, Seq<char>)>,
>
    decreases attrs.len(),
{
    if attrs.len() == 0 {
        Some(seq![])
    } else {
        match attr_values(attrs.drop_last(), scope) {
            Some(a) => match segs_text(attrs.last().1, scope) {
                Some(t) => Some(a.push((attrs.last().0, t))),
                None => None,
            },
            None => None,
        }
    }
}

/// The markup a value renders to: scalars as escaped text, nothing for
/// `Null`, a list's items one after another, and rendered markup as it is.
pub open spec fn value_html(v: ValueSpec) -> Option<Seq<char>>
    decreases v,
{
    match v {
        ValueSpec::Null => Some(seq![]),
        ValueSpec::Bool(b) => Some(html_escape(bool_text(b))),
        ValueSpec::Int(i) => Some(html_escape(int_text(i))),
        ValueSpec::Text(t) => Some(html_escape(t)),
        ValueSpec::List(items) => values_html(items),
        ValueSpec::Record(_, _) => None,
        ValueSpec::Markup(m) => Some(m),
    }
}

pub open spec fn values_html(s: Seq<ValueSpec>) -> Option<Seq<char>>
    decreases s,
{
    if s.len() == 0 {
        Some(seq![])
    } else {
        match values_html(s.subrange(0, s.len() - 1)) {
            Some(a) => match value_html(s[s.len() - 1]) {
                Some(b) => Some(a + b),
                None => None,
            },
            None => None,
        }
    }
}

/// The output of one instruction in a scope; `None` where evaluation fails.
pub open spec fn render_instr(i: PlanSpec, scope: Seq<(Seq<char>, ValueSpec)>) -> Option<Seq<char>>
    decreases i, 1int,
{
    match i {
        PlanSpec::Literal(t) => Some(html_escape(t)),
        PlanSpec::Interpolate(e) => match eval(e, scope) {
            Some(v) => value_html(v),
            None => None,
        },
        PlanSpec::Element { name, attrs, body } => match attr_values(attrs, scope) {
            Some(av) => match render_seq(body, scope) {
                Some(b) => Some(open_tag(name, av) + b + close_tag(name)),
                None => None,
            },
            None => None,
        },
        PlanSpec::If { cond, body } => match eval(cond, scope) {
            Some(ValueSpec::Bool(true)) => render_seq(body, scope),
            Some(ValueSpec::Bool(false)) => Some(seq![]),
            _ => None,
        },
        PlanSpec::For { binding, iterable, body } => match eval(iterable, scope) {
            Some(ValueSpec::List(items)) => render_loop(body, binding, items, scope),
            _ => None,
        },
    }
}

/// The output of a sequence of instructions, concatenated.
pub open spec fn render_seq(s: Seq<PlanSpec>, scope: Seq<(Seq<char>, ValueSpec)>) -> Option<Seq<char>>
    decreases s, 1int,
{
    if s.len() == 0 {
        Some(seq![])
    } else {
        match render_seq(s.subrange(0, s.len() - 1), scope) {
            Some(a) => match render_instr(s[s.len() - 1], scope) {
                Some(b) => Some(a + b),
                None => None,
            },
            None => None,
        }
    }
}

/// The output of a loop body once per item, in order, each time with the
/// item bound to `binding`.
pub open spec fn render_loop(
    body: Seq<PlanSpec>,
    binding: Seq<char>,
    items: Seq<ValueSpec>,
    scope: Seq<(Seq<char>, ValueSpec)>,
) -> Option<Seq<char>>
    decreases body, items.len() + 1,
{
    if items.len() == 0 {
        Some(seq![])
    } else {
        match render_loop(body, binding, items.subrange(0, items.len() - 1), scope) {
            Some(a) => match render_seq(body, scope.push((binding, items[items.len() - 1]))) {
                Some(b) => Some(a + b),
                None => None,
            },
            None => None,
        }
    }
}

/// What a render call promises: on success exactly the expected output was
/// appended; where evaluation fails it fails; where evaluation succeeds, the
/// only failure is the target's own, passed on; and on a reliable target it
/// succeeds wherever evaluation does.
pub open spec fn outcome<T: RenderTarget>(
    r: Result<(), RenderError>,
    expected: Option<Seq<char>>,
    before: T,
    after: T,
) -> bool {
    &&& r is Ok ==> expected is Some && after.output() == before.output() + expected->0
    &&& expected is None ==> r is Err
    &&& before.reliable() && expected is Some ==> r is Ok && after.reliable()
    &&& r is Err ==> is_prefix(before.output(), after.output())
    &&& r is Err && expected is Some ==> r->Err_0 is Io && after.last_error() == Some(r->Err_0)
    &&& r is Err && expected is Some ==> is_prefix(after.output(), before.output() + expected->0)
}

/// `a` is the start of `b`.
pub open spec fn is_prefix(a: Seq<char>, b: Seq<char>) -> bool {
    a.len() <= b.len() && b.subrange(0, a.len() as int) == a
}

/// Both parts, concatenated, where both are there.
pub open spec fn joined(x: Option<Seq<char>>, y: Option<Seq<char>>) -> Option<Seq<char>> {
    match (x, y) {
        (Some(a), Some(b)) => Some(a + b),
        _ => None,
    }
}

pub proof fn lemma_prefix_concat(a: Seq<char>, x: Seq<char>)
    ensures
        is_prefix(a, a + x),
{
    assert((a + x).subrange(0, a.len() as int) =~= a);
}

pub proof fn lemma_prefix_refl(a: Seq<char>)
    ensures
        is_prefix(a, a),
{
    assert(a.subrange(0, a.len() as int) =~= a);
}

pub proof fn lemma_prefix_trans(a: Seq<char>, b: Seq<char>, c: Seq<char>)
    requires
        is_prefix(a, b),
        is_prefix(b, c),
    ensures
        is_prefix(a, c),
{
    assert(c.subrange(0, a.len() as int) =~= b.subrange(0, a.len() as int));
}

/// A failure inside the `p` part of `acc + p + rest`, written after `out0`,
/// leaves the output between `out0` and the whole.
proof fn lemma_failure_within(out0: Seq<char>, acc: Seq<char>, fin: Seq<char>, p: Seq<char>, rest: Seq<char>)
    requires
        is_prefix(out0 + acc, fin),
        is_prefix(fin, out0 + acc + p),
    ensures
        is_prefix(out0, fin),
        is_prefix(fin, out0 + (acc + p + rest)),
{
    lemma_prefix_concat(out0, acc);
    lemma_prefix_trans(out0, out0 + acc, fin);
    lemma_prefix_concat(out0 + acc + p, rest);
    lemma_prefix_trans(fin, out0 + acc + p, out0 + acc + p + rest);
    assert(out0 + acc + p + rest =~= out0 + (acc + p + rest));
}

proof fn lemma_failure_after(out0: Seq<char>, acc: Seq<char>, fin: Seq<char>)
    requires
        is_prefix(out0 + acc, fin),
    ensures
        is_prefix(out0, fin),
{
    lemma_prefix_concat(out0, acc);
    lemma_prefix_trans(out0, out0 + acc, fin);
}

pub proof fn lemma_render_seq_split(a: Seq<PlanSpec>, b: Seq<PlanSpec>, sc: Seq<(Seq<char>, ValueSpec)>)
    ensures
        render_seq(a + b, sc) == joined(render_seq(a, sc), render_seq(b, sc)),
    decreases b.len(),
{
    if b.len() == 0 {
        assert(a + b =~= a);
        if render_seq(a, sc) is Some {
            assert(render_seq(a, sc)->0 + Seq::<char>::empty() =~= render_seq(a, sc)->0);
        }
    } else {
        let bp = b.subrange(0, b.len() - 1);
        let last = b[b.len() - 1];
        lemma_render_seq_split(a, bp, sc);
        assert((a + b).subrange(0, (a + b).len() - 1) =~= a + bp);
        assert((a + b)[(a + b).len() - 1] == last);
        if render_seq(a, sc) is Some && render_seq(bp, sc) is Some && render_instr(last, sc) is Some {
            let x = render_seq(a, sc)->0;
            let y = render_seq(bp, sc)->0;
            let z = render_instr(last, sc)->0;
            assert(x + y + z =~= x + (y + z));
        }
    }
}

proof fn lemma_render_loop_split(
    body: Seq<PlanSpec>,
    binding: Seq<char>,
    a: Seq<ValueSpec>,
    b: Seq<ValueSpec>,
    sc: Seq<(Seq<char>, ValueSpec)>,
)
    ensures
        render_loop(body, binding, a + b, sc) == joined(render_loop(body, binding, a, sc), render_loop(body, binding, b, sc)),
    decreases b.len(),
{
    if b.len() == 0 {
        assert(a + b =~= a);
        if render_loop(body, binding, a, sc) is Some {
            assert(render_loop(body, binding, a, sc)->0 + Seq::<char>::empty() =~= render_loop(body, binding, a, sc)->0);
        }
    } else {
        let bp = b.subrange(0, b.len() - 1);
        let last = b[b.len() - 1];
        lemma_render_loop_split(body, binding, a, bp, sc);
        assert((a + b).subrange(0, (a + b).len() - 1) =~= a + bp);
        assert((a + b)[(a + b).len() - 1] == last);
        let one = render_seq(body, sc.push((binding, last)));
        if render_loop(body, binding, a, sc) is Some && render_loop(body, binding, bp, sc) is Some && one is Some {
            let x = render_loop(body, binding, a, sc)->0;
            let y = render_loop(body, binding, bp, sc)->0;
            let z = one->0;
            assert(x + y + z =~= x + (y + z));
        }
    }
}

proof fn lemma_values_html_split(a: Seq<ValueSpec>, b: Seq<ValueSpec>)
    ensures
        values_html(a + b) == joined(values_html(a), values_html(b)),
    decreases b.len(),
{
    if b.len() == 0 {
        assert(a + b =~= a);
        if values_html(a) is Some {
            assert(values_html(a)->0 + Seq::<char>::empty() =~= values_html(a)->0);
        }
    } else {
        let bp = b.subrange(0, b.len() - 1);
        let last = b[b.len() - 1];
        lemma_values_html_split(a, bp);
        assert((a + b).subrange(0, (a + b).len() - 1) =~= a + bp);
        assert((a + b)[(a + b).len() - 1] == last);
        if values_html(a) is Some && values_html(bp) is Some && value_html(last) is Some {
            let x = values_html(a)->0;
            let y = values_html(bp)->0;
            let z = value_html(last)->0;
            assert(x + y + z =~= x + (y + z));
        }
    }
}

proof fn lemma_values_html_none(s: Seq<ValueSpec>, k: int)
    requires
        0 <= k <= s.len(),
        values_html(s.subrange(0, k)) is None,
    ensures
        values_html(s) is None,
    decreases s.len() - k,
{
    if k == s.len() {
        assert(s.subrange(0, k) =~= s);
    } else {
        assert(s.subrange(0, k + 1).subrange(0, k) =~= s.subrange(0, k));
        lemma_values_html_none(s, k + 1);
    }
}

proof fn lemma_render_seq_none(s: Seq<PlanSpec>, scope: Seq<(Seq<char>, ValueSpec)>, k: int)
    requires
        0 <= k <= s.len(),
        render_seq(s.subrange(0, k), scope) is None,
    ensures
        render_seq(s, scope) is None,
    decreases s.len() - k,
{
    if k == s.len() {
        assert(s.subrange(0, k) =~= s);
    } else {
        assert(s.subrange(0, k + 1).subrange(0, k) =~= s.subrange(0, k));
        lemma_render_seq_none(s, scope, k + 1);
    }
}

proof fn lemma_render_loop_none(
    body: Seq<PlanSpec>,
    binding: Seq<char>,
    items: Seq<ValueSpec>,
    scope: Seq<(Seq<char>, ValueSpec)>,
    k: int,
)
    requires
        0 <= k <= items.len(),
        render_loop(body, binding, items.subrange(0, k), scope) is None,
    ensures
        render_loop(body, binding, items, scope) is None,
    decreases items.len() - k,
{
    if k == items.len() {
        assert(items.subrange(0, k) =~= items);
    } else {
        assert(items.subrange(0, k + 1).subrange(0, k) =~= items.subrange(0, k));
        lemma_render_loop_none(body, binding, items, scope, k + 1);
    }
}

proof fn lemma_segs_text_none(s: Seq<SegSpec>, scope: Seq<(Seq<char>, ValueSpec)>, k: int)
    requires
        0 <= k <= s.len(),
        segs_text(s.subrange(0, k), scope) is None,
    ensures
        segs_text(s, scope) is None,
    decreases s.len() - k,
{
    if k == s.len() {
        assert(s.subrange(0, k) =~= s);
    } else {
        assert(s.subrange(0, k + 1).drop_last() =~= s.subrange(0, k));
        lemma_segs_text_none(s, scope, k + 1);
    }
}

proof fn lemma_attr_values_none(s: Seq<(Seq<char>, Seq<SegSpec>)>, scope: Seq<(Seq<char>, ValueSpec)>, k: int)
    requires
        0 <= k <= s.len(),
        attr_values(s.subrange(0, k), scope) is None,
    ensures
        attr_values(s, scope) is None,
    decreases s.len() - k,
{
    if k == s.len() {
        assert(s.subrange(0, k) =~= s);
    } else {
        assert(s.subrange(0, k + 1).drop_last() =~= s.subrange(0, k));
        lemma_attr_values_none(s, scope, k + 1);
    }
}

/// Writes text, escaped, as a render call.
pub fn write_text<T: RenderTarget>(target: &mut T, content: &str) -> (r: Result<(), RenderError>)
    ensures
        outcome(r, Some(html_escape(content@)), *old(target), *final(target)),
{
    let ghost out0 = target.output();
    let r = target.text(content);
    proof {
        lemma_prefix_refl(out0);
        lemma_prefix_concat(out0, html_escape(content@));
    }
    r
}

/// Appends the plain text of a scalar value; false for a list or record.
fn push_value_text(buf: &mut String, v: &Value) -> (ok: bool)
    ensures
        ok == (value_text(v@) is Some),
        ok ==> final(buf)@ == old(buf)@ + value_text(v@)->0,
{
    match v {
        Value::Null => {
            assert(old(buf)@ + seq![] =~= old(buf)@);
            true
        },
        Value::Bool(b) => {
            if *b {
                push_str(buf, "true");
            } else {
                push_str(buf, "false");
            }
            true
        },
        Value::Int(i) => {
            push_int(buf, *i);
            true
        },
        Value::Text(t) => {
            push_str(buf, t.as_str());
            true
        },
        _ => false,
    }
}

/// The text of an attribute value in a scope.
pub fn segs_text_exec(segs: &Vec<Segment>, scope: &Vec<(String, Value)>) -> (r: Option<String>)
    ensures
        match r {
            Some(s) => segs_text(segs_view(segs@), scope_view(scope@)) == Some(s@),
            None => segs_text(segs_view(segs@), scope_view(scope@)) is None,
        },
{
    let ghost sv = segs_view(segs@);
    let ghost sc = scope_view(scope@);
    let mut out = String::new();
    let mut i: usize = 0;
    assert(sv.subrange(0, 0) =~= seq![]);
    while i < segs.len()
        invariant
            i <= segs@.len(),
            sv == segs_view(segs@),
            sc == scope_view(scope@),
            segs_text(sv.subrange(0, i as int), sc) == Some(out@),
        decreases segs@.len() - i,
    {
        assert(sv.subrange(0, i + 1).drop_last() =~= sv.subrange(0, i as int));
        assert(sv.subrange(0, i + 1).last() == segs@[i as int]@);
        match &segs[i] {
            Segment::Literal(t) => {
                push_str(&mut out, t.as_str());
            },
            Segment::Expr(e) => {
                match eval_exec(e, scope) {
                    Some(v) => {
                        if !push_value_text(&mut out, &v) {
                            proof {
                                lemma_segs_text_none(sv, sc, i + 1);
                            }
                            return None;
                        }
                    },
                    None => {
                        proof {
                            lemma_segs_text_none(sv, sc, i + 1);
                        }
                        return None;
                    },
                }
            },
        }
        i = i + 1;
    }
    assert(sv.subrange(0, i as int) =~= sv);
    Some(out)
}

/// Each attribute's value evaluated in a scope.
pub fn attr_values_exec(attrs: &Vec<Attribute>, scope: &Vec<(String, Value)>) -> (r: Option<Vec<AttrPair>>)
    ensures
        match r {
            Some(v) => attr_values(attrs_view(attrs@), scope_view(scope@)) == Some(pairs_view(v@)),
            None => attr_values(attrs_view(attrs@), scope_view(scope@)) is None,
        },
{
    let ghost av = attrs_view(attrs@);
    let ghost sc = scope_view(scope@);
    let mut out: Vec<AttrPair> = Vec::new();
    let mut i: usize = 0;
    assert(av.subrange(0, 0) =~= seq![]);
    assert(pairs_view(out@) =~= seq![]);
    while i < attrs.len()
        invariant
            i <= attrs@.len(),
            av == attrs_view(attrs@),
            sc == scope_view(scope@),
            attr_values(av.subrange(0, i as int), sc) == Some(pairs_view(out@)),
        decreases attrs@.len() - i,
    {
        assert(av.subrange(0, i + 1).drop_last() =~= av.subrange(0, i as int));
        assert(av.subrange(0, i + 1).last() == attrs@[i as int]@);
        let a = &attrs[i];
        match segs_text_exec(&a.value.children, scope) {
            Some(t) => {
                let ghost before = out@;
                out.push(AttrPair { name: QName { name: a.name.clone() }, value: t });
                assert(pairs_view(out@) =~= pairs_view(before).push(out@.last()@));
            },
            None => {
                proof {
                    lemma_attr_values_none(av, sc, i + 1);
                }
                return None;
            },
        }
        i = i + 1;
    }
    assert(av.subrange(0, i as int) =~= av);
    Some(out)
}

/// Renders a value as markup.
pub fn render_value<T: RenderTarget>(v: &Value, target: &mut T) -> (r: Result<(), RenderError>)
    ensures
        outcome(r, value_html(v@), *old(target), *final(target)),
    decreases v,
{
    let ghost out0 = target.output();
    let r = match v {
        Value::Null => {
            assert(target.output() + seq![] =~= target.output());
            Ok(())
        },
        Value::Bool(b) => {
            if *b {
                target.text("true")
            } else {
                target.text("false")
            }
        },
        Value::Int(i) => {
            let mut s = String::new();
            push_int(&mut s, *i);
            assert(s@ =~= int_text(*i as int));
            target.text(s.as_str())
        },
        Value::Text(t) => target.text(t.as_str()),
        Value::List(items) => render_values(items, target),
        Value::Record(_, _) => Err(RenderError::Evaluation),
        Value::Markup(m) => target.markup(m),
    };
    proof {
        lemma_prefix_refl(out0);
        if value_html(v@) is Some {
            lemma_prefix_concat(out0, value_html(v@)->0);
        }
    }
    r
}

/// Renders each value in order.
pub fn render_values<T: RenderTarget>(items: &Vec<Value>, target: &mut T) -> (r: Result<(), RenderError>)
    ensures
        outcome(r, values_html(values_view(items@)), *old(target), *final(target)),
    decreases items,
{
    let ghost iv = values_view(items@);
    let ghost out0 = target.output();
    let ghost rel0 = target.reliable();
    let ghost mut acc: Seq<char> = seq![];
    proof {
        lemma_values_view(items@);
    }
    let mut i: usize = 0;
    assert(iv.subrange(0, 0) =~= seq![]);
    assert(out0 + acc =~= out0);
    while i < items.len()
        invariant
            i <= items@.len(),
            iv == values_view(items@),
            iv.len() == items@.len(),
            forall|j: int| 0 <= j < items@.len() ==> #[trigger] iv[j] == value_view(items@[j]),
            values_html(iv.subrange(0, i as int)) == Some(acc),
            target.output() == out0 + acc,
            rel0 ==> target.reliable(),
            rel0 == old(target).reliable(),
            out0 == old(target).output(),
        decreases items@.len() - i,
    {
        assert(iv.subrange(0, i + 1).subrange(0, i as int) =~= iv.subrange(0, i as int));
        assert(iv.subrange(0, i + 1)[i as int] == value_view(items@[i as int]));
        assert(decreases_to!(items => items@[i as int]));
        let ghost mid = target.output();
        let r = render_value(&items[i], target);
        match r {
            Ok(()) => {
                proof {
                    let b = value_html(value_view(items@[i as int]))->0;
                    assert(target.output() =~= out0 + (acc + b));
                    acc = acc + b;
                }
            },
            Err(e) => {
                proof {
                    lemma_failure_after(out0, acc, target.output());
                    if value_html(value_view(items@[i as int])) is None {
                        lemma_values_html_none(iv, i + 1);
                    } else if values_html(iv) is Some {
                        lemma_values_html_none_contra(iv, i + 1);
                        let p = value_html(value_view(items@[i as int]))->0;
                        let head = iv.subrange(0, i + 1);
                        let tail = iv.subrange(i + 1, iv.len() as int);
                        assert(iv =~= head + tail);
                        lemma_values_html_split(head, tail);
                        assert(values_html(head) == Some(acc + p));
                        lemma_failure_within(out0, acc, target.output(), p, values_html(tail)->0);
                    }
                }
                return Err(e);
            },
        }
        i = i + 1;
    }
    assert(iv.subrange(0, i as int) =~= iv);
    Ok(())
}

proof fn lemma_values_html_none_contra(s: Seq<ValueSpec>, k: int)
    requires
        0 <= k <= s.len(),
        values_html(s) is Some,
    ensures
        values_html(s.subrange(0, k)) is Some,
{
    if values_html(s.subrange(0, k)) is None {
        lemma_values_html_none(s, k);
    }
}

} // verus!

verus! {

/// Runs a plan in a scope; the scope is left as it was.
pub fn render_plan<T: RenderTarget>(
    plan: &Vec<Instruction>,
    scope: &mut Vec<(String, Value)>,
    target: &mut T,
) -> (r: Result<(), RenderError>)
    ensures
        final(scope)@ == old(scope)@,
        outcome(r, render_seq(plan_view(plan@), scope_view(old(scope)@)), *old(target), *final(target)),
    decreases plan, 1int,
{
    let ghost pv = plan_view(plan@);
    let ghost sc = scope_view(scope@);
    let ghost scope0 = scope@;
    let ghost out0 = target.output();
    let ghost rel0 = target.reliable();
    let ghost mut acc: Seq<char> = seq![];
    proof {
        lemma_plan_view(plan@);
    }
    let mut i: usize = 0;
    assert(pv.subrange(0, 0) =~= seq![]);
    assert(out0 + acc =~= out0);
    while i < plan.len()
        invariant
            i <= plan@.len(),
            pv == plan_view(plan@),
            pv.len() == plan@.len(),
            forall|j: int| 0 <= j < plan@.len() ==> #[trigger] pv[j] == crate::plan::instr_view(plan@[j]),
            scope@ == scope0,
            scope0 == old(scope)@,
            sc == scope_view(scope0),
            render_seq(pv.subrange(0, i as int), sc) == Some(acc),
            target.output() == out0 + acc,
            rel0 ==> target.reliable(),
            rel0 == old(target).reliable(),
            out0 == old(target).output(),
        decreases plan@.len() - i,
    {
        assert(pv.subrange(0, i + 1).subrange(0, i as int) =~= pv.subrange(0, i as int));
        assert(pv.subrange(0, i + 1)[i as int] == crate::plan::instr_view(plan@[i as int]));
        assert(decreases_to!(plan => plan@[i as int]));
        let r = render_one(&plan[i], scope, target);
        match r {
            Ok(()) => {
                proof {
                    let b = render_instr(pv[i as int], sc)->0;
                    assert(target.output() =~= out0 + (acc + b));
                    acc = acc + b;
                }
            },
            Err(e) => {
                proof {
                    lemma_failure_after(out0, acc, target.output());
                    if render_instr(pv[i as int], sc) is None {
                        lemma_render_seq_none(pv, sc, i + 1);
                    } else if render_seq(pv, sc) is Some {
                        if render_seq(pv.subrange(0, i + 1), sc) is None {
                            lemma_render_seq_none(pv, sc, i + 1);
                        }
                        let p = render_instr(pv[i as int], sc)->0;
                        let head = pv.subrange(0, i + 1);
                        let tail = pv.subrange(i + 1, pv.len() as int);
                        assert(pv =~= head + tail);
                        lemma_render_seq_split(head, tail, sc);
                        assert(render_seq(head, sc) == Some(acc + p));
                        lemma_failure_within(out0, acc, target.output(), p, render_seq(tail, sc)->0);
                    }
                }
                return Err(e);
            },
        }
        i = i + 1;
    }
    assert(pv.subrange(0, i as int) =~= pv);
    Ok(())
}

/// Runs one instruction in a scope; the scope is left as it was.
pub fn render_one<T: RenderTarget>(
    ins: &Instruction,
    scope: &mut Vec<(String, Value)>,
    target: &mut T,
) -> (r: Result<(), RenderError>)
    ensures
        final(scope)@ == old(scope)@,
        outcome(r, render_instr(ins@, scope_view(old(scope)@)), *old(target), *final(target)),
    decreases ins, 1int,
{
    let ghost sc = scope_view(scope@);
    let ghost out0 = target.output();
    let r = match ins {
        Instruction::Literal(t) => target.text(t.as_str()),
        Instruction::Interpolate(e) => match eval_exec(e, scope) {
            Some(v) => render_value(&v, target),
            None => Err(RenderError::Evaluation),
        },
        Instruction::Element { name, attrs, body } => {
            let pairs = match attr_values_exec(attrs, scope) {
                Some(p) => p,
                None => {
                    proof {
                        lemma_prefix_refl(out0);
                    }
                    return Err(RenderError::Evaluation);
                },
            };
            let q = QName { name: name.clone() };
            match target.start_element_attrs(&q, pairs.as_slice()) {
                Ok(()) => {},
                Err(e) => {
                    proof {
                        lemma_prefix_refl(out0);
                        if render_instr(ins@, sc) is Some {
                            lemma_prefix_concat(out0, render_instr(ins@, sc)->0);
                        }
                    }
                    return Err(e);
                },
            }
            let ghost av = attr_values(attrs_view(attrs@), sc)->0;
            let ghost open = open_tag(name@, av);
            let ghost out1 = target.output();
            assert(out1 == out0 + open);
            match render_plan(body, scope, target) {
                Ok(()) => {},
                Err(e) => {
                    proof {
                        lemma_failure_after(out0, open, target.output());
                        if render_instr(ins@, sc) is Some {
                            let b = render_seq(plan_view(body@), sc)->0;
                            lemma_failure_within(out0, open, target.output(), b, close_tag(name@));
                        }
                    }
                    return Err(e);
                },
            }
            let ghost b = render_seq(plan_view(body@), sc)->0;
            let ghost out2 = target.output();
            let r = target.end_element(&q);
            proof {
                if r is Ok {
                    assert(target.output() =~= out0 + (open + b + close_tag(name@)));
                } else {
                    lemma_prefix_concat(out0 + open, b);
                    lemma_prefix_refl(out0 + open + b);
                    lemma_failure_within(out0, open, target.output(), b, close_tag(name@));
                    lemma_prefix_concat(out0 + open + b, close_tag(name@));
                    assert(out0 + open + b + close_tag(name@) =~= out0 + (open + b + close_tag(name@)));
                }
            }
            r
        },
        Instruction::If { cond, body } => match eval_exec(cond, scope) {
            Some(Value::Bool(b)) => {
                if b {
                    render_plan(body, scope, target)
                } else {
                    assert(target.output() + seq![] =~= target.output());
                    Ok(())
                }
            },
            _ => Err(RenderError::Evaluation),
        },
        Instruction::For { binding, iterable, body } => match eval_exec(iterable, scope) {
            Some(Value::List(items)) => render_items(binding, &items, body, scope, target),
            _ => Err(RenderError::Evaluation),
        },
    };
    proof {
        lemma_prefix_refl(out0);
        if render_instr(ins@, sc) is Some {
            lemma_prefix_concat(out0, render_instr(ins@, sc)->0);
        }
    }
    r
}

/// Runs a loop body once per item, with the item bound to `binding`.
fn render_items<T: RenderTarget>(
    binding: &String,
    items: &Vec<Value>,
    body: &Vec<Instruction>,
    scope: &mut Vec<(String, Value)>,
    target: &mut T,
) -> (r: Result<(), RenderError>)
    ensures
        final(scope)@ == old(scope)@,
        outcome(
            r,
            render_loop(plan_view(body@), binding@, values_view(items@), scope_view(old(scope)@)),
            *old(target),
            *final(target),
        ),
    decreases body, 2int,
{
    let ghost bv = plan_view(body@);
    let ghost iv = values_view(items@);
    let ghost sc = scope_view(scope@);
    let ghost scope0 = scope@;
    let ghost out0 = target.output();
    let ghost rel0 = target.reliable();
    let ghost mut acc: Seq<char> = seq![];
    proof {
        lemma_values_view(items@);
    }
    let mut i: usize = 0;
    assert(iv.subrange(0, 0) =~= seq![]);
    assert(out0 + acc =~= out0);
    while i < items.len()
        invariant
            i <= items@.len(),
            iv == values_view(items@),
            bv == plan_view(body@),
            iv.len() == items@.len(),
            forall|j: int| 0 <= j < items@.len() ==> #[trigger] iv[j] == value_view(items@[j]),
            scope@ == scope0,
            scope0 == old(scope)@,
            sc == scope_view(scope0),
            render_loop(bv, binding@, iv.subrange(0, i as int), sc) == Some(acc),
            target.output() == out0 + acc,
            rel0 ==> target.reliable(),
            rel0 == old(target).reliable(),
            out0 == old(target).output(),
        decreases items@.len() - i,
    {
        let ghost it = iv[i as int];
        assert(iv.subrange(0, i + 1).subrange(0, i as int) =~= iv.subrange(0, i as int));
        assert(iv.subrange(0, i + 1)[i as int] == it);
        let item = items[i].duplicate();
        scope.push((binding.clone(), item));
        assert(scope_view(scope@) =~= sc.push((binding@, it)));
        let r = render_plan(body, scope, target);
        let _ = scope.pop();
        assert(scope@ =~= scope0);
        match r {
            Ok(()) => {
                proof {
                    let b = render_seq(bv, sc.push((binding@, it)))->0;
                    assert(target.output() =~= out0 + (acc + b));
                    acc = acc + b;
                }
            },
            Err(e) => {
                proof {
                    lemma_failure_after(out0, acc, target.output());
                    if render_seq(bv, sc.push((binding@, it))) is None {
                        lemma_render_loop_none(bv, binding@, iv, sc, i + 1);
                    } else if render_loop(bv, binding@, iv, sc) is Some {
                        if render_loop(bv, binding@, iv.subrange(0, i + 1), sc) is None {
                            lemma_render_loop_none(bv, binding@, iv, sc, i + 1);
                        }
                        let p = render_seq(bv, sc.push((binding@, it)))->0;
                        let head = iv.subrange(0, i + 1);
                        let tail = iv.subrange(i + 1, iv.len() as int);
                        assert(iv =~= head + tail);
                        lemma_render_loop_split(bv, binding@, head, tail, sc);
                        assert(render_loop(bv, binding@, head, sc) == Some(acc + p));
                        lemma_failure_within(out0, acc, target.output(), p, render_loop(bv, binding@, tail, sc)->0);
                    }
                }
                return Err(e);
            },
        }
        i = i + 1;
    }
    assert(iv.subrange(0, i as int) =~= iv);
    Ok(())
}

} // verus!
