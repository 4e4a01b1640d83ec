//! Data values that templates are rendered against, and expression evaluation.
use vstd::prelude::*;
use crate::expr::{is_number, number_value, parse_number, Expr, ExprSpec, Step, StepSpec, Term, TermSpec};
use crate::target::Markup;
use crate::text::{chars_of, int_text};

verus! {

/// A value bound to a template.
#[derive(Debug)]
pub enum Value {
    /// An absent value: renders nothing.
    Null,
    Bool(bool),
    Int(i64),
    Text(String),
    /// Items rendered one after another, or iterated over.
    List(Vec<Value>),
    /// Named fields: the names, and the values in the same order.
    Record(Vec<String>, Vec<Value>),
    /// Rendered markup, such as a sub-template, written as it is.
    Markup(Markup),
}

/// A value, as mathematics.
pub enum ValueSpec {
    Null,
    Bool(bool),
    Int(int),
    Text(Seq<char>),
    List(Seq<ValueSpec>),
    Record(Seq<Seq<char>>, Seq<ValueSpec>),
    Markup(Seq<char>),
}

pub open spec fn keys_view(k: Seq<String>) -> Seq<Seq<char>> {
    k.map_values(|s: String| s@)
}

pub open spec fn value_view(v: Value) -> ValueSpec
    decreases v,
{
    match v {
        Value::Null => ValueSpec::Null,
        Value::Bool(b) => ValueSpec::Bool(b),
        Value::Int(i) => ValueSpec::Int(i as int),
        Value::Text(t) => ValueSpec::Text(t@),
        Value::List(items) => ValueSpec::List(values_view(items@)),
        Value::Record(keys, vals) => ValueSpec::Record(keys_view(keys@), values_view(vals@)),
        Value::Markup(m) => ValueSpec::Markup(m@),
    }
}

pub open spec fn values_view(s: Seq<Value>) -> Seq<ValueSpec>
    decreases s,
{
    if s.len() == 0 {
        seq![]
    } else {
        values_view(s.subrange(0, s.len() - 1)).push(value_view(s[s.len() - 1]))
    }
}

impl View for Value {
    type V = ValueSpec;

    open spec fn view(&self) -> ValueSpec {
        value_view(*self)
    }
}

pub proof fn lemma_values_view(s: Seq<Value>)
    ensures
        values_view(s).len() == s.len(),
        forall|i: int| 0 <= i < s.len() ==> #[trigger] values_view(s)[i] == value_view(s[i]),
    decreases s.len(),
{
    if s.len() > 0 {
        lemma_values_view(s.subrange(0, s.len() - 1));
    }
}

/// Bindings from innermost (last) to outermost (first).
pub open spec fn scope_view(s: Seq<(String, Value)>) -> Seq<(Seq<char>, ValueSpec)> {
    s.map_values(|b: (String, Value)| (b.0@, b.1@))
}

/// The value bound to `name`, innermost binding first.
pub open spec fn lookup(scope: Seq<(Seq<char>, ValueSpec)>, name: Seq<char>) -> Option<ValueSpec>
    decreases scope.len(),
{
    if scope.len() == 0 {
        None
    } else if scope.last().0 == name {
        Some(scope.last().1)
    } else {
        lookup(scope.drop_last(), name)
    }
}

/// The first position of `name` among `keys` at or after `from`, or -1.
pub open spec fn find_key(keys: Seq<Seq<char>>, name: Seq<char>, from: int) -> int
    decreases keys.len() - from,
{
    if from < 0 || from >= keys.len() {
        -1
    } else if keys[from] == name {
        from
    } else {
        find_key(keys, name, from + 1)
    }
}

pub open spec fn len_name() -> Seq<char> {
    "len"@
}

pub open spec fn is_empty_name() -> Seq<char> {
    "is_empty"@
}

pub open spec fn display_name() -> Seq<char> {
    "display"@
}

pub open spec fn to_string_name() -> Seq<char> {
    "to_string"@
}

/// A call step: `len()` of a list (whose length fits an `i64`), `is_empty()` of a list or text, and
/// `display()` or `to_string()` of a scalar, which leave it as it is.
pub open spec fn apply_call(v: ValueSpec, name: Seq<char>) -> Option<ValueSpec> {
    if name == len_name() {
        match v {
            ValueSpec::List(items) => if items.len() <= i64::MAX {
                Some(ValueSpec::Int(items.len() as int))
            } else {
                None
            },
            _ => None,
        }
    } else if name == is_empty_name() {
        match v {
            ValueSpec::List(items) => Some(ValueSpec::Bool(items.len() == 0)),
            ValueSpec::Text(t) => Some(ValueSpec::Bool(t.len() == 0)),
            _ => None,
        }
    } else if name == display_name() || name == to_string_name() {
        match v {
            ValueSpec::Bool(_) | ValueSpec::Int(_) | ValueSpec::Text(_) => Some(v),
            _ => None,
        }
    } else {
        None
    }
}

/// A field step: a record's field by name, or a list's item by position.
pub open spec fn apply_field(v: ValueSpec, name: Seq<char>) -> Option<ValueSpec> {
    match v {
        ValueSpec::Record(keys, vals) => {
            let k = find_key(keys, name, 0);
            if 0 <= k < vals.len() {
                Some(vals[k])
            } else {
                None
            }
        },
        ValueSpec::List(items) => if is_number(name) && number_value(name) < items.len() {
            Some(items[number_value(name) as int])
        } else {
            None
        },
        _ => None,
    }
}

pub open spec fn apply_step(v: ValueSpec, st: StepSpec) -> Option<ValueSpec> {
    if st.call {
        apply_call(v, st.name)
    } else {
        apply_field(v, st.name)
    }
}

/// `v` after the steps, in order.
pub open spec fn apply_steps(v: ValueSpec, steps: Seq<StepSpec>) -> Option<ValueSpec>
    decreases steps.len(),
{
    if steps.len() == 0 {
        Some(v)
    } else {
        match apply_steps(v, steps.drop_last()) {
            Some(u) => apply_step(u, steps.last()),
            None => None,
        }
    }
}

/// The name that a template's data is bound to.
pub open spec fn self_name() -> Seq<char> {
    "self"@
}

/// The value a root name stands for: its innermost binding, else the field of
/// that name of the data bound to `self`.
pub open spec fn resolve_root(scope: Seq<(Seq<char>, ValueSpec)>, name: Seq<char>) -> Option<ValueSpec> {
    match lookup(scope, name) {
        Some(v) => Some(v),
        None => match lookup(scope, self_name()) {
            Some(data) => apply_field(data, name),
            None => None,
        },
    }
}

/// The value of a path in a scope.
pub open spec fn path_value(root: Seq<char>, steps: Seq<StepSpec>, scope: Seq<(Seq<char>, ValueSpec)>) -> Option<ValueSpec> {
    match resolve_root(scope, root) {
        Some(r) => apply_steps(r, steps),
        None => None,
    }
}

/// The value of the right side of a comparison.
pub open spec fn term_value(t: TermSpec, scope: Seq<(Seq<char>, ValueSpec)>) -> Option<ValueSpec> {
    match t {
        TermSpec::Path(root, steps) => path_value(root, steps, scope),
        TermSpec::Text(s) => Some(ValueSpec::Text(s)),
        TermSpec::Int(i) => Some(ValueSpec::Int(i)),
        TermSpec::Bool(b) => Some(ValueSpec::Bool(b)),
    }
}

/// A value that compares: `Null`, a boolean, an integer or text.
pub open spec fn is_scalar(v: ValueSpec) -> bool {
    match v {
        ValueSpec::List(_) | ValueSpec::Record(_, _) | ValueSpec::Markup(_) => false,
        _ => true,
    }
}

/// The value of an expression in a scope; `None` where evaluation fails.
pub open spec fn eval(e: ExprSpec, scope: Seq<(Seq<char>, ValueSpec)>) -> Option<ValueSpec> {
    match path_value(e.root, e.steps, scope) {
        Some(v) => {
            let u = if e.negated {
                match v {
                    ValueSpec::Bool(b) => Some(ValueSpec::Bool(!b)),
                    _ => None,
                }
            } else {
                Some(v)
            };
            match (u, e.compare) {
                (Some(x), Some((eq, t))) => match term_value(t, scope) {
                    Some(w) => if is_scalar(x) && is_scalar(w) {
                        Some(ValueSpec::Bool(if eq { x == w } else { x != w }))
                    } else {
                        None
                    },
                    None => None,
                },
                _ => u,
            }
        },
        None => None,
    }
}

pub open spec fn bool_text(b: bool) -> Seq<char> {
    if b {
        "true"@
    } else {
        "false"@
    }
}

/// The plain text of a scalar value, as used in attribute values.
pub open spec fn value_text(v: ValueSpec) -> Option<Seq<char>> {
    match v {
        ValueSpec::Null => Some(seq![]),
        ValueSpec::Bool(b) => Some(bool_text(b)),
        ValueSpec::Int(i) => Some(int_text(i)),
        ValueSpec::Text(t) => Some(t),
        _ => None,
    }
}

impl Value {
    /// A deep copy.
    pub fn duplicate(&self) -> (r: Value)
        ensures
            r@ == self@,
        decreases self,
    {
        match self {
            Value::Null => Value::Null,
            Value::Bool(b) => Value::Bool(*b),
            Value::Int(i) => Value::Int(*i),
            Value::Text(t) => Value::Text(t.clone()),
            Value::List(items) => Value::List(duplicate_all(items)),
            Value::Record(keys, vals) => {
                let mut ks: Vec<String> = Vec::new();
                let mut i: usize = 0;
                while i < keys.len()
                    invariant
                        i <= keys@.len(),
                        ks@ == keys@.subrange(0, i as int),
                    decreases keys@.len() - i,
                {
                    ks.push(keys[i].clone());
                    i = i + 1;
                    assert(ks@ =~= keys@.subrange(0, i as int));
                }
                assert(keys@.subrange(0, i as int) =~= keys@);
                Value::Record(ks, duplicate_all(vals))
            },
            Value::Markup(m) => Value::Markup(m.duplicate()),
        }
    }
}

/// Deep copies of each value.
pub fn duplicate_all(items: &Vec<Value>) -> (r: Vec<Value>)
    ensures
        values_view(r@) == values_view(items@),
    decreases items,
{
    let mut out: Vec<Value> = Vec::new();
    let mut i: usize = 0;
    proof {
        lemma_values_view(items@);
        lemma_values_view(out@);
    }
    while i < items.len()
        invariant
            i <= items@.len(),
            out@.len() == i,
            values_view(items@).len() == items@.len(),
            forall|j: int| 0 <= j < items@.len() ==> #[trigger] values_view(items@)[j] == value_view(items@[j]),
            forall|j: int| 0 <= j < i ==> value_view(#[trigger] out@[j]) == value_view(items@[j]),
        decreases items@.len() - i,
    {
        assert(decreases_to!(items => items@[i as int]));
        let d = items[i].duplicate();
        out.push(d);
        i = i + 1;
    }
    proof {
        lemma_values_view(out@);
    }
    assert(values_view(out@) =~= values_view(items@));
    out
}

} // verus!

verus! {

fn lookup_exec(scope: &Vec<(String, Value)>, name: &String) -> (r: Option<usize>)
    ensures
        match r {
            Some(k) => k < scope@.len() && lookup(scope_view(scope@), name@) == Some(scope@[k as int].1@),
            None => lookup(scope_view(scope@), name@) is None,
        },
{
    let ghost sv = scope_view(scope@);
    let mut k = scope.len();
    assert(sv.subrange(0, k as int) =~= sv);
    while k > 0
        invariant
            k <= scope@.len(),
            sv == scope_view(scope@),
            lookup(sv, name@) == lookup(sv.subrange(0, k as int), name@),
        decreases k,
    {
        let ghost pre = sv.subrange(0, k as int);
        assert(pre.drop_last() =~= sv.subrange(0, k - 1));
        assert(pre.last() == (scope@[k - 1].0@, scope@[k - 1].1@));
        if scope[k - 1].0 == *name {
            return Some(k - 1);
        }
        k = k - 1;
    }
    None
}

fn find_key_exec(keys: &Vec<String>, name: &String) -> (r: Option<usize>)
    ensures
        match r {
            Some(k) => k < keys@.len() && find_key(keys_view(keys@), name@, 0) == k,
            None => find_key(keys_view(keys@), name@, 0) < 0,
        },
{
    let ghost kv = keys_view(keys@);
    let mut k: usize = 0;
    while k < keys.len()
        invariant
            k <= keys@.len(),
            kv == keys_view(keys@),
            find_key(kv, name@, 0) == find_key(kv, name@, k as int),
        decreases keys@.len() - k,
    {
        if keys[k] == *name {
            return Some(k);
        }
        k = k + 1;
    }
    None
}

fn parse_index(name: &String, limit: usize) -> (r: Option<usize>)
    ensures
        match r {
            Some(k) => is_number(name@) && number_value(name@) == k && k < limit,
            None => !(is_number(name@) && number_value(name@) < limit),
        },
{
    let cs = chars_of(name.as_str());
    match parse_number(&cs, limit as u64) {
        Some(k) => Some(k as usize),
        None => None,
    }
}

fn field_ref<'a>(v: &'a Value, name: &String) -> (r: Option<&'a Value>)
    ensures
        match r {
            Some(x) => apply_field(v@, name@) == Some(x@),
            None => apply_field(v@, name@) is None,
        },
{
    match v {
        Value::Record(keys, vals) => {
            proof {
                lemma_values_view(vals@);
            }
            match find_key_exec(keys, name) {
                Some(k) => if k < vals.len() {
                    Some(&vals[k])
                } else {
                    None
                },
                None => None,
            }
        },
        Value::List(items) => {
            proof {
                lemma_values_view(items@);
            }
            match parse_index(name, items.len()) {
                Some(k) => Some(&items[k]),
                None => None,
            }
        },
        _ => None,
    }
}

fn call_exec(v: &Value, name: &String) -> (r: Option<Value>)
    ensures
        match r {
            Some(x) => apply_call(v@, name@) == Some(x@),
            None => apply_call(v@, name@) is None,
        },
{
    let n = chars_of(name.as_str());
    let len_lit = chars_of("len");
    let empty_lit = chars_of("is_empty");
    let display_lit = chars_of("display");
    let to_string_lit = chars_of("to_string");
    if crate::text::same_chars(&n, &len_lit) {
        match v {
            Value::List(items) => {
                proof {
                    lemma_values_view(items@);
                }
                let n = items.len() as u64;
                if n <= 0x7fff_ffff_ffff_ffffu64 {
                    Some(Value::Int(n as i64))
                } else {
                    None
                }
            },
            _ => None,
        }
    } else if crate::text::same_chars(&n, &empty_lit) {
        match v {
            Value::List(items) => {
                proof {
                    lemma_values_view(items@);
                }
                Some(Value::Bool(items.len() == 0))
            },
            Value::Text(t) => Some(Value::Bool(t.as_str().unicode_len() == 0)),
            _ => None,
        }
    } else if crate::text::same_chars(&n, &display_lit) || crate::text::same_chars(&n, &to_string_lit) {
        match v {
            Value::Bool(_) | Value::Int(_) | Value::Text(_) => Some(v.duplicate()),
            _ => None,
        }
    } else {
        None
    }
}

proof fn lemma_steps_none(v: ValueSpec, steps: Seq<StepSpec>, k: int)
    requires
        0 <= k <= steps.len(),
        apply_steps(v, steps.subrange(0, k)) is None,
    ensures
        apply_steps(v, steps) is None,
    decreases steps.len() - k,
{
    if k == steps.len() {
        assert(steps.subrange(0, k) =~= steps);
    } else {
        assert(steps.subrange(0, k + 1).drop_last() =~= steps.subrange(0, k));
        lemma_steps_none(v, steps, k + 1);
    }
}

/// Where a root name's value is: the binding at index `k`, or a field of the
/// data bound to `self`.
fn resolve_root_exec<'a>(scope: &'a Vec<(String, Value)>, name: &String) -> (r: Option<(usize, Option<&'a Value>)>)
    ensures
        match r {
            Some((k, None)) => k < scope@.len() && resolve_root(scope_view(scope@), name@) == Some(scope@[k as int].1@),
            Some((_, Some(v))) => resolve_root(scope_view(scope@), name@) == Some(v@),
            None => resolve_root(scope_view(scope@), name@) is None,
        },
{
    match lookup_exec(scope, name) {
        Some(k) => Some((k, None)),
        None => {
            let self_text = "self".to_owned();
            match lookup_exec(scope, &self_text) {
                Some(j) => match field_ref(&scope[j].1, name) {
                    Some(v) => Some((j, Some(v))),
                    None => None,
                },
                None => None,
            }
        },
    }
}

/// Evaluates a path in a scope.
fn eval_path(root_name: &String, path: &Vec<Step>, scope: &Vec<(String, Value)>) -> (r: Option<Value>)
    ensures
        match r {
            Some(x) => path_value(root_name@, crate::expr::steps_view(path@), scope_view(scope@)) == Some(x@),
            None => path_value(root_name@, crate::expr::steps_view(path@), scope_view(scope@)) is None,
        },
{
    let (k, field) = match resolve_root_exec(scope, root_name) {
        Some(found) => found,
        None => {
            return None;
        },
    };
    let ghost root = resolve_root(scope_view(scope@), root_name@)->0;
    let ghost steps = crate::expr::steps_view(path@);
    let mut cur: &Value = match field {
        None => &scope[k].1,
        Some(f) => f,
    };
    let mut i: usize = 0;
    assert(steps.subrange(0, 0) =~= seq![]);
    while i < path.len() && !path[i].call
        invariant
            i <= path@.len(),
            steps == crate::expr::steps_view(path@),
            steps.len() == path@.len(),
            resolve_root(scope_view(scope@), root_name@) == Some(root),
            apply_steps(root, steps.subrange(0, i as int)) == Some(cur@),
        decreases path@.len() - i,
    {
        assert(steps.subrange(0, i + 1).drop_last() =~= steps.subrange(0, i as int));
        assert(steps[i as int] == path@[i as int]@);
        match field_ref(cur, &path[i].name) {
            Some(x) => {
                cur = x;
            },
            None => {
                proof {
                    lemma_steps_none(root, steps, i + 1);
                }
                return None;
            },
        }
        i = i + 1;
    }
    let mut val = cur.duplicate();
    while i < path.len()
        invariant
            i <= path@.len(),
            steps == crate::expr::steps_view(path@),
            steps.len() == path@.len(),
            resolve_root(scope_view(scope@), root_name@) == Some(root),
            apply_steps(root, steps.subrange(0, i as int)) == Some(val@),
        decreases path@.len() - i,
    {
        assert(steps.subrange(0, i + 1).drop_last() =~= steps.subrange(0, i as int));
        assert(steps[i as int] == path@[i as int]@);
        let st = &path[i];
        let next = if st.call {
            call_exec(&val, &st.name)
        } else {
            match field_ref(&val, &st.name) {
                Some(x) => Some(x.duplicate()),
                None => None,
            }
        };
        match next {
            Some(x) => {
                val = x;
            },
            None => {
                proof {
                    lemma_steps_none(root, steps, i + 1);
                }
                return None;
            },
        }
        i = i + 1;
    }
    assert(steps.subrange(0, i as int) =~= steps);
    Some(val)
}

fn scalar_eq(a: &Value, b: &Value) -> (r: bool)
    requires
        is_scalar(a@),
        is_scalar(b@),
    ensures
        r == (a@ == b@),
{
    match (a, b) {
        (Value::Null, Value::Null) => true,
        (Value::Bool(x), Value::Bool(y)) => *x == *y,
        (Value::Int(x), Value::Int(y)) => *x == *y,
        (Value::Text(x), Value::Text(y)) => *x == *y,
        _ => false,
    }
}

fn is_scalar_exec(v: &Value) -> (r: bool)
    ensures
        r == is_scalar(v@),
{
    match v {
        Value::List(_) | Value::Record(_, _) | Value::Markup(_) => false,
        _ => true,
    }
}

/// Evaluates an expression in a scope; `None` where evaluation fails.
pub fn eval_exec(e: &Expr, scope: &Vec<(String, Value)>) -> (r: Option<Value>)
    ensures
        match r {
            Some(x) => eval(e@, scope_view(scope@)) == Some(x@),
            None => eval(e@, scope_view(scope@)) is None,
        },
{
    let v = match eval_path(&e.root, &e.steps, scope) {
        Some(v) => v,
        None => {
            return None;
        },
    };
    let u = if e.negated {
        match v {
            Value::Bool(b) => Value::Bool(!b),
            _ => {
                return None;
            },
        }
    } else {
        v
    };
    match &e.compare {
        None => Some(u),
        Some((eq, t)) => {
            let w = match t {
                Term::Path(root, steps) => match eval_path(root, steps, scope) {
                    Some(w) => w,
                    None => {
                        return None;
                    },
                },
                Term::Text(s) => Value::Text(s.clone()),
                Term::Int(i) => Value::Int(*i),
                Term::Bool(b) => Value::Bool(*b),
            };
            if !is_scalar_exec(&u) || !is_scalar_exec(&w) {
                return None;
            }
            let same = scalar_eq(&u, &w);
            Some(Value::Bool(if *eq { same } else { !same }))
        },
    }
}
} // verus!
