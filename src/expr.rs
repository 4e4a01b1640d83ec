//! The expression sub-language of placeholders and directives.
//!
//! An expression is an optional `!` followed by a dotted path: a root name,
//! then steps that are field names, list positions (digits) or calls of a
//! named method without arguments, as in `!self.items.0.is_empty()`. A path
//! without `!` may be compared with `==` or `!=` to a term: a quoted string, a
//! decimal number, `true`, `false` or another such path.
use vstd::prelude::*;
use crate::text::{slice_chars, string_of, trim, trim_bounds};

verus! {

/// One step of a path, as text.
pub struct StepSpec {
    pub name: Seq<char>,
    pub call: bool,
}

/// The right side of a comparison, as text.
pub enum TermSpec {
    Path(Seq<char>, Seq<StepSpec>),
    Text(Seq<char>),
    Int(int),
    Bool(bool),
}

/// A parsed expression, as text. `compare` holds `(true, t)` for `== t` and
/// `(false, t)` for `!= t`.
pub struct ExprSpec {
    pub negated: bool,
    pub root: Seq<char>,
    pub steps: Seq<StepSpec>,
    pub compare: Option<(bool, TermSpec)>,
}

/// One step of a path: a field or position, or a call when `call` holds.
#[derive(Debug)]
pub struct Step {
    pub name: String,
    pub call: bool,
}

/// The right side of a comparison.
#[derive(Debug)]
pub enum Term {
    Path(String, Vec<Step>),
    Text(String),
    Int(i64),
    Bool(bool),
}

/// A parsed expression.
#[derive(Debug)]
pub struct Expr {
    pub negated: bool,
    pub root: String,
    pub steps: Vec<Step>,
    /// `(true, t)` for `== t`, `(false, t)` for `!= t`.
    pub compare: Option<(bool, Term)>,
}

impl View for Step {
    type V = StepSpec;

    open spec fn view(&self) -> StepSpec {
        StepSpec { name: self.name@, call: self.call }
    }
}

/// The views of a sequence of steps.
pub open spec fn steps_view(s: Seq<Step>) -> Seq<StepSpec> {
    s.map_values(|st: Step| st@)
}

impl View for Term {
    type V = TermSpec;

    open spec fn view(&self) -> TermSpec {
        match self {
            Term::Path(root, steps) => TermSpec::Path(root@, steps_view(steps@)),
            Term::Text(t) => TermSpec::Text(t@),
            Term::Int(i) => TermSpec::Int(*i as int),
            Term::Bool(b) => TermSpec::Bool(*b),
        }
    }
}

impl View for Expr {
    type V = ExprSpec;

    open spec fn view(&self) -> ExprSpec {
        ExprSpec {
            negated: self.negated,
            root: self.root@,
            steps: steps_view(self.steps@),
            compare: match self.compare {
                Some((eq, t)) => Some((eq, t@)),
                None => None,
            },
        }
    }
}

pub open spec fn is_alpha(c: char) -> bool {
    ('a' as u32 <= c as u32 <= 'z' as u32) || ('A' as u32 <= c as u32 <= 'Z' as u32) || c == '_'
}

pub open spec fn is_digit(c: char) -> bool {
    '0' as u32 <= c as u32 <= '9' as u32
}

/// A name: a letter or `_`, then letters, digits or `_`.
pub open spec fn is_ident(x: Seq<char>) -> bool {
    x.len() > 0 && is_alpha(x[0]) && forall|k: int| 0 <= k < x.len() ==> is_alpha(#[trigger] x[k]) || is_digit(x[k])
}

/// A position: one or more digits.
pub open spec fn is_number(x: Seq<char>) -> bool {
    x.len() > 0 && forall|k: int| 0 <= k < x.len() ==> is_digit(#[trigger] x[k])
}

/// The step that the text between two dots stands for.
pub open spec fn step_of(piece: Seq<char>) -> Option<StepSpec> {
    let n = piece.len() as int;
    if n >= 2 && piece[n - 2] == '(' && piece[n - 1] == ')' {
        let name = piece.subrange(0, n - 2);
        if is_ident(name) { Some(StepSpec { name, call: true }) } else { None }
    } else if is_ident(piece) || is_number(piece) {
        Some(StepSpec { name: piece, call: false })
    } else {
        None
    }
}

/// `Some(a + r)` for `Some(r)`, and `None` for `None`.
pub open spec fn prepend<T>(a: Seq<T>, r: Option<Seq<T>>) -> Option<Seq<T>> {
    match r {
        Some(rest) => Some(a + rest),
        None => None,
    }
}

/// The steps of `t` from position `i` on, where the current piece starts at `start`.
pub open spec fn pieces_from(t: Seq<char>, start: int, i: int) -> Option<Seq<StepSpec>>
    decreases t.len() - i,
{
    if i < 0 || i >= t.len() || start > i {
        match step_of(t.subrange(start, t.len() as int)) {
            Some(st) => Some(seq![st]),
            None => None,
        }
    } else if t[i] == '.' {
        match step_of(t.subrange(start, i)) {
            Some(st) => prepend(seq![st], pieces_from(t, i + 1, i + 1)),
            None => None,
        }
    } else {
        pieces_from(t, start, i + 1)
    }
}

/// The path, with an optional leading `!`, that the text `t` stands for.
pub open spec fn path_of(t: Seq<char>) -> Option<ExprSpec> {
    let neg = t.len() > 0 && t[0] == '!';
    let s0: int = if neg { 1 } else { 0 };
    match pieces_from(t, s0, s0) {
        Some(steps) => if steps.len() > 0 && !steps[0].call && is_ident(steps[0].name) {
            Some(ExprSpec { negated: neg, root: steps[0].name, steps: steps.drop_first(), compare: None })
        } else {
            None
        },
        None => None,
    }
}

pub fn is_alpha_exec(c: char) -> (r: bool)
    ensures
        r == is_alpha(c),
{
    let u = c as u32;
    ('a' as u32 <= u && u <= 'z' as u32) || ('A' as u32 <= u && u <= 'Z' as u32) || c == '_'
}

pub fn is_digit_exec(c: char) -> (r: bool)
    ensures
        r == is_digit(c),
{
    let u = c as u32;
    '0' as u32 <= u && u <= '9' as u32
}

fn is_ident_range(t: &Vec<char>, lo: usize, hi: usize) -> (r: bool)
    requires
        lo <= hi <= t@.len(),
    ensures
        r == is_ident(t@.subrange(lo as int, hi as int)),
{
    let ghost x = t@.subrange(lo as int, hi as int);
    if lo == hi || !is_alpha_exec(t[lo]) {
        return false;
    }
    let mut k = lo;
    while k < hi
        invariant
            lo <= k <= hi <= t@.len(),
            x == t@.subrange(lo as int, hi as int),
            forall|m: int| 0 <= m < k - lo ==> is_alpha(#[trigger] x[m]) || is_digit(x[m]),
        decreases hi - k,
    {
        if !is_alpha_exec(t[k]) && !is_digit_exec(t[k]) {
            assert(x[k - lo] == t@[k as int]);
            return false;
        }
        assert(x[k - lo] == t@[k as int]);
        k = k + 1;
    }
    true
}

fn is_number_range(t: &Vec<char>, lo: usize, hi: usize) -> (r: bool)
    requires
        lo <= hi <= t@.len(),
    ensures
        r == is_number(t@.subrange(lo as int, hi as int)),
{
    let ghost x = t@.subrange(lo as int, hi as int);
    if lo == hi {
        return false;
    }
    let mut k = lo;
    while k < hi
        invariant
            lo <= k <= hi <= t@.len(),
            x == t@.subrange(lo as int, hi as int),
            forall|m: int| 0 <= m < k - lo ==> is_digit(#[trigger] x[m]),
        decreases hi - k,
    {
        if !is_digit_exec(t[k]) {
            assert(x[k - lo] == t@[k as int]);
            return false;
        }
        assert(x[k - lo] == t@[k as int]);
        k = k + 1;
    }
    true
}

fn step_from(t: &Vec<char>, lo: usize, hi: usize) -> (r: Option<Step>)
    requires
        lo <= hi <= t@.len(),
    ensures
        match r {
            Some(st) => step_of(t@.subrange(lo as int, hi as int)) == Some(st@),
            None => step_of(t@.subrange(lo as int, hi as int)) is None,
        },
{
    let ghost piece = t@.subrange(lo as int, hi as int);
    if hi - lo >= 2 && t[hi - 2] == '(' && t[hi - 1] == ')' {
        assert(piece[piece.len() - 2] == t@[hi - 2]);
        assert(piece[piece.len() - 1] == t@[hi - 1]);
        assert(piece.subrange(0, piece.len() - 2) =~= t@.subrange(lo as int, hi - 2));
        if is_ident_range(t, lo, hi - 2) {
            Some(Step { name: string_of(t, lo, hi - 2), call: true })
        } else {
            None
        }
    } else {
        assert(!(piece.len() >= 2 && piece[piece.len() - 2] == '(' && piece[piece.len() - 1] == ')')) by {
            if piece.len() >= 2 {
                assert(piece[piece.len() - 2] == t@[hi - 2]);
                assert(piece[piece.len() - 1] == t@[hi - 1]);
            }
        }
        if is_ident_range(t, lo, hi) || is_number_range(t, lo, hi) {
            Some(Step { name: string_of(t, lo, hi), call: false })
        } else {
            None
        }
    }
}

/// Parses `t` as a path with an optional leading `!`.
pub fn parse_path(t: &Vec<char>) -> (r: Option<Expr>)
    ensures
        match r {
            Some(e) => path_of(t@) == Some(e@),
            None => path_of(t@) is None,
        },
{
    let neg = t.len() > 0 && t[0] == '!';
    let s0: usize = if neg { 1 } else { 0 };
    let mut steps: Vec<Step> = Vec::new();
    let mut start = s0;
    let mut i = s0;
    while i < t.len()
        invariant
            s0 <= start <= i <= t@.len(),
            s0 == (if neg { 1int } else { 0int }),
            neg == (t@.len() > 0 && t@[0] == '!'),
            pieces_from(t@, s0 as int, s0 as int) == prepend(steps_view(steps@), pieces_from(t@, start as int, i as int)),
        decreases t@.len() - i,
    {
        if t[i] == '.' {
            match step_from(t, start, i) {
                Some(st) => {
                    let ghost old_steps = steps@;
                    steps.push(st);
                    assert(steps_view(steps@) =~= steps_view(old_steps) + seq![st@]);
                    assert(steps_view(old_steps) + (seq![st@] + pieces_from(t@, i + 1, i + 1)->0)
                        =~= steps_view(steps@) + pieces_from(t@, i + 1, i + 1)->0);
                    start = i + 1;
                },
                None => {
                    assert(pieces_from(t@, start as int, i as int) is None);
                    assert(pieces_from(t@, s0 as int, s0 as int) is None);
                    return None;
                },
            }
        }
        i = i + 1;
    }
    match step_from(t, start, t.len()) {
        Some(st) => {
            let ghost old_steps = steps@;
            steps.push(st);
            assert(steps_view(steps@) =~= steps_view(old_steps) + seq![st@]);
        },
        None => {
            return None;
        },
    }
    let ghost all = steps_view(steps@);
    assert(pieces_from(t@, s0 as int, s0 as int) == Some(all));
    if steps[0].call || !is_ident_range_str(&steps[0].name) {
        return None;
    }
    let root = steps.remove(0);
    assert(steps_view(steps@) =~= all.drop_first());
    Some(Expr { negated: neg, root: root.name, steps, compare: None })
}

/// Whether the characters `t` form a name.
pub fn is_ident_exec(t: &Vec<char>) -> (r: bool)
    ensures
        r == is_ident(t@),
{
    assert(t@.subrange(0, t@.len() as int) =~= t@);
    is_ident_range(t, 0, t.len())
}

fn is_ident_range_str(s: &String) -> (r: bool)
    ensures
        r == is_ident(s@),
{
    let cs = crate::text::chars_of(s.as_str());
    assert(cs@.subrange(0, cs@.len() as int) =~= s@);
    is_ident_range(&cs, 0, cs.len())
}


/// The first `k >= from` where `==` or `!=` starts, or -1.
pub open spec fn find_op(t: Seq<char>, from: int) -> int
    decreases t.len() - from,
{
    if from < 0 || from + 1 >= t.len() {
        -1
    } else if (t[from] == '=' || t[from] == '!') && t[from + 1] == '=' {
        from
    } else {
        find_op(t, from + 1)
    }
}

/// The number that a run of digits stands for.
pub open spec fn number_value(s: Seq<char>) -> nat
    decreases s.len(),
{
    if s.len() == 0 {
        0
    } else {
        number_value(s.drop_last()) * 10 + digit_value(s.last())
    }
}

pub open spec fn digit_value(c: char) -> nat {
    (c as u32 - '0' as u32) as nat
}

/// The largest number an `i64` holds.
pub open spec fn max_int() -> int {
    0x7fff_ffff_ffff_ffff
}

/// The term that the text `u` stands for: a quoted string without quotes
/// inside, a number that fits an `i64`, `true`, `false`, or a path.
pub open spec fn term_of(u: Seq<char>) -> Option<TermSpec> {
    if u.len() >= 2 && u[0] == '"' && u[u.len() - 1] == '"' {
        let body = u.subrange(1, u.len() - 1);
        if forall|k: int| 0 <= k < body.len() ==> body[k] != '"' {
            Some(TermSpec::Text(body))
        } else {
            None
        }
    } else if is_number(u) {
        if number_value(u) <= max_int() {
            Some(TermSpec::Int(number_value(u) as int))
        } else {
            None
        }
    } else if u == "true"@ {
        Some(TermSpec::Bool(true))
    } else if u == "false"@ {
        Some(TermSpec::Bool(false))
    } else {
        match path_of(u) {
            Some(p) => if p.negated {
                None
            } else {
                Some(TermSpec::Path(p.root, p.steps))
            },
            None => None,
        }
    }
}

/// The expression that the text `t` stands for, if it is one.
pub open spec fn expr_of(t: Seq<char>) -> Option<ExprSpec> {
    let k = find_op(t, 0);
    if k < 0 {
        path_of(t)
    } else {
        match path_of(trim(t.subrange(0, k))) {
            Some(p) => if p.negated {
                None
            } else {
                match term_of(trim(t.subrange(k + 2, t.len() as int))) {
                    Some(term) => Some(ExprSpec { negated: false, root: p.root, steps: p.steps, compare: Some((t[k] == '=', term)) }),
                    None => None,
                }
            },
            None => None,
        }
    }
}

fn find_op_exec(t: &Vec<char>) -> (r: Option<usize>)
    ensures
        match r {
            Some(k) => k == find_op(t@, 0) && k + 1 < t@.len(),
            None => find_op(t@, 0) < 0,
        },
{
    let n = t.len();
    if n < 2 {
        return None;
    }
    let mut k: usize = 0;
    while k < n - 1
        invariant
            n == t@.len(),
            n >= 2,
            k <= n - 1,
            find_op(t@, 0) == find_op(t@, k as int),
        decreases n - k,
    {
        if (t[k] == '=' || t[k] == '!') && t[k + 1] == '=' {
            return Some(k);
        }
        k = k + 1;
    }
    None
}

proof fn lemma_number_grows(s: Seq<char>, k: int)
    requires
        0 <= k <= s.len(),
    ensures
        number_value(s) >= number_value(s.subrange(0, k)),
    decreases s.len(),
{
    if k == s.len() {
        assert(s.subrange(0, k) =~= s);
    } else {
        lemma_number_grows(s.drop_last(), k);
        assert(s.drop_last().subrange(0, k) =~= s.subrange(0, k));
    }
}

/// Reads the digits `s` as a number below `limit`; `None` when `s` is not a
/// run of digits or its number is not below `limit`.
pub fn parse_number(s: &Vec<char>, limit: u64) -> (r: Option<u64>)
    ensures
        match r {
            Some(k) => is_number(s@) && number_value(s@) == k && k < limit,
            None => !(is_number(s@) && number_value(s@) < limit),
        },
{
    if s.len() == 0 {
        return None;
    }
    let mut acc: u64 = 0;
    let mut i: usize = 0;
    assert(s@.subrange(0, 0) =~= Seq::<char>::empty());
    while i < s.len()
        invariant
            i <= s@.len(),
            acc == number_value(s@.subrange(0, i as int)),
            acc < limit || i == 0,
            forall|j: int| 0 <= j < i ==> is_digit(#[trigger] s@[j]),
        decreases s@.len() - i,
    {
        if !is_digit_exec(s[i]) {
            return None;
        }
        let d = (s[i] as u32 - '0' as u32) as u64;
        let nv: u128 = acc as u128 * 10 + d as u128;
        assert(s@.subrange(0, i + 1).drop_last() =~= s@.subrange(0, i as int));
        assert(nv == number_value(s@.subrange(0, i + 1)));
        if nv >= limit as u128 {
            proof {
                lemma_number_grows(s@, i + 1);
            }
            return None;
        }
        acc = nv as u64;
        i = i + 1;
    }
    assert(s@.subrange(0, i as int) =~= s@);
    if acc >= limit {
        return None;
    }
    Some(acc)
}

fn parse_term(u: &Vec<char>) -> (r: Option<Term>)
    ensures
        match r {
            Some(t) => term_of(u@) == Some(t@),
            None => term_of(u@) is None,
        },
{
    let n = u.len();
    if n >= 2 && u[0] == '"' && u[n - 1] == '"' {
        let ghost body = u@.subrange(1, n - 1);
        let mut k: usize = 1;
        while k < n - 1
            invariant
                n == u@.len(),
                n >= 2,
                1 <= k <= n - 1,
                u@[0] == '"',
                u@[n - 1] == '"',
                body == u@.subrange(1, n - 1),
                forall|m: int| 0 <= m < k - 1 ==> body[m] != '"',
            decreases n - k,
        {
            if u[k] == '"' {
                assert(body[k - 1] == u@[k as int]);
                assert(!(forall|m: int| 0 <= m < body.len() ==> body[m] != '"'));
                return None;
            }
            assert(body[k - 1] == u@[k as int]);
            k = k + 1;
        }
        return Some(Term::Text(string_of(u, 1, n - 1)));
    }
    if is_number_range(u, 0, n) {
        assert(u@.subrange(0, n as int) =~= u@);
        return match parse_number(u, 0x8000_0000_0000_0000u64) {
            Some(v) => Some(Term::Int(v as i64)),
            None => None,
        };
    }
    assert(u@.subrange(0, n as int) =~= u@);
    if crate::text::same_chars(u, &crate::text::chars_of("true")) {
        return Some(Term::Bool(true));
    }
    if crate::text::same_chars(u, &crate::text::chars_of("false")) {
        return Some(Term::Bool(false));
    }
    match parse_path(u) {
        Some(p) => if p.negated {
            None
        } else {
            Some(Term::Path(p.root, p.steps))
        },
        None => None,
    }
}

/// Parses `t` as an expression; `None` when it is not one.
pub fn parse_expr(t: &Vec<char>) -> (r: Option<Expr>)
    ensures
        match r {
            Some(e) => expr_of(t@) == Some(e@),
            None => expr_of(t@) is None,
        },
{
    let n = t.len();
    let k = match find_op_exec(t) {
        Some(k) => k,
        None => {
            return parse_path(t);
        },
    };
    let left_all = slice_chars(t, 0, k);
    let (a, b) = trim_bounds(&left_all);
    let left = slice_chars(&left_all, a, b);
    let right_all = slice_chars(t, k + 2, n);
    let (c, d) = trim_bounds(&right_all);
    let right = slice_chars(&right_all, c, d);
    let eq = t[k] == '=';
    match parse_path(&left) {
        Some(p) => {
            if p.negated {
                return None;
            }
            match parse_term(&right) {
                Some(term) => Some(Expr { negated: false, root: p.root, steps: p.steps, compare: Some((eq, term)) }),
                None => None,
            }
        },
        None => None,
    }
}

} // verus!
