//! Splitting a string into literal runs and `{{ expression }}` placeholders.
use vstd::prelude::*;
use crate::error::DirectiveParseError;
use crate::expr::{expr_of, parse_expr, prepend, Expr, ExprSpec};
use crate::text::{chars_of, slice_chars, string_of, trim, trim_bounds};

verus! {

/// A segment, as text.
pub enum SegSpec {
    Literal(Seq<char>),
    Expr(ExprSpec),
}

/// A run of literal text, or a placeholder's expression.
#[derive(Debug)]
pub enum Segment {
    Literal(String),
    Expr(Expr),
}

impl View for Segment {
    type V = SegSpec;

    open spec fn view(&self) -> SegSpec {
        match self {
            Segment::Literal(s) => SegSpec::Literal(s@),
            Segment::Expr(e) => SegSpec::Expr(e@),
        }
    }
}

pub open spec fn segs_view(s: Seq<Segment>) -> Seq<SegSpec> {
    s.map_values(|x: Segment| x@)
}

/// A string split into segments.
#[derive(Debug)]
pub struct Substitutable {
    pub children: Vec<Segment>,
}

impl Substitutable {
    /// The segments, in order.
    pub fn children(&self) -> (r: &Vec<Segment>)
        ensures
            r@ == self.children@,
    {
        &self.children
    }
}

/// No segment for empty text, else one literal.
pub open spec fn lit(x: Seq<char>) -> Seq<SegSpec> {
    if x.len() == 0 {
        seq![]
    } else {
        seq![SegSpec::Literal(x)]
    }
}

/// The first `k >= from` where `a` is followed by `b`, or -1.
pub open spec fn find_pair(s: Seq<char>, a: char, b: char, from: int) -> int
    decreases s.len() - from,
{
    if from < 0 || from + 1 >= s.len() {
        -1
    } else if s[from] == a && s[from + 1] == b {
        from
    } else {
        find_pair(s, a, b, from + 1)
    }
}

/// The segments of `s[pos..]`: each `{{` and the first `}}` after it enclose a
/// placeholder, whose trimmed text must be an expression; the runs between
/// placeholders are literals, and empty runs are dropped.
pub open spec fn scan_from(s: Seq<char>, pos: int) -> Option<Seq<SegSpec>>
    decreases s.len() - pos,
{
    if pos < 0 || pos > s.len() {
        None
    } else {
        let i = find_pair(s, '{', '{', pos);
        let j = find_pair(s, '}', '}', i + 2);
        if i < pos || j < i + 2 || j + 2 > s.len() {
            Some(lit(s.subrange(pos, s.len() as int)))
        } else {
            match expr_of(trim(s.subrange(i + 2, j))) {
                Some(e) => prepend(lit(s.subrange(pos, i)) + seq![SegSpec::Expr(e)], scan_from(s, j + 2)),
                None => None,
            }
        }
    }
}

/// The segments of `s`, or `None` when a placeholder holds no valid expression.
pub open spec fn segments_of(s: Seq<char>) -> Option<Seq<SegSpec>> {
    scan_from(s, 0)
}

fn find_pair_exec(s: &Vec<char>, a: char, b: char, from: usize) -> (r: Option<usize>)
    ensures
        match r {
            Some(k) => k == find_pair(s@, a, b, from as int) && from <= k && k + 1 < s@.len(),
            None => find_pair(s@, a, b, from as int) < 0,
        },
{
    if from >= s.len() {
        return None;
    }
    let n = s.len();
    let mut k = from;
    while k < n - 1
        invariant
            n == s@.len(),
            from <= k < n,
            find_pair(s@, a, b, from as int) == find_pair(s@, a, b, k as int),
        decreases s@.len() - k,
    {
        if s[k] == a && s[k + 1] == b {
            return Some(k);
        }
        k = k + 1;
    }
    None
}

/// Splits the characters `s` into segments; `None` when a placeholder holds no
/// valid expression.
pub fn scan_chars(s: &Vec<char>) -> (r: Option<Vec<Segment>>)
    ensures
        match r {
            Some(v) => segments_of(s@) == Some(segs_view(v@)),
            None => segments_of(s@) is None,
        },
{
    let n = s.len();
    let mut out: Vec<Segment> = Vec::new();
    let mut pos: usize = 0;
    loop
        invariant
            n == s@.len(),
            pos <= s@.len(),
            segments_of(s@) == prepend(segs_view(out@), scan_from(s@, pos as int)),
        decreases s@.len() - pos,
    {
        let ghost old_out = out@;
        let opt_i = find_pair_exec(s, '{', '{', pos);
        let opt_j = match opt_i {
            Some(i) => find_pair_exec(s, '}', '}', i + 2),
            None => None,
        };
        if opt_i.is_none() || opt_j.is_none() {
            proof {
                if opt_i.is_some() {
                    let i = opt_i->0;
                    assert(find_pair(s@, '}', '}', i + 2) < 0);
                }
            }
            if pos < s.len() {
                out.push(Segment::Literal(string_of(s, pos, s.len())));
            }
            assert(segs_view(out@) =~= segs_view(old_out) + lit(s@.subrange(pos as int, s@.len() as int)));
            return Some(out);
        }
        let i = opt_i.unwrap();
        let j = opt_j.unwrap();
        let inner = slice_chars(s, i + 2, j);
        let (a, b) = trim_bounds(&inner);
        let t = slice_chars(&inner, a, b);
        match parse_expr(&t) {
            None => {
                return None;
            },
            Some(e) => {
                if i > pos {
                    out.push(Segment::Literal(string_of(s, pos, i)));
                }
                assert(segs_view(out@) =~= segs_view(old_out) + lit(s@.subrange(pos as int, i as int)));
                let ghost mid = out@;
                out.push(Segment::Expr(e));
                assert(segs_view(out@) =~= segs_view(mid) + seq![SegSpec::Expr(e@)]);
                proof {
                    let rest = scan_from(s@, j + 2);
                    let pre = lit(s@.subrange(pos as int, i as int)) + seq![SegSpec::Expr(e@)];
                    if rest is Some {
                        assert(segs_view(old_out) + (pre + rest->0) =~= segs_view(out@) + rest->0);
                    }
                }
                pos = j + 2;
            },
        }
    }
}

/// Splits `input` into literal runs and placeholder expressions.
pub fn parse_inline(input: &str) -> (r: Result<Substitutable, DirectiveParseError>)
    ensures
        match r {
            Ok(v) => segments_of(input@) == Some(segs_view(v.children@)),
            Err(e) => segments_of(input@) is None && e.text@ == input@,
        },
{
    let cs = chars_of(input);
    match scan_chars(&cs) {
        Some(children) => Ok(Substitutable { children }),
        None => Err(DirectiveParseError { text: input.to_owned() }),
    }
}

} // verus!
