//! Sorting an element's attributes into directives and plain attributes.
use vstd::prelude::*;
use crate::error::{CompileError, DirectiveParseError};
use crate::expr::{expr_of, is_ident, parse_expr, Expr, ExprSpec};
use crate::plan::{attrs_view, source_attrs_view, Attribute, SourceAttr};
use crate::scan::{parse_inline, segments_of, SegSpec};
use crate::text::{chars_of, same_chars, is_space, is_space_exec, skip_spaces, slice_chars, trim, trim_bounds};

verus! {

/// The attribute that replaces the whole element with a value.
pub open spec fn replace_name() -> Seq<char> {
    "weft-replace"@
}

/// The attribute that replaces the element's children with a value.
pub open spec fn content_name() -> Seq<char> {
    "weft-content"@
}

/// The attribute that keeps the element only where a condition holds.
pub open spec fn if_name() -> Seq<char> {
    "weft-if"@
}

/// The attribute that repeats the element for each item of a list.
pub open spec fn for_name() -> Seq<char> {
    "weft-for"@
}

pub open spec fn is_directive_name(n: Seq<char>) -> bool {
    n == replace_name() || n == content_name() || n == if_name() || n == for_name()
}

/// An element's directives, as text.
pub struct DirSpec {
    pub replace: Option<ExprSpec>,
    pub content: Option<ExprSpec>,
    pub cond: Option<ExprSpec>,
    pub iter: Option<(Seq<char>, ExprSpec)>,
    pub plain: Seq<(Seq<char>, Seq<SegSpec>)>,
}

/// The first `k >= from` where `s[k]` is whitespace, or -1.
pub open spec fn find_space(s: Seq<char>, from: int) -> int
    decreases s.len() - from,
{
    if from < 0 || from >= s.len() {
        -1
    } else if is_space(s[from]) {
        from
    } else {
        find_space(s, from + 1)
    }
}

/// The binding and the list expression of `binding in expression`.
pub open spec fn iter_of(t: Seq<char>) -> Option<(Seq<char>, ExprSpec)> {
    let u = trim(t);
    let sp = find_space(u, 0);
    let k = skip_spaces(u, sp);
    if sp <= 0 || k < sp || k + 3 > u.len() || !is_ident(u.subrange(0, sp)) || u[k] != 'i' || u[k + 1]
        != 'n' || !is_space(u[k + 2]) {
        None
    } else {
        match expr_of(trim(u.subrange(k + 3, u.len() as int))) {
            Some(e) => Some((u.subrange(0, sp), e)),
            None => None,
        }
    }
}

/// `d` after reading one more attribute; a directive seen again replaces the earlier one.
pub open spec fn with_attr(d: DirSpec, a: (Seq<char>, Seq<char>)) -> Option<DirSpec> {
    if a.0 == replace_name() {
        match expr_of(trim(a.1)) {
            Some(e) => Some(DirSpec { replace: Some(e), content: d.content, cond: d.cond, iter: d.iter, plain: d.plain }),
            None => None,
        }
    } else if a.0 == content_name() {
        match expr_of(trim(a.1)) {
            Some(e) => Some(DirSpec { replace: d.replace, content: Some(e), cond: d.cond, iter: d.iter, plain: d.plain }),
            None => None,
        }
    } else if a.0 == if_name() {
        match expr_of(trim(a.1)) {
            Some(e) => Some(DirSpec { replace: d.replace, content: d.content, cond: Some(e), iter: d.iter, plain: d.plain }),
            None => None,
        }
    } else if a.0 == for_name() {
        match iter_of(a.1) {
            Some(it) => Some(DirSpec { replace: d.replace, content: d.content, cond: d.cond, iter: Some(it), plain: d.plain }),
            None => None,
        }
    } else {
        match segments_of(a.1) {
            Some(v) => Some(DirSpec { replace: d.replace, content: d.content, cond: d.cond, iter: d.iter, plain: d.plain.push((a.0, v)) }),
            None => None,
        }
    }
}

/// The directives of an attribute list, read in order.
pub open spec fn directives_of(attrs: Seq<(Seq<char>, Seq<char>)>) -> Option<DirSpec>
    decreases attrs.len(),
{
    if attrs.len() == 0 {
        Some(DirSpec { replace: None, content: None, cond: None, iter: None, plain: seq![] })
    } else {
        match directives_of(attrs.drop_last()) {
            Some(d) => with_attr(d, attrs.last()),
            None => None,
        }
    }
}

/// The attribute (name and value) at which reading an attribute list first
/// fails.
pub open spec fn failing_attr(attrs: Seq<(Seq<char>, Seq<char>)>) -> (Seq<char>, Seq<char>)
    decreases attrs.len(),
{
    if attrs.len() == 0 {
        (seq![], seq![])
    } else if directives_of(attrs.drop_last()) is None {
        failing_attr(attrs.drop_last())
    } else {
        attrs.last()
    }
}

/// The binding and list expression of an iterator directive.
#[derive(Debug)]
pub struct IteratorDecl {
    pub binding: String,
    pub expr: Expr,
}

pub open spec fn opt_expr_view(e: Option<Expr>) -> Option<ExprSpec> {
    match e {
        Some(x) => Some(x@),
        None => None,
    }
}

/// The directives and plain attributes of one element.
#[derive(Debug)]
pub struct Directives {
    pub replacement: Option<Expr>,
    pub content: Option<Expr>,
    pub conditional: Option<Expr>,
    pub iterator: Option<IteratorDecl>,
    pub plain_attrs: Vec<Attribute>,
}

impl View for Directives {
    type V = DirSpec;

    open spec fn view(&self) -> DirSpec {
        DirSpec {
            replace: opt_expr_view(self.replacement),
            content: opt_expr_view(self.content),
            cond: opt_expr_view(self.conditional),
            iter: match self.iterator {
                Some(it) => Some((it.binding@, it.expr@)),
                None => None,
            },
            plain: attrs_view(self.plain_attrs@),
        }
    }
}

/// Parses the trimmed text of `value` as an expression.
pub fn parse_expr_text(value: &str) -> (r: Option<Expr>)
    ensures
        match r {
            Some(e) => expr_of(trim(value@)) == Some(e@),
            None => expr_of(trim(value@)) is None,
        },
{
    let cs = chars_of(value);
    let (a, b) = trim_bounds(&cs);
    let t = slice_chars(&cs, a, b);
    parse_expr(&t)
}

fn find_space_exec(s: &Vec<char>, from: usize) -> (r: Option<usize>)
    ensures
        match r {
            Some(k) => k == find_space(s@, from as int) && from <= k < s@.len(),
            None => find_space(s@, from as int) < 0,
        },
{
    let mut k = from;
    while k < s.len()
        invariant
            from <= k,
            find_space(s@, from as int) == find_space(s@, k as int),
        decreases s@.len() - k,
    {
        if is_space_exec(s[k]) {
            return Some(k);
        }
        k = k + 1;
    }
    None
}

/// Parses `binding in expression`.
pub fn parse_iterator(value: &str) -> (r: Option<IteratorDecl>)
    ensures
        match r {
            Some(it) => iter_of(value@) == Some((it.binding@, it.expr@)),
            None => iter_of(value@) is None,
        },
{
    let cs = chars_of(value);
    let (a, b) = trim_bounds(&cs);
    let u = slice_chars(&cs, a, b);
    assert(u@ == trim(value@));
    let sp = match find_space_exec(&u, 0) {
        Some(sp) => sp,
        None => {
            return None;
        },
    };
    if sp == 0 {
        return None;
    }
    let mut k = sp;
    while k < u.len() && is_space_exec(u[k])
        invariant
            sp <= k <= u@.len(),
            skip_spaces(u@, sp as int) == skip_spaces(u@, k as int),
        decreases u@.len() - k,
    {
        k = k + 1;
    }
    if u.len() < 3 || k > u.len() - 3 {
        return None;
    }
    let name_chars = slice_chars(&u, 0, sp);
    let name = crate::text::string_of(&u, 0, sp);
    if !crate::expr::is_ident_exec(&name_chars) || u[k] != 'i' || u[k + 1] != 'n' || !is_space_exec(
        u[k + 2],
    ) {
        return None;
    }
    let tail = slice_chars(&u, k + 3, u.len());
    let (c, d) = trim_bounds(&tail);
    let t = slice_chars(&tail, c, d);
    match parse_expr(&t) {
        Some(e) => Some(IteratorDecl { binding: name, expr: e }),
        None => None,
    }
}

/// Reads an element's attributes in order into its directives and plain
/// attributes. A directive value or a placeholder that does not parse fails
/// the element, naming the element and the first attribute that failed.
pub fn parse_from_attrs(element: &String, attrs: &Vec<SourceAttr>) -> (r: Result<Directives, CompileError>)
    ensures
        match r {
            Ok(d) => directives_of(source_attrs_view(attrs@)) == Some(d@),
            Err(e) => directives_of(source_attrs_view(attrs@)) is None && e.element@ == element@
                && (e.attribute@, e.cause.text@) == failing_attr(source_attrs_view(attrs@)),
        },
{
    let ghost av = source_attrs_view(attrs@);
    let replace_lit = chars_of("weft-replace");
    let content_lit = chars_of("weft-content");
    let if_lit = chars_of("weft-if");
    let for_lit = chars_of("weft-for");
    let mut d = Directives { replacement: None, content: None, conditional: None, iterator: None, plain_attrs: Vec::new() };
    assert(d@.plain =~= seq![]);
    let mut i: usize = 0;
    while i < attrs.len()
        invariant
            i <= attrs@.len(),
            av == source_attrs_view(attrs@),
            replace_lit@ == replace_name(),
            content_lit@ == content_name(),
            if_lit@ == if_name(),
            for_lit@ == for_name(),
            directives_of(av.subrange(0, i as int)) == Some(d@),
        decreases attrs@.len() - i,
    {
        let a = &attrs[i];
        assert(av.subrange(0, i + 1).drop_last() =~= av.subrange(0, i as int));
        assert(av.subrange(0, i + 1).last() == (a.name@, a.value@));
        let name = chars_of(a.name.as_str());
        if same_chars(&name, &replace_lit) {
            match parse_expr_text(a.value.as_str()) {
                Some(e) => { d.replacement = Some(e); },
                None => {
                    proof {
                        lemma_directives_none(av, i + 1);
                        lemma_failing_attr(av, i as int);
                    }
                    return Err(attr_error(element, a));
                },
            }
        } else if same_chars(&name, &content_lit) {
            match parse_expr_text(a.value.as_str()) {
                Some(e) => { d.content = Some(e); },
                None => {
                    proof {
                        lemma_directives_none(av, i + 1);
                        lemma_failing_attr(av, i as int);
                    }
                    return Err(attr_error(element, a));
                },
            }
        } else if same_chars(&name, &if_lit) {
            match parse_expr_text(a.value.as_str()) {
                Some(e) => { d.conditional = Some(e); },
                None => {
                    proof {
                        lemma_directives_none(av, i + 1);
                        lemma_failing_attr(av, i as int);
                    }
                    return Err(attr_error(element, a));
                },
            }
        } else if same_chars(&name, &for_lit) {
            match parse_iterator(a.value.as_str()) {
                Some(it) => { d.iterator = Some(it); },
                None => {
                    proof {
                        lemma_directives_none(av, i + 1);
                        lemma_failing_attr(av, i as int);
                    }
                    return Err(attr_error(element, a));
                },
            }
        } else {
            match parse_inline(a.value.as_str()) {
                Ok(v) => {
                    let ghost old_plain = d.plain_attrs@;
                    d.plain_attrs.push(Attribute { name: a.name.clone(), value: v });
                    assert(attrs_view(d.plain_attrs@) =~= attrs_view(old_plain).push(d.plain_attrs@.last()@));
                },
                Err(_) => {
                    proof {
                        lemma_directives_none(av, i + 1);
                        lemma_failing_attr(av, i as int);
                    }
                    return Err(attr_error(element, a));
                },
            }
        }
        i = i + 1;
    }
    assert(av.subrange(0, i as int) =~= av);
    Ok(d)
}

proof fn lemma_directives_none(s: Seq<(Seq<char>, Seq<char>)>, k: int)
    requires
        0 <= k <= s.len(),
        directives_of(s.subrange(0, k)) is None,
    ensures
        directives_of(s) is None,
    decreases s.len() - k,
{
    if k == s.len() {
        assert(s.subrange(0, k) =~= s);
    } else {
        assert(s.subrange(0, k + 1).drop_last() =~= s.subrange(0, k));
        lemma_directives_none(s, k + 1);
    }
}

proof fn lemma_failing_attr(s: Seq<(Seq<char>, Seq<char>)>, i: int)
    requires
        0 <= i < s.len(),
        directives_of(s.subrange(0, i)) is Some,
        directives_of(s.subrange(0, i + 1)) is None,
    ensures
        failing_attr(s) == s[i],
    decreases s.len(),
{
    if s.len() == i + 1 {
        assert(s.drop_last() =~= s.subrange(0, i));
    } else {
        let p = s.drop_last();
        assert(p.subrange(0, i) =~= s.subrange(0, i));
        assert(p.subrange(0, i + 1) =~= s.subrange(0, i + 1));
        lemma_directives_none(p, i + 1);
        lemma_failing_attr(p, i);
    }
}

fn attr_error(element: &String, a: &SourceAttr) -> (r: CompileError)
    ensures
        r.element@ == element@,
        r.attribute@ == a.name@,
        r.cause.text@ == a.value@,
{
    CompileError {
        element: element.clone(),
        attribute: a.name.clone(),
        cause: DirectiveParseError { text: a.value.clone() },
    }
}

} // verus!
