//! Where a template comes from: its source or path, and the selector of its root.
use vstd::prelude::*;
use crate::plan::Node;
use crate::expr::prepend;
use crate::text::{chars_of, push_char, push_str, same_chars, slice_chars, trim, trim_bounds};

verus! {

/// One `name = "value"` argument of a template declaration.
#[derive(Debug, PartialEq, Eq)]
pub enum TemplateArg {
    Path(String),
    Source(String),
    Selector(String),
}

/// The markup of a template: a file path, or inline source.
#[derive(Debug, PartialEq, Eq)]
pub enum TemplateSource {
    Path(String),
    Source(String),
}

/// A template's markup and the selector of its root.
#[derive(Debug)]
pub struct TemplateDerivation {
    pub template_source: TemplateSource,
    pub selector: String,
}

/// Why a template declaration or its markup cannot be used.
#[derive(Debug, PartialEq, Eq)]
pub enum TemplateError {
    /// No template declaration was given.
    MissingDeclaration,
    /// More than one template declaration was given.
    MultipleDeclarations,
    /// Not exactly one of `path` and `source` was given.
    SourceOrPath,
    /// The template file could not be read.
    TemplateNotFound(String),
    /// The selector matched no element, or more than one.
    SelectorAmbiguity(usize),
    /// An argument is not `path`, `source` or `selector` set to a quoted string.
    BadArgument(String),
}

/// The first `k >= from` where `s[k] == c`, or -1.
pub open spec fn find_char(s: Seq<char>, c: char, from: int) -> int
    decreases s.len() - from,
{
    if from < 0 || from >= s.len() {
        -1
    } else if s[from] == c {
        from
    } else {
        find_char(s, c, from + 1)
    }
}

/// The character that a backslash escape `\c` stands for.
pub open spec fn escaped_char(c: char) -> Option<char> {
    if c == '"' {
        Some('"')
    } else if c == '\\' {
        Some('\\')
    } else if c == '\'' {
        Some('\'')
    } else if c == 'n' {
        Some('\n')
    } else if c == 't' {
        Some('\t')
    } else if c == 'r' {
        Some('\r')
    } else if c == '0' {
        Some('\0')
    } else {
        None
    }
}

/// The text of a quoted value's body from position `i` on, with escapes
/// decoded; `None` for a bare quote, a bad escape or a trailing backslash.
pub open spec fn unescape_from(b: Seq<char>, i: int) -> Option<Seq<char>>
    decreases b.len() - i,
{
    if i < 0 || i >= b.len() {
        Some(seq![])
    } else if b[i] == '"' {
        None
    } else if b[i] == '\\' {
        if i + 1 >= b.len() {
            None
        } else {
            match escaped_char(b[i + 1]) {
                Some(c) => prepend(seq![c], unescape_from(b, i + 2)),
                None => None,
            }
        }
    } else {
        prepend(seq![b[i]], unescape_from(b, i + 1))
    }
}

/// The kind (0 for `path`, 1 for `source`, 2 for `selector`) and the value of
/// an argument written `name = "value"`, with escapes in the value decoded.
pub open spec fn arg_of(s: Seq<char>) -> Option<(nat, Seq<char>)> {
    let u = trim(s);
    let eq = find_char(u, '=', 0);
    let name = trim(u.subrange(0, eq));
    let rest = trim(u.subrange(eq + 1, u.len() as int));
    let body = rest.subrange(1, rest.len() - 1);
    if eq < 0 || rest.len() < 2 || rest[0] != '"' || rest[rest.len() - 1] != '"' {
        None
    } else {
        match unescape_from(body, 0) {
            Some(v) => if name == "path"@ {
                Some((0, v))
            } else if name == "source"@ {
                Some((1, v))
            } else if name == "selector"@ {
                Some((2, v))
            } else {
                None
            },
            None => None,
        }
    }
}

fn escaped_char_exec(c: char) -> (r: Option<char>)
    ensures
        r == escaped_char(c),
{
    if c == '"' {
        Some('"')
    } else if c == '\\' {
        Some('\\')
    } else if c == '\'' {
        Some('\'')
    } else if c == 'n' {
        Some('\n')
    } else if c == 't' {
        Some('\t')
    } else if c == 'r' {
        Some('\r')
    } else if c == '0' {
        Some('\0')
    } else {
        None
    }
}

/// Decodes the escapes of a quoted value's body.
fn unescape(b: &Vec<char>) -> (r: Option<String>)
    ensures
        match r {
            Some(v) => unescape_from(b@, 0) == Some(v@),
            None => unescape_from(b@, 0) is None,
        },
{
    let n = b.len();
    let mut out = String::new();
    let mut i: usize = 0;
    assert(Seq::<char>::empty() + unescape_from(b@, 0)->0 =~= unescape_from(b@, 0)->0);
    while i < n
        invariant
            n == b@.len(),
            i <= n + 1,
            unescape_from(b@, 0) == prepend(out@, unescape_from(b@, i as int)),
        decreases n + 1 - i,
    {
        let ghost before = out@;
        if b[i] == '"' {
            return None;
        } else if b[i] == '\\' {
            if i + 1 >= n {
                return None;
            }
            match escaped_char_exec(b[i + 1]) {
                Some(c) => {
                    push_char(&mut out, c);
                    proof {
                        let rest = unescape_from(b@, i + 2);
                        if rest is Some {
                            assert(before + (seq![c] + rest->0) =~= out@ + rest->0);
                        }
                    }
                    i = i + 2;
                },
                None => {
                    return None;
                },
            }
        } else {
            let c = b[i];
            push_char(&mut out, c);
            proof {
                let rest = unescape_from(b@, i + 1);
                if rest is Some {
                    assert(before + (seq![c] + rest->0) =~= out@ + rest->0);
                }
            }
            i = i + 1;
        }
    }
    assert(out@ + Seq::<char>::empty() =~= out@);
    Some(out)
}

fn find_char_exec(s: &Vec<char>, c: char) -> (r: Option<usize>)
    ensures
        match r {
            Some(k) => k == find_char(s@, c, 0) && k < s@.len(),
            None => find_char(s@, c, 0) < 0,
        },
{
    let mut k: usize = 0;
    while k < s.len()
        invariant
            k <= s@.len(),
            find_char(s@, c, 0) == find_char(s@, c, k as int),
        decreases s@.len() - k,
    {
        if s[k] == c {
            return Some(k);
        }
        k = k + 1;
    }
    None
}

impl TemplateArg {
    /// Parses one argument written `name = "value"`, where the name is
    /// `path`, `source` or `selector`; a quote or backslash in the value is
    /// written with a backslash before it.
    pub fn parse(text: &str) -> (r: Result<TemplateArg, TemplateError>)
        ensures
            match r {
                Ok(TemplateArg::Path(v)) => arg_of(text@) == Some((0nat, v@)),
                Ok(TemplateArg::Source(v)) => arg_of(text@) == Some((1nat, v@)),
                Ok(TemplateArg::Selector(v)) => arg_of(text@) == Some((2nat, v@)),
                Err(e) => arg_of(text@) is None && e == TemplateError::BadArgument(e->BadArgument_0),
            },
    {
        let bad = TemplateError::BadArgument(text.to_owned());
        let cs = chars_of(text);
        let (a, b) = trim_bounds(&cs);
        let u = slice_chars(&cs, a, b);
        assert(u@ == trim(text@));
        let eq = match find_char_exec(&u, '=') {
            Some(eq) => eq,
            None => {
                return Err(bad);
            },
        };
        let head = slice_chars(&u, 0, eq);
        let (na, nb) = trim_bounds(&head);
        let name = slice_chars(&head, na, nb);
        let tail = slice_chars(&u, eq + 1, u.len());
        let (ra, rb) = trim_bounds(&tail);
        let rest = slice_chars(&tail, ra, rb);
        let n = rest.len();
        if n < 2 || rest[0] != '"' || rest[n - 1] != '"' {
            return Err(bad);
        }
        let body = slice_chars(&rest, 1, n - 1);
        let value = match unescape(&body) {
            Some(v) => v,
            None => {
                return Err(bad);
            },
        };
        if same_chars(&name, &chars_of("path")) {
            Ok(TemplateArg::Path(value))
        } else if same_chars(&name, &chars_of("source")) {
            Ok(TemplateArg::Source(value))
        } else if same_chars(&name, &chars_of("selector")) {
            Ok(TemplateArg::Selector(value))
        } else {
            Err(bad)
        }
    }
}

pub open spec fn last_path(args: Seq<TemplateArg>) -> Option<Seq<char>>
    decreases args.len(),
{
    if args.len() == 0 {
        None
    } else {
        match args.last() {
            TemplateArg::Path(p) => Some(p@),
            _ => last_path(args.drop_last()),
        }
    }
}

pub open spec fn last_source(args: Seq<TemplateArg>) -> Option<Seq<char>>
    decreases args.len(),
{
    if args.len() == 0 {
        None
    } else {
        match args.last() {
            TemplateArg::Source(s) => Some(s@),
            _ => last_source(args.drop_last()),
        }
    }
}

pub open spec fn last_selector(args: Seq<TemplateArg>) -> Option<Seq<char>>
    decreases args.len(),
{
    if args.len() == 0 {
        None
    } else {
        match args.last() {
            TemplateArg::Selector(s) => Some(s@),
            _ => last_selector(args.drop_last()),
        }
    }
}

/// The selector used when none is given: the document's root element.
pub open spec fn default_selector() -> Seq<char> {
    ":root"@
}

/// A template path resolved against the root directory: an absolute path or
/// an empty root leaves it as it is.
pub open spec fn path_join(root: Seq<char>, p: Seq<char>) -> Seq<char> {
    if root.len() == 0 || (p.len() > 0 && p[0] == '/') {
        p
    } else if root.last() == '/' {
        root + p
    } else {
        root + seq!['/'] + p
    }
}

/// The last path (`kind` 0), source (1) or selector (2) among `args`.
fn last_of(args: &Vec<TemplateArg>, kind: u8) -> (r: Option<&String>)
    requires
        kind < 3,
    ensures
        kind == 0 ==> match r {
            Some(s) => last_path(args@) == Some(s@),
            None => last_path(args@) is None,
        },
        kind == 1 ==> match r {
            Some(s) => last_source(args@) == Some(s@),
            None => last_source(args@) is None,
        },
        kind == 2 ==> match r {
            Some(s) => last_selector(args@) == Some(s@),
            None => last_selector(args@) is None,
        },
{
    let mut k = args.len();
    assert(args@.subrange(0, k as int) =~= args@);
    while k > 0
        invariant
            k <= args@.len(),
            kind < 3,
            kind == 0 ==> last_path(args@) == last_path(args@.subrange(0, k as int)),
            kind == 1 ==> last_source(args@) == last_source(args@.subrange(0, k as int)),
            kind == 2 ==> last_selector(args@) == last_selector(args@.subrange(0, k as int)),
        decreases k,
    {
        assert(args@.subrange(0, k as int).drop_last() =~= args@.subrange(0, k - 1));
        match &args[k - 1] {
            TemplateArg::Path(p) => {
                if kind == 0 {
                    return Some(p);
                }
            },
            TemplateArg::Source(s) => {
                if kind == 1 {
                    return Some(s);
                }
            },
            TemplateArg::Selector(s) => {
                if kind == 2 {
                    return Some(s);
                }
            },
        }
        k = k - 1;
    }
    None
}

fn join_path(root: &str, p: &String) -> (r: String)
    ensures
        r@ == path_join(root@, p@),
{
    let rn = root.unicode_len();
    let pn = p.as_str().unicode_len();
    if rn == 0 || (pn > 0 && p.as_str().get_char(0) == '/') {
        return p.clone();
    }
    let mut s = String::new();
    push_str(&mut s, root);
    if root.get_char(rn - 1) != '/' {
        crate::text::push_char(&mut s, '/');
    }
    push_str(&mut s, p.as_str());
    s
}

impl TemplateDerivation {
    /// Reads the template declarations given: there must be exactly one, naming
    /// exactly one of a path (resolved against `root_dir`) and a source. A
    /// repeated argument takes its last value; the selector defaults to `:root`.
    pub fn from_args(decls: &Vec<Vec<TemplateArg>>, root_dir: &str) -> (r: Result<TemplateDerivation, TemplateError>)
        ensures
            decls@.len() == 0 ==> r == Err::<TemplateDerivation, TemplateError>(TemplateError::MissingDeclaration),
            decls@.len() > 1 ==> r == Err::<TemplateDerivation, TemplateError>(TemplateError::MultipleDeclarations),
            decls@.len() == 1 ==> {
                let a = decls@[0]@;
                match (last_path(a), last_source(a)) {
                    (Some(p), None) => r is Ok && r->Ok_0.template_source == TemplateSource::Path(r->Ok_0.template_source->Path_0)
                        && r->Ok_0.template_source->Path_0@ == path_join(root_dir@, p),
                    (None, Some(s)) => r is Ok && r->Ok_0.template_source == TemplateSource::Source(r->Ok_0.template_source->Source_0)
                        && r->Ok_0.template_source->Source_0@ == s,
                    _ => r == Err::<TemplateDerivation, TemplateError>(TemplateError::SourceOrPath),
                }
            },
            r is Ok ==> r->Ok_0.selector@ == match last_selector(decls@[0]@) {
                Some(s) => s,
                None => default_selector(),
            },
    {
        if decls.len() == 0 {
            return Err(TemplateError::MissingDeclaration);
        }
        if decls.len() > 1 {
            return Err(TemplateError::MultipleDeclarations);
        }
        let args = &decls[0];
        let template_source = match (last_of(args, 0), last_of(args, 1)) {
            (Some(p), None) => TemplateSource::Path(join_path(root_dir, p)),
            (None, Some(s)) => TemplateSource::Source(s.clone()),
            _ => {
                return Err(TemplateError::SourceOrPath);
            },
        };
        let selector = match last_of(args, 2) {
            Some(s) => s.clone(),
            None => ":root".to_owned(),
        };
        Ok(TemplateDerivation { template_source, selector })
    }
}

/// The one node that a selector matched; zero or several matches are an error.
pub fn single_root(matches: Vec<Node>) -> (r: Result<Node, TemplateError>)
    ensures
        matches@.len() == 1 ==> r == Ok::<Node, TemplateError>(matches@[0]),
        matches@.len() != 1 ==> r == Err::<Node, TemplateError>(TemplateError::SelectorAmbiguity(matches@.len() as usize)),
{
    let n = matches.len();
    if n != 1 {
        return Err(TemplateError::SelectorAmbiguity(n));
    }
    let mut matches = matches;
    let root = matches.remove(0);
    Ok(root)
}

} // verus!
