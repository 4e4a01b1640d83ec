//! Render targets: where rendered, escaped HTML goes.
use vstd::prelude::*;
use crate::text::{html_escape, push_char, push_escaped, push_str};

verus! {

/// The name of an element or attribute. Names come from the compiled
/// template and are written without escaping.
#[derive(Debug)]
pub struct QName {
    pub name: String,
}

impl View for QName {
    type V = Seq<char>;

    open spec fn view(&self) -> Seq<char> {
        self.name@
    }
}

impl QName {
    pub fn new(name: &str) -> (r: QName)
        ensures
            r@ == name@,
    {
        QName { name: name.to_owned() }
    }

    /// The name's text.
    pub fn as_str(&self) -> (r: &str)
        ensures
            r@ == self@,
    {
        self.name.as_str()
    }
}

/// An attribute name and value pair.
#[derive(Debug)]
pub struct AttrPair {
    pub name: QName,
    pub value: String,
}

impl View for AttrPair {
    type V = (Seq<char>, Seq<char>);

    open spec fn view(&self) -> (Seq<char>, Seq<char>) {
        (self.name@, self.value@)
    }
}

impl AttrPair {
    /// Builds an attribute from a name and a value.
    pub fn new(name: QName, value: String) -> (r: AttrPair)
        ensures
            r@ == (name@, value@),
    {
        AttrPair { name, value }
    }
}

pub open spec fn pairs_view(s: Seq<AttrPair>) -> Seq<(Seq<char>, Seq<char>)> {
    s.map_values(|p: AttrPair| p@)
}

/// ` name="value"`, with the value escaped.
pub open spec fn attr_text(a: (Seq<char>, Seq<char>)) -> Seq<char> {
    seq![' '] + a.0 + seq!['=', '"'] + html_escape(a.1) + seq!['"']
}

pub open spec fn attrs_text(s: Seq<(Seq<char>, Seq<char>)>) -> Seq<char>
    decreases s.len(),
{
    if s.len() == 0 {
        seq![]
    } else {
        attrs_text(s.drop_last()) + attr_text(s.last())
    }
}

/// The start tag of an element.
pub open spec fn open_tag(name: Seq<char>, attrs: Seq<(Seq<char>, Seq<char>)>) -> Seq<char> {
    seq!['<'] + name + attrs_text(attrs) + seq!['>']
}

/// The end tag of an element.
pub open spec fn close_tag(name: Seq<char>) -> Seq<char> {
    seq!['<', '/'] + name + seq!['>']
}

/// A failure of the underlying sink.
#[derive(Debug)]
pub struct IoError {
    pub message: String,
}

/// Why a render stopped.
#[derive(Debug)]
pub enum RenderError {
    /// The sink failed to take output.
    Io(IoError),
    /// An expression has no value here, or a value of the wrong kind.
    Evaluation,
}

/// Markup produced by rendering: the output of a renderer, which a template
/// slot may hold and which targets write as it is.
#[derive(Debug)]
pub struct Markup {
    html: String,
}

impl View for Markup {
    type V = Seq<char>;

    closed spec fn view(&self) -> Seq<char> {
        self.html@
    }
}

impl Markup {
    pub(crate) fn from_rendered(html: String) -> (r: Markup)
        ensures
            r@ == html@,
    {
        Markup { html }
    }

    pub fn duplicate(&self) -> (r: Markup)
        ensures
            r@ == self@,
    {
        Markup { html: self.html.clone() }
    }

    /// The markup's text.
    pub fn as_str(&self) -> (r: &str)
        ensures
            r@ == self@,
    {
        self.html.as_str()
    }
}

/// Something that rendered HTML can be written to. On success each write
/// appends its text to the output; a failed write leaves the output as it
/// was, is a failure of the sink and is recorded as the last error; a
/// reliable target always succeeds and stays reliable.
pub trait RenderTarget: Sized {
    /// Everything written so far.
    spec fn output(&self) -> Seq<char>;

    /// Whether every write succeeds.
    spec fn reliable(&self) -> bool;

    /// The error of the last write that failed.
    spec fn last_error(&self) -> Option<RenderError>;

    /// Opens an element with the given name and attributes.
    fn start_element_attrs(&mut self, name: &QName, attrs: &[AttrPair]) -> (r: Result<(), RenderError>)
        ensures
            r is Ok ==> final(self).output() == old(self).output() + open_tag(name@, pairs_view(attrs@)),
            r is Ok ==> final(self).last_error() == old(self).last_error(),
            r is Err ==> final(self).output() == old(self).output(),
            r is Err ==> r->Err_0 is Io && final(self).last_error() == Some(r->Err_0),
            old(self).reliable() ==> r is Ok && final(self).reliable(),
    ;

    /// Writes text content, escaped.
    fn text(&mut self, content: &str) -> (r: Result<(), RenderError>)
        ensures
            r is Ok ==> final(self).output() == old(self).output() + html_escape(content@),
            r is Ok ==> final(self).last_error() == old(self).last_error(),
            r is Err ==> final(self).output() == old(self).output(),
            r is Err ==> r->Err_0 is Io && final(self).last_error() == Some(r->Err_0),
            old(self).reliable() ==> r is Ok && final(self).reliable(),
    ;

    /// Writes rendered markup as it is.
    fn markup(&mut self, content: &Markup) -> (r: Result<(), RenderError>)
        ensures
            r is Ok ==> final(self).output() == old(self).output() + content@,
            r is Ok ==> final(self).last_error() == old(self).last_error(),
            r is Err ==> final(self).output() == old(self).output(),
            r is Err ==> r->Err_0 is Io && final(self).last_error() == Some(r->Err_0),
            old(self).reliable() ==> r is Ok && final(self).reliable(),
    ;

    /// Closes an element.
    fn end_element(&mut self, name: &QName) -> (r: Result<(), RenderError>)
        ensures
            r is Ok ==> final(self).output() == old(self).output() + close_tag(name@),
            r is Ok ==> final(self).last_error() == old(self).last_error(),
            r is Err ==> final(self).output() == old(self).output(),
            r is Err ==> r->Err_0 is Io && final(self).last_error() == Some(r->Err_0),
            old(self).reliable() ==> r is Ok && final(self).reliable(),
    ;
}

/// The start tag of an element, as a string.
pub fn open_tag_string(name: &QName, attrs: &[AttrPair]) -> (r: String)
    ensures
        r@ == open_tag(name@, pairs_view(attrs@)),
{
    let ghost pv = pairs_view(attrs@);
    let mut s = String::new();
    push_char(&mut s, '<');
    push_str(&mut s, name.name.as_str());
    let mut i: usize = 0;
    assert(pv.subrange(0, 0) =~= seq![]);
    assert(s@ =~= seq!['<'] + name@ + attrs_text(pv.subrange(0, 0)));
    while i < attrs.len()
        invariant
            i <= attrs@.len(),
            pv == pairs_view(attrs@),
            s@ == seq!['<'] + name@ + attrs_text(pv.subrange(0, i as int)),
        decreases attrs@.len() - i,
    {
        let a = &attrs[i];
        let ghost before = s@;
        push_char(&mut s, ' ');
        push_str(&mut s, a.name.name.as_str());
        push_char(&mut s, '=');
        push_char(&mut s, '"');
        push_escaped(&mut s, a.value.as_str());
        push_char(&mut s, '"');
        assert(pv.subrange(0, i + 1).drop_last() =~= pv.subrange(0, i as int));
        assert(pv.subrange(0, i + 1).last() == a@);
        assert(s@ =~= before + attr_text(a@));
        i = i + 1;
    }
    assert(pv.subrange(0, i as int) =~= pv);
    push_char(&mut s, '>');
    assert(s@ =~= open_tag(name@, pv));
    s
}

/// The end tag of an element, as a string.
pub fn close_tag_string(name: &QName) -> (r: String)
    ensures
        r@ == close_tag(name@),
{
    let mut s = String::new();
    push_char(&mut s, '<');
    push_char(&mut s, '/');
    push_str(&mut s, name.name.as_str());
    push_char(&mut s, '>');
    assert(s@ =~= close_tag(name@));
    s
}

/// Relies on `String::clear`: the string becomes empty and keeps its capacity.
#[verifier::external_body]
fn clear_string(s: &mut String)
    ensures
        final(s)@ == Seq::<char>::empty(),
{
    s.clear();
}

/// A target that collects output in memory; it never fails, and can be
/// cleared and reused without giving up its allocation.
#[derive(Debug)]
pub struct HtmlBuffer {
    buf: String,
}

impl HtmlBuffer {
    pub fn new() -> (r: HtmlBuffer)
        ensures
            r.output() == Seq::<char>::empty(),
    {
        HtmlBuffer { buf: String::new() }
    }

    /// Forgets what was written.
    pub fn clear(&mut self)
        ensures
            final(self).output() == Seq::<char>::empty(),
    {
        clear_string(&mut self.buf);
    }

    /// What was written.
    pub fn as_str(&self) -> (r: &str)
        ensures
            r@ == self.output(),
    {
        self.buf.as_str()
    }

    /// What was written, as an owned string.
    pub fn into_string(self) -> (r: String)
        ensures
            r@ == self.output(),
    {
        self.buf
    }
}

impl RenderTarget for HtmlBuffer {
    closed spec fn output(&self) -> Seq<char> {
        self.buf@
    }

    open spec fn reliable(&self) -> bool {
        true
    }

    open spec fn last_error(&self) -> Option<RenderError> {
        None
    }

    fn start_element_attrs(&mut self, name: &QName, attrs: &[AttrPair]) -> (r: Result<(), RenderError>) {
        let s = open_tag_string(name, attrs);
        push_str(&mut self.buf, s.as_str());
        Ok(())
    }

    fn text(&mut self, content: &str) -> (r: Result<(), RenderError>) {
        push_escaped(&mut self.buf, content);
        Ok(())
    }

    fn markup(&mut self, content: &Markup) -> (r: Result<(), RenderError>) {
        push_str(&mut self.buf, content.as_str());
        Ok(())
    }

    fn end_element(&mut self, name: &QName) -> (r: Result<(), RenderError>) {
        let s = close_tag_string(name);
        push_str(&mut self.buf, s.as_str());
        Ok(())
    }
}

/// A byte sink that takes text; it may fail. A sink that sets `exact`
/// promises that `accepted` grows by exactly what each successful write took
/// and is unchanged by a failed one, and that a sink which `never_fails`
/// keeps succeeding. A sink written elsewhere promises nothing.
pub trait ByteSink {
    open spec fn exact(&self) -> bool {
        false
    }

    /// Everything the sink has taken.
    open spec fn accepted(&self) -> Seq<char> {
        seq![]
    }

    open spec fn never_fails(&self) -> bool {
        false
    }

    fn write_str(&mut self, s: &str) -> (r: Result<(), IoError>)
        ensures
            final(self).exact() == old(self).exact(),
            old(self).exact() && r is Ok ==> final(self).accepted() == old(self).accepted() + s@,
            old(self).exact() && r is Err ==> final(self).accepted() == old(self).accepted(),
            old(self).exact() && old(self).never_fails() ==> r is Ok && final(self).never_fails(),
    ;
}

/// A string is a sink that takes everything.
impl ByteSink for String {
    open spec fn exact(&self) -> bool {
        true
    }

    open spec fn accepted(&self) -> Seq<char> {
        self@
    }

    open spec fn never_fails(&self) -> bool {
        true
    }

    fn write_str(&mut self, s: &str) -> (r: Result<(), IoError>) {
        push_str(self, s);
        Ok(())
    }
}

/// A target that streams output to a byte sink as it is rendered. Its output
/// is what an exact sink holds, and otherwise what the sink took from it.
pub struct HtmlWriter<S> {
    sink: S,
    sent: Ghost<Seq<char>>,
    failure: Ghost<Option<RenderError>>,
}

impl<S: ByteSink> HtmlWriter<S> {
    /// The sink written to.
    pub closed spec fn inner(&self) -> S {
        self.sink
    }

    pub fn new(sink: S) -> (r: HtmlWriter<S>)
        ensures
            r.inner() == sink,
            r.output() == (if sink.exact() { sink.accepted() } else { Seq::<char>::empty() }),
            r.reliable() == (sink.exact() && sink.never_fails()),
            r.last_error() is None,
    {
        HtmlWriter { sink, sent: Ghost(Seq::empty()), failure: Ghost(None) }
    }

    /// The sink, given back; an exact sink holds the writer's output.
    pub fn into_inner(self) -> (r: S)
        ensures
            r == self.inner(),
            r.exact() ==> r.accepted() == self.output(),
    {
        self.sink
    }

    fn send(&mut self, s: &String) -> (r: Result<(), RenderError>)
        ensures
            final(self).inner().exact() == old(self).inner().exact(),
            r is Ok ==> final(self).output() == old(self).output() + s@,
            r is Ok ==> final(self).last_error() == old(self).last_error(),
            r is Err ==> final(self).output() == old(self).output(),
            r is Err ==> r->Err_0 is Io && final(self).last_error() == Some(r->Err_0),
            old(self).reliable() ==> r is Ok && final(self).reliable(),
    {
        match self.sink.write_str(s.as_str()) {
            Ok(()) => {
                self.sent = Ghost(self.sent@ + s@);
                Ok(())
            },
            Err(e) => {
                let r = RenderError::Io(e);
                self.failure = Ghost(Some(r));
                Err(r)
            },
        }
    }
}

impl<S: ByteSink> RenderTarget for HtmlWriter<S> {
    closed spec fn output(&self) -> Seq<char> {
        if self.sink.exact() {
            self.sink.accepted()
        } else {
            self.sent@
        }
    }

    closed spec fn reliable(&self) -> bool {
        self.sink.exact() && self.sink.never_fails()
    }

    closed spec fn last_error(&self) -> Option<RenderError> {
        self.failure@
    }

    fn start_element_attrs(&mut self, name: &QName, attrs: &[AttrPair]) -> (r: Result<(), RenderError>) {
        let s = open_tag_string(name, attrs);
        self.send(&s)
    }

    fn text(&mut self, content: &str) -> (r: Result<(), RenderError>) {
        let mut s = String::new();
        push_escaped(&mut s, content);
        assert(s@ =~= html_escape(content@));
        self.send(&s)
    }

    fn markup(&mut self, content: &Markup) -> (r: Result<(), RenderError>) {
        let mut s = String::new();
        push_str(&mut s, content.as_str());
        assert(s@ =~= content@);
        self.send(&s)
    }

    fn end_element(&mut self, name: &QName) -> (r: Result<(), RenderError>) {
        let s = close_tag_string(name);
        self.send(&s)
    }
}

} // verus!
