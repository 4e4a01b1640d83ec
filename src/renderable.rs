//! The capability of writing oneself to a render target, and the entry points
//! that render into a string or a byte sink.
use vstd::prelude::*;
use crate::compile::Template;
use crate::render::{outcome, render_plan, render_seq, render_value, value_html, write_text};
use crate::target::{ByteSink, HtmlBuffer, HtmlWriter, Markup, RenderError, RenderTarget};
use crate::text::{digits, html_escape, int_text, push_int, push_str};
use crate::value::{bool_text, scope_view, self_name, Value};

verus! {

/// A value that can write itself, as markup, to any render target.
pub trait WeftRenderable {
    /// Whether `html` states what `render_to` does. Every renderer of this
    /// library sets it; a renderer written elsewhere promises nothing.
    open spec fn exact(&self) -> bool {
        false
    }

    /// The markup this value renders to; `None` where rendering fails.
    open spec fn html(&self) -> Option<Seq<char>> {
        None
    }

    /// Writes this value to the target. For an exact renderer: on success
    /// exactly `html()` was appended; where `html()` is `None` it fails;
    /// where it is `Some`, a failure is the target's own, passed on, and
    /// leaves a prefix of `html()` written; on a reliable target it succeeds
    /// wherever `html()` is `Some`.
    fn render_to<T: RenderTarget>(&self, target: &mut T) -> (r: Result<(), RenderError>)
        ensures
            self.exact() ==> outcome(r, self.html(), *old(target), *final(target)),
    ;
}

impl WeftRenderable for String {
    open spec fn exact(&self) -> bool {
        true
    }

    open spec fn html(&self) -> Option<Seq<char>> {
        Some(html_escape(self@))
    }

    fn render_to<T: RenderTarget>(&self, target: &mut T) -> (r: Result<(), RenderError>) {
        write_text(target, self.as_str())
    }
}

impl<'a> WeftRenderable for &'a str {
    open spec fn exact(&self) -> bool {
        true
    }

    open spec fn html(&self) -> Option<Seq<char>> {
        Some(html_escape((*self)@))
    }

    fn render_to<T: RenderTarget>(&self, target: &mut T) -> (r: Result<(), RenderError>) {
        write_text(target, *self)
    }
}

impl WeftRenderable for Value {
    open spec fn exact(&self) -> bool {
        true
    }

    open spec fn html(&self) -> Option<Seq<char>> {
        value_html(self@)
    }

    fn render_to<T: RenderTarget>(&self, target: &mut T) -> (r: Result<(), RenderError>) {
        render_value(self, target)
    }
}

impl<R: WeftRenderable> WeftRenderable for Option<R> {
    open spec fn exact(&self) -> bool {
        match self {
            Some(x) => x.exact(),
            None => true,
        }
    }

    /// Nothing when absent.
    open spec fn html(&self) -> Option<Seq<char>> {
        match self {
            Some(x) => x.html(),
            None => Some(seq![]),
        }
    }

    fn render_to<T: RenderTarget>(&self, target: &mut T) -> (r: Result<(), RenderError>) {
        match self {
            Some(x) => x.render_to(target),
            None => {
                assert(target.output() + seq![] =~= target.output());
                Ok(())
            },
        }
    }
}

impl<'a, R: WeftRenderable> WeftRenderable for &'a R {
    open spec fn exact(&self) -> bool {
        (**self).exact()
    }

    open spec fn html(&self) -> Option<Seq<char>> {
        (**self).html()
    }

    fn render_to<T: RenderTarget>(&self, target: &mut T) -> (r: Result<(), RenderError>) {
        (**self).render_to(target)
    }
}

/// A compiled template together with the data it renders.
#[derive(Debug)]
pub struct Bound<'a> {
    pub template: &'a Template,
    pub data: Value,
}

impl<'a> Bound<'a> {
    pub fn new(template: &'a Template, data: Value) -> (r: Bound<'a>)
        ensures
            r.template == template,
            r.data == data,
    {
        Bound { template, data }
    }
}

impl<'a> WeftRenderable for Bound<'a> {
    open spec fn exact(&self) -> bool {
        true
    }

    /// The plan run with the data bound to `self`.
    open spec fn html(&self) -> Option<Seq<char>> {
        render_seq(self.template@, seq![(self_name(), self.data@)])
    }

    fn render_to<T: RenderTarget>(&self, target: &mut T) -> (r: Result<(), RenderError>) {
        let mut scope: Vec<(String, Value)> = Vec::new();
        scope.push(("self".to_owned(), self.data.duplicate()));
        assert(scope_view(scope@) =~= seq![(self_name(), self.data@)]);
        render_plan(&self.template.plan, &mut scope, target)
    }
}

impl Markup {
    /// Renders `widget` into markup that a template slot can hold: a
    /// sub-template, or any other renderer.
    pub fn of<R: WeftRenderable>(widget: &R) -> (r: Result<Markup, RenderError>)
        ensures
            widget.exact() ==> match r {
                Ok(m) => widget.html() == Some(m@),
                Err(_) => widget.html() is None,
            },
    {
        let mut buf = HtmlBuffer::new();
        match widget.render_to(&mut buf) {
            Ok(()) => {
                assert(Seq::<char>::empty() + widget.html()->0 =~= widget.html()->0);
                Ok(Markup::from_rendered(buf.into_string()))
            },
            Err(e) => Err(e),
        }
    }

    /// The markup written to a buffer.
    pub fn from_buffer(buf: HtmlBuffer) -> (r: Markup)
        ensures
            r@ == buf.output(),
    {
        Markup::from_rendered(buf.into_string())
    }
}

/// Renders `widget` into a new string.
pub fn render_to_string<R: WeftRenderable>(widget: R) -> (r: Result<String, RenderError>)
    ensures
        widget.exact() ==> match r {
            Ok(s) => widget.html() == Some(s@),
            Err(_) => widget.html() is None,
        },
{
    let mut buf = HtmlBuffer::new();
    match widget.render_to(&mut buf) {
        Ok(()) => {
            assert(Seq::<char>::empty() + widget.html()->0 =~= widget.html()->0);
            Ok(buf.into_string())
        },
        Err(e) => Err(e),
    }
}

/// Renders `widget` through a writer to its byte sink, streaming as it goes.
/// For an exact widget, the sink accepts exactly the widget's markup on
/// success; a widget that cannot be rendered fails; and a failure of the sink
/// ends the render and is passed on, leaving what was already written.
pub fn render_writer<R: WeftRenderable, S: ByteSink>(widget: R, out: &mut HtmlWriter<S>) -> (r: Result<(), RenderError>)
    ensures
        widget.exact() ==> outcome(r, widget.html(), *old(out), *final(out)),
{
    widget.render_to(out)
}

/// A value that is rendered as the text it displays as.
pub trait Displayable: Sized {
    /// The text this value displays as.
    spec fn display_text(&self) -> Seq<char>;

    /// Appends the text this value displays as.
    fn write_display(&self, buf: &mut String)
        ensures
            final(buf)@ == old(buf)@ + self.display_text(),
    ;

    /// Wraps this value to render its displayed text.
    fn display(&self) -> (r: Displayer<'_, Self>)
        ensures
            r.0 == self,
    ;
}

/// A value wrapped to render as its displayed text.
pub struct Displayer<'a, D>(pub &'a D);

impl<'a, D: Displayable> Displayer<'a, D> {
    /// The displayed text.
    pub fn to_string(&self) -> (r: String)
        ensures
            r@ == self.0.display_text(),
    {
        let mut s = String::new();
        self.0.write_display(&mut s);
        assert(s@ =~= self.0.display_text());
        s
    }
}

impl<'a, D: Displayable> WeftRenderable for Displayer<'a, D> {
    open spec fn exact(&self) -> bool {
        true
    }

    open spec fn html(&self) -> Option<Seq<char>> {
        Some(html_escape(self.0.display_text()))
    }

    fn render_to<T: RenderTarget>(&self, target: &mut T) -> (r: Result<(), RenderError>) {
        let s = self.to_string();
        write_text(target, s.as_str())
    }
}

impl Displayable for i64 {
    open spec fn display_text(&self) -> Seq<char> {
        int_text(*self as int)
    }

    fn write_display(&self, buf: &mut String) {
        push_int(buf, *self);
    }

    fn display(&self) -> (r: Displayer<'_, i64>) {
        Displayer(self)
    }
}

impl Displayable for u32 {
    open spec fn display_text(&self) -> Seq<char> {
        digits(*self as nat)
    }

    fn write_display(&self, buf: &mut String) {
        push_int(buf, *self as i64);
    }

    fn display(&self) -> (r: Displayer<'_, u32>) {
        Displayer(self)
    }
}

impl Displayable for bool {
    open spec fn display_text(&self) -> Seq<char> {
        bool_text(*self)
    }

    fn write_display(&self, buf: &mut String) {
        if *self {
            push_str(buf, "true");
        } else {
            push_str(buf, "false");
        }
    }

    fn display(&self) -> (r: Displayer<'_, bool>) {
        Displayer(self)
    }
}

impl Displayable for String {
    open spec fn display_text(&self) -> Seq<char> {
        self@
    }

    fn write_display(&self, buf: &mut String) {
        push_str(buf, self.as_str());
    }

    fn display(&self) -> (r: Displayer<'_, String>) {
        Displayer(self)
    }
}

} // verus!
