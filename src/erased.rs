//! Object-safe rendering, for collections of renderable values of different
//! types, and renderers made from a single callback.
use vstd::prelude::*;
use crate::render::{render_value, value_html};
use crate::renderable::WeftRenderable;
use crate::target::{HtmlBuffer, HtmlWriter, RenderError, RenderTarget};
use crate::value::Value;

verus! {

/// A target that object-safe renderers can write to.
pub trait ErasedRenderTarget {}

/// A target that can open elements for object-safe renderers.
pub trait ErasedStartElementTarget {}

impl ErasedRenderTarget for HtmlBuffer {}

impl ErasedStartElementTarget for HtmlBuffer {}

impl<S> ErasedRenderTarget for HtmlWriter<S> {}

impl<S> ErasedStartElementTarget for HtmlWriter<S> {}

/// Like `WeftRenderable`, but usable as a trait object: it renders into an
/// in-memory buffer.
pub trait ErasedRenderable {
    /// Whether `erased_html` states what `erased_render_to` does.
    spec fn erased_exact(&self) -> bool;

    /// The markup this value renders to; `None` where rendering fails.
    spec fn erased_html(&self) -> Option<Seq<char>>;

    fn erased_render_to(&self, target: &mut HtmlBuffer) -> (r: Result<(), RenderError>)
        ensures
            self.erased_exact() ==> match self.erased_html() {
                Some(h) => r is Ok && final(target).output() == old(target).output() + h,
                None => r is Err,
            },
    ;
}

impl<R: WeftRenderable> ErasedRenderable for R {
    open spec fn erased_exact(&self) -> bool {
        self.exact()
    }

    open spec fn erased_html(&self) -> Option<Seq<char>> {
        self.html()
    }

    fn erased_render_to(&self, target: &mut HtmlBuffer) -> (r: Result<(), RenderError>) {
        self.render_to(target)
    }
}

/// A renderer made from a callback that produces the value to render, such
/// as rendered markup. The callback may always be called.
pub struct FnRenderer<F: Fn() -> Value> {
    f: F,
}

impl<F: Fn() -> Value> FnRenderer<F> {
    #[verifier::type_invariant]
    spec fn callable(self) -> bool {
        self.f.requires(())
    }

    /// Whether the callback always returns the same value.
    pub closed spec fn single_valued(self) -> bool {
        forall|a: Value, b: Value| #[trigger] self.f.ensures((), a) && #[trigger] self.f.ensures((), b) ==> a == b
    }

    /// The callback.
    pub closed spec fn callback(self) -> F {
        self.f
    }

    /// The value the callback returns.
    pub closed spec fn produced(self) -> Value {
        choose|v: Value| self.f.ensures((), v)
    }
}

/// Makes a renderer from a callback that may always be called.
pub fn render_fn<F: Fn() -> Value>(f: F) -> (r: FnRenderer<F>)
    requires
        f.requires(()),
    ensures
        r.callback() == f,
{
    FnRenderer { f }
}

impl<F: Fn() -> Value> WeftRenderable for FnRenderer<F> {
    /// Exact where the callback always returns the same value, so that its
    /// markup is a function of the renderer.
    open spec fn exact(&self) -> bool {
        self.single_valued()
    }

    /// The markup of the value the callback returns.
    open spec fn html(&self) -> Option<Seq<char>> {
        value_html(self.produced()@)
    }

    /// Calls the callback once and renders the value it returns.
    fn render_to<T: RenderTarget>(&self, target: &mut T) -> (r: Result<(), RenderError>) {
        proof {
            use_type_invariant(self);
        }
        let v = (self.f)();
        proof {
            assert(self.f.ensures((), v));
            if self.single_valued() {
                assert(self.produced() == v);
            }
        }
        render_value(&v, target)
    }
}

} // verus!
