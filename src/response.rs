//! A rendered page as a web response body.
use vstd::prelude::*;
use crate::renderable::WeftRenderable;
use crate::target::{HtmlBuffer, RenderError, RenderTarget};

verus! {

/// A renderable value to be sent as an HTML response.
pub struct WeftResponse<T>(T);

impl<T> WeftResponse<T> {
    /// The value to be rendered.
    pub closed spec fn value(&self) -> T {
        self.0
    }

    pub fn of(val: T) -> (r: WeftResponse<T>)
        ensures
            r.value() == val,
    {
        WeftResponse(val)
    }

    /// The media type of the body.
    pub fn content_type(&self) -> (r: &'static str)
        ensures
            r@ == "text/html; charset=utf-8"@,
    {
        "text/html; charset=utf-8"
    }
}

impl<T: WeftRenderable> WeftResponse<T> {
    /// The response body: the value rendered.
    pub fn body(&self) -> (r: Result<String, RenderError>)
        ensures
            self.value().exact() ==> match r {
                Ok(s) => self.value().html() == Some(s@),
                Err(_) => self.value().html() is None,
            },
    {
        let mut buf = HtmlBuffer::new();
        match self.0.render_to(&mut buf) {
            Ok(()) => {
                assert(Seq::<char>::empty() + self.value().html()->0 =~= self.value().html()->0);
                Ok(buf.into_string())
            },
            Err(e) => Err(e),
        }
    }
}

} // verus!
