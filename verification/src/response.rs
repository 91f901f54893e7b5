//! The value that a successful exchange returns.

use vstd::prelude::*;

verus! {

/// The body of a response.
#[derive(Clone, Debug, PartialEq, Eq)]
pub struct HttpBody {
    pub text: String,
}

/// A complete response.
#[derive(Clone, Debug, PartialEq, Eq)]
pub struct HttpResponse {
    pub body: HttpBody,
}

impl View for HttpResponse {
    type V = Seq<char>;

    /// A response is the text of its body.
    open spec fn view(&self) -> Seq<char> {
        self.body.text@
    }
}

impl HttpResponse {
    /// A response with `body_text` as its body.
    pub fn new(body_text: String) -> (r: Self)
        ensures
            r.body.text == body_text,
    {
        HttpResponse { body: HttpBody { text: body_text } }
    }
}

} // verus!
