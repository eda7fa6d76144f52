use vstd::prelude::*;

verus! {

/// The body of an answer to a request.
pub enum ReplyBody {
    /// No body at all.
    Empty,
    /// Plain text.
    Text(String),
    /// A JSON document, given as its text.
    Json(String),
}

/// An answer to a request: a status code and a body.
pub struct Reply {
    pub status: u16,
    pub body: ReplyBody,
}

impl Reply {
    /// This answer has the given status and no body.
    pub open spec fn is_bare(self, status: u16) -> bool {
        self.status == status && self.body is Empty
    }

    /// This answer has the given status and the given plain text as body.
    pub open spec fn is_text(self, status: u16, text: Seq<char>) -> bool {
        &&& self.status == status
        &&& self.body matches ReplyBody::Text(t) && t@ == text
    }

    /// This answer has the given status and the given JSON text as body.
    pub open spec fn is_json(self, status: u16, text: Seq<char>) -> bool {
        &&& self.status == status
        &&& self.body matches ReplyBody::Json(t) && t@ == text
    }

    /// An answer with no body.
    pub fn bare(status: u16) -> (r: Reply)
        ensures
            r.is_bare(status),
    {
        Reply { status, body: ReplyBody::Empty }
    }

    /// An answer with a plain-text body.
    pub fn text(status: u16, text: String) -> (r: Reply)
        ensures
            r.is_text(status, text@),
    {
        Reply { status, body: ReplyBody::Text(text) }
    }
}

} // verus!
