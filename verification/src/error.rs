//! The error taxonomy of the client.

use vstd::prelude::*;

verus! {

/// The mathematical value of a [`JmapError`].
pub enum JmapErrorView {
    Http(Seq<char>),
    AuthenticationFailed,
    Parse(Seq<char>),
    Api(Seq<char>),
}

/// What can go wrong talking to a JMAP server.
#[derive(Debug)]
pub enum JmapError {
    /// Connectivity failure, non-success status, malformed redirect,
    /// or an empty body where a document was owed.
    Http(String),
    /// The server rejected the credentials (status 401).
    AuthenticationFailed,
    /// A body that is not valid JSON, or JSON of the wrong shape.
    Parse(String),
    /// Well-formed JSON whose content is semantically wrong.
    Api(String),
}

impl View for JmapError {
    type V = JmapErrorView;

    open spec fn view(&self) -> JmapErrorView {
        match self {
            JmapError::Http(s) => JmapErrorView::Http(s@),
            JmapError::AuthenticationFailed => JmapErrorView::AuthenticationFailed,
            JmapError::Parse(s) => JmapErrorView::Parse(s@),
            JmapError::Api(s) => JmapErrorView::Api(s@),
        }
    }
}

/// The display text of an error.
pub open spec fn error_message_of(e: JmapErrorView) -> Seq<char> {
    match e {
        JmapErrorView::Http(s) => "HTTP error: "@ + s,
        JmapErrorView::AuthenticationFailed => "Authentication failed (401 Unauthorized)"@,
        JmapErrorView::Parse(s) => "Parse error: "@ + s,
        JmapErrorView::Api(s) => "API error: "@ + s,
    }
}

impl JmapError {
    /// A human-readable description, for the web layer to show.
    pub fn message(&self) -> (r: String)
        ensures
            r@ == error_message_of(self@),
    {
        match self {
            JmapError::Http(s) => {
                let mut out = "HTTP error: ".to_owned();
                out.append(s.as_str());
                out
            },
            JmapError::AuthenticationFailed => "Authentication failed (401 Unauthorized)".to_owned(),
            JmapError::Parse(s) => {
                let mut out = "Parse error: ".to_owned();
                out.append(s.as_str());
                out
            },
            JmapError::Api(s) => {
                let mut out = "API error: ".to_owned();
                out.append(s.as_str());
                out
            },
        }
    }
}

} // verus!
