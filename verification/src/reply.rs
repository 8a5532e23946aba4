//! What the hub replies.

use vstd::prelude::*;

use crate::json::{lemma_with, Json, JsonView};

verus! {

/// A reply: a status and a JSON body.
pub struct Reply {
    /// The status.
    pub status: u16,
    /// The body.
    pub body: Json,
}

/// What a [`Reply`] holds.
pub struct ReplyView {
    pub status: u16,
    pub body: JsonView,
}

impl View for Reply {
    type V = ReplyView;

    open spec fn view(&self) -> ReplyView {
        ReplyView { status: self.status, body: self.body@ }
    }
}

/// A reply that says what went wrong.
pub open spec fn error_of(status: u16, message: Seq<char>) -> ReplyView {
    ReplyView { status, body: JsonView::object().with_text("error"@, message) }
}

/// A reply that says what went wrong.
pub fn error_reply(status: u16, message: &str) -> (r: Reply)
    ensures
        r@ == error_of(status, message@),
{
    Reply { status, body: Json::object().with_text("error", message) }
}

/// A reply to a body that is no JSON.
pub open spec fn invalid_body() -> ReplyView {
    error_of(400, "invalid request body"@)
}

/// A reply to a body that is no JSON.
pub fn invalid_body_reply() -> (r: Reply)
    ensures
        r@ == invalid_body(),
{
    error_reply(400, "invalid request body")
}

/// An error in the form that clients of a language model expect.
pub open spec fn server_error_of(status: u16, message: Seq<char>) -> ReplyView {
    ReplyView {
        status,
        body: JsonView::object().with(
            "error"@,
            JsonView::object().with_text("message"@, message).with_text("type"@, "server_error"@),
        ),
    }
}

/// An error in the form that clients of a language model expect.
pub fn server_error(status: u16, message: &str) -> (r: Reply)
    ensures
        r@ == server_error_of(status, message@),
{
    Reply {
        status,
        body: Json::object().with(
            "error",
            Json::object().with_text("message", message).with_text("type", "server_error"),
        ),
    }
}

/// A reply that says what went wrong has the words and the status it was made
/// with, in either form.
pub proof fn lemma_errors_say(status: u16, message: Seq<char>)
    ensures
        error_of(status, message).status == status,
        error_of(status, message).body.has("error"@, JsonView::Text(message)),
        server_error_of(status, message).status == status,
        exists|error: JsonView| #[trigger]
            server_error_of(status, message).body.has("error"@, error) && error.has(
                "message"@,
                JsonView::Text(message),
            ) && error.has("type"@, JsonView::Text("server_error"@)),
{
    reveal_strlit("message");
    assert("message"@.len() == 7);
    reveal_strlit("type");
    assert("type"@.len() == 4);
    let kind = JsonView::Text("server_error"@);
    let words = JsonView::Text(message);
    let b0 = JsonView::object();
    let b1 = b0.with("message"@, words);
    let b2 = b1.with("type"@, kind);
    lemma_with(b0, "error"@, words);
    lemma_with(b0, "message"@, words);
    lemma_with(b1, "type"@, kind);
    lemma_with(b0, "error"@, b2);
    assert(b1.has("message"@, words) && b1.lacks("type"@));
    assert(b2.has("message"@, words) && b2.has("type"@, kind));
    assert(server_error_of(status, message).body.has("error"@, b2));
}

} // verus!
