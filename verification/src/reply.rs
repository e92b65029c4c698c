//! Answers to requests.
use crate::json::{Json, Tree};
use crate::mailboxes::{failure, failure_of};
use crate::text::texts;
use vstd::prelude::*;

verus! {

/// An answer to a request.
#[derive(Debug, PartialEq, Eq)]
pub enum Reply {
    /// A status, a JSON value and cookies to set.
    Data(u16, Json, Vec<String>),
    /// A status and a text.
    Text(u16, String),
    /// A status, a place to go to and cookies to set.
    Redirect(u16, String, Vec<String>),
}

/// What an answer holds.
pub ghost enum ReplyTree {
    Data(u16, Tree, Seq<Seq<char>>),
    Text(u16, Seq<char>),
    Redirect(u16, Seq<char>, Seq<Seq<char>>),
}

impl View for Reply {
    type V = ReplyTree;

    open spec fn view(&self) -> ReplyTree {
        match self {
            Reply::Data(status, body, cookies) => ReplyTree::Data(*status, body@, texts(cookies@)),
            Reply::Text(status, body) => ReplyTree::Text(*status, body@),
            Reply::Redirect(status, place, cookies) => ReplyTree::Redirect(*status, place@, texts(cookies@)),
        }
    }
}

/// The answer that holds a JSON value.
pub open spec fn data_of(body: Tree) -> ReplyTree {
    ReplyTree::Data(200, body, seq![])
}

/// The answer that a request failed.
pub open spec fn error_of(status: u16, message: Seq<char>) -> ReplyTree {
    ReplyTree::Data(status, failure_of(message), seq![])
}

/// Answers with a JSON value.
pub fn json_ok(body: Json) -> (r: Reply)
    ensures
        r@ == data_of(body@),
{
    let cookies: Vec<String> = Vec::new();
    proof {
        assert(texts(cookies@) =~= seq![]);
    }
    Reply::Data(200, body, cookies)
}

/// Answers that a request failed.
pub fn json_err(status: u16, message: &str) -> (r: Reply)
    ensures
        r@ == error_of(status, message@),
{
    let cookies: Vec<String> = Vec::new();
    proof {
        assert(texts(cookies@) =~= seq![]);
    }
    Reply::Data(status, failure(message), cookies)
}

/// Answers with a JSON value and a cookie to set.
pub fn data_with_cookie(body: Json, cookie: String) -> (r: Reply)
    ensures
        r@ == ReplyTree::Data(200, body@, seq![cookie@]),
{
    let cookies = vec![cookie];
    proof {
        assert(texts(cookies@) =~= seq![cookie@]);
    }
    Reply::Data(200, body, cookies)
}

/// Answers that the user is to go elsewhere, with a cookie to set.
pub fn redirect_with_cookie(place: &str, cookie: String) -> (r: Reply)
    ensures
        r@ == ReplyTree::Redirect(303, place@, seq![cookie@]),
{
    let cookies = vec![cookie];
    proof {
        assert(texts(cookies@) =~= seq![cookie@]);
    }
    Reply::Redirect(303, place.to_owned(), cookies)
}

/// The answer to a command that gave a value or failed.
pub open spec fn command_reply_of(status: Result<Tree, Seq<char>>) -> ReplyTree {
    match status {
        Ok(t) => data_of(t),
        Err(e) => error_of(500, e),
    }
}

/// What the result of a command holds.
pub open spec fn result_tree(result: Result<Json, String>) -> Result<Tree, Seq<char>> {
    match result {
        Ok(j) => Ok(j@),
        Err(e) => Err(e@),
    }
}

/// Answers with what a command gave.
pub fn command_reply(result: Result<Json, String>) -> (r: Reply)
    ensures
        r@ == command_reply_of(result_tree(result)),
{
    match result {
        Ok(j) => json_ok(j),
        Err(e) => json_err(500, e.as_str()),
    }
}

} // verus!
