//! Requests, and refusals of them.

use vstd::prelude::*;

use crate::text::{concat, list_contains, parse_i32, parse_i64};
use crate::textmap::TextMap;
use crate::text;

verus! {

/// An answer that refuses a request.
#[derive(Debug, Clone, PartialEq, Eq)]
pub struct HttpError {
    pub status: u16,
    pub message: String,
}

pub open spec fn error_is(e: HttpError, status: u16, message: Seq<char>) -> bool {
    e.status == status && e.message@ == message
}

impl HttpError {
    pub fn new(status: u16, message: &str) -> (r: Self)
        ensures
            error_is(r, status, message@),
    {
        HttpError { status, message: message.to_owned() }
    }
}

/// Who sends a request.
#[derive(Debug, Clone, PartialEq, Eq)]
pub struct HttpAuth {
    pub user_id: i32,
    pub username: String,
    pub permissions: Vec<String>,
}

/// A request, without its body.
#[derive(Debug)]
pub struct HttpRequest {
    pub params: TextMap<String>,
    pub query: TextMap<String>,
    pub headers: TextMap<String>,
    pub auth: Option<HttpAuth>,
}

/// The text under a name.
pub open spec fn text_at(m: Map<Seq<char>, String>, name: Seq<char>) -> Option<Seq<char>> {
    if m.contains_key(name) {
        Some(m[name]@)
    } else {
        None
    }
}

/// The number under a name, where it is one within these bounds.
pub open spec fn int_at(
    m: Map<Seq<char>, String>,
    name: Seq<char>,
    low: int,
    high: int,
) -> Option<int> {
    match text_at(m, name) {
        Some(s) => text::bounded_value(s, low, high),
        None => None,
    }
}

impl HttpRequest {
    /// A number of the path. It has to be there.
    pub fn path_i32(&self, name: &str) -> (r: Result<i32, HttpError>)
        ensures
            match int_at(self.params@, name@, i32::MIN as int, i32::MAX as int) {
                Some(v) => r == Ok::<i32, HttpError>(v as i32),
                None => r matches Err(e) && error_is(e, 400, "Invalid "@ + name@),
            },
    {
        match self.params.get(name) {
            Some(s) => match parse_i32(s.as_str()) {
                Some(v) => Ok(v),
                None => Err(HttpError::new(400, concat("Invalid ", name).as_str())),
            },
            None => Err(HttpError::new(400, concat("Invalid ", name).as_str())),
        }
    }

    pub fn path_i64(&self, name: &str) -> (r: Result<i64, HttpError>)
        ensures
            match int_at(self.params@, name@, i64::MIN as int, i64::MAX as int) {
                Some(v) => r == Ok::<i64, HttpError>(v as i64),
                None => r matches Err(e) && error_is(e, 400, "Invalid "@ + name@),
            },
    {
        match self.params.get(name) {
            Some(s) => match parse_i64(s.as_str()) {
                Some(v) => Ok(v),
                None => Err(HttpError::new(400, concat("Invalid ", name).as_str())),
            },
            None => Err(HttpError::new(400, concat("Invalid ", name).as_str())),
        }
    }

    /// A number of the query, where there is one.
    pub fn query_i32(&self, name: &str) -> (r: Option<i32>)
        ensures
            r == (match int_at(self.query@, name@, i32::MIN as int, i32::MAX as int) {
                Some(v) => Some(v as i32),
                None => None,
            }),
    {
        match self.query.get(name) {
            Some(s) => parse_i32(s.as_str()),
            None => None,
        }
    }

    pub fn query_i64(&self, name: &str) -> (r: Option<i64>)
        ensures
            r == (match int_at(self.query@, name@, i64::MIN as int, i64::MAX as int) {
                Some(v) => Some(v as i64),
                None => None,
            }),
    {
        match self.query.get(name) {
            Some(s) => parse_i64(s.as_str()),
            None => None,
        }
    }

    /// A text of the query, where there is one.
    pub fn query_text(&self, name: &str) -> (r: Option<String>)
        ensures
            crate::text::opt_view(r) == text_at(self.query@, name@),
    {
        match self.query.get(name) {
            Some(s) => Some(s.clone()),
            None => None,
        }
    }

    /// The sender. Requests without one are refused.
    pub fn require_login(&self) -> (r: Result<i32, HttpError>)
        ensures
            match self.auth {
                Some(a) => r == Ok::<i32, HttpError>(a.user_id),
                None => r matches Err(e) && error_is(e, 401, "Authentication required"@),
            },
    {
        match &self.auth {
            Some(a) => Ok(a.user_id),
            None => Err(HttpError::new(401, "Authentication required")),
        }
    }

    /// The sender's name; empty where there is none.
    pub fn caller_username(&self) -> (r: String)
        ensures
            r@ == (match self.auth {
                Some(a) => a.username@,
                None => seq![],
            }),
    {
        match &self.auth {
            Some(a) => a.username.clone(),
            None => {
                let none = String::new();
                assert(none@ =~= seq![]);
                none
            },
        }
    }

    pub open spec fn permitted(self, permission: Seq<char>) -> bool {
        self.auth matches Some(a) && text::views(a.permissions@).contains(permission)
    }

    pub fn has_permission(&self, permission: &str) -> (r: bool)
        ensures
            r == self.permitted(permission@),
    {
        match &self.auth {
            Some(a) => list_contains(&a.permissions, permission),
            None => false,
        }
    }
}

} // verus!
