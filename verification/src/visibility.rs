//! Requests about what a viewer may see, and the decisions on them.

use vstd::prelude::*;

use crate::text::{list_contains, parse_i32, str_eq};
use crate::text;

verus! {

/// Who asks.
#[derive(Debug, Clone, PartialEq, Eq)]
pub struct QuerySubject {
    pub user_id: Option<i32>,
    pub authenticated: bool,
    pub permissions: Vec<String>,
}

/// What is asked about.
#[derive(Debug, Clone, PartialEq, Eq)]
pub struct QueryResource {
    pub kind: String,
    pub id: String,
    pub contest_id: Option<i32>,
    pub problem_id: Option<i32>,
}

#[derive(Debug, Clone, PartialEq, Eq)]
pub struct QueryContext {
    pub contest_id: Option<i32>,
}

#[derive(Debug, Clone, PartialEq, Eq)]
pub struct VisibilityQueryInput {
    pub subject: QuerySubject,
    pub action: String,
    pub context: QueryContext,
    pub resources: Vec<QueryResource>,
}

/// A decision on one resource. `Allow` leaves it to the others.
#[derive(Debug, Clone, PartialEq, Eq)]
pub enum WireDecision {
    Allow {},
    Redact { fields: Vec<String> },
}

/// The decision blanks exactly these fields; none of them means that it allows.
pub open spec fn blanks(d: WireDecision, fields: Option<Seq<Seq<char>>>) -> bool {
    match fields {
        None => d is Allow,
        Some(f) => d matches WireDecision::Redact { fields: g } && text::views(g@) == f,
    }
}

/// The submission that a resource is, where it is one of a contest.
pub open spec fn submission_of(r: QueryResource) -> Option<i32> {
    if r.kind@ == "submission"@ && r.contest_id is Some {
        match text::bounded_value(r.id@, i32::MIN as int, i32::MAX as int) {
            Some(v) => Some(v as i32),
            None => None,
        }
    } else {
        None
    }
}

pub fn submission_id(r: &QueryResource) -> (id: Option<i32>)
    ensures
        id == submission_of(*r),
{
    if str_eq(r.kind.as_str(), "submission") && r.contest_id.is_some() {
        parse_i32(r.id.as_str())
    } else {
        None
    }
}

/// The submissions that the resources are, one by one.
pub open spec fn submissions_of(resources: Seq<QueryResource>) -> Seq<Option<i32>> {
    resources.map_values(|r: QueryResource| submission_of(r))
}

pub fn submission_ids(resources: &Vec<QueryResource>) -> (r: Vec<Option<i32>>)
    ensures
        r@ == submissions_of(resources@),
{
    let mut out: Vec<Option<i32>> = Vec::new();
    let mut i: usize = 0;
    while i < resources.len()
        invariant
            i <= resources@.len(),
            out@ == submissions_of(resources@).take(i as int),
        decreases resources@.len() - i,
    {
        out.push(submission_id(&resources[i]));
        assert(out@ =~= submissions_of(resources@).take(i as int + 1));
        i += 1;
    }
    assert(submissions_of(resources@).take(i as int) =~= submissions_of(resources@));
    out
}

/// A decision to allow, for each of `n` resources.
pub fn allow_all(n: usize) -> (r: Vec<WireDecision>)
    ensures
        r@.len() == n,
        forall|i: int| 0 <= i < n ==> (#[trigger] r@[i]) is Allow,
{
    let mut out: Vec<WireDecision> = Vec::new();
    let mut i: usize = 0;
    while i < n
        invariant
            i <= n,
            out@.len() == i,
            forall|k: int| 0 <= k < i ==> (#[trigger] out@[k]) is Allow,
        decreases n - i,
    {
        out.push(WireDecision::Allow {  });
        i += 1;
    }
    out
}

/// Whether the subject holds a permission.
pub fn holds(subject: &QuerySubject, permission: &str) -> (r: bool)
    ensures
        r == text::views(subject.permissions@).contains(permission@),
{
    list_contains(&subject.permissions, permission)
}

} // verus!
