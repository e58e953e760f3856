//! What comes of asking an upstream server.

use vstd::prelude::*;

use crate::json::{Json, JsonView};

verus! {

/// What came of a request for JSON: why it failed, or the status and the body or
/// why the body is not JSON. The body matters only where the status is one of
/// success.
#[derive(Debug)]
pub enum Fetched {
    Failed(String),
    Answered { status: u16, body: Result<Json, String> },
}

/// What came of a request.
#[verifier::ext_equal]
pub enum FetchedView {
    Failed(Seq<char>),
    Answered { status: u16, body: Result<JsonView, Seq<char>> },
}

impl View for Fetched {
    type V = FetchedView;

    open spec fn view(&self) -> FetchedView {
        match self {
            Fetched::Failed(e) => FetchedView::Failed(e@),
            Fetched::Answered { status, body } => FetchedView::Answered {
                status: *status,
                body: match body {
                    Ok(v) => Ok(v@),
                    Err(e) => Err(e@),
                },
            },
        }
    }
}

/// Whether a status is one of success.
pub open spec fn success(status: u16) -> bool {
    200 <= status < 300
}

/// Whether a status is one of success.
pub fn is_success(status: u16) -> (r: bool)
    ensures
        r == success(status),
{
    200 <= status && status < 300
}

/// What came of asking for the metadata of a package.
#[derive(Debug)]
pub enum MetadataFetch {
    NotSent(String),
    NotAnswered(String),
    Unreadable { status: u16, error: String },
    Malformed { status: u16, error: String },
    Parsed { status: u16, metadata: Json },
}

impl MetadataFetch {
    /// The status of the answer, where there is one.
    pub open spec fn status(self) -> Option<u16> {
        match self {
            MetadataFetch::NotSent(_) | MetadataFetch::NotAnswered(_) => None,
            MetadataFetch::Unreadable { status, .. } => Some(status),
            MetadataFetch::Malformed { status, .. } => Some(status),
            MetadataFetch::Parsed { status, .. } => Some(status),
        }
    }
}

/// Success is every status whose hundreds are two, and no other.
pub proof fn law_success(status: u16)
    ensures
        success(status) <==> status as int / 100 == 2,
{
}

} // verus!
