//! The GraphQL response envelope and the library's error taxonomy.
//!
//! Three failures exist: a transport error (transient, retried by the search
//! fetcher), a structural error (the host answered with an error list, never
//! retried), and a shape error (a required field was absent from an otherwise
//! successful response — a contract violation that fails loudly rather than
//! dropping data).

use vstd::prelude::*;

use crate::text::join_sep;
use crate::text::lemma_join_sep_push;

verus! {

/// Why a fetch failed.
#[derive(Debug)]
pub enum FetchError {
    /// The transport failed; safe to retry.
    Transport(String),
    /// The host returned an application-level error payload; not retried.
    Graphql(String),
    /// A required field was missing or unreadable in a successful response.
    Shape(String),
}

impl FetchError {
    pub open spec fn spec_message(self) -> Seq<char> {
        match self {
            FetchError::Transport(m) => m@,
            FetchError::Graphql(m) => m@,
            FetchError::Shape(m) => m@,
        }
    }

    /// The human-readable description carried by this error.
    pub fn message(&self) -> (r: &String)
        ensures
            r@ == self.spec_message(),
    {
        match self {
            FetchError::Transport(m) => m,
            FetchError::Graphql(m) => m,
            FetchError::Shape(m) => m,
        }
    }
}

/// One error entry of a GraphQL error payload.
pub struct GraphqlError {
    pub message: String,
}

/// The envelope every GraphQL response arrives in.
pub struct GraphqlResponse<T> {
    pub data: Option<T>,
    pub errors: Option<Vec<GraphqlError>>,
}

/// The error messages of a payload, in order.
pub open spec fn error_messages(errors: Seq<GraphqlError>) -> Seq<Seq<char>> {
    errors.map_values(|e: GraphqlError| e.message@)
}

/// The message a structural failure carries: the host's error texts joined
/// with semicolons behind a fixed prefix.
pub open spec fn spec_graphql_error_text(errors: Seq<GraphqlError>) -> Seq<char> {
    "GraphQL returned errors: "@ + join_sep(error_messages(errors), "; "@)
}

/// Unwraps a response envelope: an error payload becomes a structural error
/// with every message joined, absent data a shape error, and otherwise the
/// data is handed through untouched.
pub fn graphql_data<T>(resp: GraphqlResponse<T>) -> (r: Result<T, FetchError>)
    ensures
        resp.errors matches Some(errors) ==> (r matches Err(e) && e matches FetchError::Graphql(m)
            && m@ == spec_graphql_error_text(errors@)),
        resp.errors is None && resp.data is Some ==> r == Ok::<T, FetchError>(resp.data->0),
        resp.errors is None && resp.data is None ==> (r matches Err(e) && e matches
            FetchError::Shape(m) && m@ == "GraphQL response missing data"@),
{
    match resp.errors {
        Some(errors) => {
            let ghost msgs = error_messages(errors@);
            let mut text = String::new();
            proof {
                reveal_strlit("GraphQL returned errors: ");
                reveal_strlit("; ");
            }
            text.append("GraphQL returned errors: ");
            let mut i: usize = 0;
            let mut joined = String::new();
            proof {
                assert(msgs.take(0) =~= Seq::<Seq<char>>::empty());
                assert(joined@ =~= join_sep(msgs.take(0), "; "@));
            }
            while i < errors.len()
                invariant
                    0 <= i <= errors@.len(),
                    msgs == error_messages(errors@),
                    msgs.len() == errors@.len(),
                    joined@ == join_sep(msgs.take(i as int), "; "@),
                decreases errors@.len() - i,
            {
                proof {
                    reveal_strlit("; ");
                    lemma_join_sep_push(msgs.take(i as int), "; "@, msgs[i as int]);
                    assert(msgs.take(i as int).push(msgs[i as int]) =~= msgs.take(i as int + 1));
                }
                if i > 0 {
                    joined.append("; ");
                }
                joined.append(errors[i].message.as_str());
                proof {
                    assert(joined@ =~= join_sep(msgs.take(i as int + 1), "; "@));
                }
                i = i + 1;
            }
            proof {
                assert(msgs.take(i as int) =~= msgs);
            }
            text.append(joined.as_str());
            Err(FetchError::Graphql(text))
        },
        None => match resp.data {
            Some(d) => Ok(d),
            None => Err(FetchError::Shape(String::from_str("GraphQL response missing data"))),
        },
    }
}

// The JSON tree octocrab hands back; opaque here, it is only tested for
// presence and passed through.
#[verifier::external_type_specification]
#[verifier::external_body]
pub struct ExJsonValue(serde_json::Value);

/// The viewer connection a paged query walks must be present.
pub fn require_connection<'a>(v: Option<&'a serde_json::Value>) -> (r: Result<
    &'a serde_json::Value,
    FetchError,
>)
    ensures
        v matches Some(x) ==> r == Ok::<&'a serde_json::Value, FetchError>(x),
        v is None ==> (r matches Err(e) && e matches FetchError::Shape(m) && m@
            == "GraphQL response missing connection"@),
{
    match v {
        Some(x) => Ok(x),
        None => Err(FetchError::Shape(String::from_str("GraphQL response missing connection"))),
    }
}

/// A search response must carry its `search` object.
pub fn require_search<'a>(v: Option<&'a serde_json::Value>) -> (r: Result<
    &'a serde_json::Value,
    FetchError,
>)
    ensures
        v matches Some(x) ==> r == Ok::<&'a serde_json::Value, FetchError>(x),
        v is None ==> (r matches Err(e) && e matches FetchError::Shape(m) && m@
            == "search response missing search"@),
{
    match v {
        Some(x) => Ok(x),
        None => Err(FetchError::Shape(String::from_str("search response missing search"))),
    }
}

/// A review-contributions response must carry its connection.
pub fn require_review_connection<'a>(v: Option<&'a serde_json::Value>) -> (r: Result<
    &'a serde_json::Value,
    FetchError,
>)
    ensures
        v matches Some(x) ==> r == Ok::<&'a serde_json::Value, FetchError>(x),
        v is None ==> (r matches Err(e) && e matches FetchError::Shape(m) && m@
            == "review contributions response missing connection"@),
{
    match v {
        Some(x) => Ok(x),
        None => Err(
            FetchError::Shape(
                String::from_str("review contributions response missing connection"),
            ),
        ),
    }
}

/// The login of the requesting identity must be present in the viewer
/// response.
pub fn require_viewer_login(v: Option<&str>) -> (r: Result<String, FetchError>)
    ensures
        v matches Some(s) ==> (r matches Ok(out) && out@ == s@),
        v is None ==> (r matches Err(e) && e matches FetchError::Shape(m) && m@
            == "viewer response missing login"@),
{
    match v {
        Some(s) => Ok(String::from_str(s)),
        None => Err(FetchError::Shape(String::from_str("viewer response missing login"))),
    }
}

} // verus!
