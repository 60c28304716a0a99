//! Cursor pagination decisions.
//!
//! A connection query runs page by page until the host reports no next page,
//! the caller's early-stop test fires, or a fixed page budget is spent. The
//! functions here decide whether another page is fetched and with which
//! cursor; the application only executes the queries.

use vstd::prelude::*;

use crate::shape::FetchError;
use crate::text::opt_str_view;

verus! {

/// No connection is walked past this many pages.
pub const MAX_PAGES: u64 = 1000;

/// The cursor fields of a connection page.
pub struct RawPageInfo {
    pub has_next_page: Option<bool>,
    pub end_cursor: Option<String>,
}

/// The next page's cursor: `None` stops the walk. The walk goes on exactly
/// when the host reports a next page and gave a cursor for it.
pub open spec fn spec_page_cursor(
    has_next_page: bool,
    end_cursor: Option<Seq<char>>,
) -> Option<Seq<char>> {
    if has_next_page {
        end_cursor
    } else {
        None
    }
}

fn page_cursor_step(info: Option<&RawPageInfo>, missing_info: &str, missing_next: &str) -> (r:
    Result<Option<String>, FetchError>)
    ensures
        info is None ==> (r matches Err(e) && e matches FetchError::Shape(m) && m@
            == missing_info@),
        info is Some && info->0.has_next_page is None ==> (r matches Err(e) && e matches
            FetchError::Shape(m) && m@ == missing_next@),
        info is Some && info->0.has_next_page is Some ==> (r matches Ok(c) && opt_str_view(c)
            == spec_page_cursor(info->0.has_next_page->0, opt_str_view(info->0.end_cursor))),
{
    let pi = match info {
        Some(pi) => pi,
        None => {
            return Err(FetchError::Shape(String::from_str(missing_info)));
        },
    };
    let has_next = match pi.has_next_page {
        Some(h) => h,
        None => {
            return Err(FetchError::Shape(String::from_str(missing_next)));
        },
    };
    if !has_next {
        return Ok(None);
    }
    match &pi.end_cursor {
        Some(c) => Ok(Some(c.clone())),
        None => Ok(None),
    }
}

/// Decides the next cursor of a paged search query.
pub fn search_page_cursor(info: Option<&RawPageInfo>) -> (r: Result<Option<String>, FetchError>)
    ensures
        info is None ==> (r matches Err(e) && e matches FetchError::Shape(m) && m@
            == "search response missing pageInfo"@),
        info is Some && info->0.has_next_page is None ==> (r matches Err(e) && e matches
            FetchError::Shape(m) && m@ == "search response missing pageInfo.hasNextPage"@),
        info is Some && info->0.has_next_page is Some ==> (r matches Ok(c) && opt_str_view(c)
            == spec_page_cursor(info->0.has_next_page->0, opt_str_view(info->0.end_cursor))),
{
    page_cursor_step(
        info,
        "search response missing pageInfo",
        "search response missing pageInfo.hasNextPage",
    )
}

/// Decides the next cursor of a paged viewer-connection query.
pub fn viewer_page_cursor(info: Option<&RawPageInfo>) -> (r: Result<Option<String>, FetchError>)
    ensures
        info is None ==> (r matches Err(e) && e matches FetchError::Shape(m) && m@
            == "GraphQL response missing pageInfo"@),
        info is Some && info->0.has_next_page is None ==> (r matches Err(e) && e matches
            FetchError::Shape(m) && m@ == "GraphQL response missing pageInfo.hasNextPage"@),
        info is Some && info->0.has_next_page is Some ==> (r matches Ok(c) && opt_str_view(c)
            == spec_page_cursor(info->0.has_next_page->0, opt_str_view(info->0.end_cursor))),
{
    page_cursor_step(
        info,
        "GraphQL response missing pageInfo",
        "GraphQL response missing pageInfo.hasNextPage",
    )
}

/// Decides the next cursor of the review-contributions query.
pub fn review_page_cursor(info: Option<&RawPageInfo>) -> (r: Result<Option<String>, FetchError>)
    ensures
        info is None ==> (r matches Err(e) && e matches FetchError::Shape(m) && m@
            == "review contributions response missing pageInfo"@),
        info is Some && info->0.has_next_page is None ==> (r matches Err(e) && e matches
            FetchError::Shape(m) && m@
            == "review contributions response missing pageInfo.hasNextPage"@),
        info is Some && info->0.has_next_page is Some ==> (r matches Ok(c) && opt_str_view(c)
            == spec_page_cursor(info->0.has_next_page->0, opt_str_view(info->0.end_cursor))),
{
    page_cursor_step(
        info,
        "review contributions response missing pageInfo",
        "review contributions response missing pageInfo.hasNextPage",
    )
}

/// Reads the count a count-only search query returned; a missing count is a
/// shape error, and a negative one counts as zero.
pub fn search_count(raw: Option<i64>) -> (r: Result<u64, FetchError>)
    ensures
        raw is None ==> (r matches Err(e) && e matches FetchError::Shape(m) && m@
            == "search response missing issueCount"@),
        raw is Some && raw->0 >= 0 ==> r == Ok::<u64, FetchError>(raw->0 as u64),
        raw is Some && raw->0 < 0 ==> r == Ok::<u64, FetchError>(0u64),
{
    match raw {
        None => Err(FetchError::Shape(String::from_str("search response missing issueCount"))),
        Some(c) => if c >= 0 {
            Ok(c as u64)
        } else {
            Ok(0)
        },
    }
}

} // verus!
