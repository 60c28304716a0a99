//! Token selection and API endpoints.
//!
//! Reading the environment and running the `gh` command line tool are the
//! application's work; the functions here make every decision on the plain
//! values that come back: which variables count for which host, that blank
//! tokens are skipped, and what the API base URL of a host is.

use vstd::prelude::*;

use crate::text::spec_eq_ignore_ascii_case;
use crate::text::spec_trim;
use crate::text::str_eq_ignore_ascii_case;
use crate::text::trim_str;

verus! {

/// The first of two environment values that is non-blank after trimming.
pub open spec fn spec_first_token(
    primary: Option<Seq<char>>,
    secondary: Option<Seq<char>>,
) -> Option<Seq<char>> {
    if primary matches Some(p) && spec_trim(p).len() > 0 {
        Some(spec_trim(primary->0))
    } else if secondary matches Some(s) && spec_trim(s).len() > 0 {
        Some(spec_trim(secondary->0))
    } else {
        None
    }
}

fn first_token(primary: Option<String>, secondary: Option<String>) -> (r: Option<String>)
    ensures
        crate::text::opt_str_view(r) == spec_first_token(
            crate::text::opt_str_view(primary),
            crate::text::opt_str_view(secondary),
        ),
{
    if let Some(p) = &primary {
        let t = trim_str(p.as_str());
        if t.unicode_len() > 0 {
            return Some(String::from_str(t));
        }
    }
    if let Some(s) = &secondary {
        let t = trim_str(s.as_str());
        if t.unicode_len() > 0 {
            return Some(String::from_str(t));
        }
    }
    None
}

/// The environment token for a host: `github.com` (compared ignoring ASCII
/// case) reads `GH_TOKEN` then `GITHUB_TOKEN`; any other host reads
/// `GH_ENTERPRISE_TOKEN` then `GITHUB_ENTERPRISE_TOKEN`. Blank values are
/// skipped.
pub open spec fn spec_env_token(
    host: Seq<char>,
    gh_token: Option<Seq<char>>,
    github_token: Option<Seq<char>>,
    gh_enterprise_token: Option<Seq<char>>,
    github_enterprise_token: Option<Seq<char>>,
) -> Option<Seq<char>> {
    if spec_eq_ignore_ascii_case(host, "github.com"@) {
        spec_first_token(gh_token, github_token)
    } else {
        spec_first_token(gh_enterprise_token, github_enterprise_token)
    }
}

/// The message shown when no token can be found for a host.
pub open spec fn spec_token_error(host: Seq<char>) -> Seq<char> {
    "token for "@ + host + " not found. Please set `GH_TOKEN` or log in with `gh auth login`."@
}

/// Picks the token for a host: first the host's environment variables, then
/// what the `gh` command line tool produced; with neither, an error naming
/// the host.
pub fn fetch_token(
    host: &str,
    gh_token: Option<String>,
    github_token: Option<String>,
    gh_enterprise_token: Option<String>,
    github_enterprise_token: Option<String>,
    gh_cli_token: Option<String>,
) -> (r: Result<String, String>)
    ensures
        ({
            let env = spec_env_token(
                host@,
                crate::text::opt_str_view(gh_token),
                crate::text::opt_str_view(github_token),
                crate::text::opt_str_view(gh_enterprise_token),
                crate::text::opt_str_view(github_enterprise_token),
            );
            &&& (env matches Some(t) ==> (r matches Ok(tok) && tok@ == t))
            &&& (env is None && gh_cli_token is Some ==> (r matches Ok(tok) && tok@
                == gh_cli_token->0@))
            &&& (env is None && gh_cli_token is None ==> (r matches Err(e) && e@
                == spec_token_error(host@)))
        }),
{
    proof {
        reveal_strlit("github.com");
    }
    let from_env = if str_eq_ignore_ascii_case(host, "github.com") {
        first_token(gh_token, github_token)
    } else {
        first_token(gh_enterprise_token, github_enterprise_token)
    };
    if let Some(tok) = from_env {
        return Ok(tok);
    }
    if let Some(tok) = gh_cli_token {
        return Ok(tok);
    }
    proof {
        reveal_strlit("token for ");
        reveal_strlit(" not found. Please set `GH_TOKEN` or log in with `gh auth login`.");
    }
    let mut msg = String::new();
    msg.append("token for ");
    msg.append(host);
    msg.append(" not found. Please set `GH_TOKEN` or log in with `gh auth login`.");
    Err(msg)
}

/// What the `gh auth token` invocation yielded: nothing on failure, and the
/// trimmed output only when it is non-blank.
pub fn gh_output_token(success: bool, stdout_text: &str) -> (r: Option<String>)
    ensures
        !success ==> r is None,
        success && spec_trim(stdout_text@).len() == 0 ==> r is None,
        success && spec_trim(stdout_text@).len() > 0 ==> (r matches Some(t) && t@ == spec_trim(
            stdout_text@,
        )),
{
    if !success {
        return None;
    }
    let t = trim_str(stdout_text);
    if t.unicode_len() == 0 {
        None
    } else {
        Some(String::from_str(t))
    }
}

/// The REST/GraphQL endpoint of a host: the public service has its own API
/// domain; an enterprise host serves the API under `/api`.
pub fn api_base_url(host: &str) -> (r: String)
    ensures
        spec_eq_ignore_ascii_case(host@, "github.com"@) ==> r@ == "https://api.github.com"@,
        !spec_eq_ignore_ascii_case(host@, "github.com"@) ==> r@ == "https://"@ + host@ + "/api"@,
{
    proof {
        reveal_strlit("github.com");
    }
    if str_eq_ignore_ascii_case(host, "github.com") {
        String::from_str("https://api.github.com")
    } else {
        proof {
            reveal_strlit("https://");
            reveal_strlit("/api");
        }
        let mut out = String::new();
        out.append("https://");
        out.append(host);
        out.append("/api");
        out
    }
}

} // verus!
