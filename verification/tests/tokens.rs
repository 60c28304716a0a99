use gh_activity::auth::api_base_url;
use gh_activity::auth::fetch_token;
use gh_activity::auth::gh_output_token;

#[test]
fn auth_token_prefers_gh_token() {
    let token = fetch_token(
        "github.com",
        Some("gh-token".to_string()),
        Some("github-token".to_string()),
        None,
        None,
        None,
    )
    .unwrap();
    assert_eq!(token, "gh-token");
}

#[test]
fn auth_fetch_token_env_differs_by_host() {
    let github_token = fetch_token(
        "github.com",
        Some("gh-token".to_string()),
        None,
        Some("ghe-token".to_string()),
        None,
        None,
    )
    .unwrap();
    assert_eq!(github_token, "gh-token");

    let ghe_token = fetch_token(
        "ghe.example.com",
        Some("gh-token".to_string()),
        None,
        Some("ghe-token".to_string()),
        None,
        None,
    )
    .unwrap();
    assert_eq!(ghe_token, "ghe-token");
}

#[test]
fn auth_fetch_token_skips_empty_github_token_vars() {
    let token = fetch_token(
        "github.com",
        Some("".to_string()),
        Some("github-token".to_string()),
        None,
        None,
        None,
    )
    .unwrap();
    assert_eq!(token, "github-token");
}

#[test]
fn auth_fetch_token_skips_empty_enterprise_token_vars() {
    let token = fetch_token(
        "ghe.example.com",
        None,
        None,
        Some("".to_string()),
        Some("ghe-token".to_string()),
        None,
    )
    .unwrap();
    assert_eq!(token, "ghe-token");
}

#[test]
fn client_token_prefers_gh_token() {
    let token = fetch_token(
        "github.com",
        Some("gh-token".to_string()),
        Some("github-token".to_string()),
        None,
        None,
        None,
    )
    .unwrap();
    assert_eq!(token, "gh-token");
}

#[test]
fn client_fetch_token_env_differs_by_host() {
    let github_token = fetch_token(
        "github.com",
        Some("gh-token".to_string()),
        None,
        Some("ghe-token".to_string()),
        None,
        None,
    )
    .unwrap();
    assert_eq!(github_token, "gh-token");

    let ghe_token = fetch_token(
        "ghe.example.com",
        Some("gh-token".to_string()),
        None,
        Some("ghe-token".to_string()),
        None,
        None,
    )
    .unwrap();
    assert_eq!(ghe_token, "ghe-token");
}

#[test]
fn client_fetch_token_skips_empty_github_token_vars() {
    let token = fetch_token(
        "github.com",
        Some("".to_string()),
        Some("github-token".to_string()),
        None,
        None,
        None,
    )
    .unwrap();
    assert_eq!(token, "github-token");
}

#[test]
fn client_fetch_token_skips_empty_enterprise_token_vars() {
    let token = fetch_token(
        "ghe.example.com",
        None,
        None,
        Some("".to_string()),
        Some("ghe-token".to_string()),
        None,
    )
    .unwrap();
    assert_eq!(token, "ghe-token");
}

#[test]
fn fetch_token_falls_back_to_gh_cli() {
    let token = fetch_token("github.com", None, None, None, None, Some("cli-token".to_string()))
        .unwrap();
    assert_eq!(token, "cli-token");
}

#[test]
fn fetch_token_without_any_source_names_the_host() {
    let err = fetch_token("ghe.example.com", None, None, None, None, None).unwrap_err();
    assert_eq!(
        err,
        "token for ghe.example.com not found. Please set `GH_TOKEN` or log in with `gh auth login`."
    );
}

#[test]
fn fetch_token_trims_env_values() {
    let token = fetch_token(
        "github.com",
        Some("  padded-token \n".to_string()),
        None,
        None,
        None,
        None,
    )
    .unwrap();
    assert_eq!(token, "padded-token");
}

#[test]
fn gh_output_token_requires_success_and_substance() {
    assert!(gh_output_token(false, "tok").is_none());
    assert!(gh_output_token(true, "  \n").is_none());
    assert_eq!(gh_output_token(true, " tok \n").unwrap(), "tok");
}

#[test]
fn api_base_url_distinguishes_public_host() {
    assert_eq!(api_base_url("github.com"), "https://api.github.com");
    assert_eq!(api_base_url("GitHub.COM"), "https://api.github.com");
    assert_eq!(api_base_url("ghe.example.com"), "https://ghe.example.com/api");
}
