use rung_cli::forge::{auth_context, gitlab_api_url, self_hosted_host, unsupported_forge_message};

#[test]
fn api_url_keeps_its_scheme() {
    assert_eq!(gitlab_api_url(Some("https://gitlab.example.com/api/v4")), Some("https://gitlab.example.com/api/v4".to_string()));
    assert_eq!(gitlab_api_url(Some("http://gitlab.local/api/v4")), Some("http://gitlab.local/api/v4".to_string()));
}

#[test]
fn api_url_without_scheme_gets_https() {
    assert_eq!(gitlab_api_url(Some("gitlab.example.com/api/v4")), Some("https://gitlab.example.com/api/v4".to_string()));
    assert_eq!(gitlab_api_url(None), None);
}

#[test]
fn self_hosted_only_when_not_recognised_otherwise() {
    assert_eq!(self_hosted_host(Some("gitlab.example.com".to_string()), true), None);
    assert_eq!(self_hosted_host(Some("gitlab.example.com".to_string()), false), Some("gitlab.example.com".to_string()));
}

#[test]
fn forge_messages() {
    assert_eq!(
        unsupported_forge_message("GitHub, GitLab"),
        "unsupported forge: remote is not a recognized forge repository (supported: GitHub, GitLab)"
    );
    assert_eq!(auth_context("GitHub", "set GITHUB_TOKEN"), "Failed to authenticate with GitHub - set GITHUB_TOKEN");
}
