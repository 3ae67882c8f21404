use cloudflare_manager::config::Config;
use cloudflare_manager::config::ConfigError;
use cloudflare_manager::config::SecretName;
use cloudflare_manager::config::build_header_plan;
use cloudflare_manager::config::read_params;
use cloudflare_manager::handler::DispatchOutcome;
use cloudflare_manager::handler::RouteDecision;
use cloudflare_manager::handler::bad_request_response;
use cloudflare_manager::handler::dispatch_response;
use cloudflare_manager::handler::not_found_response;
use cloudflare_manager::handler::plan_dns_record;
use cloudflare_manager::handler::route;

fn test_config() -> Config {
    Config::from_secrets(
        Some("AK".to_string()),
        Some("TK".to_string()),
        Some("1.2.3.4".to_string()),
        Some("example.com".to_string()),
        Some("Z1".to_string()),
    )
    .unwrap()
}

#[test]
fn end_to_end_plan() {
    let config = test_config();
    let req = plan_dns_record(&config, "{\"name\":\"www\"}").unwrap();
    assert_eq!(req.url, "https://api.cloudflare.com/client/v4/zones/Z1/dns_records");
    assert_eq!(
        req.body,
        "{\"content\":\"1.2.3.4\",\"name\":\"www.example.com\",\"priority\":10,\"proxied\":true,\"ttl\":1,\"type\":\"A\"}"
    );
}

#[test]
fn outbound_body_is_valid_json_with_expected_fields() {
    let config = test_config();
    let req = plan_dns_record(&config, "{\"name\":\"www\"}").unwrap();
    let value: serde_json::Value = serde_json::from_str(&req.body).unwrap();
    assert_eq!(value.get("name").unwrap().as_str().unwrap(), "www.example.com");
    assert_eq!(value.get("content").unwrap().as_str().unwrap(), "1.2.3.4");
    assert_eq!(value.get("type").unwrap().as_str().unwrap(), "A");
    assert_eq!(value.get("proxied").unwrap().as_bool().unwrap(), true);
    assert_eq!(value.get("ttl").unwrap().as_u64().unwrap(), 1);
    assert_eq!(value.get("priority").unwrap().as_u64().unwrap(), 10);
}

#[test]
fn plan_rejects_missing_name() {
    let config = test_config();
    assert!(plan_dns_record(&config, "{}").is_none());
    assert!(plan_dns_record(&config, "{\"other\":\"www\"}").is_none());
}

#[test]
fn plan_rejects_non_string_name() {
    let config = test_config();
    assert!(plan_dns_record(&config, "{\"name\":123}").is_none());
    assert!(plan_dns_record(&config, "{\"name\":null}").is_none());
    assert!(plan_dns_record(&config, "{\"name\":[\"www\"]}").is_none());
}

#[test]
fn plan_rejects_malformed_json() {
    let config = test_config();
    assert!(plan_dns_record(&config, "").is_none());
    assert!(plan_dns_record(&config, "{").is_none());
    assert!(plan_dns_record(&config, "www").is_none());
    assert!(plan_dns_record(&config, "{\"name\":\"www\"").is_none());
    assert!(plan_dns_record(&config, "{\"name\":\"www\"} x").is_none());
}

#[test]
fn plan_accepts_surrounding_whitespace() {
    let config = test_config();
    let req = plan_dns_record(&config, " { \"name\" : \"www\" } ").unwrap();
    assert!(req.body.contains("\"name\":\"www.example.com\""));
}

#[test]
fn repeated_request_plans_identical_independent_calls() {
    let config = test_config();
    let first = plan_dns_record(&config, "{\"name\":\"www\"}").unwrap();
    let second = plan_dns_record(&config, "{\"name\":\"www\"}").unwrap();
    assert_eq!(first.url, second.url);
    assert_eq!(first.body, second.body);
}

#[test]
fn route_matches_only_the_single_endpoint() {
    assert_eq!(route("POST", "/api/v1/dns_records"), RouteDecision::CreateDnsRecord);
    assert_eq!(route("GET", "/health"), RouteDecision::NotFound);
    assert_eq!(route("GET", "/api/v1/dns_records"), RouteDecision::NotFound);
    assert_eq!(route("POST", "/health"), RouteDecision::NotFound);
    assert_eq!(route("POST", "/api/v1/dns_records/"), RouteDecision::NotFound);
}

#[test]
fn unmatched_route_reports_not_found() {
    let r = not_found_response();
    assert_eq!(r.status, 404);
    assert_eq!(r.body, "");
}

#[test]
fn bad_request_reports_client_error() {
    let r = bad_request_response();
    assert_eq!(r.status, 400);
    assert_eq!(r.body, "{\"status\":\"bad request\"}");
}

#[test]
fn transport_failure_hides_detail() {
    let outcome = DispatchOutcome::TransportFailed {
        detail: "connection refused: 203.0.113.9:443".to_string(),
    };
    let r = dispatch_response(&outcome);
    assert_eq!(r.status, 500);
    assert_eq!(r.body, "{\"status\":\"error\"}");
    assert!(!r.body.contains("connection refused"));
    assert!(serde_json::from_str::<serde_json::Value>(&r.body).is_ok());
}

#[test]
fn provider_answer_reports_ok() {
    let outcome = DispatchOutcome::Answered { status: 200, body: "created".to_string() };
    let r = dispatch_response(&outcome);
    assert_eq!(r.status, 200);
    assert_eq!(r.body, "{\"status\":\"ok\"}");
}

// Documents the current fire-and-forget contract: a provider-reported error
// is still reported to the caller as success; it is only logged.
#[test]
fn provider_error_still_reports_ok() {
    let outcome = DispatchOutcome::Answered { status: 400, body: "bad zone".to_string() };
    let r = dispatch_response(&outcome);
    assert_eq!(r.status, 200);
    assert_eq!(r.body, "{\"status\":\"ok\"}");
}

#[test]
fn startup_fails_when_a_secret_is_missing() {
    let r = Config::from_secrets(
        Some("AK".to_string()),
        None,
        Some("1.2.3.4".to_string()),
        Some("example.com".to_string()),
        Some("Z1".to_string()),
    );
    assert_eq!(r.err().unwrap(), ConfigError::MissingSecret(SecretName::Token));

    let r = Config::from_secrets(
        Some("AK".to_string()),
        Some("TK".to_string()),
        Some("1.2.3.4".to_string()),
        Some("example.com".to_string()),
        None,
    );
    assert_eq!(r.err().unwrap(), ConfigError::MissingSecret(SecretName::ZoneId));
}

#[test]
fn startup_fails_on_blank_secret() {
    let r = Config::from_secrets(
        Some("  \n\t ".to_string()),
        Some("TK".to_string()),
        Some("1.2.3.4".to_string()),
        Some("example.com".to_string()),
        Some("Z1".to_string()),
    );
    assert_eq!(r.err().unwrap(), ConfigError::EmptySecret(SecretName::AuthKey));
}

#[test]
fn secrets_are_trimmed() {
    let config = Config::from_secrets(
        Some(" AK \n".to_string()),
        Some("\tTK".to_string()),
        Some("1.2.3.4\n".to_string()),
        Some(" example.com ".to_string()),
        Some("Z1".to_string()),
    )
    .unwrap();
    assert_eq!(config.auth_key, "AK");
    assert_eq!(config.token, "TK");
    assert_eq!(config.content, "1.2.3.4");
    assert_eq!(config.zone_name, "example.com");
    assert_eq!(config.zone_id, "Z1");
}

#[test]
fn header_plan_carries_the_fixed_headers() {
    let plan = build_header_plan("AK", "TK").unwrap();
    assert_eq!(plan.authorization, "Bearer TK");
    assert_eq!(plan.x_auth_key, "AK");
    assert_eq!(plan.user_agent, "cloudflare-manager");
    assert_eq!(plan.content_type, "application/json");
}

#[test]
fn header_plan_rejects_bad_credentials() {
    assert_eq!(build_header_plan("a\nb", "TK").err().unwrap(), ConfigError::InvalidAuthKey);
    assert_eq!(build_header_plan("AK", "t\u{7f}k").err().unwrap(), ConfigError::InvalidToken);
}

#[test]
fn params_take_defaults() {
    let p = read_params(None, None, None, None).unwrap();
    assert_eq!(p.host, "127.0.0.1");
    assert_eq!(p.port, 8080);
    assert_eq!(p.workers, 1);
    assert_eq!(p.secret_path, "secret");
}

#[test]
fn params_take_explicit_settings() {
    let p = read_params(
        Some("0.0.0.0".to_string()),
        Some("9000".to_string()),
        Some("4".to_string()),
        Some("/etc/dns-secrets".to_string()),
    )
    .unwrap();
    assert_eq!(p.host, "0.0.0.0");
    assert_eq!(p.port, 9000);
    assert_eq!(p.workers, 4);
    assert_eq!(p.secret_path, "/etc/dns-secrets");
}

#[test]
fn params_reject_unparsable_numbers() {
    let r = read_params(None, Some("80x".to_string()), None, None);
    assert_eq!(r.err().unwrap(), ConfigError::BadPort);
    let r = read_params(None, None, Some("-1".to_string()), None);
    assert_eq!(r.err().unwrap(), ConfigError::BadWorkers);
    let r = read_params(None, Some("99999999999999999999999".to_string()), None, None);
    assert_eq!(r.err().unwrap(), ConfigError::BadPort);
}
