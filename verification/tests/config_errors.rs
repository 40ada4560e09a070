//! Tests for the configuration catalog and the error descriptions.

use json_normalizer::{ApiConfig, Config, EndpointGroup, ProcessorError};

fn catalog() -> Config {
    Config {
        apis: vec![(
            "compras".to_string(),
            ApiConfig {
                base_url: "https://api.example.gov/".to_string(),
                endpoints: vec![(
                    "licitacoes".to_string(),
                    EndpointGroup {
                        root_path: Some("resultado".to_string()),
                        routes: vec![("2024".to_string(), "/v1/licitacoes?ano=2024".to_string())],
                    },
                )],
            },
        )],
    }
}

#[test]
fn resolve_joins_base_and_route_with_one_slash() {
    let c = catalog();
    let url = c.resolve_endpoint_url("compras", "licitacoes", "2024").unwrap();
    assert_eq!(url, "https://api.example.gov/v1/licitacoes?ano=2024");
}

#[test]
fn resolve_reports_each_missing_name() {
    let c = catalog();
    assert!(matches!(
        c.resolve_endpoint_url("missing", "licitacoes", "2024"),
        Err(ProcessorError::Schema(m)) if m == "API not found: missing"
    ));
    assert!(matches!(
        c.resolve_endpoint_url("compras", "missing", "2024"),
        Err(ProcessorError::Schema(m)) if m == "group not found: missing"
    ));
    assert!(matches!(
        c.resolve_endpoint_url("compras", "licitacoes", "missing"),
        Err(ProcessorError::Schema(m)) if m == "key not found: missing"
    ));
}

#[test]
fn join_urls_normalizes_slashes() {
    let c = catalog();
    assert_eq!(c.join_urls("https://a.example//", "///x/y"), "https://a.example/x/y");
    assert_eq!(c.join_urls("https://a.example", "x"), "https://a.example/x");
    assert_eq!(c.join_urls("", ""), "/");
}

#[test]
fn validate_accepts_the_catalog() {
    assert!(catalog().validate().is_ok());
}

#[test]
fn validate_rejects_an_empty_base_url() {
    let mut c = catalog();
    c.apis[0].1.base_url = String::new();
    assert!(matches!(
        c.validate(),
        Err(ProcessorError::Schema(m)) if m == "API names no base URL: compras"
    ));
}

#[test]
fn validate_rejects_an_api_without_endpoints() {
    let mut c = catalog();
    c.apis[0].1.endpoints.clear();
    assert!(matches!(
        c.validate(),
        Err(ProcessorError::Schema(m)) if m == "API holds no endpoint group: compras"
    ));
}

#[test]
fn https_rule_accepts_only_the_https_scheme() {
    assert!(json_normalizer::strutil::is_https_url("https://api.example.gov/x"));
    assert!(!json_normalizer::strutil::is_https_url("http://api.example.gov/x"));
    assert!(!json_normalizer::strutil::is_https_url("https:/"));
    assert!(!json_normalizer::strutil::is_https_url(""));
}

#[test]
fn describe_names_the_error_kind() {
    let e = ProcessorError::Schema("missing field".to_string());
    assert_eq!(e.describe(), "[Schema] missing field");
    let e = ProcessorError::Encoding("bad bytes".to_string());
    assert_eq!(e.describe(), "[Encoding] bad bytes");
}
