use ocm_core::limits;
use ocm_core::security::{AuthContext, RateLimitConfig, RateLimitState, ValidationResult};
use ocm_core::validation::{
    sanitize_html, sanitize_text, validate_content_hash, validate_email, validate_safe_text,
    validate_uuid,
};

#[test]
fn test_auth_context_permissions() {
    let mut context = AuthContext::default();
    context.permissions = vec!["read".to_string(), "write".to_string()];

    assert!(context.has_permission("read"));
    assert!(context.has_permission("write"));
    assert!(!context.has_permission("admin"));

    context.permissions.push("admin".to_string());
    assert!(context.has_permission("delete"));
}

#[test]
fn test_rate_limit_config_creation() {
    let config = RateLimitConfig::default();
    assert_eq!(config.requests_per_minute, 60);
    assert_eq!(config.burst_size, 10);
}

#[test]
fn test_predefined_limits() {
    assert_eq!(limits::health_check().requests_per_minute, 300);
    assert_eq!(limits::api_write().requests_per_minute, 30);
    assert_eq!(limits::api_sensitive().requests_per_minute, 10);
}

#[test]
fn test_email_validation() {
    assert!(validate_email("test@example.com").is_ok());
    assert!(validate_email("invalid").is_err());
    assert!(validate_email("").is_err());
}

#[test]
fn test_uuid_validation() {
    assert!(validate_uuid("123e4567-e89b-12d3-a456-426614174000").is_ok());
    assert!(validate_uuid("invalid").is_err());
    assert!(validate_uuid("").is_err());
}

#[test]
fn test_safe_text_validation() {
    assert!(validate_safe_text("Hello World!", 20).is_ok());
    assert!(validate_safe_text("Hello <script>", 50).is_err());
    assert!(validate_safe_text("Very long text".repeat(10).as_str(), 10).is_err());
}

#[test]
fn email_error_messages() {
    assert_eq!(validate_email("").unwrap_err(), "Email is required");
    let long = format!("{}@example.com", "a".repeat(250));
    assert_eq!(validate_email(&long).unwrap_err(), "Email too long");
    assert_eq!(validate_email("nobody").unwrap_err(), "Invalid email format");
}

#[test]
fn uuid_with_dash_in_wrong_place_is_rejected() {
    assert!(validate_uuid("123e4567e-89b-12d3-a456-426614174000").is_err());
    assert!(validate_uuid("123e4567-e89b-12d3-a456-42661417400").is_err());
}

#[test]
fn content_hash_validation() {
    let good = "a".repeat(64);
    assert!(validate_content_hash(&good).is_ok());
    assert_eq!(validate_content_hash("").unwrap_err(), "Hash is required");
    assert_eq!(validate_content_hash("abc").unwrap_err(), "Invalid hash length");
    let bad = format!("{}g", "a".repeat(63));
    assert_eq!(validate_content_hash(&bad).unwrap_err(), "Invalid hash format");
}

#[test]
fn sanitize_text_trims_and_drops_controls() {
    assert_eq!(sanitize_text("  hello\u{0}\u{7} world \n"), "hello world");
    assert_eq!(sanitize_text("a\tb"), "a\tb");
    assert_eq!(sanitize_text("   "), "");
}

#[test]
fn sanitize_html_escapes_in_sequence() {
    assert_eq!(sanitize_html("<b>"), "&amp;lt;b&amp;gt;");
    assert_eq!(sanitize_html("\"x\" & 'y'"), "&quot;x&quot; &amp; &#x27;y&#x27;");
}

#[test]
fn validation_result_collects_errors() {
    let mut r = ValidationResult::new();
    assert!(!r.has_errors());
    r.add_error("email".to_string(), "bad".to_string());
    r.add_error("email".to_string(), "worse".to_string());
    r.add_error("name".to_string(), "missing".to_string());
    assert!(r.has_errors());
    assert_eq!(r.errors.len(), 2);
    assert_eq!(r.errors[0].1, vec!["bad".to_string(), "worse".to_string()]);
}

#[test]
fn rate_limit_state_window_and_burst() {
    let config = RateLimitConfig { requests_per_minute: 3, burst_size: 2 };
    let mut s = RateLimitState::new();
    assert!(s.is_allowed(&config, 100_000));
    assert!(s.is_allowed(&config, 101_000));
    // third request inside ten seconds hits the burst limit
    assert!(!s.is_allowed(&config, 102_000));
    assert!(s.is_allowed(&config, 120_000));
    // three in the last minute
    assert!(!s.is_allowed(&config, 140_000));
    // the first two have left the minute
    assert!(s.is_allowed(&config, 161_000));
}
