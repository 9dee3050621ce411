//! Tests of provider outcome classification, the model configuration, and
//! the provider metadata.

use goose::provider::{
    classify_anthropic_response, classify_google_response, classify_groq_response,
    classify_openai_response, google_metadata, groq_metadata, message_mentions_too_long,
    ModelConfig, ProviderError,
};

fn msg(s: &str) -> Option<String> {
    Some(s.to_string())
}

#[test]
fn test_mentions_too_long_detection() {
    assert!(message_mentions_too_long("too long"));
    assert!(message_mentions_too_long("TOO LONG"));
    assert!(message_mentions_too_long("Too Long"));
    assert!(message_mentions_too_long("prompt is too long: 210000 tokens > 200000 maximum"));
    assert!(message_mentions_too_long("Request was TOO LONG for this model"));
    assert!(!message_mentions_too_long(""));
    assert!(!message_mentions_too_long("too lon"));
    assert!(!message_mentions_too_long("tooXlong"));
    assert!(!message_mentions_too_long("too  long"));
}

#[test]
fn test_anthropic_classification() {
    assert!(classify_anthropic_response(200, &None).is_ok());
    assert!(matches!(
        classify_anthropic_response(401, &msg("denied")),
        Err(ProviderError::Authentication(_))
    ));
    assert!(matches!(
        classify_anthropic_response(403, &None),
        Err(ProviderError::Authentication(_))
    ));
    match classify_anthropic_response(400, &msg("prompt is too long")) {
        Err(ProviderError::ContextLengthExceeded(d)) => assert_eq!(d, "prompt is too long"),
        other => panic!("expected a context-length error, got {:?}", other),
    }
    assert!(matches!(
        classify_anthropic_response(400, &msg("bad field")),
        Err(ProviderError::RequestFailed(_))
    ));
    assert!(matches!(
        classify_anthropic_response(400, &None),
        Err(ProviderError::RequestFailed(_))
    ));
    assert!(matches!(
        classify_anthropic_response(500, &None),
        Err(ProviderError::ServerError(_))
    ));
    assert!(matches!(
        classify_anthropic_response(503, &None),
        Err(ProviderError::ServerError(_))
    ));
    assert!(matches!(
        classify_anthropic_response(404, &None),
        Err(ProviderError::RequestFailed(_))
    ));
}

#[test]
fn test_openai_classification() {
    assert!(classify_openai_response(200, &None).is_ok());
    assert!(matches!(
        classify_openai_response(400, &msg("This model's maximum context... your messages were too long")),
        Err(ProviderError::ContextLengthExceeded(_))
    ));
    assert!(matches!(
        classify_openai_response(429, &None),
        Err(ProviderError::RequestFailed(_))
    ));
}

#[test]
fn test_google_classification() {
    assert!(classify_google_response(200, &None).is_ok());
    // Google reports overload of the window as a plain 500.
    assert!(matches!(
        classify_google_response(500, &msg("internal error")),
        Err(ProviderError::ContextLengthExceeded(_))
    ));
    assert!(matches!(
        classify_google_response(429, &None),
        Err(ProviderError::RateLimitExceeded(_))
    ));
    assert!(matches!(
        classify_google_response(503, &None),
        Err(ProviderError::ServerError(_))
    ));
    assert!(matches!(
        classify_google_response(400, &msg("contents too long")),
        Err(ProviderError::ContextLengthExceeded(_))
    ));
}

#[test]
fn test_groq_classification() {
    assert!(classify_groq_response(200, &None).is_ok());
    assert!(matches!(
        classify_groq_response(413, &msg("payload too large")),
        Err(ProviderError::ContextLengthExceeded(_))
    ));
    assert!(matches!(
        classify_groq_response(401, &None),
        Err(ProviderError::Authentication(_))
    ));
    assert!(matches!(
        classify_groq_response(500, &None),
        Err(ProviderError::ServerError(_))
    ));
    assert!(matches!(
        classify_groq_response(418, &None),
        Err(ProviderError::RequestFailed(_))
    ));
}

#[test]
fn test_model_config_defaults_and_estimate() {
    let config = ModelConfig::new("gpt-4o".to_string());
    assert_eq!(config.model_name, "gpt-4o");
    assert_eq!(config.context_limit, 128000);
    assert_eq!(config.get_estimated_limit(), 89600); // seven tenths

    let config = config.with_context_limit(Some(9000));
    assert_eq!(config.context_limit, 9000);
    assert_eq!(config.get_estimated_limit(), 6300);

    let config = config.with_context_limit(None);
    assert_eq!(config.context_limit, 9000);
}

#[test]
fn test_google_metadata() {
    let m = google_metadata();
    assert_eq!(m.name, "google");
    assert_eq!(m.display_name, "Google Gemini");
    assert_eq!(m.default_model, "gemini-2.0-flash-exp");
    assert_eq!(m.config_keys.len(), 2);
    assert_eq!(m.config_keys[0].name, "GOOGLE_API_KEY");
    assert!(m.config_keys[0].required);
    assert!(m.config_keys[0].secret);
    assert_eq!(m.config_keys[1].name, "GOOGLE_HOST");
    assert_eq!(
        m.config_keys[1].default.as_deref(),
        Some("https://generativelanguage.googleapis.com")
    );
}

#[test]
fn test_groq_metadata() {
    let m = groq_metadata();
    assert_eq!(m.name, "groq");
    assert_eq!(m.default_model, "llama-3.3-70b-versatile");
    assert_eq!(m.config_keys.len(), 2);
    assert_eq!(m.config_keys[0].name, "GROQ_API_KEY");
    assert_eq!(m.config_keys[1].default.as_deref(), Some("https://api.groq.com"));
}
