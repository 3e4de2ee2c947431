use santa_cruz::auth_interceptor::AuthError;
use santa_cruz::auth_interceptor::AuthInterceptor;
use santa_cruz::auth_interceptor::get_token;
use santa_cruz::sessions_cache::SessionsCache;

fn interceptor_with(token: &str, user_id: i32) -> AuthInterceptor {
    let mut cache = SessionsCache::default();
    cache.insert(token.to_string(), user_id);
    AuthInterceptor::new(cache)
}

#[test]
fn known_bearer_token_resolves_principal() {
    let auth = interceptor_with("abc123", 42);
    assert_eq!(auth.check(Some("Bearer abc123")), Ok(42));
}

#[test]
fn empty_token_is_denied() {
    let auth = interceptor_with("abc123", 42);
    assert_eq!(auth.check(Some("Bearer ")), Err(AuthError::InvalidToken));
}

#[test]
fn unknown_token_is_denied() {
    let auth = interceptor_with("abc123", 42);
    assert_eq!(
        auth.check(Some("Bearer other")),
        Err(AuthError::SessionNotFound)
    );
}

#[test]
fn missing_header_is_denied() {
    let auth = interceptor_with("abc123", 42);
    assert_eq!(auth.check(None), Err(AuthError::InvalidToken));
}

#[test]
fn scheme_is_case_insensitive() {
    let auth = interceptor_with("abc123", 42);
    assert_eq!(auth.check(Some("BEARER abc123")), Ok(42));
    assert_eq!(auth.check(Some("bearer abc123")), Ok(42));
    assert_eq!(auth.check(Some("bEaReR abc123")), Ok(42));
}

#[test]
fn non_bearer_scheme_is_denied() {
    let auth = interceptor_with("abc123", 42);
    assert_eq!(
        auth.check(Some("Basic abc123")),
        Err(AuthError::InvalidToken)
    );
}

#[test]
fn header_without_space_is_denied() {
    let auth = interceptor_with("abc123", 42);
    assert_eq!(auth.check(Some("Bearerabc123")), Err(AuthError::InvalidToken));
    assert_eq!(auth.check(Some("")), Err(AuthError::InvalidToken));
}

#[test]
fn token_is_trimmed_of_whitespace() {
    let auth = interceptor_with("abc123", 42);
    assert_eq!(auth.check(Some("Bearer   abc123  ")), Ok(42));
}

#[test]
fn get_token_parses_bearer_headers() {
    assert_eq!(get_token("Bearer tok1"), Some("tok1".to_string()));
    assert_eq!(get_token("bearer  spaced "), Some("spaced".to_string()));
    assert_eq!(get_token("Bearer "), None);
    assert_eq!(get_token("Token tok1"), None);
    assert_eq!(get_token("Bearer"), None);
}

#[test]
fn denial_messages_match_the_interceptor() {
    assert_eq!(AuthError::InvalidToken.message(), "No valid auth token");
    assert_eq!(AuthError::SessionNotFound.message(), "Session not found");
}

#[test]
fn logout_through_interceptor_cache_revokes_token() {
    let mut auth = interceptor_with("abc123", 42);
    auth.cache_mut().remove("abc123".to_string());
    assert_eq!(
        auth.check(Some("Bearer abc123")),
        Err(AuthError::SessionNotFound)
    );
    auth.cache_mut().insert("abc123".to_string(), 7);
    assert_eq!(auth.check(Some("Bearer abc123")), Ok(7));
}
