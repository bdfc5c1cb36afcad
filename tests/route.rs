use wrangler::route::{AccountMode, Route, RouteEndpoint, RouteError};

#[test]
fn multi_script_route_names_its_script() {
    let route = Route::create(
        AccountMode::MultiScript,
        Some("worker".to_string()),
        Some("example.com/*".to_string()),
    )
    .unwrap();
    assert_eq!(route.script, Some("worker".to_string()));
    assert_eq!(route.pattern, "example.com/*".to_string());
    assert_eq!(route.enabled, None);
    assert_eq!(AccountMode::MultiScript.endpoint(), RouteEndpoint::Routes);
}

#[test]
fn multi_script_route_without_script_is_refused() {
    let r = Route::create(AccountMode::MultiScript, None, Some("example.com/*".to_string()));
    assert_eq!(r.unwrap_err(), RouteError::MissingScriptName);
    let r = Route::create(AccountMode::MultiScript, None, None);
    assert_eq!(r.unwrap_err(), RouteError::MissingScriptName);
}

#[test]
fn single_script_route_is_enabled_and_ignores_name() {
    let name = Some("worker".to_string());
    assert!(Route::ignores_script_name(AccountMode::SingleScript, &name));
    assert!(!Route::ignores_script_name(AccountMode::SingleScript, &None));
    assert!(!Route::ignores_script_name(AccountMode::MultiScript, &name));
    let route =
        Route::create(AccountMode::SingleScript, name, Some("example.com/*".to_string())).unwrap();
    assert_eq!(route.script, None);
    assert_eq!(route.enabled, Some(true));
    assert_eq!(route.pattern, "example.com/*".to_string());
    assert_eq!(AccountMode::SingleScript.endpoint(), RouteEndpoint::Filters);
}

#[test]
fn route_without_pattern_is_refused() {
    let r = Route::create(AccountMode::SingleScript, None, None);
    assert_eq!(r.unwrap_err(), RouteError::MissingRoutePattern);
    let r = Route::create(AccountMode::MultiScript, Some("w".to_string()), None);
    assert_eq!(r.unwrap_err(), RouteError::MissingRoutePattern);
}
