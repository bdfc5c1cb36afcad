//! Routes: which script serves a URL pattern, and the decisions taken when
//! one is created.
use vstd::prelude::*;

verus! {

/// What an account allows: one script, or several named scripts.
#[derive(Clone, Copy, Debug, PartialEq, Eq, Structural)]
pub enum AccountMode {
    SingleScript,
    MultiScript,
}

/// The API collection that a route is written to.
#[derive(Clone, Copy, Debug, PartialEq, Eq, Structural)]
pub enum RouteEndpoint {
    /// Routes of a multi-script account (`workers/routes`).
    Routes,
    /// Filters of a single-script account (`workers/filters`).
    Filters,
}

/// Why a route cannot be created.
#[derive(Clone, Copy, Debug, PartialEq, Eq, Structural)]
pub enum RouteError {
    /// A multi-script account must name the script of the route.
    MissingScriptName,
    /// The project configuration gives no route pattern.
    MissingRoutePattern,
}

/// A route: a URL pattern, the script that serves it, and whether it is
/// enabled.
#[derive(Clone, Debug)]
pub struct Route {
    pub enabled: Option<bool>,
    pub script: Option<String>,
    pub pattern: String,
}

impl AccountMode {
    /// The collection that routes of this account are written to.
    pub fn endpoint(&self) -> (r: RouteEndpoint)
        ensures
            r == (match self {
                AccountMode::SingleScript => RouteEndpoint::Filters,
                AccountMode::MultiScript => RouteEndpoint::Routes,
            }),
    {
        match self {
            AccountMode::SingleScript => RouteEndpoint::Filters,
            AccountMode::MultiScript => RouteEndpoint::Routes,
        }
    }
}

impl Route {
    /// The route to create for `pattern` on an account in `mode`. A
    /// multi-script account needs the script's name; a single-script account
    /// ignores it and enables the route.
    pub fn create(mode: AccountMode, script: Option<String>, pattern: Option<String>) -> (r: Result<
        Route,
        RouteError,
    >)
        ensures
            mode == AccountMode::MultiScript && script is None ==> r == Err::<Route, RouteError>(
                RouteError::MissingScriptName,
            ),
            (mode == AccountMode::SingleScript || script is Some) && pattern is None ==> r == Err::<
                Route,
                RouteError,
            >(RouteError::MissingRoutePattern),
            mode == AccountMode::MultiScript && script is Some && pattern is Some ==> r == Ok::<
                Route,
                RouteError,
            >(Route { enabled: None, script: script, pattern: pattern->0 }),
            mode == AccountMode::SingleScript && pattern is Some ==> r == Ok::<Route, RouteError>(
                Route { enabled: Some(true), script: None, pattern: pattern->0 },
            ),
    {
        match mode {
            AccountMode::MultiScript => match script {
                Some(s) => match pattern {
                    Some(p) => Ok(Route { enabled: None, script: Some(s), pattern: p }),
                    None => Err(RouteError::MissingRoutePattern),
                },
                None => Err(RouteError::MissingScriptName),
            },
            AccountMode::SingleScript => match pattern {
                Some(p) => Ok(Route { enabled: Some(true), script: None, pattern: p }),
                None => Err(RouteError::MissingRoutePattern),
            },
        }
    }

    /// Whether a script name given for an account in `mode` goes unused.
    pub fn ignores_script_name(mode: AccountMode, script: &Option<String>) -> (r: bool)
        ensures
            r == (mode == AccountMode::SingleScript && script is Some),
    {
        match mode {
            AccountMode::SingleScript => script.is_some(),
            AccountMode::MultiScript => false,
        }
    }
}

} // verus!
