//! The header-comparison scheme of the service's early authentication
//! layer: a single prerendered `Basic` header, compared verbatim.

use vstd::prelude::*;
use crate::text::str_eq;

verus! {

/// The supported authentication kinds.
#[derive(Clone)]
pub enum AuthType {
    Basic,
}

/// A prerendered authentication header to compare against.
#[derive(Clone)]
pub struct AuthConfig {
    pub kind: AuthType,
    pub header: String,
}

/// Whether authentication is required, and against what.
#[derive(Clone)]
pub struct Configuration {
    pub auth: Option<AuthConfig>,
}

/// Whether a request carrying `header` as its authorization value may
/// proceed: always, when no authentication is configured; otherwise
/// exactly when the value matches the configured header. A missing or
/// unreadable header is handed in as nothing and refused.
pub fn is_authorized(config: &Configuration, header: Option<&String>) -> (r: bool)
    ensures
        r == match config.auth {
            Option::None => true,
            Option::Some(cfg) => match header {
                Option::None => false,
                Option::Some(h) => h@ == cfg.header@,
            },
        },
{
    match &config.auth {
        Option::None => true,
        Option::Some(cfg) => match header {
            Option::None => false,
            Option::Some(h) => match cfg.kind {
                AuthType::Basic => str_eq(h.as_str(), cfg.header.as_str()),
            },
        },
    }
}

} // verus!
