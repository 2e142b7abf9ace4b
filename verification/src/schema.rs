//! The request and template payloads the HTTP layer exchanges with the
//! store: plain data, converted at the boundary to and from the wire
//! representations that live outside the verified core.

use vstd::prelude::*;

verus! {

/// Path parameter of a shortcut lookup.
pub struct GetShortcut {
    pub slug: String,
}

/// Body of a shortcut creation request.
#[derive(Debug)]
pub struct PutShortcut {
    pub slug: String,
    pub url: String,
    pub approval: bool,
    pub since: u128,
    pub until: u128,
}

/// Body of a successful shortcut creation response.
#[derive(Debug)]
pub struct PutShortcutAnwser {
    pub slug: String,
}

/// Body of a shortcut deletion request.
#[derive(Debug)]
pub struct DeleteShortcut {
    pub slug: String,
}

/// One dashboard row: an entry together with the numeric timestamps the
/// dashboard template compares.
pub struct ShortcutItem {
    pub slug: String,
    pub url: String,
    pub status: String,
    pub now: u128,
    pub since: u128,
    pub until: u128,
}

/// The dashboard template's context.
pub struct ShortcutList {
    pub items: Vec<ShortcutItem>,
}

/// Context of the approval page shown for untrusted targets.
pub struct Approval {
    pub url: String,
    pub lang: String,
    pub dir: String,
    pub label: String,
    pub button: String,
}

/// Context of the page shown for expired targets.
pub struct Blocker {
    pub lang: String,
    pub dir: String,
    pub label: String,
}

/// Context of the page shown before a target becomes available.
pub struct Countdown {
    pub timestamp: u128,
    pub lang: String,
    pub dir: String,
    pub label: String,
}

/// Context of the share page: the slug and its QR code as base64-encoded
/// SVG.
pub struct Share {
    pub slug: String,
    pub vector: String,
}

} // verus!
