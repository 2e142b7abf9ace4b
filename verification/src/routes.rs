//! The decisions behind the request handlers: what a lookup redirects
//! to, asks approval for, or counts down to; which creations are accepted;
//! what the dashboard and the share page display. Rendering, JSON and
//! HTTP stay outside the verified core.

use vstd::prelude::*;
use vstd::string::*;
use base64::Engine;
use crate::schema::{PutShortcut, PutShortcutAnwser, Share, ShortcutItem};
use crate::store::{Database, EntryView, ShortcutEntry};
use crate::text::{all_in, decimal_digits, decimal_value, format_decimal, parse_decimal, CharKind};
use crate::rows::{check_url, valid_url};

verus! {

/// A timestamp string the handlers can act on: nonempty, all digits,
/// and within 128 bits.
pub open spec fn usable_stamp(s: Seq<char>) -> bool {
    s.len() > 0 && all_in(CharKind::Digit, s) && decimal_value(s) <= u128::MAX
}

/// What a shortcut lookup decides.
#[derive(Debug)]
pub enum FindOutcome {
    /// No entry under this slug.
    NotFound,
    /// A trusted entry within its window: send the client to its target.
    Redirect(String),
    /// An untrusted entry within its window: show the approval page for
    /// its target.
    NeedsApproval(String),
    /// The entry is not yet available: show a countdown to this instant.
    Countdown(u128),
    /// The entry's window has passed: show the blocker page.
    Blocked,
}

/// Decide a lookup of `slug` at instant `now`. Nothing comes back only
/// when the entry's stored timestamps cannot be read as numbers — such
/// an entry cannot be served, and the caller fails the request.
pub fn find_outcome(db: &Database, slug: &String, now: u128) -> (r: Option<FindOutcome>)
    requires
        db.wf(),
    ensures
        !db@.contains_key(slug@) ==> r matches Some(FindOutcome::NotFound),
        db@.contains_key(slug@) ==> {
            let e = db@[slug@];
            &&& (r is None) == !(usable_stamp(e.since) && usable_stamp(e.until))
            &&& (usable_stamp(e.since) && usable_stamp(e.until)) ==> {
                let since = decimal_value(e.since);
                let until = decimal_value(e.until);
                if since <= now <= until {
                    if e.status == "untrusted"@ {
                        r matches Some(FindOutcome::NeedsApproval(u)) && u@ == e.url
                    } else {
                        r matches Some(FindOutcome::Redirect(u)) && u@ == e.url
                    }
                } else if now < since {
                    r matches Some(FindOutcome::Countdown(t)) && t == since
                } else {
                    r matches Some(FindOutcome::Blocked)
                }
            }
        },
{
    proof {
        reveal_strlit("untrusted");
    }
    match db.read(slug) {
        Option::None => Some(FindOutcome::NotFound),
        Option::Some(entry) => {
            let since = match parse_decimal(entry.since.as_str()) {
                Option::Some(v) => v,
                Option::None => {
                    return None;
                },
            };
            let until = match parse_decimal(entry.until.as_str()) {
                Option::Some(v) => v,
                Option::None => {
                    return None;
                },
            };
            if since <= now && now <= until {
                if crate::text::str_eq(entry.status.as_str(), "untrusted") {
                    Some(FindOutcome::NeedsApproval(entry.url))
                } else {
                    Some(FindOutcome::Redirect(entry.url))
                }
            } else if now < since {
                Some(FindOutcome::Countdown(since))
            } else {
                Some(FindOutcome::Blocked)
            }
        },
    }
}

/// The dashboard rows for the store's entries at instant `now`: every
/// entry with its timestamps read as numbers, in storage order. Nothing
/// comes back as soon as one entry's timestamps cannot be read; the
/// caller fails the request.
pub fn dashboard_items(db: &Database, now: u128) -> (r: Option<Vec<ShortcutItem>>)
    ensures
        (forall|i: int|
            0 <= i < db.stored().len() ==> usable_stamp(#[trigger] db.stored()[i].since)
                && usable_stamp(db.stored()[i].until)) ==> r is Some,
        r is Some ==> (forall|i: int|
            0 <= i < db.stored().len() ==> usable_stamp(#[trigger] db.stored()[i].since)
                && usable_stamp(db.stored()[i].until)),
        r matches Some(items) ==> {
            &&& items@.len() == db.stored().len()
            &&& forall|i: int|
                0 <= i < items@.len() ==> {
                    let e = db.stored()[i];
                    &&& (#[trigger] items@[i]).slug@ == e.slug
                    &&& items@[i].url@ == e.url
                    &&& items@[i].status@ == e.status
                    &&& items@[i].now == now
                    &&& items@[i].since as int == decimal_value(e.since)
                    &&& items@[i].until as int == decimal_value(e.until)
                }
        },
{
    let all = db.read_all();
    let n = all.len();
    let mut items: Vec<ShortcutItem> = Vec::new();
    let mut i: usize = 0;
    while i < n
        invariant
            i <= n == all@.len(),
            all.deep_view() == db.stored(),
            items@.len() == i,
            forall|j: int|
                0 <= j < i ==> usable_stamp(#[trigger] db.stored()[j].since) && usable_stamp(
                    db.stored()[j].until,
                ),
            forall|j: int|
                0 <= j < i ==> {
                    let e = db.stored()[j];
                    &&& (#[trigger] items@[j]).slug@ == e.slug
                    &&& items@[j].url@ == e.url
                    &&& items@[j].status@ == e.status
                    &&& items@[j].now == now
                    &&& items@[j].since as int == decimal_value(e.since)
                    &&& items@[j].until as int == decimal_value(e.until)
                },
        decreases n - i,
    {
        let entry = &all[i];
        proof {
            assert(all.deep_view()[i as int] == all@[i as int]@);
        }
        let since = match parse_decimal(entry.since.as_str()) {
            Option::Some(v) => v,
            Option::None => {
                proof {
                    assert(db.stored()[i as int].since == entry@.since);
                    assert(db.stored()[i as int].until == entry@.until);
                }
                return None;
            },
        };
        let until = match parse_decimal(entry.until.as_str()) {
            Option::Some(v) => v,
            Option::None => {
                proof {
                    assert(db.stored()[i as int].since == entry@.since);
                    assert(db.stored()[i as int].until == entry@.until);
                }
                return None;
            },
        };
        proof {
            assert forall|j: int| 0 <= j < i + 1 implies usable_stamp(
                #[trigger] db.stored()[j].since,
            ) && usable_stamp(db.stored()[j].until) by {
                if j == i as int {
                    assert(db.stored()[j] == entry@);
                }
            }
        }
        items.push(
            ShortcutItem {
                slug: entry.slug.clone(),
                url: entry.url.clone(),
                status: entry.status.clone(),
                now,
                since,
                until,
            },
        );
        i = i + 1;
    }
    Some(items)
}

/// Why a creation request was refused.
#[derive(Debug)]
pub enum CreateError {
    /// The slug is empty or longer than 64 characters.
    InvalidSlug,
    /// The target does not have the constrained URL shape.
    InvalidUrl,
}

impl CreateError {
    /// The response body the handler sends for this refusal.
    pub fn message(&self) -> (r: &'static str)
        ensures
            *self matches CreateError::InvalidSlug ==> r@ == "Provide a non empty slug (max. 64)."@,
            *self matches CreateError::InvalidUrl ==> r@ == "The provided URL is invalid."@,
    {
        match self {
            CreateError::InvalidSlug => "Provide a non empty slug (max. 64).",
            CreateError::InvalidUrl => "The provided URL is invalid.",
        }
    }
}

/// The entry a creation request stores, before validation.
pub open spec fn entry_of_put(p: PutShortcut) -> EntryView {
    EntryView {
        slug: p.slug@,
        url: p.url@,
        status: if p.approval {
            "untrusted"@
        } else {
            "trusted"@
        },
        since: decimal_digits(p.since as nat),
        until: decimal_digits(p.until as nat),
    }
}

/// Validate a creation request and store its entry: the slug must be
/// nonempty and at most 64 characters, the target must have the
/// constrained URL shape; the approval flag decides the status, and the
/// numeric timestamps are stored as their decimal strings.
pub fn create_shortcut(db: &mut Database, put: &PutShortcut) -> (r: Result<
    PutShortcutAnwser,
    CreateError,
>)
    requires
        old(db).wf(),
    ensures
        final(db).wf(),
        final(db).backup == old(db).backup,
        final(db).instance_id == old(db).instance_id,
        put.slug@.len() == 0 || put.slug@.len() > 64 ==> (r matches Err(
            CreateError::InvalidSlug,
        )) && *final(db) == *old(db),
        1 <= put.slug@.len() <= 64 && !valid_url(put.url@) ==> (r matches Err(
            CreateError::InvalidUrl,
        )) && *final(db) == *old(db),
        1 <= put.slug@.len() <= 64 && valid_url(put.url@) ==> (r matches Ok(a) && a.slug@
            == put.slug@) && final(db)@ == old(db)@.insert(put.slug@, entry_of_put(*put)),
{
    let len = put.slug.as_str().unicode_len();
    if len > 64 || len == 0 {
        return Err(CreateError::InvalidSlug);
    }
    if !check_url(put.url.as_str()) {
        return Err(CreateError::InvalidUrl);
    }
    let status = if put.approval {
        "untrusted".to_owned()
    } else {
        "trusted".to_owned()
    };
    let entry = ShortcutEntry {
        slug: put.slug.clone(),
        url: put.url.clone(),
        status,
        since: format_decimal(put.since),
        until: format_decimal(put.until),
    };
    db.upsert(put.slug.clone(), entry);
    Ok(PutShortcutAnwser { slug: put.slug.clone() })
}

/// What the QR encoder returns for given data — a function of the data
/// alone — or nothing where the data does not fit the fixed code
/// version.
pub uninterp spec fn qr_svg_of(data: Seq<char>) -> Option<Seq<char>>;

/// Relies on qrcode's `QrCode::with_version` (version 4, error
/// correction level L) and its SVG renderer (300 by 300 minimum, black
/// on transparent, no quiet zone): deterministic in the encoded data,
/// failing exactly when the data does not fit that version.
#[verifier::external_body]
fn qr_svg(data: &String) -> (r: Option<String>)
    ensures
        match r {
            Some(svg) => qr_svg_of(data@) == Some(svg@),
            None => qr_svg_of(data@) is None,
        },
{
    let code = qrcode::QrCode::with_version(
        data.as_bytes(),
        qrcode::Version::Normal(4),
        qrcode::EcLevel::L,
    ).ok()?;
    let render = code.render()
        .quiet_zone(false)
        .dark_color(qrcode::render::svg::Color("#000000"))
        .light_color(qrcode::render::svg::Color("transparent"))
        .min_dimensions(300, 300)
        .build();
    Some(render)
}

/// What base64 encoding with the standard alphabet and no padding
/// returns for a given text; a function of the text alone.
pub uninterp spec fn b64_std_of(s: Seq<char>) -> Seq<char>;

/// Relies on base64's `Engine::encode` with the `GeneralPurpose` engine
/// over the standard alphabet, without padding: the encoding is a
/// function of the input bytes alone, four characters for every three
/// bytes with a shortened final group.
#[verifier::external_body]
fn b64_std_nopad(s: &str) -> (r: String)
    ensures
        r@ == b64_std_of(s@),
        s.is_ascii() ==> r@.len() == (4 * s@.len() + 2) / 3,
{
    let engine = base64::engine::GeneralPurpose::new(
        &base64::alphabet::STANDARD,
        base64::engine::general_purpose::NO_PAD,
    );
    engine.encode(s)
}

/// The share link of a slug.
pub open spec fn share_url_chars(origin: Seq<char>, slug: Seq<char>) -> Seq<char> {
    origin + "/s/"@ + slug
}

/// The share page's payload for a slug: the QR code of its share link,
/// rendered as SVG and base64-encoded. Nothing comes back only when the
/// link does not fit the QR code version; the caller then fails the
/// request.
pub fn share_payload(origin: &String, slug: &String) -> (r: Option<Share>)
    ensures
        (r is Some) == (qr_svg_of(share_url_chars(origin@, slug@)) is Some),
        r matches Some(sh) ==> {
            &&& sh.slug@ == slug@
            &&& qr_svg_of(share_url_chars(origin@, slug@)) matches Some(svg) && sh.vector@
                == b64_std_of(svg)
        },
{
    let mut url = origin.clone();
    url.append("/s/");
    url.append(slug.as_str());
    match qr_svg(&url) {
        Option::Some(svg) => Option::Some(
            Share { slug: slug.clone(), vector: b64_std_nopad(svg.as_str()) },
        ),
        Option::None => Option::None,
    }
}

} // verus!
