use zorka::authentication;
use zorka::configuration::{
    after_introspection, auth_decision, normalize, session_cookie, token_request_url,
    Authentication, AuthStep, Configuration, Internationalization, ServerInformation, Untrusted,
};
use zorka::routes::{
    create_shortcut, dashboard_items, find_outcome, share_payload, CreateError, FindOutcome,
};
use zorka::schema::PutShortcut;
use zorka::store::{Database, ShortcutEntry};

fn i18n() -> Internationalization {
    Internationalization {
        lang: "en".to_string(),
        dir: "ltr".to_string(),
        countdown: "soon".to_string(),
        blocker: "gone".to_string(),
        approval: Untrusted { label: "sure?".to_string(), button: "go".to_string() },
    }
}

fn oauth() -> Authentication {
    Authentication::OAuth2 {
        client_id: "cid".to_string(),
        client_secret: "csec".to_string(),
        auth_url: "https://idp.example/auth".to_string(),
        scope: "openid".to_string(),
        token_url: "https://idp.example/token".to_string(),
        introspect_url: "https://idp.example/introspect".to_string(),
        redirect_url: "https://app.example/oauth2/code".to_string(),
    }
}

#[test]
fn url_shortening() {
    let mut db = Database::new(false);
    let put = PutShortcut {
        slug: "gh".to_string(),
        url: "https://github.com".to_string(),
        approval: false,
        since: 0,
        until: 253370764861000,
    };
    let answer = create_shortcut(&mut db, &put).unwrap();
    assert_eq!(answer.slug, "gh");

    match find_outcome(&db, &"gh".to_string(), 1700000000000).unwrap() {
        FindOutcome::Redirect(url) => assert_eq!(url, "https://github.com"),
        _ => panic!("expected a redirect"),
    }

    assert!(db.delete(&"gh".to_string()));
    assert!(matches!(
        find_outcome(&db, &"gh".to_string(), 1700000000000).unwrap(),
        FindOutcome::NotFound
    ));
}

#[test]
fn creation_validation() {
    let mut db = Database::new(false);
    let mut put = PutShortcut {
        slug: String::new(),
        url: "https://github.com".to_string(),
        approval: false,
        since: 0,
        until: 1,
    };
    let err = create_shortcut(&mut db, &put).unwrap_err();
    assert!(matches!(err, CreateError::InvalidSlug));
    assert_eq!(err.message(), "Provide a non empty slug (max. 64).");

    put.slug = "x".repeat(65);
    assert!(matches!(
        create_shortcut(&mut db, &put).unwrap_err(),
        CreateError::InvalidSlug
    ));

    put.slug = "ok".to_string();
    put.url = "not a url".to_string();
    let err = create_shortcut(&mut db, &put).unwrap_err();
    assert!(matches!(err, CreateError::InvalidUrl));
    assert_eq!(err.message(), "The provided URL is invalid.");
    assert_eq!(db.read_all().len(), 0);
}

#[test]
fn creation_stores_decimal_strings() {
    let mut db = Database::new(false);
    let put = PutShortcut {
        slug: "gh".to_string(),
        url: "https://github.com".to_string(),
        approval: true,
        since: 42,
        until: 253370764861000,
    };
    create_shortcut(&mut db, &put).unwrap();
    let e = db.read(&"gh".to_string()).unwrap();
    assert_eq!(e.status, "untrusted");
    assert_eq!(e.since, "42");
    assert_eq!(e.until, "253370764861000");
}

#[test]
fn lookup_windows() {
    let mut db = Database::new(false);
    db.upsert(
        "later".to_string(),
        ShortcutEntry {
            slug: "later".to_string(),
            url: "https://later.example".to_string(),
            status: "trusted".to_string(),
            since: "100".to_string(),
            until: "200".to_string(),
        },
    );
    assert!(matches!(
        find_outcome(&db, &"later".to_string(), 50).unwrap(),
        FindOutcome::Countdown(100)
    ));
    assert!(matches!(
        find_outcome(&db, &"later".to_string(), 250).unwrap(),
        FindOutcome::Blocked
    ));
    match find_outcome(&db, &"later".to_string(), 150).unwrap() {
        FindOutcome::Redirect(url) => assert_eq!(url, "https://later.example"),
        _ => panic!("expected a redirect"),
    }

    db.upsert(
        "ask".to_string(),
        ShortcutEntry {
            slug: "ask".to_string(),
            url: "https://ask.example".to_string(),
            status: "untrusted".to_string(),
            since: "0".to_string(),
            until: "9".to_string(),
        },
    );
    match find_outcome(&db, &"ask".to_string(), 5).unwrap() {
        FindOutcome::NeedsApproval(url) => assert_eq!(url, "https://ask.example"),
        _ => panic!("expected the approval page"),
    }
}

#[test]
fn unreadable_timestamps_cannot_be_served() {
    let mut db = Database::new(false);
    db.upsert(
        "bad".to_string(),
        ShortcutEntry {
            slug: "bad".to_string(),
            url: "https://bad.example".to_string(),
            status: "trusted".to_string(),
            since: "soon".to_string(),
            until: "9".to_string(),
        },
    );
    assert!(find_outcome(&db, &"bad".to_string(), 5).is_none());
    assert!(dashboard_items(&db, 5).is_none());
}

#[test]
fn dashboard_rows() {
    let mut db = Database::new(false);
    db.upsert(
        "gh".to_string(),
        ShortcutEntry {
            slug: "gh".to_string(),
            url: "https://github.com".to_string(),
            status: "trusted".to_string(),
            since: "42".to_string(),
            until: "253370764861000".to_string(),
        },
    );
    let items = dashboard_items(&db, 1700).unwrap();
    assert_eq!(items.len(), 1);
    assert_eq!(items[0].slug, "gh");
    assert_eq!(items[0].url, "https://github.com");
    assert_eq!(items[0].status, "trusted");
    assert_eq!(items[0].now, 1700);
    assert_eq!(items[0].since, 42);
    assert_eq!(items[0].until, 253370764861000);
}

#[test]
fn share_page_payload() {
    let origin = "https://app.example".to_string();
    let payload = share_payload(&origin, &"gh".to_string()).unwrap();
    assert_eq!(payload.slug, "gh");
    // The vector is the base64 of the rendered SVG, so it is nonempty,
    // differs from the input, and decodes to SVG markup.
    assert!(!payload.vector.is_empty());
    assert_ne!(payload.vector, "https://app.example/s/gh");
    assert!(payload.vector.starts_with("PD94bWw"));
}

#[test]
fn basic_credentials_are_prerendered() {
    let config = Configuration {
        auth: Authentication::Basic {
            username: "username".to_string(),
            password: "password".to_string(),
        },
        i18n: i18n(),
        server: ServerInformation { public_origin: "https://app.example".to_string() },
    };
    match normalize(&config).auth {
        Authentication::BasicPrerendered { header } => {
            assert_eq!(header, "Basic dXNlcm5hbWU6cGFzc3dvcmQ=");
        },
        _ => panic!("expected a prerendered header"),
    }

    let untouched = Configuration { auth: Authentication::Disabled, i18n: i18n(), server: ServerInformation { public_origin: String::new() } };
    assert!(matches!(normalize(&untouched).auth, Authentication::Disabled));
}

#[test]
fn decisions_without_oauth() {
    assert!(matches!(
        auth_decision(&Authentication::Disabled, None, None),
        AuthStep::Allow
    ));
    let auth = Authentication::BasicPrerendered { header: "Basic abc".to_string() };
    assert!(matches!(
        auth_decision(&auth, Some(&"Basic abc".to_string()), None),
        AuthStep::Allow
    ));
    assert!(matches!(
        auth_decision(&auth, Some(&"Basic nope".to_string()), None),
        AuthStep::Unauthorized
    ));
    assert!(matches!(auth_decision(&auth, None, None), AuthStep::Unauthorized));
}

#[test]
fn oauth_decisions() {
    let auth = oauth();
    let expected_redirect = "https://idp.example/auth?client_id=cid&scope=openid&response_type=code&redirect_uri=https://app.example/oauth2/code";

    match auth_decision(&auth, None, Some(&"token=abc.DEF-123~x".to_string())) {
        AuthStep::Introspect(token) => assert_eq!(token, "abc.DEF-123~x"),
        _ => panic!("expected an introspection round trip"),
    }
    match auth_decision(&auth, None, Some(&"token=bad token!".to_string())) {
        AuthStep::RedirectToProvider(url) => assert_eq!(url, expected_redirect),
        _ => panic!("expected a provider redirect"),
    }
    match auth_decision(&auth, None, None) {
        AuthStep::RedirectToProvider(url) => assert_eq!(url, expected_redirect),
        _ => panic!("expected a provider redirect"),
    }

    assert!(matches!(after_introspection(&auth, true), AuthStep::Allow));
    match after_introspection(&auth, false) {
        AuthStep::RedirectToProvider(url) => assert_eq!(url, expected_redirect),
        _ => panic!("expected a provider redirect"),
    }
}

#[test]
fn oauth_exchange_strings() {
    let url = token_request_url(&oauth(), &"thecode".to_string()).unwrap();
    assert_eq!(
        url,
        "https://idp.example/token?grant_type=authorization_code&client_id=cid&redirect_uri=https://app.example/oauth2/code&client_secret=csec&code=thecode"
    );
    assert!(token_request_url(&Authentication::Disabled, &"c".to_string()).is_none());

    assert_eq!(
        session_cookie(&"tok".to_string()),
        "token=tok; Path=/; HttpOnly; Secure; SameSite=None"
    );
}

#[test]
fn header_authorization() {
    let open = authentication::Configuration { auth: None };
    assert!(authentication::is_authorized(&open, None));

    let guarded = authentication::Configuration {
        auth: Some(authentication::AuthConfig {
            kind: authentication::AuthType::Basic,
            header: "Basic dXNlcm5hbWU6cGFzc3dvcmQ=".to_string(),
        }),
    };
    assert!(authentication::is_authorized(
        &guarded,
        Some(&"Basic dXNlcm5hbWU6cGFzc3dvcmQ=".to_string())
    ));
    assert!(!authentication::is_authorized(
        &guarded,
        Some(&"Basic wrong".to_string())
    ));
    assert!(!authentication::is_authorized(&guarded, None));
}
