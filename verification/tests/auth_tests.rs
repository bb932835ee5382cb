use pi_kiosk::auth::{
    access_decision, build_logout_cookie, build_session_cookie, extract_session_token,
    is_public_path, login_page_path, session_cookie_name, wants_html, Access,
};

#[test]
fn public_paths() {
    for p in ["/login", "/api/login", "/api/logout", "/pkg/app.js", "/style/main.css", "/favicon.ico"] {
        assert!(is_public_path(p), "{}", p);
    }
    for p in ["/", "/dashboard", "/api/settings", "/login/extra", "/pkg"] {
        assert!(!is_public_path(p), "{}", p);
    }
}

#[test]
fn cookies() {
    assert_eq!(session_cookie_name(), "pi-kiosk-session");
    assert_eq!(login_page_path(), "/login");
    assert_eq!(
        build_session_cookie("abc-123"),
        "pi-kiosk-session=abc-123; Path=/; HttpOnly; SameSite=Strict; Max-Age=86400"
    );
    assert_eq!(build_logout_cookie(), "pi-kiosk-session=; Path=/; HttpOnly; SameSite=Strict; Max-Age=0");
}

#[test]
fn token_extraction() {
    assert_eq!(extract_session_token(None), None);
    assert_eq!(extract_session_token(Some("theme=dark; pi-kiosk-session=tok42; x=1")).as_deref(), Some("tok42"));
    assert_eq!(extract_session_token(Some("pi-kiosk-session=first;pi-kiosk-session=second")).as_deref(), Some("first"));
    assert_eq!(extract_session_token(Some("other=1")), None);
    assert_eq!(extract_session_token(Some("pi-kiosk-session=")).as_deref(), Some(""));
}

#[test]
fn cookie_round_trip() {
    for t in ["0b8f7c1e-1111-4c2d-9abc-def012345678", "a", ""] {
        let cookie = build_session_cookie(t);
        assert_eq!(extract_session_token(Some(&cookie)).as_deref(), Some(t));
    }
}

#[test]
fn access() {
    assert!(wants_html(Some("text/html,application/xhtml+xml")));
    assert!(!wants_html(Some("application/json")));
    assert!(!wants_html(None));
    assert_eq!(access_decision("/login", false, true), Access::Allow);
    assert_eq!(access_decision("/", true, true), Access::Allow);
    assert_eq!(access_decision("/", false, true), Access::RedirectToLogin);
    assert_eq!(access_decision("/api/status", false, false), Access::Unauthorized);
}
