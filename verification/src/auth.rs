//! The web interface's session handling: which paths need no login, the
//! session cookie it sets and clears, reading the session token back from a
//! `Cookie` header, and what an unauthenticated request is answered.
use vstd::prelude::*;
use crate::text::{
    chars_of, contains, contains_exec, extend_str, has_prefix, is_ws, lemma_split_free,
    lemma_split_nonempty,
    slice_chars, split_exec, split_on, starts_with, string_from_chars, trim, trim_end, trim_exec,
    trim_start, views,
};

verus! {

pub open spec fn cookie_name() -> Seq<char> {
    "pi-kiosk-session"@
}

pub open spec fn login_path() -> Seq<char> {
    "/login"@
}

/// The name of the session cookie.
pub fn session_cookie_name() -> (r: &'static str)
    ensures
        r@ == cookie_name(),
{
    "pi-kiosk-session"
}

/// The login page's path.
pub fn login_page_path() -> (r: &'static str)
    ensures
        r@ == login_path(),
{
    "/login"
}

/// Paths served without a session: the login page and API, and static assets.
pub open spec fn public_path_spec(p: Seq<char>) -> bool {
    ||| p == "/login"@
    ||| p == "/api/login"@
    ||| p == "/api/logout"@
    ||| has_prefix(p, "/pkg/"@)
    ||| has_prefix(p, "/style/"@)
    ||| has_prefix(p, "/favicon"@)
}

fn eq_lit(s: &[char], l: &str) -> (r: bool)
    ensures
        r == (s@ == l@),
{
    let v = chars_of(l);
    crate::text::chars_eq(s, v.as_slice())
}

fn prefix_lit(s: &[char], l: &str) -> (r: bool)
    ensures
        r == has_prefix(s@, l@),
{
    let v = chars_of(l);
    starts_with(s, v.as_slice())
}

pub fn is_public_path(path: &str) -> (r: bool)
    ensures
        r == public_path_spec(path@),
{
    let p = chars_of(path);
    eq_lit(p.as_slice(), "/login") || eq_lit(p.as_slice(), "/api/login") || eq_lit(
        p.as_slice(),
        "/api/logout",
    ) || prefix_lit(p.as_slice(), "/pkg/") || prefix_lit(p.as_slice(), "/style/") || prefix_lit(
        p.as_slice(),
        "/favicon",
    )
}

pub open spec fn session_attributes() -> Seq<char> {
    "; Path=/; HttpOnly; SameSite=Strict; Max-Age=86400"@
}

pub open spec fn logout_attributes() -> Seq<char> {
    "; Path=/; HttpOnly; SameSite=Strict; Max-Age=0"@
}

/// The `Set-Cookie` value that starts a session with `token` for a day.
pub fn build_session_cookie(token: &str) -> (r: String)
    ensures
        r@ == cookie_name() + "="@ + token@ + session_attributes(),
{
    let mut b = chars_of("pi-kiosk-session");
    extend_str(&mut b, "=");
    extend_str(&mut b, token);
    extend_str(&mut b, "; Path=/; HttpOnly; SameSite=Strict; Max-Age=86400");
    string_from_chars(b.as_slice())
}

/// The `Set-Cookie` value that ends the session at once.
pub fn build_logout_cookie() -> (r: String)
    ensures
        r@ == cookie_name() + "="@ + logout_attributes(),
{
    let mut b = chars_of("pi-kiosk-session");
    extend_str(&mut b, "=");
    extend_str(&mut b, "; Path=/; HttpOnly; SameSite=Strict; Max-Age=0");
    string_from_chars(b.as_slice())
}

/// The session token in a `Cookie` header: the value of the first
/// `pi-kiosk-session=` cookie among the `;`-separated, trimmed cookies.
pub open spec fn token_from(parts: Seq<Seq<char>>, i: int) -> Option<Seq<char>>
    decreases parts.len() - i,
{
    if i < 0 || i >= parts.len() {
        None
    } else {
        let c = trim(parts[i]);
        let key = cookie_name() + "="@;
        if has_prefix(c, key) {
            Some(c.skip(key.len() as int))
        } else {
            token_from(parts, i + 1)
        }
    }
}

pub open spec fn session_token_spec(header: Seq<char>) -> Option<Seq<char>> {
    token_from(split_on(header, ';'), 0)
}

/// The session token a request carries, from its `Cookie` header when it has one
/// that is readable text.
pub fn extract_session_token(cookie_header: Option<&str>) -> (r: Option<String>)
    ensures
        match cookie_header {
            None => r is None,
            Some(h) => match r {
                Some(t) => session_token_spec(h@) == Some(t@),
                None => session_token_spec(h@) is None,
            },
        },
{
    let h = match cookie_header {
        Some(h) => h,
        None => {
            return None;
        },
    };
    let c = chars_of(h);
    let parts = split_exec(c.as_slice(), ';');
    let mut key = chars_of("pi-kiosk-session");
    extend_str(&mut key, "=");
    let ghost pv = views(parts@);
    let mut i: usize = 0;
    while i < parts.len()
        invariant
            i <= parts@.len(),
            cookie_header == Some(h),
            pv == views(parts@),
            pv == split_on(h@, ';'),
            key@ == cookie_name() + "="@,
            session_token_spec(h@) == token_from(pv, i as int),
        decreases parts@.len() - i,
    {
        assert(pv[i as int] == parts@[i as int]@);
        let t = trim_exec(parts[i].as_slice());
        if starts_with(t.as_slice(), key.as_slice()) {
            let v = slice_chars(t.as_slice(), key.len(), t.len());
            assert(v@ =~= t@.skip(key@.len() as int));
            return Some(string_from_chars(v.as_slice()));
        }
        i = i + 1;
    }
    None
}

/// Whether the request prefers an HTML page (its `Accept` header mentions `text/html`).
pub fn wants_html(accept: Option<&str>) -> (r: bool)
    ensures
        r == match accept {
            Some(a) => contains(a@, "text/html"@),
            None => false,
        },
{
    match accept {
        Some(a) => {
            let c = chars_of(a);
            let p = chars_of("text/html");
            contains_exec(c.as_slice(), p.as_slice())
        },
        None => false,
    }
}

/// What the authentication layer does with a request.
#[derive(Clone, Copy, Debug, PartialEq, Eq, Structural)]
pub enum Access {
    /// Pass the request on.
    Allow,
    /// Send the browser to the login page.
    RedirectToLogin,
    /// Answer `401 Unauthorized`.
    Unauthorized,
}

/// Public paths pass; other requests pass with a valid session, and are otherwise
/// sent to the login page when they want HTML, or refused.
pub fn access_decision(path: &str, session_valid: bool, html: bool) -> (r: Access)
    ensures
        r == (if public_path_spec(path@) || session_valid {
            Access::Allow
        } else if html {
            Access::RedirectToLogin
        } else {
            Access::Unauthorized
        }),
{
    if is_public_path(path) || session_valid {
        Access::Allow
    } else if html {
        Access::RedirectToLogin
    } else {
        Access::Unauthorized
    }
}

// ---------------------------------------------------------------------
// The cookie read back
// ---------------------------------------------------------------------

/// Splitting `a`, a separator, then `b` gives `a` as the first piece when `a` holds
/// no separator.
proof fn lemma_split_head(a: Seq<char>, d: char, b: Seq<char>)
    requires
        forall|i: int| 0 <= i < a.len() ==> a[i] != d,
    ensures
        split_on(a.push(d) + b, d) == seq![a] + split_on(b, d),
    decreases b.len(),
{
    if b.len() == 0 {
        lemma_split_free(a, d);
        assert(a.push(d) + b =~= a.push(d));
        assert((a.push(d)).drop_last() =~= a);
        assert(seq![a].push(Seq::<char>::empty()) =~= seq![a] + seq![Seq::<char>::empty()]);
    } else {
        lemma_split_head(a, d, b.drop_last());
        lemma_split_nonempty(b.drop_last(), d);
        let s = a.push(d) + b;
        assert(s.drop_last() =~= a.push(d) + b.drop_last());
        assert(s.last() == b.last());
        let r = split_on(b.drop_last(), d);
        if b.last() == d {
            assert((seq![a] + r).push(Seq::<char>::empty()) =~= seq![a] + r.push(Seq::<char>::empty()));
        } else {
            let big = seq![a] + r;
            assert(big.update(big.len() - 1, big.last().push(b.last())) =~= seq![a] + r.update(
                r.len() - 1,
                r.last().push(b.last()),
            ));
        }
    }
}

proof fn lemma_trim_identity(s: Seq<char>)
    requires
        s.len() > 0,
        !is_ws(s[0]),
        !is_ws(s.last()),
    ensures
        trim(s) == s,
{
    assert(trim_start(s) == s);
}

/// A session cookie's value reads back as its token, when the token holds no `;`
/// and does not end in whitespace.
pub proof fn lemma_cookie_roundtrip(token: Seq<char>)
    requires
        forall|i: int| 0 <= i < token.len() ==> token[i] != ';',
        token.len() > 0 ==> !is_ws(token.last()),
    ensures
        session_token_spec(cookie_name() + "="@ + token + session_attributes()) == Some(token),
{
    reveal_strlit("pi-kiosk-session");
    reveal_strlit("=");
    reveal_strlit("; Path=/; HttpOnly; SameSite=Strict; Max-Age=86400");
    let key = cookie_name() + "="@;
    let a = key + token;
    let attrs = session_attributes();
    assert(attrs[0] == ';');
    let b = attrs.drop_first();
    assert(a + attrs =~= a.push(';') + b);
    assert forall|i: int| 0 <= i < a.len() implies a[i] != ';' by {
        if i >= key.len() {
            assert(a[i] == token[i - key.len()]);
        }
    }
    lemma_split_head(a, ';', b);
    let parts = split_on(a + attrs, ';');
    assert(parts[0] == a);
    assert(a[0] == 'p');
    if token.len() > 0 {
        assert(a.last() == token.last());
    } else {
        assert(a.last() == '=');
    }
    lemma_trim_identity(a);
    assert(a.take(key.len() as int) =~= key);
    assert(a.skip(key.len() as int) =~= token);
}

} // verus!
