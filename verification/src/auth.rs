//! Sessions of the administrator and of mailboxes.
use crate::outside::{bytes_equal, hex_encode, hex_text, sha256, sha256_digest};
use crate::text::{
    among, decimal, decimal_of, first_at, last_at, lemma_first_at, lemma_last_at, lemma_pieces_whole,
    lemma_trimmed_fixed, only, opt_text, parted, parted_last, split_at, split_last, split_on, split_once,
    texts, trim, trimmed, white_space,
};
use vstd::hash_map::StringHashMap;
use vstd::prelude::*;
use vstd::utf8::{encode_utf8, encode_utf8_decode_utf8};

verus! {

/// The cookie of the session of the administrator.
pub const SESSION_COOKIE: &'static str = "akurai_session";

/// The cookie of the session of a mailbox.
pub const MAILBOX_SESSION_COOKIE: &'static str = "akurai_mailbox_session";

/// How long a session lasts: ten hours, in seconds.
pub const SESSION_MAX_AGE: u64 = 36000;

/// The SHA-256 digest of a text in hexadecimal notation.
pub open spec fn digest_of(value: Seq<char>) -> Seq<char> {
    hex_text(sha256_digest(encode_utf8(value)))
}

/// Makes the digest of a text.
pub fn digest(value: &str) -> (r: String)
    ensures
        r@ == digest_of(value@),
        r@.len() == 64,
{
    hex_encode(sha256(value.as_bytes()).as_slice())
}

/// Whether two texts are the same, compared in constant time.
pub fn constant_eq(a: &str, b: &str) -> (r: bool)
    ensures
        r == (a@ == b@),
{
    proof {
        encode_utf8_decode_utf8(a@);
        encode_utf8_decode_utf8(b@);
    }
    bytes_equal(a.as_bytes(), b.as_bytes())
}

/// The value of the session of the administrator.
pub open spec fn session_of(user: Seq<char>, password: Seq<char>) -> Seq<char> {
    digest_of(user + ":"@ + password)
}

/// Makes the value of the session of the administrator. With a password it is
/// accepted as that session.
pub fn session_value(user: &str, password: &str) -> (r: String)
    ensures
        r@ == session_of(user@, password@),
        password@.len() > 0 ==> is_password_session(r@, user@, password@),
{
    let mut s = user.to_owned();
    s.append(":");
    s.append(password);
    digest(s.as_str())
}

/// The token of the session of a mailbox.
pub open spec fn mailbox_token(email: Seq<char>, admin_password: Seq<char>) -> Seq<char> {
    digest_of(email + ":"@ + admin_password + ":mailbox"@)
}

/// The value of the session of a mailbox.
pub open spec fn mailbox_session_of(email: Seq<char>, admin_password: Seq<char>) -> Seq<char> {
    email + ":"@ + mailbox_token(email, admin_password)
}

fn token_for(email: &str, admin_password: &str) -> (r: String)
    ensures
        r@ == mailbox_token(email@, admin_password@),
{
    let mut s = email.to_owned();
    s.append(":");
    s.append(admin_password);
    s.append(":mailbox");
    digest(s.as_str())
}

/// Makes the value of the session of a mailbox.
pub fn mailbox_session_value(email: &str, admin_password: &str) -> (r: String)
    ensures
        r@ == mailbox_session_of(email@, admin_password@),
{
    let mut out = email.to_owned();
    out.append(":");
    out.append(token_for(email, admin_password).as_str());
    out
}

/// Whether credentials are those of the administrator, by their digests.
/// Without a password of the administrator none are.
pub open spec fn are_valid(
    email: Seq<char>,
    password: Seq<char>,
    admin_user: Seq<char>,
    admin_password: Seq<char>,
) -> bool {
    admin_password.len() > 0 && digest_of(email) == digest_of(admin_user) && digest_of(password)
        == digest_of(admin_password)
}

/// Checks the credentials of the administrator.
pub fn validate_credentials(email: &str, password: &str, admin_user: &str, admin_password: &str) -> (r: bool)
    ensures
        r == are_valid(email@, password@, admin_user@, admin_password@),
{
    if admin_password.is_empty() {
        return false;
    }
    constant_eq(digest(email).as_str(), digest(admin_user).as_str()) && constant_eq(
        digest(password).as_str(),
        digest(admin_password).as_str(),
    )
}

/// Whether a cookie is the session of the administrator by password.
pub open spec fn is_password_session(cookie: Seq<char>, admin_user: Seq<char>, admin_password: Seq<char>) -> bool {
    admin_password.len() > 0 && cookie.len() > 0 && cookie == session_of(admin_user, admin_password)
}

/// Checks whether a cookie is the session of the administrator by password.
pub fn is_legacy_authenticated(cookie_value: &str, admin_user: &str, admin_password: &str) -> (r: bool)
    ensures
        r == is_password_session(cookie_value@, admin_user@, admin_password@),
{
    if admin_password.is_empty() || cookie_value.is_empty() {
        return false;
    }
    constant_eq(cookie_value, session_value(admin_user, admin_password).as_str())
}

/// The sessions that an identity provider vouched for: the address of the user
/// of each.
pub struct Sessions {
    emails: StringHashMap<String>,
}

impl View for Sessions {
    type V = Map<Seq<char>, Seq<char>>;

    closed spec fn view(&self) -> Map<Seq<char>, Seq<char>> {
        self.emails@.map_values(|s: String| s@)
    }
}

impl Sessions {
    /// No sessions.
    pub fn new() -> (r: Sessions)
        ensures
            r@ == Map::<Seq<char>, Seq<char>>::empty(),
    {
        let r = Sessions { emails: StringHashMap::new() };
        proof {
            assert(r@ =~= Map::empty());
        }
        r
    }

    /// Starts a session.
    pub fn insert(&mut self, id: String, email: String)
        ensures
            final(self)@ == old(self)@.insert(id@, email@),
    {
        let ghost before = self@;
        self.emails.insert(id, email);
        proof {
            assert(self@ =~= before.insert(id@, email@));
        }
    }

    /// Whether there is a session.
    pub fn contains(&self, id: &str) -> (r: bool)
        ensures
            r == self@.contains_key(id@),
    {
        self.emails.contains_key(id)
    }

    /// The address of the user of a session.
    pub fn get(&self, id: &str) -> (r: Option<String>)
        ensures
            opt_text(r) == (if self@.contains_key(id@) {
                Some(self@[id@])
            } else {
                None
            }),
    {
        match self.emails.get(id) {
            Some(s) => Some(s.clone()),
            None => None,
        }
    }
}

/// Whether a cookie is a session of the administrator: by password, or by the
/// identity provider.
pub open spec fn is_admin_session(
    cookie: Seq<char>,
    admin_user: Seq<char>,
    admin_password: Seq<char>,
    sessions: Map<Seq<char>, Seq<char>>,
) -> bool {
    is_password_session(cookie, admin_user, admin_password) || (cookie.len() > 0 && sessions.contains_key(cookie))
}

/// Checks whether a cookie is a session of the administrator.
pub fn is_authenticated(cookie_value: &str, admin_user: &str, admin_password: &str, sessions: &Sessions) -> (r: bool)
    ensures
        r == is_admin_session(cookie_value@, admin_user@, admin_password@, sessions@),
{
    if is_legacy_authenticated(cookie_value, admin_user, admin_password) {
        return true;
    }
    !cookie_value.is_empty() && sessions.contains(cookie_value)
}

/// The address of the user of a session by the identity provider.
pub open spec fn session_email_of(cookie: Seq<char>, sessions: Map<Seq<char>, Seq<char>>) -> Option<Seq<char>> {
    if cookie.len() > 0 && sessions.contains_key(cookie) {
        Some(sessions[cookie])
    } else {
        None
    }
}

/// Finds the address of the user of a session by the identity provider.
pub fn oidc_session_email(cookie_value: &str, sessions: &Sessions) -> (r: Option<String>)
    ensures
        opt_text(r) == session_email_of(cookie_value@, sessions@),
{
    if cookie_value.is_empty() {
        return None;
    }
    sessions.get(cookie_value)
}

/// The mailbox whose session a cookie is: an address that is not empty, and
/// after the last colon its token.
pub open spec fn mailbox_of(cookie: Seq<char>, admin_password: Seq<char>) -> Option<Seq<char>> {
    if admin_password.len() == 0 {
        None
    } else {
        match parted_last(cookie, ':') {
            Some((email, token)) => if email.len() > 0 && token == mailbox_token(email, admin_password) {
                Some(email)
            } else {
                None
            },
            None => None,
        }
    }
}

/// Finds the mailbox whose session a cookie is.
pub fn mailbox_from_session(cookie_value: &str, admin_password: &str) -> (r: Option<String>)
    ensures
        opt_text(r) == mailbox_of(cookie_value@, admin_password@),
{
    if admin_password.is_empty() {
        return None;
    }
    match split_last(cookie_value, ':') {
        Some((email, token)) => {
            if !email.as_str().is_empty() && constant_eq(
                token.as_str(),
                token_for(email.as_str(), admin_password).as_str(),
            ) {
                Some(email)
            } else {
                None
            }
        },
        None => None,
    }
}

/// The header that sets a cookie of a session.
pub open spec fn set_cookie_of(name: Seq<char>, value: Seq<char>, path: Seq<char>) -> Seq<char> {
    name + "="@ + value + "; Path="@ + path + "; HttpOnly; SameSite=Lax; Secure; Max-Age="@ + decimal(
        SESSION_MAX_AGE as nat,
    )
}

/// Writes the header that sets a cookie of a session.
pub fn set_cookie_header(name: &str, value: &str, path: &str) -> (r: String)
    ensures
        r@ == set_cookie_of(name@, value@, path@),
{
    let mut out = name.to_owned();
    out.append("=");
    out.append(value);
    out.append("; Path=");
    out.append(path);
    out.append("; HttpOnly; SameSite=Lax; Secure; Max-Age=");
    out.append(decimal_of(SESSION_MAX_AGE).as_str());
    out
}

/// The header that takes a cookie of a session back.
pub open spec fn clear_cookie_of(name: Seq<char>, path: Seq<char>) -> Seq<char> {
    name + "=; Path="@ + path + "; HttpOnly; SameSite=Lax; Secure; Max-Age=0"@
}

/// Writes the header that takes a cookie of a session back.
pub fn clear_cookie_header(name: &str, path: &str) -> (r: String)
    ensures
        r@ == clear_cookie_of(name@, path@),
{
    let mut out = name.to_owned();
    out.append("=; Path=");
    out.append(path);
    out.append("; HttpOnly; SameSite=Lax; Secure; Max-Age=0");
    out
}

// ---------------------------------------------------------------------------
// Cookies
// ---------------------------------------------------------------------------

/// The cookies that the pieces of a header name; a later one of a name takes
/// the place of an earlier one.
pub open spec fn cookies_in(parts: Seq<Seq<char>>) -> Map<Seq<char>, Seq<char>>
    decreases parts.len(),
{
    if parts.len() == 0 {
        Map::empty()
    } else {
        let before = cookies_in(parts.drop_last());
        match parted(trimmed(parts.last()), only('=')) {
            Some((k, v)) => before.insert(k, v),
            None => before,
        }
    }
}

/// The cookies that a header names, if there is one.
pub open spec fn cookies_of(header: Option<Seq<char>>) -> Map<Seq<char>, Seq<char>> {
    match header {
        Some(h) => cookies_in(split_at(h, ';')),
        None => Map::empty(),
    }
}

/// The value of a cookie, or the empty text.
pub open spec fn cookie_at(cookies: Map<Seq<char>, Seq<char>>, name: Seq<char>) -> Seq<char> {
    if cookies.contains_key(name) {
        cookies[name]
    } else {
        Seq::empty()
    }
}

/// The cookies of a request.
pub struct Cookies {
    values: StringHashMap<String>,
}

impl View for Cookies {
    type V = Map<Seq<char>, Seq<char>>;

    closed spec fn view(&self) -> Map<Seq<char>, Seq<char>> {
        self.values@.map_values(|s: String| s@)
    }
}

impl Cookies {
    /// The value of a cookie, or the empty text.
    pub fn value(&self, name: &str) -> (r: String)
        ensures
            r@ == cookie_at(self@, name@),
    {
        match self.values.get(name) {
            Some(s) => s.clone(),
            None => String::new(),
        }
    }
}

/// Reads the cookies that a header names.
pub fn parse_cookies(header: &Option<String>) -> (r: Cookies)
    ensures
        r@ == cookies_of(opt_text(*header)),
{
    let mut out = Cookies { values: StringHashMap::new() };
    proof {
        assert(out@ =~= Map::<Seq<char>, Seq<char>>::empty());
    }
    if let Some(h) = header {
        let parts = split_on(h.as_str(), ';');
        let ghost all = texts(parts@);
        let mut i: usize = 0;
        while i < parts.len()
            invariant
                i <= parts@.len(),
                all == texts(parts@),
                out@ == cookies_in(all.take(i as int)),
            decreases parts@.len() - i,
        {
            let ghost before = out@;
            proof {
                assert(all.take(i + 1).drop_last() =~= all.take(i as int));
                assert(all.take(i + 1).last() == parts@[i as int]@);
            }
            if let Some((k, v)) = split_once(trim(parts[i].as_str()).as_str(), '=') {
                let ghost key = k@;
                let ghost value = v@;
                out.values.insert(k, v);
                proof {
                    assert(out@ =~= before.insert(key, value));
                }
            }
            i += 1;
        }
        proof {
            assert(all.take(all.len() as int) =~= all);
        }
    }
    out
}

// ---------------------------------------------------------------------------
// Laws
// ---------------------------------------------------------------------------

/// No digit of a digest is a colon.
proof fn lemma_digest_has_no_colon(data: Seq<u8>)
    ensures
        forall|i: int| 0 <= i < hex_text(data).len() ==> #[trigger] hex_text(data)[i] != ':',
{
    assert forall|i: int| 0 <= i < hex_text(data).len() implies #[trigger] hex_text(data)[i] != ':' by {
        let b = data[i / 2];
        assert(b / 16 < 16) by (nonlinear_arith)
            requires
                0 <= b <= 255,
        ;
        assert(b % 16 < 16);
    }
}

/// The session that a mailbox is given is read back as that of the mailbox, as
/// long as the password of the administrator stays.
pub proof fn law_mailbox_session_reads_back(email: Seq<char>, admin_password: Seq<char>)
    requires
        email.len() > 0,
        admin_password.len() > 0,
    ensures
        mailbox_of(mailbox_session_of(email, admin_password), admin_password) == Some(email),
{
    reveal_strlit(":");
    let token = mailbox_token(email, admin_password);
    let value = mailbox_session_of(email, admin_password);
    let kind = only(':');
    let n = value.len() as int;
    let p = last_at(value, kind, n);
    lemma_last_at(value, kind, n);
    lemma_digest_has_no_colon(sha256_digest(encode_utf8(email + ":"@ + admin_password + ":mailbox"@)));
    let at = email.len() as int;
    assert(value[at] == ':');
    assert(kind(value[at]));
    if p < at {
        assert(!kind(value[at]));
    }
    if p > at {
        assert(kind(value[p]));
        assert(value[p] == token[p - at - 1]);
    }
    assert(p == at);
    assert(value.take(at) =~= email);
    assert(value.skip(at + 1) =~= token);
}

/// A cookie is the session of a mailbox only if it is the very value that the
/// mailbox is given.
pub proof fn law_only_the_session_is_accepted(cookie: Seq<char>, admin_password: Seq<char>, email: Seq<char>)
    requires
        mailbox_of(cookie, admin_password) == Some(email),
    ensures
        cookie == mailbox_session_of(email, admin_password),
        email.len() > 0,
        admin_password.len() > 0,
{
    reveal_strlit(":");
    let kind = only(':');
    let n = cookie.len() as int;
    let p = last_at(cookie, kind, n);
    lemma_last_at(cookie, kind, n);
    assert(kind(cookie[p]));
    assert(cookie =~= cookie.take(p) + seq![':'] + cookie.skip(p + 1));
    assert(":"@ =~= seq![':']);
}

/// The credentials of the administrator are accepted, if there is a password.
pub proof fn law_right_credentials_are_accepted(admin_user: Seq<char>, admin_password: Seq<char>)
    requires
        admin_password.len() > 0,
    ensures
        are_valid(admin_user, admin_password, admin_user, admin_password),
{
}

/// Without a password of the administrator no credentials are accepted, and no
/// cookie is a session of the administrator or of a mailbox by password.
pub proof fn law_no_password_no_session(
    email: Seq<char>,
    password: Seq<char>,
    admin_user: Seq<char>,
    cookie: Seq<char>,
)
    ensures
        !are_valid(email, password, admin_user, Seq::empty()),
        !is_password_session(cookie, admin_user, Seq::empty()),
        mailbox_of(cookie, Seq::empty()) is None,
{
}

/// A cookie that is sent back under its name is read with its value, if that
/// holds no semicolon and does not end in white space.
pub proof fn law_cookie_comes_back(name: Seq<char>, value: Seq<char>)
    requires
        name.len() > 0,
        !white_space(name[0]),
        !name.contains(';'),
        !name.contains('='),
        value.len() > 0,
        !value.contains(';'),
        !white_space(value.last()),
    ensures
        cookie_at(cookies_of(Some(name + "="@ + value)), name) == value,
{
    reveal_strlit("=");
    let header = name + "="@ + value;
    let n = name.len() as int;
    let semi = among(seq![';']);
    assert forall|i: int| 0 <= i < header.len() implies !semi(#[trigger] header[i]) by {
        if i < n {
            assert(name.contains(name[i]));
        } else if i > n {
            assert(value.contains(value[i - n - 1]));
        }
    }
    lemma_pieces_whole(header, semi);
    lemma_trimmed_fixed(header);
    let kind = only('=');
    let p = first_at(header, kind, 0);
    lemma_first_at(header, kind, 0);
    assert(kind(header[n]));
    if p < n {
        assert(kind(header[p]));
        assert(name.contains(name[p]));
    }
    assert(p == n);
    assert(header.take(n) =~= name);
    assert(header.skip(n + 1) =~= value);
    let parts = split_at(header, ';');
    assert(parts == seq![header]);
    assert(parts.last() == header);
    assert(cookies_in(parts) == cookies_in(parts.drop_last()).insert(name, value));
}

/// The names of the cookies of sessions are plain.
pub proof fn lemma_cookie_names()
    ensures
        SESSION_COOKIE@.len() > 0 && !white_space(SESSION_COOKIE@[0]),
        !SESSION_COOKIE@.contains(';') && !SESSION_COOKIE@.contains('='),
        MAILBOX_SESSION_COOKIE@.len() > 0 && !white_space(MAILBOX_SESSION_COOKIE@[0]),
        !MAILBOX_SESSION_COOKIE@.contains(';') && !MAILBOX_SESSION_COOKIE@.contains('='),
{
    reveal_strlit("akurai_session");
    reveal_strlit("akurai_mailbox_session");
}

/// Digits of digests are neither semicolons nor white space.
pub proof fn lemma_digest_is_plain(data: Seq<u8>)
    ensures
        !hex_text(data).contains(';'),
        hex_text(data).len() > 0 ==> !white_space(hex_text(data).last()),
{
    let t = hex_text(data);
    assert forall|i: int| 0 <= i < t.len() implies t[i] != ';' && !white_space(#[trigger] t[i]) by {
        let b = data[i / 2];
        assert(b / 16 < 16) by (nonlinear_arith)
            requires
                0 <= b <= 255,
        ;
        assert(b % 16 < 16);
    }
    if t.contains(';') {
        let k = choose|k: int| 0 <= k < t.len() && t[k] == ';';
        assert(!white_space(t[k]));
    }
    if t.len() > 0 {
        assert(!white_space(t[t.len() - 1]));
    }
}

/// The session that a mailbox is given is accepted when its cookie comes back,
/// if the address holds no semicolon, which would end the cookie.
pub proof fn law_mailbox_cookie_is_accepted(email: Seq<char>, admin_password: Seq<char>)
    requires
        email.len() > 0,
        !email.contains(';'),
        admin_password.len() > 0,
    ensures
        mailbox_of(
            cookie_at(
                cookies_of(
                    Some(
                        MAILBOX_SESSION_COOKIE@ + "="@ + mailbox_session_of(email, admin_password),
                    ),
                ),
                MAILBOX_SESSION_COOKIE@,
            ),
            admin_password,
        ) == Some(email),
{
    reveal_strlit(":");
    let value = mailbox_session_of(email, admin_password);
    let data = sha256_digest(encode_utf8(email + ":"@ + admin_password + ":mailbox"@));
    let token = hex_text(data);
    lemma_cookie_names();
    lemma_digest_is_plain(data);
    assert(!value.contains(';')) by {
        if value.contains(';') {
            let k = choose|k: int| 0 <= k < value.len() && value[k] == ';';
            let n = email.len() as int;
            if k < n {
                assert(email[k] == ';');
            } else if k > n {
                assert(token[k - n - 1] == ';');
            }
        }
    }
    if token.len() > 0 {
        assert(value.last() == token.last());
    } else {
        assert(value.last() == ':');
    }
    law_cookie_comes_back(MAILBOX_SESSION_COOKIE@, value);
    law_mailbox_session_reads_back(email, admin_password);
}

/// The empty cookie is no session.
pub proof fn law_empty_cookie_is_no_session(
    admin_user: Seq<char>,
    admin_password: Seq<char>,
    sessions: Map<Seq<char>, Seq<char>>,
)
    ensures
        !is_admin_session(Seq::empty(), admin_user, admin_password, sessions),
        session_email_of(Seq::empty(), sessions) is None,
        mailbox_of(Seq::empty(), admin_password) is None,
{
}

} // verus!
