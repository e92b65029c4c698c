//! Logging in through an identity provider: the authorization code flow with a
//! proof key.
use crate::auth::{
    cookie_at, is_legacy_authenticated, is_password_session, mailbox_from_session, mailbox_of,
    oidc_session_email, session_email_of, set_cookie_header, set_cookie_of, Cookies, Sessions,
    MAILBOX_SESSION_COOKIE, SESSION_COOKIE,
};
use crate::config::{oidc_enabled, oidc_redirect_uri, redirect_uri_of, Config};
use crate::json::{Json, Tree};
use crate::outside::{
    base64_url_bytes, base64_url_decode, base64_url_encode, base64_url_text, hex_encode, hex_text,
    json_member, json_parse, json_read, json_text, push_char, random_byte, sha256, sha256_digest,
};
use crate::reply::{redirect_with_cookie, Reply, ReplyTree};
use crate::text::{opt_text, split_at, split_on, texts};
use vstd::hash_map::StringHashMap;
use vstd::prelude::*;
use vstd::utf8::encode_utf8;

verus! {

/// Makes a random text: as many random bytes as asked for, in hexadecimal
/// notation.
pub fn generate_random_hex(len: usize) -> (r: String)
    ensures
        exists|bytes: Seq<u8>| bytes.len() == len && r@ == #[trigger] hex_text(bytes),
{
    let mut bytes: Vec<u8> = Vec::new();
    while bytes.len() < len
        invariant
            bytes@.len() <= len,
        decreases len - bytes@.len(),
    {
        bytes.push(random_byte());
    }
    hex_encode(bytes.as_slice())
}

/// The challenge that a proof key answers.
pub open spec fn challenge_of(verifier: Seq<char>) -> Seq<char> {
    base64_url_text(sha256_digest(encode_utf8(verifier)))
}

/// Makes the challenge that a proof key answers.
pub fn challenge_for(verifier: &str) -> (r: String)
    ensures
        r@ == challenge_of(verifier@),
{
    base64_url_encode(sha256(verifier.as_bytes()).as_slice())
}

/// The length of a proof key in bytes.
pub const VERIFIER_LENGTH: usize = 32;

/// The length of the state of a login in bytes.
pub const STATE_LENGTH: usize = 16;

/// The length of the identifier of a session in bytes.
pub const SESSION_LENGTH: usize = 32;

/// Makes a random proof key, and the challenge that it answers.
pub fn generate_pkce() -> (r: (String, String))
    ensures
        exists|bytes: Seq<u8>| bytes.len() == VERIFIER_LENGTH && r.0@ == #[trigger] hex_text(bytes),
        r.1@ == challenge_of(r.0@),
{
    let verifier = generate_random_hex(VERIFIER_LENGTH);
    let challenge = challenge_for(verifier.as_str());
    (verifier, challenge)
}

/// Whether a byte stands for itself in a URL.
pub open spec fn unreserved(b: u8) -> bool {
    (65 <= b && b <= 90) || (97 <= b && b <= 122) || (48 <= b && b <= 57) || b == 45 || b == 95 || b == 46
        || b == 126
}

/// The upper case hexadecimal digit for a number below sixteen.
pub open spec fn upper_digit(n: u8) -> char {
    if n < 10 {
        (n + 48) as char
    } else {
        (n + 55) as char
    }
}

/// A byte as it stands in a URL.
pub open spec fn url_byte(b: u8) -> Seq<char> {
    if unreserved(b) {
        seq![b as char]
    } else {
        seq!['%', upper_digit((b / 16) as u8), upper_digit((b % 16) as u8)]
    }
}

/// Bytes as they stand in a URL.
pub open spec fn url_text(bytes: Seq<u8>) -> Seq<char>
    decreases bytes.len(),
{
    if bytes.len() == 0 {
        Seq::empty()
    } else {
        url_text(bytes.drop_last()) + url_byte(bytes.last())
    }
}

fn upper_digit_char(n: u8) -> (r: char)
    requires
        n < 16,
    ensures
        r == upper_digit(n),
{
    if n < 10 {
        (n + 48) as char
    } else {
        (n + 55) as char
    }
}

/// Writes a text as it stands in a URL.
pub fn urlenc(s: &str) -> (r: String)
    ensures
        r@ == url_text(encode_utf8(s@)),
{
    let bytes = s.as_bytes();
    let ghost all = bytes@;
    let mut out = String::new();
    let mut i: usize = 0;
    while i < bytes.len()
        invariant
            i <= bytes@.len(),
            all == bytes@,
            out@ == url_text(all.take(i as int)),
        decreases bytes@.len() - i,
    {
        let b: u8 = bytes[i];
        let ghost before = out@;
        proof {
            assert(all.take(i + 1).drop_last() =~= all.take(i as int));
            assert(all.take(i + 1).last() == b);
        }
        if (65 <= b && b <= 90) || (97 <= b && b <= 122) || (48 <= b && b <= 57) || b == 45 || b == 95 || b == 46
            || b == 126 {
            push_char(&mut out, b as char);
        } else {
            push_char(&mut out, '%');
            push_char(&mut out, upper_digit_char(b / 16));
            push_char(&mut out, upper_digit_char(b % 16));
        }
        proof {
            assert(out@ =~= before + url_byte(b));
        }
        i += 1;
    }
    proof {
        assert(all.take(all.len() as int) =~= all);
    }
    out
}

/// A text as it stands in a URL holds unreserved characters and percent signs
/// only.
pub proof fn law_url_text_is_plain(bytes: Seq<u8>)
    ensures
        forall|i: int|
            0 <= i < url_text(bytes).len() ==> url_text(bytes)[i] == '%' || unreserved(
                #[trigger] url_text(bytes)[i] as u8,
            ),
    decreases bytes.len(),
{
    if bytes.len() > 0 {
        law_url_text_is_plain(bytes.drop_last());
        let b = bytes.last();
        let before = url_text(bytes.drop_last());
        let last = url_byte(b);
        assert(b / 16 < 16 && b % 16 < 16);
        assert forall|i: int| 0 <= i < last.len() implies last[i] == '%' || unreserved(#[trigger] last[i] as u8) by {
        }
        let t = url_text(bytes);
        assert forall|i: int| 0 <= i < t.len() implies t[i] == '%' || unreserved(#[trigger] t[i] as u8) by {
            if i < before.len() {
                assert(t[i] == before[i]);
            } else {
                assert(t[i] == last[i - before.len()]);
            }
        }
    }
}

/// The logins that were started and not finished: the proof key of each.
pub struct Flows {
    verifiers: StringHashMap<String>,
}

impl View for Flows {
    type V = Map<Seq<char>, Seq<char>>;

    closed spec fn view(&self) -> Map<Seq<char>, Seq<char>> {
        self.verifiers@.map_values(|s: String| s@)
    }
}

impl Flows {
    /// No logins.
    pub fn new() -> (r: Flows)
        ensures
            r@ == Map::<Seq<char>, Seq<char>>::empty(),
    {
        let r = Flows { verifiers: StringHashMap::new() };
        proof {
            assert(r@ =~= Map::empty());
        }
        r
    }

    /// Starts a login.
    pub fn insert(&mut self, state: String, verifier: String)
        ensures
            final(self)@ == old(self)@.insert(state@, verifier@),
    {
        let ghost before = self@;
        self.verifiers.insert(state, verifier);
        proof {
            assert(self@ =~= before.insert(state@, verifier@));
        }
    }

    /// Takes a login out: its proof key, if there is such a login.
    pub fn take(&mut self, state: &str) -> (r: Option<String>)
        ensures
            opt_text(r) == (if old(self)@.contains_key(state@) {
                Some(old(self)@[state@])
            } else {
                None
            }),
            final(self)@ == old(self)@.remove(state@),
    {
        let ghost before = self@;
        let r = match self.verifiers.get(state) {
            Some(s) => Some(s.clone()),
            None => None,
        };
        self.verifiers.remove(state);
        proof {
            assert(self@ =~= before.remove(state@));
        }
        r
    }
}

/// The URL at the identity provider where a login starts.
pub open spec fn login_url_of(cfg: Config, state: Seq<char>, verifier: Seq<char>) -> Seq<char> {
    cfg.oidc_issuer@ + "/authorize?client_id="@ + cfg.oidc_client_id@ + "&redirect_uri="@ + url_text(
        encode_utf8(redirect_uri_of(cfg)),
    ) + "&response_type=code&scope=openid+email&state="@ + state + "&code_challenge="@ + challenge_of(
        verifier,
    ) + "&code_challenge_method=S256"@
}

/// Starts a login with a state and a proof key: the URL to go to.
pub fn start_login(cfg: &Config, flows: &mut Flows, state: String, verifier: String) -> (r: String)
    ensures
        r@ == login_url_of(*cfg, state@, verifier@),
        final(flows)@ == old(flows)@.insert(state@, verifier@),
{
    let mut out = cfg.oidc_issuer.clone();
    out.append("/authorize?client_id=");
    out.append(cfg.oidc_client_id.as_str());
    out.append("&redirect_uri=");
    out.append(urlenc(oidc_redirect_uri(cfg).as_str()).as_str());
    out.append("&response_type=code&scope=openid+email&state=");
    out.append(state.as_str());
    out.append("&code_challenge=");
    out.append(challenge_for(verifier.as_str()).as_str());
    out.append("&code_challenge_method=S256");
    flows.insert(state, verifier);
    out
}

/// Whether a URL starts a login with some state and proof key of random bytes,
/// which are kept with the other logins.
pub open spec fn starts_login(
    cfg: Config,
    before: Map<Seq<char>, Seq<char>>,
    after: Map<Seq<char>, Seq<char>>,
    url: Seq<char>,
    state: Seq<u8>,
    verifier: Seq<u8>,
) -> bool {
    &&& state.len() == STATE_LENGTH
    &&& verifier.len() == VERIFIER_LENGTH
    &&& url == login_url_of(cfg, hex_text(state), hex_text(verifier))
    &&& after == before.insert(hex_text(state), hex_text(verifier))
}

/// Starts a login with a random state and proof key: the URL to go to.
pub fn oidc_login_url(cfg: &Config, flows: &mut Flows) -> (r: String)
    ensures
        exists|state: Seq<u8>, verifier: Seq<u8>| #[trigger]
            starts_login(*cfg, old(flows)@, final(flows)@, r@, state, verifier),
{
    let state = generate_random_hex(STATE_LENGTH);
    let (verifier, _) = generate_pkce();
    let ghost s = choose|bytes: Seq<u8>| bytes.len() == STATE_LENGTH && state@ == #[trigger] hex_text(bytes);
    let ghost v = choose|bytes: Seq<u8>|
        bytes.len() == VERIFIER_LENGTH && verifier@ == #[trigger] hex_text(bytes);
    let url = start_login(cfg, flows, state, verifier);
    proof {
        assert(starts_login(*cfg, old(flows)@, flows@, url@, s, v));
    }
    url
}

/// Answers a request to log in: to the identity provider, or that there is
/// none.
pub fn oidc_login(cfg: &Config, flows: &mut Flows) -> (r: Reply)
    ensures
        cfg.oidc_client_id@.len() == 0 ==> r@ == ReplyTree::Text(503, "OIDC not configured"@)
            && final(flows)@ == old(flows)@,
        cfg.oidc_client_id@.len() > 0 ==> exists|url: Seq<char>, state: Seq<u8>, verifier: Seq<u8>|
            #![trigger starts_login(*cfg, old(flows)@, final(flows)@, url, state, verifier)]
            r@ == ReplyTree::Redirect(307, url, seq![]) && starts_login(
                *cfg,
                old(flows)@,
                final(flows)@,
                url,
                state,
                verifier,
            ),
{
    if !oidc_enabled(cfg) {
        return Reply::Text(503, "OIDC not configured".to_owned());
    }
    let url = oidc_login_url(cfg, flows);
    let none: Vec<String> = Vec::new();
    proof {
        assert(texts(none@) =~= seq![]);
    }
    let ghost place = url@;
    let r = Reply::Redirect(307, url, none);
    proof {
        let (s, v) = choose|s: Seq<u8>, v: Seq<u8>| #[trigger]
            starts_login(*cfg, old(flows)@, flows@, place, s, v);
        assert(starts_login(*cfg, old(flows)@, flows@, place, s, v));
    }
    r
}

// ---------------------------------------------------------------------------
// Coming back
// ---------------------------------------------------------------------------

/// What the identity provider sends a user back with.
#[derive(Debug, PartialEq, Eq)]
pub struct OidcCallbackQuery {
    pub code: Option<String>,
    pub state: Option<String>,
    pub error: Option<String>,
    pub error_description: Option<String>,
}

/// A request for tokens: where it goes, and the fields of its form.
#[derive(Debug, PartialEq, Eq)]
pub struct TokenRequest {
    pub url: String,
    pub code: String,
    pub redirect_uri: String,
    pub client_id: String,
    pub client_secret: String,
    pub code_verifier: String,
}

/// What to do when a user comes back.
#[derive(Debug, PartialEq, Eq)]
pub enum Callback {
    /// Answer at once.
    Answer(Reply),
    /// Ask the identity provider for tokens.
    Ask(TokenRequest),
}

/// Why a user who comes back is answered at once.
pub open spec fn refusal_of(q: OidcCallbackQuery, flows: Map<Seq<char>, Seq<char>>) -> Option<ReplyTree> {
    if q.error is Some {
        Some(
            ReplyTree::Text(
                401,
                "Login failed: "@ + (match q.error_description {
                    Some(d) => d@,
                    None => "Unknown error"@,
                }),
            ),
        )
    } else if q.code is None {
        Some(ReplyTree::Text(400, "Missing authorization code"@))
    } else {
        match q.state {
            None => Some(ReplyTree::Text(400, "Missing state parameter"@)),
            Some(s) => if flows.contains_key(s@) {
                None
            } else {
                Some(ReplyTree::Text(400, "Invalid or expired state"@))
            },
        }
    }
}

/// The logins that are left when a user came back: the login is over, whatever
/// comes of it.
pub open spec fn flows_after(q: OidcCallbackQuery, flows: Map<Seq<char>, Seq<char>>) -> Map<Seq<char>, Seq<char>> {
    match q.state {
        Some(s) => if q.error is None && q.code is Some {
            flows.remove(s@)
        } else {
            flows
        },
        None => flows,
    }
}

/// Decides what to do when a user comes back.
pub fn oidc_callback(q: &OidcCallbackQuery, cfg: &Config, flows: &mut Flows) -> (r: Callback)
    ensures
        final(flows)@ == flows_after(*q, old(flows)@),
        match r {
            Callback::Answer(reply) => refusal_of(*q, old(flows)@) == Some(reply@),
            Callback::Ask(t) => {
                &&& refusal_of(*q, old(flows)@) is None
                &&& t.url@ == cfg.oidc_issuer@ + "/token"@
                &&& q.code matches Some(code) && t.code@ == code@
                &&& t.redirect_uri@ == redirect_uri_of(*cfg)
                &&& t.client_id@ == cfg.oidc_client_id@
                &&& t.client_secret@ == cfg.oidc_client_secret@
                &&& q.state matches Some(state) && t.code_verifier@ == old(flows)@[state@]
            },
        },
{
    if q.error.is_some() {
        let mut text = "Login failed: ".to_owned();
        match &q.error_description {
            Some(d) => text.append(d.as_str()),
            None => text.append("Unknown error"),
        }
        return Callback::Answer(Reply::Text(401, text));
    }
    let code = match &q.code {
        Some(c) => c.clone(),
        None => return Callback::Answer(Reply::Text(400, "Missing authorization code".to_owned())),
    };
    let state = match &q.state {
        Some(s) => s,
        None => return Callback::Answer(Reply::Text(400, "Missing state parameter".to_owned())),
    };
    let verifier = match flows.take(state.as_str()) {
        Some(v) => v,
        None => return Callback::Answer(Reply::Text(400, "Invalid or expired state".to_owned())),
    };
    let mut url = cfg.oidc_issuer.clone();
    url.append("/token");
    Callback::Ask(
        TokenRequest {
            url,
            code,
            redirect_uri: oidc_redirect_uri(cfg),
            client_id: cfg.oidc_client_id.clone(),
            client_secret: cfg.oidc_client_secret.clone(),
            code_verifier: verifier,
        },
    )
}

/// What came of a request for tokens.
#[derive(Debug, PartialEq, Eq)]
pub enum TokenOutcome {
    /// The identity provider could not be reached.
    Unreachable,
    /// It refused.
    Refused,
    /// Its answer could not be read.
    Unreadable,
    /// It answered.
    Tokens(Json),
}

/// The address in claims.
pub open spec fn email_in_claims(claims: Tree) -> Option<Seq<char>> {
    match claims.at("email"@) {
        Tree::Text(t) => Some(t),
        _ => None,
    }
}

/// The address in the claims of a token.
pub open spec fn email_in_token(token: Seq<char>) -> Option<Seq<char>> {
    let parts = split_at(token, '.');
    if parts.len() != 3 {
        None
    } else {
        match base64_url_bytes(parts[1]) {
            Ok(bytes) => match json_read(bytes) {
                Some(claims) => email_in_claims(claims),
                None => None,
            },
            Err(_) => None,
        }
    }
}

/// The address that tokens vouch for.
pub open spec fn token_email(tokens: Tree) -> Option<Seq<char>> {
    match tokens.at("id_token"@) {
        Tree::Text(t) => email_in_token(t),
        _ => None,
    }
}

/// Finds the address that tokens vouch for.
pub fn extract_email_from_id_token(token_response: &Json) -> (r: Option<String>)
    ensures
        opt_text(r) == token_email(token_response@),
{
    let token = match token_response.opt_text_at("id_token") {
        Some(t) => t,
        None => return None,
    };
    let parts = split_on(token.as_str(), '.');
    proof {
        assert(texts(parts@).len() == parts@.len());
    }
    if parts.len() != 3 {
        return None;
    }
    proof {
        assert(texts(parts@)[1] == parts@[1]@);
    }
    let bytes = match base64_url_decode(parts[1].as_str()) {
        Ok(bytes) => bytes,
        Err(_) => return None,
    };
    let claims = match json_parse(bytes.as_slice()) {
        Some(claims) => claims,
        None => return None,
    };
    match json_member(&claims, "email") {
        Some(email) => json_text(email),
        None => None,
    }
}

/// The answer to a user who comes back, given what came of the request for
/// tokens, and the identifier of the session that starts if it succeeded.
pub open spec fn finish_of(outcome: TokenOutcome, id: Seq<char>) -> ReplyTree {
    match outcome {
        TokenOutcome::Unreachable => ReplyTree::Text(502, "Failed to contact IDP"@),
        TokenOutcome::Refused => ReplyTree::Text(401, "Token exchange failed"@),
        TokenOutcome::Unreadable => ReplyTree::Text(502, "Invalid token response"@),
        TokenOutcome::Tokens(_) => ReplyTree::Redirect(
            303,
            "/"@,
            seq![set_cookie_of(SESSION_COOKIE@, id, "/"@)],
        ),
    }
}

/// The address of the user of a session, where the tokens vouch for one.
pub open spec fn known_email(email: Option<Seq<char>>) -> Seq<char> {
    match email {
        Some(e) => e,
        None => "unknown"@,
    }
}

/// The sessions after a user came back.
pub open spec fn sessions_after(
    outcome: TokenOutcome,
    id: Seq<char>,
    sessions: Map<Seq<char>, Seq<char>>,
) -> Map<Seq<char>, Seq<char>> {
    match outcome {
        TokenOutcome::Tokens(tokens) => sessions.insert(id, known_email(token_email(tokens@))),
        _ => sessions,
    }
}

/// Starts a session for the address that tokens vouch for, if they do.
pub fn start_session(sessions: &mut Sessions, id: String, email: Option<String>) -> (r: Reply)
    ensures
        r@ == ReplyTree::Redirect(303, "/"@, seq![set_cookie_of(SESSION_COOKIE@, id@, "/"@)]),
        final(sessions)@ == old(sessions)@.insert(id@, known_email(opt_text(email))),
{
    let user = match email {
        Some(e) => e,
        None => "unknown".to_owned(),
    };
    let cookie = set_cookie_header(SESSION_COOKIE, id.as_str(), "/");
    sessions.insert(id, user);
    redirect_with_cookie("/", cookie)
}

/// Finishes a login with an identifier for the session.
pub fn finish_login(outcome: &TokenOutcome, sessions: &mut Sessions, id: String) -> (r: Reply)
    ensures
        r@ == finish_of(*outcome, id@),
        final(sessions)@ == sessions_after(*outcome, id@, old(sessions)@),
{
    match outcome {
        TokenOutcome::Unreachable => Reply::Text(502, "Failed to contact IDP".to_owned()),
        TokenOutcome::Refused => Reply::Text(401, "Token exchange failed".to_owned()),
        TokenOutcome::Unreadable => Reply::Text(502, "Invalid token response".to_owned()),
        TokenOutcome::Tokens(tokens) => start_session(sessions, id, extract_email_from_id_token(tokens)),
    }
}

/// Whether a login was finished with an identifier of random bytes.
pub open spec fn finished_with(
    outcome: TokenOutcome,
    before: Map<Seq<char>, Seq<char>>,
    after: Map<Seq<char>, Seq<char>>,
    reply: ReplyTree,
    id: Seq<u8>,
) -> bool {
    &&& id.len() == SESSION_LENGTH
    &&& reply == finish_of(outcome, hex_text(id))
    &&& after == sessions_after(outcome, hex_text(id), before)
}

/// Finishes a login with a random identifier for the session.
pub fn oidc_callback_finish(outcome: &TokenOutcome, sessions: &mut Sessions) -> (r: Reply)
    ensures
        exists|id: Seq<u8>| #[trigger] finished_with(*outcome, old(sessions)@, final(sessions)@, r@, id),
{
    let id = generate_random_hex(SESSION_LENGTH);
    let ghost bytes = choose|bytes: Seq<u8>| bytes.len() == SESSION_LENGTH && id@ == #[trigger] hex_text(bytes);
    let r = finish_login(outcome, sessions, id);
    proof {
        assert(finished_with(*outcome, old(sessions)@, sessions@, r@, bytes));
    }
    r
}

/// The answer to the question who is logged in.
pub open spec fn auth_check_of(
    cookies: Map<Seq<char>, Seq<char>>,
    cfg: Config,
    sessions: Map<Seq<char>, Seq<char>>,
) -> Tree {
    let session = cookie_at(cookies, SESSION_COOKIE@);
    match session_email_of(session, sessions) {
        Some(email) => Tree::object().with("authenticated"@, Tree::Bool(true)).with(
            "user"@,
            Tree::Text(email),
        ).with("method"@, Tree::Text("oidc"@)),
        None => {
            let admin = is_password_session(session, cfg.admin_user@, cfg.admin_password@);
            Tree::object().with("authenticated"@, Tree::Bool(admin)).with(
                "mailbox"@,
                text_or_null(mailbox_of(cookie_at(cookies, MAILBOX_SESSION_COOKIE@), cfg.admin_password@)),
            ).with(
                "user"@,
                Tree::Text(
                    if admin {
                        cfg.admin_user@
                    } else {
                        Seq::empty()
                    },
                ),
            ).with(
                "method"@,
                Tree::Text(
                    if admin {
                        "password"@
                    } else {
                        "none"@
                    },
                ),
            )
        },
    }
}

/// A text as a JSON value; null where there is none.
pub open spec fn text_or_null(s: Option<Seq<char>>) -> Tree {
    match s {
        Some(t) => Tree::Text(t),
        None => Tree::Null,
    }
}

/// A text as a JSON value; null where there is none.
pub fn json_text_or_null(s: Option<String>) -> (r: Json)
    ensures
        r@ == text_or_null(opt_text(s)),
{
    match s {
        Some(t) => Json::Text(t),
        None => Json::Null,
    }
}

/// Answers who is logged in.
pub fn auth_check_response(cookies: &Cookies, cfg: &Config, sessions: &Sessions) -> (r: Json)
    ensures
        r@ == auth_check_of(cookies@, *cfg, sessions@),
{
    let session = cookies.value(SESSION_COOKIE);
    if let Some(email) = oidc_session_email(session.as_str(), sessions) {
        return Json::object()
            .with("authenticated", Json::Bool(true))
            .with("user", Json::text(email.as_str()))
            .with("method", Json::text("oidc"));
    }
    let admin = is_legacy_authenticated(
        session.as_str(),
        cfg.admin_user.as_str(),
        cfg.admin_password.as_str(),
    );
    let mailbox = mailbox_from_session(
        cookies.value(MAILBOX_SESSION_COOKIE).as_str(),
        cfg.admin_password.as_str(),
    );
    let user = if admin {
        cfg.admin_user.clone()
    } else {
        String::new()
    };
    let method = if admin {
        "password"
    } else {
        "none"
    };
    Json::object()
        .with("authenticated", Json::Bool(admin))
        .with("mailbox", json_text_or_null(mailbox))
        .with("user", Json::text(user.as_str()))
        .with("method", Json::text(method))
}

/// A login that was started is over when its user comes back: the same state
/// is not accepted twice.
pub proof fn law_state_is_used_once(q: OidcCallbackQuery, flows: Map<Seq<char>, Seq<char>>)
    ensures
        refusal_of(q, flows_after(q, flows)) is Some,
{
}

/// A user who comes back from a login with a code and its state is not refused,
/// and the proof key that goes with the request for tokens is the one whose
/// challenge the login started with.
pub proof fn law_login_comes_back(
    q: OidcCallbackQuery,
    flows: Map<Seq<char>, Seq<char>>,
    state: Seq<char>,
    verifier: Seq<char>,
)
    requires
        q.error is None,
        q.code is Some,
        opt_text(q.state) == Some(state),
    ensures
        refusal_of(q, flows.insert(state, verifier)) is None,
        flows.insert(state, verifier)[q.state->0@] == verifier,
{
}

/// A session that a login started is one of the administrator, and belongs to
/// the address that the tokens vouch for.
pub proof fn law_login_starts_session(
    tokens: Json,
    id: Seq<char>,
    sessions: Map<Seq<char>, Seq<char>>,
    cfg: Config,
)
    requires
        id.len() > 0,
    ensures
        ({
            let after = sessions_after(TokenOutcome::Tokens(tokens), id, sessions);
            &&& crate::auth::is_admin_session(id, cfg.admin_user@, cfg.admin_password@, after)
            &&& session_email_of(id, after) == Some(known_email(token_email(tokens@)))
        }),
{
}

} // verus!
