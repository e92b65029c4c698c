//! What requests lead to, whoever asks, and what sessions are made of.
use crate::auth::{
    are_valid, clear_cookie_of, cookie_at, cookies_in, cookies_of, digest_of, is_admin_session,
    is_password_session, mailbox_of, mailbox_session_of, session_email_of, session_of, set_cookie_of,
};
use crate::config::{redirect_uri_of, Config};
use crate::json::{Json, Tree};
use crate::limit::{counted, recent};
use crate::oidc::{
    auth_check_of, challenge_of, email_in_token, finish_of, flows_after, login_url_of, refusal_of, sessions_after,
    token_email, url_byte, url_text, OidcCallbackQuery, TokenOutcome,
};
use crate::outside::{base64_url_bytes, base64_url_text, hex_text, json_read, sha256_digest};
use crate::reply::{command_reply_of, error_of, ReplyTree};
use crate::routes::{
    admin_command, cookie_mailbox, decided, is_admin_of, mailbox_email_of, next_of, payload_of, resolved_of,
    webmail_allowed_of, webmail_command, webmail_get_of, webmail_post_of, welcome_of, ActionBody, CommandTree,
    DecisionTree, WebmailPostBody, WebmailQuery,
};
use crate::text::{among, lemma_pieces_join, lemma_pieces_whole, opt_text, pieces, split_at, text_or, trimmed};
use vstd::prelude::*;
use vstd::utf8::encode_utf8;

verus! {

// ---------------------------------------------------------------------------
// Commands
// ---------------------------------------------------------------------------

proof fn lemma_admin_actions()
    ensures
        "add-user"@ != "set-password"@,
        "add-user"@ != "add-alias"@,
        "set-password"@ != "add-alias"@,
        "add-user"@ != "anti-spam-config"@,
        "add-user"@ != "anti-spam-scan"@,
        "add-user"@ != "domain-add"@,
        "add-user"@ != "domain-check"@,
        "add-user"@ != "domain-remove"@,
        "set-password"@ != "anti-spam-config"@,
        "set-password"@ != "anti-spam-scan"@,
        "set-password"@ != "domain-add"@,
        "set-password"@ != "domain-check"@,
        "set-password"@ != "domain-remove"@,
        "add-alias"@ != "anti-spam-config"@,
        "add-alias"@ != "anti-spam-scan"@,
        "add-alias"@ != "domain-add"@,
        "add-alias"@ != "domain-check"@,
        "add-alias"@ != "domain-remove"@,
        "anti-spam-config"@ != "anti-spam-scan"@,
        "anti-spam-config"@ != "domain-add"@,
        "anti-spam-config"@ != "domain-check"@,
        "anti-spam-config"@ != "domain-remove"@,
        "anti-spam-scan"@ != "domain-add"@,
        "anti-spam-scan"@ != "domain-check"@,
        "anti-spam-scan"@ != "domain-remove"@,
        "domain-add"@ != "domain-check"@,
        "domain-add"@ != "domain-remove"@,
        "domain-check"@ != "domain-remove"@,
{
    reveal_strlit("add-user");
    reveal_strlit("set-password");
    reveal_strlit("add-alias");
    reveal_strlit("anti-spam-config");
    reveal_strlit("anti-spam-scan");
    reveal_strlit("domain-add");
    reveal_strlit("domain-check");
    reveal_strlit("domain-remove");
    assert("add-user"@.len() == 8);
    assert("set-password"@.len() == 12 && "set-password"@[0] == 's');
    assert("add-alias"@.len() == 9);
    assert("anti-spam-config"@.len() == 16);
    assert("anti-spam-scan"@.len() == 14);
    assert("domain-add"@.len() == 10);
    assert("domain-check"@.len() == 12 && "domain-check"@[0] == 'd');
    assert("domain-remove"@.len() == 13);
}

/// An administrator has done what they ask for, with the mailbox, alias, target,
/// domain or policy that they name; asking for anything else is answered with an
/// error.
pub proof fn law_administrator_is_obeyed(body: ActionBody)
    ensures
        body.action@ == "add-user"@ ==> admin_command(body) == Some(CommandTree::AddUser(text_or(body.email, ""@))),
        body.action@ == "set-password"@ ==> admin_command(body) == Some(
            CommandTree::SetPassword(text_or(body.email, ""@)),
        ),
        body.action@ == "add-alias"@ ==> admin_command(body) == Some(
            CommandTree::AddAlias(text_or(body.alias, ""@), text_or(body.target, ""@)),
        ),
        body.action@ == "anti-spam-config"@ ==> admin_command(body) == Some(
            CommandTree::AntiSpamConfig(payload_of(body.policy)),
        ),
        body.action@ == "anti-spam-scan"@ ==> admin_command(body) == Some(
            CommandTree::AntiSpamScan(opt_text(body.email)),
        ),
        body.action@ == "domain-add"@ ==> admin_command(body) == Some(
            CommandTree::DomainAdd(text_or(body.domain, ""@)),
        ),
        body.action@ == "domain-check"@ ==> admin_command(body) == Some(
            CommandTree::DomainCheck(text_or(body.domain, ""@)),
        ),
        body.action@ == "domain-remove"@ ==> admin_command(body) == Some(
            CommandTree::DomainRemove(text_or(body.domain, ""@)),
        ),
        body.action@ != "add-user"@ && body.action@ != "set-password"@ && body.action@ != "add-alias"@
            && body.action@ != "anti-spam-config"@ && body.action@ != "anti-spam-scan"@ && body.action@
            != "domain-add"@ && body.action@ != "domain-check"@ && body.action@ != "domain-remove"@ ==> decided(
            admin_command(body),
        ) == DecisionTree::Answer(error_of(400, "unknown action"@)),
        admin_command(body) matches Some(c) ==> decided(admin_command(body)) == DecisionTree::Perform(c),
{
    lemma_admin_actions();
}

proof fn lemma_webmail_actions()
    ensures
        "read"@ != "send"@,
        "read"@ != "draft"@,
        "read"@ != "message"@,
        "read"@ != "config"@,
        "read"@ != "apply-rules"@,
        "read"@ != "export"@,
        "read"@ != "import"@,
        "read"@ != "attachment"@,
        "send"@ != "draft"@,
        "send"@ != "message"@,
        "send"@ != "config"@,
        "send"@ != "apply-rules"@,
        "send"@ != "export"@,
        "send"@ != "import"@,
        "send"@ != "attachment"@,
        "draft"@ != "message"@,
        "draft"@ != "config"@,
        "draft"@ != "apply-rules"@,
        "draft"@ != "export"@,
        "draft"@ != "import"@,
        "draft"@ != "attachment"@,
        "message"@ != "config"@,
        "message"@ != "apply-rules"@,
        "message"@ != "export"@,
        "message"@ != "import"@,
        "message"@ != "attachment"@,
        "config"@ != "apply-rules"@,
        "config"@ != "export"@,
        "config"@ != "import"@,
        "config"@ != "attachment"@,
        "apply-rules"@ != "export"@,
        "apply-rules"@ != "import"@,
        "apply-rules"@ != "attachment"@,
        "export"@ != "import"@,
        "export"@ != "attachment"@,
        "import"@ != "attachment"@,
{
    reveal_strlit("read");
    reveal_strlit("send");
    reveal_strlit("draft");
    reveal_strlit("message");
    reveal_strlit("config");
    reveal_strlit("apply-rules");
    reveal_strlit("export");
    reveal_strlit("import");
    reveal_strlit("attachment");
    assert("read"@.len() == 4 && "read"@[0] == 'r');
    assert("send"@.len() == 4 && "send"@[0] == 's');
    assert("draft"@.len() == 5);
    assert("message"@.len() == 7);
    assert("config"@.len() == 6 && "config"@[0] == 'c');
    assert("apply-rules"@.len() == 11);
    assert("export"@.len() == 6 && "export"@[0] == 'e');
    assert("import"@.len() == 6 && "import"@[0] == 'i');
    assert("attachment"@.len() == 10);
}

/// A user of webmail has done what they ask for in their mailbox, with the
/// message, draft, setting, folder or place that they name; asking for anything
/// else is answered with an error.
pub proof fn law_webmail_user_is_obeyed(email: Seq<char>, body: WebmailPostBody)
    ensures
        body.action@ == "read"@ ==> webmail_command(email, body) == Some(
            CommandTree::WebmailRead(email, text_or(body.id, ""@)),
        ),
        body.action@ == "send"@ ==> webmail_command(email, body) == Some(
            CommandTree::WebmailSend(email, payload_of(body.message)),
        ),
        body.action@ == "draft"@ ==> webmail_command(email, body) == Some(
            CommandTree::WebmailDraft(email, payload_of(body.message)),
        ),
        body.action@ == "message"@ ==> webmail_command(email, body) == Some(
            CommandTree::WebmailAction(
                email,
                text_or(body.id, ""@),
                text_or(body.message_action, ""@),
                text_or(body.target, "Archive"@),
            ),
        ),
        body.action@ == "config"@ ==> webmail_command(email, body) == Some(
            CommandTree::WebmailConfig(email, text_or(body.kind, ""@), payload_of(body.value)),
        ),
        body.action@ == "apply-rules"@ ==> webmail_command(email, body) == Some(
            CommandTree::WebmailApplyRules(email, text_or(body.folder, "Inbox"@)),
        ),
        body.action@ == "export"@ ==> webmail_command(email, body) == Some(CommandTree::WebmailExport(email)),
        body.action@ == "import"@ ==> webmail_command(email, body) == Some(
            CommandTree::WebmailImport(email, payload_of(body.value)),
        ),
        body.action@ == "attachment"@ ==> webmail_command(email, body) == Some(
            CommandTree::WebmailAttachment(email, text_or(body.id, ""@), text_or(body.index, ""@)),
        ),
        body.action@ != "read"@ && body.action@ != "send"@ && body.action@ != "draft"@ && body.action@
            != "message"@ && body.action@ != "config"@ && body.action@ != "apply-rules"@ && body.action@
            != "export"@ && body.action@ != "import"@ && body.action@ != "attachment"@ ==> decided(
            webmail_command(email, body),
        ) == DecisionTree::Answer(error_of(400, "unknown action"@)),
{
    lemma_webmail_actions();
}

/// What a request holds is handed on as it is; where it holds nothing, an empty
/// object is.
pub proof fn law_payload_is_handed_on(value: Json, text: String, default: Seq<char>)
    ensures
        payload_of(Some(value)) == value@,
        payload_of(None) == Tree::Object(Map::empty()),
        text_or(Some(text), default) == text@,
        text_or(None, default) == default,
{
}

// ---------------------------------------------------------------------------
// Who asks
// ---------------------------------------------------------------------------

/// The administrator sees the mailbox that they name, and has to name one;
/// everyone else sees the mailbox of their session, whatever they name.
pub proof fn law_mailbox_is_the_one_asked_for(
    cookies: Map<Seq<char>, Seq<char>>,
    cfg: Config,
    sessions: Map<Seq<char>, Seq<char>>,
    requested: Option<Seq<char>>,
)
    ensures
        ({
            let admin = is_admin_session(
                cookie_at(cookies, "akurai_session"@),
                cfg.admin_user@,
                cfg.admin_password@,
                sessions,
            );
            let own = mailbox_of(cookie_at(cookies, "akurai_mailbox_session"@), cfg.admin_password@);
            &&& admin && requested is Some && requested->0.len() > 0 ==> resolved_of(
                cookies,
                cfg,
                sessions,
                requested,
            ) == requested
            &&& admin && (requested is None || requested->0.len() == 0) ==> resolved_of(
                cookies,
                cfg,
                sessions,
                requested,
            ) is None
            &&& !admin ==> resolved_of(cookies, cfg, sessions, requested) == own
            &&& webmail_allowed_of(cookies, cfg, sessions) == (admin || own is Some)
            &&& is_admin_of(cookies, cfg, sessions) == admin
            &&& cookie_mailbox(cookies, cfg) == own
            &&& admin ==> mailbox_email_of(cookies, cfg, sessions) is None
            &&& !admin ==> mailbox_email_of(cookies, cfg, sessions) == own
        }),
{
}

/// A request to see a folder leads to that folder of the mailbox, with what is
/// looked for: the inbox and everything where nothing is named. Without a
/// mailbox it is refused.
pub proof fn law_folder_is_the_one_asked_for(
    cookies: Map<Seq<char>, Seq<char>>,
    cfg: Config,
    sessions: Map<Seq<char>, Seq<char>>,
    q: WebmailQuery,
)
    ensures
        match resolved_of(cookies, cfg, sessions, opt_text(q.email)) {
            Some(email) => webmail_get_of(cookies, cfg, sessions, q) == DecisionTree::Perform(
                CommandTree::WebmailState(
                    email,
                    match q.folder {
                        Some(f) => f@,
                        None => "Inbox"@,
                    },
                    match q.query {
                        Some(s) => s@,
                        None => ""@,
                    },
                ),
            ),
            None => webmail_get_of(cookies, cfg, sessions, q) == DecisionTree::Answer(
                error_of(400, "email is required"@),
            ),
        },
{
}

/// A time is counted for a minute; a time that lies ahead is counted too.
pub proof fn law_requests_are_counted_for_a_minute(now: u64, time: u64, times: Seq<u64>)
    ensures
        recent(now)(time) == (time > now || now - time < 60_000_000_000),
        counted(times, now).last() == now,
        counted(times, now).drop_last() == times.filter(
            |t: u64| t > now || now - t < 60_000_000_000,
        ),
{
    let kind = |t: u64| t > now || now - t < 60_000_000_000;
    assert(recent(now) =~= kind);
    assert(counted(times, now).drop_last() =~= times.filter(recent(now)));
}

/// Of the requests of users of webmail, ninety are served in a minute, the last
/// one included; more are refused, whatever they ask for. Those that are served
/// and come from a mailbox lead to what they ask for.
pub proof fn law_ninety_requests_are_served(
    cookies: Map<Seq<char>, Seq<char>>,
    cfg: Config,
    sessions: Map<Seq<char>, Seq<char>>,
    body: WebmailPostBody,
    times: Seq<u64>,
    now: u64,
)
    ensures
        counted(times, now).len() > 90 ==> webmail_post_of(cookies, cfg, sessions, body, times, now)
            == DecisionTree::Answer(error_of(429, "rate limit exceeded"@)),
        counted(times, now).len() <= 90 ==> match resolved_of(cookies, cfg, sessions, opt_text(body.email)) {
            Some(email) => webmail_post_of(cookies, cfg, sessions, body, times, now) == decided(
                webmail_command(email, body),
            ),
            None => webmail_post_of(cookies, cfg, sessions, body, times, now) == DecisionTree::Answer(
                error_of(400, "email is required"@),
            ),
        },
{
}

/// An error is answered with its status, and says that the request failed and
/// why; a command that gave a value is answered with it, and one that failed
/// with its reason.
pub proof fn law_errors_say_why(status: u16, message: Seq<char>, value: Tree)
    ensures
        error_of(status, message) matches ReplyTree::Data(s, body, cookies) && s == status && body.at("ok"@)
            == Tree::Bool(false) && body.at("error"@) == Tree::Text(message) && cookies.len() == 0,
        command_reply_of(Ok(value)) == ReplyTree::Data(200, value, Seq::empty()),
        command_reply_of(Err(message)) == error_of(500, message),
{
    reveal_strlit("ok");
    reveal_strlit("error");
    assert("ok"@.len() != "error"@.len());
    assert(seq![] =~= Seq::<Seq<char>>::empty());
}

// ---------------------------------------------------------------------------
// Sessions
// ---------------------------------------------------------------------------

/// After a login one goes on to the place that was asked for, if it lies where
/// the login leads, and else to where the login leads; the answer sets the
/// cookie.
pub proof fn law_login_goes_on(place: Seq<char>, rest: Seq<char>, next: Seq<char>, cookie: Seq<char>)
    ensures
        next_of(place + rest, place) == place + rest,
        !place.is_prefix_of(next) ==> next_of(next, place) == place,
        welcome_of(next, cookie) matches ReplyTree::Data(status, body, cookies) && status == 200 && body.at("ok"@)
            == Tree::Bool(true) && body.at("next"@) == Tree::Text(next) && cookies == seq![cookie],
{
    assert(place.is_prefix_of(place + rest)) by {
        assert((place + rest).subrange(0, place.len() as int) =~= place);
    }
    reveal_strlit("ok");
    reveal_strlit("next");
    assert("ok"@.len() != "next"@.len());
}

/// The cookie of a session holds its value under its name for ten hours, and is
/// kept from scripts, from other sites and from plain connections; taking it
/// back empties it at once.
pub proof fn law_session_cookies_are_kept_safe(name: Seq<char>, value: Seq<char>, path: Seq<char>)
    ensures
        set_cookie_of(name, value, path) == name + "="@ + value + "; Path="@ + path
            + "; HttpOnly; SameSite=Lax; Secure; Max-Age="@ + crate::text::decimal(36000),
        clear_cookie_of(name, path) == name + "=; Path="@ + path
            + "; HttpOnly; SameSite=Lax; Secure; Max-Age=0"@,
{
}

/// A cookie is a session of the administrator exactly if there is a password and
/// it is the digest of name and password, or if the identity provider vouched
/// for it.
pub proof fn law_session_is_a_digest(
    cookie: Seq<char>,
    user: Seq<char>,
    password: Seq<char>,
    sessions: Map<Seq<char>, Seq<char>>,
)
    requires
        cookie.len() > 0,
    ensures
        is_admin_session(cookie, user, password, sessions) == ((password.len() > 0 && cookie == hex_text(
            sha256_digest(encode_utf8(user + seq![':'] + password)),
        )) || sessions.contains_key(cookie)),
        is_password_session(cookie, user, password) == (password.len() > 0 && cookie == hex_text(
            sha256_digest(encode_utf8(user + seq![':'] + password)),
        )),
        session_email_of(cookie, sessions) == (if sessions.contains_key(cookie) {
            Some(sessions[cookie])
        } else {
            None
        }),
{
    reveal_strlit(":");
    assert(":"@ =~= seq![':']);
}

/// Credentials are those of the administrator exactly if there is a password and
/// both digests are the same.
pub proof fn law_credentials_are_compared_whole(
    email: Seq<char>,
    password: Seq<char>,
    admin_user: Seq<char>,
    admin_password: Seq<char>,
)
    ensures
        are_valid(email, password, admin_user, admin_password) == (admin_password.len() > 0 && hex_text(
            sha256_digest(encode_utf8(email)),
        ) == hex_text(sha256_digest(encode_utf8(admin_user))) && hex_text(sha256_digest(encode_utf8(password)))
            == hex_text(sha256_digest(encode_utf8(admin_password)))),
        digest_of(email) == hex_text(sha256_digest(encode_utf8(email))),
{
}

/// The session of a mailbox is its address, a colon, and a digest that only who
/// knows the password of the administrator can make.
pub proof fn law_mailbox_session_is_a_digest(email: Seq<char>, password: Seq<char>)
    ensures
        mailbox_session_of(email, password) == email + seq![':'] + hex_text(
            sha256_digest(encode_utf8(email + seq![':'] + password + ":mailbox"@)),
        ),
        session_of(email, password) == hex_text(sha256_digest(encode_utf8(email + seq![':'] + password))),
{
    reveal_strlit(":");
    assert(":"@ =~= seq![':']);
}

proof fn lemma_cookies_add(a: Seq<Seq<char>>, b: Seq<Seq<char>>)
    ensures
        cookies_in(a + b) == cookies_in(a).union_prefer_right(cookies_in(b)),
    decreases b.len(),
{
    if b.len() == 0 {
        assert(a + b =~= a);
        assert(cookies_in(b) =~= Map::empty());
        assert(cookies_in(a + b) =~= cookies_in(a).union_prefer_right(cookies_in(b)));
    } else {
        assert((a + b).drop_last() =~= a + b.drop_last());
        assert((a + b).last() == b.last());
        lemma_cookies_add(a, b.drop_last());
        assert(cookies_in(a + b) =~= cookies_in(a).union_prefer_right(cookies_in(b)));
    }
}

/// All cookies of a header are read, with semicolons between them; of two with
/// the same name the later one counts.
pub proof fn law_all_cookies_are_read(a: Seq<char>, b: Seq<char>, name: Seq<char>)
    ensures
        cookies_of(Some(a.push(';') + b)) == cookies_of(Some(a)).union_prefer_right(cookies_of(Some(b))),
        cookies_of(None) == Map::<Seq<char>, Seq<char>>::empty(),
        cookie_at(Map::empty(), name) == Seq::<char>::empty(),
{
    let kind = among(seq![';']);
    assert(seq![';'][0] == ';');
    assert(kind(';'));
    lemma_pieces_join(a, ';', b, kind);
    lemma_cookies_add(split_at(a, ';'), split_at(b, ';'));
}

/// A cookie is read without the white space around it: its name stands before
/// the first equals sign, and its value behind it. What has no equals sign is no
/// cookie.
pub proof fn law_cookie_is_name_and_value(piece: Seq<char>, name: Seq<char>, value: Seq<char>)
    requires
        !piece.contains(';'),
        !name.contains('='),
    ensures
        trimmed(piece) == name.push('=') + value ==> cookies_of(Some(piece)) == Map::<
            Seq<char>,
            Seq<char>,
        >::empty().insert(name, value),
        !trimmed(piece).contains('=') ==> cookies_of(Some(piece)) == Map::<Seq<char>, Seq<char>>::empty(),
{
    let kind = among(seq![';']);
    assert forall|i: int| 0 <= i < piece.len() implies !kind(#[trigger] piece[i]) by {
        assert(piece.contains(piece[i]));
    }
    lemma_pieces_whole(piece, kind);
    let one = seq![piece];
    assert(split_at(piece, ';') == one);
    assert(one.drop_last() =~= Seq::<Seq<char>>::empty());
    assert(cookies_in(one.drop_last()) =~= Map::empty());
    assert(one.last() == piece);
    crate::text_laws::law_parting_at_the_first(name, '=', value);
    if !trimmed(piece).contains('=') {
        crate::text_laws::law_parting_at_the_first(trimmed(piece), '=', value);
    }
}

// ---------------------------------------------------------------------------
// The identity provider
// ---------------------------------------------------------------------------

/// A login leads to the identity provider with the client, the place to come
/// back to, the state and the challenge of the proof key.
pub proof fn law_login_leads_to_the_provider(cfg: Config, state: Seq<char>, verifier: Seq<char>)
    ensures
        login_url_of(cfg, state, verifier) == cfg.oidc_issuer@ + "/authorize?client_id="@ + cfg.oidc_client_id@
            + "&redirect_uri="@ + url_text(encode_utf8(cfg.base_url@ + "/auth/oidc/callback"@))
            + "&response_type=code&scope=openid+email&state="@ + state + "&code_challenge="@ + base64_url_text(
            sha256_digest(encode_utf8(verifier)),
        ) + "&code_challenge_method=S256"@,
        redirect_uri_of(cfg) == cfg.base_url@ + "/auth/oidc/callback"@,
        challenge_of(verifier) == base64_url_text(sha256_digest(encode_utf8(verifier))),
{
}

/// The hexadecimal digits that stand for the values of a byte in a URL.
pub open spec fn url_digits() -> Seq<char> {
    seq!['0', '1', '2', '3', '4', '5', '6', '7', '8', '9', 'A', 'B', 'C', 'D', 'E', 'F']
}

/// In a URL letters, digits and four marks stand for themselves, and every other
/// byte becomes a percent sign with its two hexadecimal digits.
pub proof fn law_url_bytes_are_escaped(bytes: Seq<u8>, b: u8)
    ensures
        url_text(Seq::empty()) == Seq::<char>::empty(),
        url_text(bytes.push(b)) == url_text(bytes) + url_byte(b),
        (65 <= b && b <= 90) || (97 <= b && b <= 122) || (48 <= b && b <= 57) || b == 45 || b == 95 || b == 46
            || b == 126 ==> url_byte(b) == seq![b as char],
        !((65 <= b && b <= 90) || (97 <= b && b <= 122) || (48 <= b && b <= 57) || b == 45 || b == 95 || b == 46
            || b == 126) ==> url_byte(b) == seq![
            '%',
            url_digits()[b as int / 16],
            url_digits()[b as int % 16],
        ],
{
    assert(bytes.push(b).drop_last() =~= bytes);
    let hi = (b / 16) as u8;
    let lo = (b % 16) as u8;
    assert(hi < 16 && lo < 16) by (nonlinear_arith)
        requires
            hi == b / 16,
            lo == b % 16,
            b <= 255,
    ;
    assert(crate::oidc::upper_digit(hi) == url_digits()[hi as int]);
    assert(crate::oidc::upper_digit(lo) == url_digits()[lo as int]);
}

/// Who comes back with an error, without a code, without a state, or with a
/// state that is not known is refused, for that reason; who comes back with a
/// code and a known state is not.
pub proof fn law_coming_back_is_checked(q: OidcCallbackQuery, flows: Map<Seq<char>, Seq<char>>)
    ensures
        q.error is Some ==> refusal_of(q, flows) == Some(
            ReplyTree::Text(
                401,
                "Login failed: "@ + (match q.error_description {
                    Some(d) => d@,
                    None => "Unknown error"@,
                }),
            ),
        ),
        q.error is None && q.code is None ==> refusal_of(q, flows) == Some(
            ReplyTree::Text(400, "Missing authorization code"@),
        ),
        q.error is None && q.code is Some && q.state is None ==> refusal_of(q, flows) == Some(
            ReplyTree::Text(400, "Missing state parameter"@),
        ),
        q.error is None && q.code is Some ==> (q.state matches Some(s) ==> (refusal_of(q, flows) is None
            <==> flows.contains_key(s@))),
        q.error is None && q.code is Some ==> (q.state matches Some(s) ==> (!flows.contains_key(s@)
            ==> refusal_of(q, flows) == Some(ReplyTree::Text(400, "Invalid or expired state"@)))),
{
}

/// Coming back with a code ends the login that its state names, known or not,
/// and no other one; coming back with an error, or without a code or a state,
/// ends none.
pub proof fn law_only_the_login_that_came_back_is_over(
    q: OidcCallbackQuery,
    flows: Map<Seq<char>, Seq<char>>,
    other: Seq<char>,
)
    ensures
        q.error is None && q.code is Some ==> (q.state matches Some(s) ==> !flows_after(q, flows).contains_key(
            s@,
        )),
        q.error is None && q.code is Some ==> (q.state matches Some(s) ==> (other != s@ ==> flows_after(
            q,
            flows,
        ).contains_key(other) == flows.contains_key(other) && flows_after(q, flows)[other] == flows[other])),
        q.error is Some || q.code is None || q.state is None ==> flows_after(q, flows) == flows,
{
}

/// A token of three parts vouches for the address in the claims that its middle
/// part spells; other texts vouch for none.
pub proof fn law_token_vouches_for_an_address(head: Seq<char>, middle: Seq<char>, tail: Seq<char>, tokens: Tree)
    requires
        !head.contains('.'),
        !middle.contains('.'),
        !tail.contains('.'),
    ensures
        ({
            let token = (head.push('.') + middle).push('.') + tail;
            &&& base64_url_bytes(middle) matches Ok(bytes) ==> (json_read(bytes) matches Some(claims) ==> (
            claims.get("email"@) matches Some(Tree::Text(email)) ==> email_in_token(token) == Some(email)))
            &&& base64_url_bytes(middle) matches Ok(bytes) ==> (json_read(bytes) matches Some(claims) ==> (
            !(claims.at("email"@) is Text) ==> email_in_token(token) is None))
            &&& base64_url_bytes(middle) matches Ok(bytes) ==> (json_read(bytes) is None ==> email_in_token(
                token,
            ) is None)
            &&& base64_url_bytes(middle) is Err ==> email_in_token(token) is None
            &&& email_in_token(token.push('.') + tail) is None
            &&& email_in_token(head.push('.') + middle) is None
            &&& email_in_token(head) is None
            &&& tokens.get("id_token"@) == Some(Tree::Text(token)) ==> token_email(tokens) == email_in_token(
                token,
            )
            &&& !(tokens.at("id_token"@) is Text) ==> token_email(tokens) is None
        }),
{
    let kind = among(seq!['.']);
    assert(seq!['.'][0] == '.');
    assert(kind('.'));
    assert forall|i: int| 0 <= i < head.len() implies !kind(#[trigger] head[i]) by {
        assert(head.contains(head[i]));
    }
    assert forall|i: int| 0 <= i < middle.len() implies !kind(#[trigger] middle[i]) by {
        assert(middle.contains(middle[i]));
    }
    assert forall|i: int| 0 <= i < tail.len() implies !kind(#[trigger] tail[i]) by {
        assert(tail.contains(tail[i]));
    }
    lemma_pieces_whole(head, kind);
    lemma_pieces_whole(middle, kind);
    lemma_pieces_whole(tail, kind);
    lemma_pieces_join(head, '.', middle, kind);
    let two = head.push('.') + middle;
    assert(pieces(two, kind) =~= seq![head, middle]);
    lemma_pieces_join(two, '.', tail, kind);
    let token = two.push('.') + tail;
    assert(pieces(token, kind) =~= seq![head, middle, tail]);
    assert(split_at(token, '.') == seq![head, middle, tail]);
    lemma_pieces_join(token, '.', tail, kind);
    assert(split_at(token.push('.') + tail, '.').len() == 4);
    assert(split_at(two, '.') == seq![head, middle]);
    assert(split_at(head, '.') == seq![head]);
}

/// A login that succeeded starts a session under its identifier for the address
/// that the tokens vouch for, sets its cookie and leads to the start; one that
/// failed starts none and says where it failed.
pub proof fn law_login_is_finished(
    tokens: Json,
    outcome: TokenOutcome,
    id: Seq<char>,
    sessions: Map<Seq<char>, Seq<char>>,
)
    ensures
        finish_of(TokenOutcome::Tokens(tokens), id) == ReplyTree::Redirect(
            303,
            "/"@,
            seq![set_cookie_of("akurai_session"@, id, "/"@)],
        ),
        sessions_after(TokenOutcome::Tokens(tokens), id, sessions) == sessions.insert(
            id,
            match token_email(tokens@) {
                Some(e) => e,
                None => "unknown"@,
            },
        ),
        !(outcome is Tokens) ==> sessions_after(outcome, id, sessions) == sessions,
        finish_of(TokenOutcome::Unreachable, id) == ReplyTree::Text(502, "Failed to contact IDP"@),
        finish_of(TokenOutcome::Refused, id) == ReplyTree::Text(401, "Token exchange failed"@),
        finish_of(TokenOutcome::Unreadable, id) == ReplyTree::Text(502, "Invalid token response"@),
{
}

proof fn lemma_check_keys()
    ensures
        "authenticated"@ != "mailbox"@,
        "authenticated"@ != "user"@,
        "authenticated"@ != "method"@,
        "mailbox"@ != "user"@,
        "mailbox"@ != "method"@,
        "user"@ != "method"@,
{
    reveal_strlit("authenticated");
    reveal_strlit("mailbox");
    reveal_strlit("user");
    reveal_strlit("method");
    assert("authenticated"@.len() == 13 && "mailbox"@.len() == 7 && "user"@.len() == 4 && "method"@.len() == 6);
}

/// Who is logged in is told by the session: through the identity provider as the
/// address it vouched for, by password as the administrator, and else as nobody,
/// with the mailbox of the session if there is one.
pub proof fn law_login_is_told(
    cookies: Map<Seq<char>, Seq<char>>,
    cfg: Config,
    sessions: Map<Seq<char>, Seq<char>>,
)
    ensures
        ({
            let told = auth_check_of(cookies, cfg, sessions);
            let cookie = cookie_at(cookies, "akurai_session"@);
            let admin = is_password_session(cookie, cfg.admin_user@, cfg.admin_password@);
            let own = mailbox_of(cookie_at(cookies, "akurai_mailbox_session"@), cfg.admin_password@);
            match session_email_of(cookie, sessions) {
                Some(email) => told.at("authenticated"@) == Tree::Bool(true) && told.at("user"@) == Tree::Text(
                    email,
                ) && told.at("method"@) == Tree::Text("oidc"@),
                None => {
                    &&& told.at("authenticated"@) == Tree::Bool(admin)
                    &&& admin ==> told.at("user"@) == Tree::Text(cfg.admin_user@) && told.at("method"@)
                        == Tree::Text("password"@)
                    &&& !admin ==> told.at("user"@) == Tree::Text(Seq::empty()) && told.at("method"@)
                        == Tree::Text("none"@)
                    &&& own matches Some(m) ==> told.at("mailbox"@) == Tree::Text(m)
                    &&& own is None ==> told.at("mailbox"@) == Tree::Null
                },
            }
        }),
{
    lemma_check_keys();
}

} // verus!
