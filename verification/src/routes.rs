//! What requests ask for, who may ask, and how logins and logouts are answered.
use crate::auth::{
    are_valid, clear_cookie_header, clear_cookie_of, cookie_at, cookies_of, is_admin_session,
    is_authenticated, law_cookie_comes_back, lemma_cookie_names, lemma_digest_is_plain,
    mailbox_from_session, mailbox_of, mailbox_session_of, mailbox_session_value, parse_cookies, session_of,
    session_value, set_cookie_header, set_cookie_of, validate_credentials, Cookies, Sessions,
    MAILBOX_SESSION_COOKIE, SESSION_COOKIE,
};
use crate::config::Config;
use crate::json::{Json, Tree};
use crate::limit::{counted, times_of, RateLimiter, RATE_MAX_HITS};
use crate::oidc::{json_text_or_null, text_or_null};
use crate::outside::sha256_digest;
use crate::reply::{
    data_of, data_with_cookie, error_of, json_err, json_ok, redirect_with_cookie, Reply, ReplyTree,
};
use crate::text::{opt_text, same, starts_with, text_or, texts};
use vstd::prelude::*;
use vstd::utf8::encode_utf8;

verus! {

/// The credentials of the administrator, and where to go after the login.
#[derive(Debug, PartialEq, Eq)]
pub struct LoginForm {
    pub email: String,
    pub password: String,
    pub next: String,
}

/// The credentials of a mailbox, and where to go after the login.
#[derive(Debug, PartialEq, Eq)]
pub struct WebmailLoginBody {
    pub email: String,
    pub password: String,
    pub next: String,
}

/// What an administrator asks for.
#[derive(Debug, PartialEq, Eq)]
pub struct ActionBody {
    pub action: String,
    pub email: Option<String>,
    pub alias: Option<String>,
    pub target: Option<String>,
    pub domain: Option<String>,
    pub policy: Option<Json>,
}

/// Which folder of which mailbox is asked for, and what is looked for in it.
#[derive(Debug, PartialEq, Eq)]
pub struct WebmailQuery {
    pub email: Option<String>,
    pub folder: Option<String>,
    pub query: Option<String>,
}

/// What a user of webmail asks for.
#[derive(Debug, PartialEq, Eq)]
pub struct WebmailPostBody {
    pub action: String,
    pub email: Option<String>,
    pub id: Option<String>,
    pub message: Option<Json>,
    pub message_action: Option<String>,
    pub target: Option<String>,
    pub kind: Option<String>,
    pub value: Option<Json>,
    pub folder: Option<String>,
    pub index: Option<String>,
}

/// A command that a request asks for.
#[derive(Debug, PartialEq, Eq)]
pub enum Command {
    AddUser(String),
    SetPassword(String),
    /// The alias and its target.
    AddAlias(String, String),
    AntiSpamConfig(Json),
    /// The mailbox to scan; all of them where none is named.
    AntiSpamScan(Option<String>),
    DomainAdd(String),
    DomainCheck(String),
    DomainRemove(String),
    /// The mailbox, the folder and what is looked for.
    WebmailState(String, String, String),
    /// The mailbox and the message, which is marked as read.
    WebmailRead(String, String),
    WebmailSend(String, Json),
    WebmailDraft(String, Json),
    /// The mailbox, the message, the action and its target.
    WebmailAction(String, String, String, String),
    /// The mailbox, the kind of setting and its value.
    WebmailConfig(String, String, Json),
    /// The mailbox and the folder.
    WebmailApplyRules(String, String),
    WebmailExport(String),
    WebmailImport(String, Json),
    /// The mailbox, the message and the place of the attachment.
    WebmailAttachment(String, String, String),
}

/// A command that a request asks for.
pub ghost enum CommandTree {
    AddUser(Seq<char>),
    SetPassword(Seq<char>),
    AddAlias(Seq<char>, Seq<char>),
    AntiSpamConfig(Tree),
    AntiSpamScan(Option<Seq<char>>),
    DomainAdd(Seq<char>),
    DomainCheck(Seq<char>),
    DomainRemove(Seq<char>),
    WebmailState(Seq<char>, Seq<char>, Seq<char>),
    WebmailRead(Seq<char>, Seq<char>),
    WebmailSend(Seq<char>, Tree),
    WebmailDraft(Seq<char>, Tree),
    WebmailAction(Seq<char>, Seq<char>, Seq<char>, Seq<char>),
    WebmailConfig(Seq<char>, Seq<char>, Tree),
    WebmailApplyRules(Seq<char>, Seq<char>),
    WebmailExport(Seq<char>),
    WebmailImport(Seq<char>, Tree),
    WebmailAttachment(Seq<char>, Seq<char>, Seq<char>),
}

impl View for Command {
    type V = CommandTree;

    open spec fn view(&self) -> CommandTree {
        match self {
            Command::AddUser(e) => CommandTree::AddUser(e@),
            Command::SetPassword(e) => CommandTree::SetPassword(e@),
            Command::AddAlias(a, t) => CommandTree::AddAlias(a@, t@),
            Command::AntiSpamConfig(p) => CommandTree::AntiSpamConfig(p@),
            Command::AntiSpamScan(e) => CommandTree::AntiSpamScan(opt_text(*e)),
            Command::DomainAdd(d) => CommandTree::DomainAdd(d@),
            Command::DomainCheck(d) => CommandTree::DomainCheck(d@),
            Command::DomainRemove(d) => CommandTree::DomainRemove(d@),
            Command::WebmailState(e, f, q) => CommandTree::WebmailState(e@, f@, q@),
            Command::WebmailRead(e, i) => CommandTree::WebmailRead(e@, i@),
            Command::WebmailSend(e, p) => CommandTree::WebmailSend(e@, p@),
            Command::WebmailDraft(e, p) => CommandTree::WebmailDraft(e@, p@),
            Command::WebmailAction(e, i, a, t) => CommandTree::WebmailAction(e@, i@, a@, t@),
            Command::WebmailConfig(e, k, p) => CommandTree::WebmailConfig(e@, k@, p@),
            Command::WebmailApplyRules(e, f) => CommandTree::WebmailApplyRules(e@, f@),
            Command::WebmailExport(e) => CommandTree::WebmailExport(e@),
            Command::WebmailImport(e, p) => CommandTree::WebmailImport(e@, p@),
            Command::WebmailAttachment(e, i, n) => CommandTree::WebmailAttachment(e@, i@, n@),
        }
    }
}

/// What to do with a request.
#[derive(Debug, PartialEq, Eq)]
pub enum Decision {
    /// Answer at once.
    Answer(Reply),
    /// Carry out a command.
    Perform(Command),
}

/// What to do with a request.
pub ghost enum DecisionTree {
    Answer(ReplyTree),
    Perform(CommandTree),
}

impl View for Decision {
    type V = DecisionTree;

    open spec fn view(&self) -> DecisionTree {
        match self {
            Decision::Answer(r) => DecisionTree::Answer(r@),
            Decision::Perform(c) => DecisionTree::Perform(c@),
        }
    }
}

// ---------------------------------------------------------------------------
// Who asks
// ---------------------------------------------------------------------------

/// Whether cookies hold a session of the administrator.
pub open spec fn is_admin_of(
    cookies: Map<Seq<char>, Seq<char>>,
    cfg: Config,
    sessions: Map<Seq<char>, Seq<char>>,
) -> bool {
    is_admin_session(cookie_at(cookies, SESSION_COOKIE@), cfg.admin_user@, cfg.admin_password@, sessions)
}

/// Whether cookies hold a session of the administrator.
pub fn is_admin(cookies: &Cookies, cfg: &Config, sessions: &Sessions) -> (r: bool)
    ensures
        r == is_admin_of(cookies@, *cfg, sessions@),
{
    is_authenticated(
        cookies.value(SESSION_COOKIE).as_str(),
        cfg.admin_user.as_str(),
        cfg.admin_password.as_str(),
        sessions,
    )
}

/// The mailbox whose session cookies hold.
pub open spec fn cookie_mailbox(cookies: Map<Seq<char>, Seq<char>>, cfg: Config) -> Option<Seq<char>> {
    mailbox_of(cookie_at(cookies, MAILBOX_SESSION_COOKIE@), cfg.admin_password@)
}

/// The mailbox that a request is bound to: none where the administrator asks.
pub open spec fn mailbox_email_of(
    cookies: Map<Seq<char>, Seq<char>>,
    cfg: Config,
    sessions: Map<Seq<char>, Seq<char>>,
) -> Option<Seq<char>> {
    if is_admin_of(cookies, cfg, sessions) {
        None
    } else {
        cookie_mailbox(cookies, cfg)
    }
}

/// Finds the mailbox that a request is bound to.
pub fn mailbox_email(cookies: &Cookies, cfg: &Config, sessions: &Sessions) -> (r: Option<String>)
    ensures
        opt_text(r) == mailbox_email_of(cookies@, *cfg, sessions@),
{
    if is_admin(cookies, cfg, sessions) {
        return None;
    }
    mailbox_from_session(cookies.value(MAILBOX_SESSION_COOKIE).as_str(), cfg.admin_password.as_str())
}

/// The mailbox that a request is about: the administrator names it, everyone
/// else has the one they are logged in to.
pub open spec fn resolved_of(
    cookies: Map<Seq<char>, Seq<char>>,
    cfg: Config,
    sessions: Map<Seq<char>, Seq<char>>,
    requested: Option<Seq<char>>,
) -> Option<Seq<char>> {
    if is_admin_of(cookies, cfg, sessions) {
        match requested {
            Some(e) => if e.len() > 0 {
                Some(e)
            } else {
                None
            },
            None => None,
        }
    } else {
        cookie_mailbox(cookies, cfg)
    }
}

/// Finds the mailbox that a request is about.
pub fn resolve_webmail_email(
    cookies: &Cookies,
    cfg: &Config,
    sessions: &Sessions,
    requested: &Option<String>,
) -> (r: Option<String>)
    ensures
        opt_text(r) == resolved_of(cookies@, *cfg, sessions@, opt_text(*requested)),
{
    if is_admin(cookies, cfg, sessions) {
        return match requested {
            Some(e) => if e.as_str().is_empty() {
                None
            } else {
                Some(e.clone())
            },
            None => None,
        };
    }
    mailbox_email(cookies, cfg, sessions)
}

/// Whether a request to an administrative route is let through.
pub fn admin_allowed(header: &Option<String>, cfg: &Config, sessions: &Sessions) -> (r: bool)
    ensures
        r == is_admin_of(cookies_of(opt_text(*header)), *cfg, sessions@),
{
    is_admin(&parse_cookies(header), cfg, sessions)
}

/// Whether a request to a route of webmail is let through: with a session of
/// the administrator or of a mailbox.
pub open spec fn webmail_allowed_of(
    cookies: Map<Seq<char>, Seq<char>>,
    cfg: Config,
    sessions: Map<Seq<char>, Seq<char>>,
) -> bool {
    is_admin_of(cookies, cfg, sessions) || cookie_mailbox(cookies, cfg) is Some
}

/// Whether a request to a route of webmail is let through.
pub fn webmail_allowed(header: &Option<String>, cfg: &Config, sessions: &Sessions) -> (r: bool)
    ensures
        r == webmail_allowed_of(cookies_of(opt_text(*header)), *cfg, sessions@),
{
    let cookies = parse_cookies(header);
    if is_admin(&cookies, cfg, sessions) {
        return true;
    }
    mailbox_from_session(cookies.value(MAILBOX_SESSION_COOKIE).as_str(), cfg.admin_password.as_str()).is_some()
}

/// Answers that a session is needed.
pub fn unauthorized() -> (r: Reply)
    ensures
        r@ == error_of(401, "authentication required"@),
{
    json_err(401, "authentication required")
}

// ---------------------------------------------------------------------------
// Logging in and out
// ---------------------------------------------------------------------------

/// The answer to a login that succeeded.
pub open spec fn welcome_of(next: Seq<char>, cookie: Seq<char>) -> ReplyTree {
    ReplyTree::Data(
        200,
        Tree::object().with("ok"@, Tree::Bool(true)).with("next"@, Tree::Text(next)),
        seq![cookie],
    )
}

/// Where to go after a login: a path below a place, or that place.
pub open spec fn next_of(next: Seq<char>, place: Seq<char>) -> Seq<char> {
    if place.is_prefix_of(next) {
        next
    } else {
        place
    }
}

fn next_place(next: &str, place: &str) -> (r: String)
    ensures
        r@ == next_of(next@, place@),
{
    if starts_with(next, place) {
        next.to_owned()
    } else {
        place.to_owned()
    }
}

/// Answers a login of the administrator. The cookie that is set is accepted as
/// a session of the administrator when it comes back.
pub fn login(form: &LoginForm, cfg: &Config) -> (r: Reply)
    ensures
        r@ == (if are_valid(form.email@, form.password@, cfg.admin_user@, cfg.admin_password@) {
            welcome_of(
                next_of(form.next@, "/"@),
                set_cookie_of(SESSION_COOKIE@, session_of(cfg.admin_user@, cfg.admin_password@), "/"@),
            )
        } else {
            error_of(401, "The email or password is incorrect."@)
        }),
        are_valid(form.email@, form.password@, cfg.admin_user@, cfg.admin_password@) ==> forall|
            sessions: Map<Seq<char>, Seq<char>>,
        | #[trigger]
            is_admin_of(
                cookies_of(
                    Some(SESSION_COOKIE@ + "="@ + session_of(cfg.admin_user@, cfg.admin_password@)),
                ),
                *cfg,
                sessions,
            ),
{
    if !validate_credentials(
        form.email.as_str(),
        form.password.as_str(),
        cfg.admin_user.as_str(),
        cfg.admin_password.as_str(),
    ) {
        return json_err(401, "The email or password is incorrect.");
    }
    let session = session_value(cfg.admin_user.as_str(), cfg.admin_password.as_str());
    proof {
        lemma_cookie_names();
        lemma_digest_is_plain(
            sha256_digest(encode_utf8(cfg.admin_user@ + ":"@ + cfg.admin_password@)),
        );
        law_cookie_comes_back(SESSION_COOKIE@, session@);
    }
    let cookie = set_cookie_header(SESSION_COOKIE, session.as_str(), "/");
    let next = next_place(form.next.as_str(), "/");
    data_with_cookie(
        Json::object().with("ok", Json::Bool(true)).with("next", Json::text(next.as_str())),
        cookie,
    )
}

/// Answers a login to a mailbox, given whether the mail server accepts the
/// credentials.
pub fn webmail_login(form: &WebmailLoginBody, accepted: bool, cfg: &Config) -> (r: Reply)
    ensures
        r@ == (if accepted {
            welcome_of(
                next_of(form.next@, "/webmail"@),
                set_cookie_of(
                    MAILBOX_SESSION_COOKIE@,
                    mailbox_session_of(form.email@, cfg.admin_password@),
                    "/webmail"@,
                ),
            )
        } else {
            error_of(401, "The email or password is incorrect."@)
        }),
{
    if !accepted {
        return json_err(401, "The email or password is incorrect.");
    }
    let session = mailbox_session_value(form.email.as_str(), cfg.admin_password.as_str());
    let cookie = set_cookie_header(MAILBOX_SESSION_COOKIE, session.as_str(), "/webmail");
    let next = next_place(form.next.as_str(), "/webmail");
    data_with_cookie(
        Json::object().with("ok", Json::Bool(true)).with("next", Json::text(next.as_str())),
        cookie,
    )
}

/// Answers a logout: both cookies are taken back, and a user of a mailbox goes
/// to the login of webmail.
pub fn logout(header: &Option<String>, cfg: &Config, sessions: &Sessions) -> (r: Reply)
    ensures
        r@ == ReplyTree::Redirect(
            303,
            if mailbox_email_of(cookies_of(opt_text(*header)), *cfg, sessions@) is Some {
                "/webmail/login"@
            } else {
                "/login"@
            },
            seq![
                clear_cookie_of(SESSION_COOKIE@, "/"@),
                clear_cookie_of(MAILBOX_SESSION_COOKIE@, "/webmail"@),
            ],
        ),
{
    let cookies = parse_cookies(header);
    let target = if mailbox_email(&cookies, cfg, sessions).is_some() {
        "/webmail/login"
    } else {
        "/login"
    };
    let cleared = vec![
        clear_cookie_header(SESSION_COOKIE, "/"),
        clear_cookie_header(MAILBOX_SESSION_COOKIE, "/webmail"),
    ];
    proof {
        assert(texts(cleared@) =~= seq![
            clear_cookie_of(SESSION_COOKIE@, "/"@),
            clear_cookie_of(MAILBOX_SESSION_COOKIE@, "/webmail"@),
        ]);
    }
    Reply::Redirect(303, target.to_owned(), cleared)
}

/// Answers a logout from a mailbox.
pub fn webmail_logout() -> (r: Reply)
    ensures
        r@ == ReplyTree::Redirect(
            303,
            "/webmail/login"@,
            seq![clear_cookie_of(MAILBOX_SESSION_COOKIE@, "/webmail"@)],
        ),
{
    redirect_with_cookie("/webmail/login", clear_cookie_header(MAILBOX_SESSION_COOKIE, "/webmail"))
}

/// Answers who is logged in.
pub fn auth_check(header: &Option<String>, cfg: &Config, sessions: &Sessions) -> (r: Reply)
    ensures
        ({
            let cookies = cookies_of(opt_text(*header));
            let admin = is_admin_of(cookies, *cfg, sessions@);
            r@ == data_of(
                Tree::object().with("authenticated"@, Tree::Bool(admin)).with(
                    "mailbox"@,
                    text_or_null(cookie_mailbox(cookies, *cfg)),
                ).with(
                    "user"@,
                    Tree::Text(
                        if admin {
                            cfg.admin_user@
                        } else {
                            Seq::empty()
                        },
                    ),
                ),
            )
        }),
{
    let cookies = parse_cookies(header);
    let admin = is_admin(&cookies, cfg, sessions);
    let mailbox = mailbox_from_session(
        cookies.value(MAILBOX_SESSION_COOKIE).as_str(),
        cfg.admin_password.as_str(),
    );
    let user = if admin {
        cfg.admin_user.clone()
    } else {
        String::new()
    };
    json_ok(
        Json::object()
            .with("authenticated", Json::Bool(admin))
            .with("mailbox", json_text_or_null(mailbox))
            .with("user", Json::text(user.as_str())),
    )
}

// ---------------------------------------------------------------------------
// Commands
// ---------------------------------------------------------------------------

/// A value that a request holds, or the empty object.
pub open spec fn payload_of(value: Option<Json>) -> Tree {
    match value {
        Some(v) => v@,
        None => Tree::object(),
    }
}

fn payload(value: &Option<Json>) -> (r: Json)
    ensures
        r@ == payload_of(*value),
{
    match value {
        Some(v) => v.copy(),
        None => Json::object(),
    }
}

fn or_else(value: &Option<String>, default: &str) -> (r: String)
    ensures
        r@ == text_or(*value, default@),
{
    match value {
        Some(s) => s.clone(),
        None => default.to_owned(),
    }
}

/// The command that an administrator asks for.
pub open spec fn admin_command(body: ActionBody) -> Option<CommandTree> {
    let action = body.action@;
    if action == "add-user"@ {
        Some(CommandTree::AddUser(text_or(body.email, ""@)))
    } else if action == "set-password"@ {
        Some(CommandTree::SetPassword(text_or(body.email, ""@)))
    } else if action == "add-alias"@ {
        Some(CommandTree::AddAlias(text_or(body.alias, ""@), text_or(body.target, ""@)))
    } else if action == "anti-spam-config"@ {
        Some(CommandTree::AntiSpamConfig(payload_of(body.policy)))
    } else if action == "anti-spam-scan"@ {
        Some(CommandTree::AntiSpamScan(opt_text(body.email)))
    } else if action == "domain-add"@ {
        Some(CommandTree::DomainAdd(text_or(body.domain, ""@)))
    } else if action == "domain-check"@ {
        Some(CommandTree::DomainCheck(text_or(body.domain, ""@)))
    } else if action == "domain-remove"@ {
        Some(CommandTree::DomainRemove(text_or(body.domain, ""@)))
    } else {
        None
    }
}

/// The decision to carry out a command, or to answer that there is none.
pub open spec fn decided(command: Option<CommandTree>) -> DecisionTree {
    match command {
        Some(c) => DecisionTree::Perform(c),
        None => DecisionTree::Answer(error_of(400, "unknown action"@)),
    }
}

/// Decides what to do with a request of an administrator.
pub fn actions(body: &ActionBody) -> (r: Decision)
    ensures
        r@ == decided(admin_command(*body)),
{
    let action = body.action.as_str();
    if same(action, "add-user") {
        Decision::Perform(Command::AddUser(or_else(&body.email, "")))
    } else if same(action, "set-password") {
        Decision::Perform(Command::SetPassword(or_else(&body.email, "")))
    } else if same(action, "add-alias") {
        Decision::Perform(Command::AddAlias(or_else(&body.alias, ""), or_else(&body.target, "")))
    } else if same(action, "anti-spam-config") {
        Decision::Perform(Command::AntiSpamConfig(payload(&body.policy)))
    } else if same(action, "anti-spam-scan") {
        let email = match &body.email {
            Some(e) => Some(e.clone()),
            None => None,
        };
        Decision::Perform(Command::AntiSpamScan(email))
    } else if same(action, "domain-add") {
        Decision::Perform(Command::DomainAdd(or_else(&body.domain, "")))
    } else if same(action, "domain-check") {
        Decision::Perform(Command::DomainCheck(or_else(&body.domain, "")))
    } else if same(action, "domain-remove") {
        Decision::Perform(Command::DomainRemove(or_else(&body.domain, "")))
    } else {
        Decision::Answer(json_err(400, "unknown action"))
    }
}

/// The decision on a request to see a folder.
pub open spec fn webmail_get_of(
    cookies: Map<Seq<char>, Seq<char>>,
    cfg: Config,
    sessions: Map<Seq<char>, Seq<char>>,
    q: WebmailQuery,
) -> DecisionTree {
    match resolved_of(cookies, cfg, sessions, opt_text(q.email)) {
        None => DecisionTree::Answer(error_of(400, "email is required"@)),
        Some(email) => DecisionTree::Perform(
            CommandTree::WebmailState(email, text_or(q.folder, "Inbox"@), text_or(q.query, ""@)),
        ),
    }
}

/// Decides what to do with a request to see a folder.
pub fn webmail_get(header: &Option<String>, cfg: &Config, sessions: &Sessions, q: &WebmailQuery) -> (r: Decision)
    ensures
        r@ == webmail_get_of(cookies_of(opt_text(*header)), *cfg, sessions@, *q),
{
    let cookies = parse_cookies(header);
    match resolve_webmail_email(&cookies, cfg, sessions, &q.email) {
        None => Decision::Answer(json_err(400, "email is required")),
        Some(email) => Decision::Perform(
            Command::WebmailState(email, or_else(&q.folder, "Inbox"), or_else(&q.query, "")),
        ),
    }
}

/// The command that a user of webmail asks for.
pub open spec fn webmail_command(email: Seq<char>, body: WebmailPostBody) -> Option<CommandTree> {
    let action = body.action@;
    let id = text_or(body.id, ""@);
    if action == "read"@ {
        Some(CommandTree::WebmailRead(email, id))
    } else if action == "send"@ {
        Some(CommandTree::WebmailSend(email, payload_of(body.message)))
    } else if action == "draft"@ {
        Some(CommandTree::WebmailDraft(email, payload_of(body.message)))
    } else if action == "message"@ {
        Some(
            CommandTree::WebmailAction(
                email,
                id,
                text_or(body.message_action, ""@),
                text_or(body.target, "Archive"@),
            ),
        )
    } else if action == "config"@ {
        Some(CommandTree::WebmailConfig(email, text_or(body.kind, ""@), payload_of(body.value)))
    } else if action == "apply-rules"@ {
        Some(CommandTree::WebmailApplyRules(email, text_or(body.folder, "Inbox"@)))
    } else if action == "export"@ {
        Some(CommandTree::WebmailExport(email))
    } else if action == "import"@ {
        Some(CommandTree::WebmailImport(email, payload_of(body.value)))
    } else if action == "attachment"@ {
        Some(CommandTree::WebmailAttachment(email, id, text_or(body.index, ""@)))
    } else {
        None
    }
}

fn webmail_decision(email: String, body: &WebmailPostBody) -> (r: Decision)
    ensures
        r@ == decided(webmail_command(email@, *body)),
{
    let action = body.action.as_str();
    let id = or_else(&body.id, "");
    if same(action, "read") {
        Decision::Perform(Command::WebmailRead(email, id))
    } else if same(action, "send") {
        Decision::Perform(Command::WebmailSend(email, payload(&body.message)))
    } else if same(action, "draft") {
        Decision::Perform(Command::WebmailDraft(email, payload(&body.message)))
    } else if same(action, "message") {
        Decision::Perform(
            Command::WebmailAction(
                email,
                id,
                or_else(&body.message_action, ""),
                or_else(&body.target, "Archive"),
            ),
        )
    } else if same(action, "config") {
        Decision::Perform(Command::WebmailConfig(email, or_else(&body.kind, ""), payload(&body.value)))
    } else if same(action, "apply-rules") {
        Decision::Perform(Command::WebmailApplyRules(email, or_else(&body.folder, "Inbox")))
    } else if same(action, "export") {
        Decision::Perform(Command::WebmailExport(email))
    } else if same(action, "import") {
        Decision::Perform(Command::WebmailImport(email, payload(&body.value)))
    } else if same(action, "attachment") {
        Decision::Perform(Command::WebmailAttachment(email, id, or_else(&body.index, "")))
    } else {
        Decision::Answer(json_err(400, "unknown action"))
    }
}

/// The decision on a request of a user of webmail, given the times of earlier
/// requests that are counted, and its own.
pub open spec fn webmail_post_of(
    cookies: Map<Seq<char>, Seq<char>>,
    cfg: Config,
    sessions: Map<Seq<char>, Seq<char>>,
    body: WebmailPostBody,
    times: Seq<u64>,
    now: u64,
) -> DecisionTree {
    if counted(times, now).len() > RATE_MAX_HITS {
        DecisionTree::Answer(error_of(429, "rate limit exceeded"@))
    } else {
        match resolved_of(cookies, cfg, sessions, opt_text(body.email)) {
            None => DecisionTree::Answer(error_of(400, "email is required"@)),
            Some(email) => decided(webmail_command(email, body)),
        }
    }
}

/// Decides what to do with a request of a user of webmail. All of them are
/// counted together.
pub fn webmail_post(
    header: &Option<String>,
    cfg: &Config,
    sessions: &Sessions,
    body: &WebmailPostBody,
    limiter: &mut RateLimiter,
    now: u64,
) -> (r: Decision)
    ensures
        r@ == webmail_post_of(
            cookies_of(opt_text(*header)),
            *cfg,
            sessions@,
            *body,
            times_of(old(limiter)@, "global"@),
            now,
        ),
        final(limiter)@ == old(limiter)@.insert(
            "global"@,
            counted(times_of(old(limiter)@, "global"@), now),
        ),
{
    if !limiter.rate_limit("global", now) {
        return Decision::Answer(json_err(429, "rate limit exceeded"));
    }
    let cookies = parse_cookies(header);
    match resolve_webmail_email(&cookies, cfg, sessions, &body.email) {
        None => Decision::Answer(json_err(400, "email is required")),
        Some(email) => webmail_decision(email, body),
    }
}

// ---------------------------------------------------------------------------
// Laws
// ---------------------------------------------------------------------------

/// A user of webmail who is not the administrator reaches no other mailbox than
/// the one they are logged in to, whichever they ask for.
pub proof fn law_mailbox_session_reaches_own_mailbox_only(
    cookies: Map<Seq<char>, Seq<char>>,
    cfg: Config,
    sessions: Map<Seq<char>, Seq<char>>,
    requested: Option<Seq<char>>,
)
    requires
        !is_admin_of(cookies, cfg, sessions),
    ensures
        resolved_of(cookies, cfg, sessions, requested) == cookie_mailbox(cookies, cfg),
{
}

/// A request without a session of the administrator or of a mailbox reaches no
/// mailbox, and is not let through to webmail.
pub proof fn law_no_session_no_mailbox(
    cookies: Map<Seq<char>, Seq<char>>,
    cfg: Config,
    sessions: Map<Seq<char>, Seq<char>>,
    requested: Option<Seq<char>>,
)
    requires
        !is_admin_of(cookies, cfg, sessions),
        cookie_mailbox(cookies, cfg) is None,
    ensures
        !webmail_allowed_of(cookies, cfg, sessions),
        resolved_of(cookies, cfg, sessions, requested) is None,
{
}

/// Whoever is let through to administrative routes is let through to webmail.
pub proof fn law_admin_is_allowed_in_webmail(
    cookies: Map<Seq<char>, Seq<char>>,
    cfg: Config,
    sessions: Map<Seq<char>, Seq<char>>,
)
    requires
        is_admin_of(cookies, cfg, sessions),
    ensures
        webmail_allowed_of(cookies, cfg, sessions),
{
}

} // verus!
