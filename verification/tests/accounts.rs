use akurai_mail::auth::{
    clear_cookie_header, constant_eq, digest, is_authenticated, is_legacy_authenticated,
    mailbox_from_session, mailbox_session_value, oidc_session_email, parse_cookies, session_value,
    set_cookie_header, validate_credentials, Sessions, MAILBOX_SESSION_COOKIE, SESSION_COOKIE,
};
use akurai_mail::config::{get, oidc_enabled, oidc_redirect_uri, Config, Environment, Settings};
use akurai_mail::json::Json;
use akurai_mail::limit::RateLimiter;
use akurai_mail::oidc::{
    auth_check_response, challenge_for, extract_email_from_id_token, finish_login, generate_pkce,
    generate_random_hex, oidc_callback, oidc_callback_finish, oidc_login, oidc_login_url, start_login, start_session, urlenc,
    Callback, Flows, OidcCallbackQuery, TokenOutcome,
};
use akurai_mail::reply::{command_reply, Reply};
use akurai_mail::routes::{
    actions, admin_allowed, auth_check, login, logout, mailbox_email, resolve_webmail_email, unauthorized,
    webmail_allowed, webmail_get, webmail_login, webmail_logout, webmail_post, ActionBody, Command, Decision,
    LoginForm, WebmailLoginBody, WebmailPostBody, WebmailQuery,
};

const ADMIN_SESSION: &str = "901b281c4e0c4007e8526ef27153b79330811e733976d5e65c8343a39e54ec81";
const BOX_TOKEN: &str = "abe95433a30046cc98ad86bf466a4b64c9c7ef1eaff786456167f56fa441171a";

fn no_env() -> Environment {
    Environment {
        admin_user: None,
        admin_password: None,
        listen_addr: None,
        static_dir: None,
        base_url: None,
        oidc_issuer: None,
        oidc_client_id: None,
        oidc_client_secret: None,
    }
}

fn config_with(password: &str) -> Config {
    let mut env = no_env();
    env.admin_password = Some(password.to_string());
    env.oidc_client_id = Some("client".to_string());
    env.oidc_client_secret = Some("hush".to_string());
    get(&env)
}

fn object(members: Vec<(&str, Json)>) -> Json {
    Json::Object(members.into_iter().map(|(k, v)| (k.to_string(), v)).collect())
}

fn text(s: &str) -> Json {
    Json::Text(s.to_string())
}

fn failed(status: u16, message: &str) -> Reply {
    Reply::Data(status, object(vec![("ok", Json::Bool(false)), ("error", text(message))]), vec![])
}

#[test]
fn config_has_defaults() {
    let cfg = get(&no_env());
    assert_eq!(cfg.admin_user, "admin");
    assert_eq!(cfg.admin_password, "");
    assert_eq!(cfg.listen_addr, "127.0.0.1:3000");
    assert_eq!(cfg.static_dir, "./static");
    assert_eq!(cfg.base_url, "https://mail.olibuijr.com");
    assert_eq!(cfg.oidc_issuer, "https://auth.olibuijr.com");
    assert_eq!(cfg.oidc_client_id, "");
    assert_eq!(cfg.oidc_client_secret, "");
    assert!(!oidc_enabled(&cfg));
    assert_eq!(oidc_redirect_uri(&cfg), "https://mail.olibuijr.com/auth/oidc/callback");
}

#[test]
fn config_takes_the_environment() {
    let mut env = no_env();
    env.admin_user = Some("root".to_string());
    env.base_url = Some("http://x".to_string());
    env.oidc_client_id = Some("id".to_string());
    let cfg = get(&env);
    assert_eq!(cfg.admin_user, "root");
    assert!(oidc_enabled(&cfg));
    assert_eq!(oidc_redirect_uri(&cfg), "http://x/auth/oidc/callback");
}

#[test]
fn config_is_read_once() {
    let mut settings = Settings::new();
    let first = settings.get(&no_env());
    assert_eq!(first, get(&no_env()));
    let mut env = no_env();
    env.admin_user = Some("root".to_string());
    assert_eq!(settings.get(&env), first);
    assert_eq!(settings.get(&env).copy(), first);
    assert_eq!(Settings::new().get(&env).admin_user, "root");
}

#[test]
fn digests_are_sha256_in_hexadecimal() {
    assert_eq!(digest(""), "e3b0c44298fc1c149afbf4c8996fb92427ae41e4649b934ca495991b7852b855");
    assert_eq!(session_value("admin", "secret"), ADMIN_SESSION);
}

#[test]
fn texts_are_compared() {
    assert!(constant_eq("abc", "abc"));
    assert!(constant_eq("", ""));
    assert!(!constant_eq("abc", "abd"));
    assert!(!constant_eq("abc", "ab"));
}

#[test]
fn right_credentials_are_accepted() {
    assert!(validate_credentials("admin", "secret", "admin", "secret"));
    assert!(!validate_credentials("admin", "wrong", "admin", "secret"));
    assert!(!validate_credentials("other", "secret", "admin", "secret"));
}

#[test]
fn no_password_no_session() {
    assert!(!validate_credentials("admin", "", "admin", ""));
    assert!(!is_legacy_authenticated(&session_value("admin", ""), "admin", ""));
    assert_eq!(mailbox_from_session(&mailbox_session_value("a@b.c", ""), ""), None);
}

#[test]
fn admin_session_is_recognised() {
    let sessions = Sessions::new();
    assert!(is_legacy_authenticated(ADMIN_SESSION, "admin", "secret"));
    assert!(is_authenticated(ADMIN_SESSION, "admin", "secret", &sessions));
    assert!(!is_authenticated("", "admin", "secret", &sessions));
    assert!(!is_authenticated("x", "admin", "secret", &sessions));
}

#[test]
fn provider_session_is_recognised() {
    let mut sessions = Sessions::new();
    sessions.insert("id".to_string(), "a@b.c".to_string());
    assert!(is_authenticated("id", "admin", "", &sessions));
    assert_eq!(oidc_session_email("id", &sessions), Some("a@b.c".to_string()));
    assert_eq!(oidc_session_email("other", &sessions), None);
    assert_eq!(oidc_session_email("", &sessions), None);
}

#[test]
fn mailbox_session_reads_back() {
    let value = mailbox_session_value("a@b.c", "pw");
    assert_eq!(value, format!("a@b.c:{BOX_TOKEN}"));
    assert_eq!(mailbox_from_session(&value, "pw"), Some("a@b.c".to_string()));
    assert_eq!(mailbox_from_session(&value, "other"), None);
    assert_eq!(mailbox_from_session(&format!(":{BOX_TOKEN}"), "pw"), None);
    assert_eq!(mailbox_from_session("nothing", "pw"), None);
    let odd = mailbox_session_value("a:b", "pw");
    assert_eq!(mailbox_from_session(&odd, "pw"), Some("a:b".to_string()));
}

#[test]
fn only_the_session_is_accepted() {
    let value = mailbox_session_value("a@b.c", "pw");
    let cut = &value[..value.len() - 1];
    assert_eq!(mailbox_from_session(cut, "pw"), None);
    assert_eq!(mailbox_from_session(&format!("x@b.c:{BOX_TOKEN}"), "pw"), None);
}

#[test]
fn cookie_headers_are_written() {
    assert_eq!(
        set_cookie_header("n", "v", "/p"),
        "n=v; Path=/p; HttpOnly; SameSite=Lax; Secure; Max-Age=36000"
    );
    assert_eq!(
        clear_cookie_header("n", "/p"),
        "n=; Path=/p; HttpOnly; SameSite=Lax; Secure; Max-Age=0"
    );
}

#[test]
fn cookies_are_read() {
    let cookies = parse_cookies(&Some("a=1;  b=2=3 ; c; a=4".to_string()));
    assert_eq!(cookies.value("a"), "4");
    assert_eq!(cookies.value("b"), "2=3");
    assert_eq!(cookies.value("c"), "");
    assert_eq!(parse_cookies(&None).value("a"), "");
}

#[test]
fn random_texts_are_hexadecimal() {
    let a = generate_random_hex(16);
    let b = generate_random_hex(16);
    assert_eq!(a.len(), 32);
    assert!(a.chars().all(|c| c.is_ascii_hexdigit() && !c.is_ascii_uppercase()));
    assert_ne!(a, b);
    assert_eq!(generate_random_hex(0), "");
}

#[test]
fn proof_key_answers_its_challenge() {
    assert_eq!(challenge_for("verifier"), "iMnq5o6zALKXGivsnlom_0F5_WYda32GHkxlV7mq7hQ");
    let (verifier, challenge) = generate_pkce();
    assert_eq!(verifier.len(), 64);
    assert_eq!(challenge, challenge_for(&verifier));
}

#[test]
fn url_text_is_plain() {
    assert_eq!(urlenc("https://a.b/c d~é"), "https%3A%2F%2Fa.b%2Fc%20d~%C3%A9");
    assert_eq!(urlenc("AZaz09-_."), "AZaz09-_.");
}

#[test]
fn login_url_names_state_and_challenge() {
    let cfg = config_with("secret");
    let mut flows = Flows::new();
    let url = start_login(&cfg, &mut flows, "st".to_string(), "verifier".to_string());
    assert_eq!(
        url,
        "https://auth.olibuijr.com/authorize?client_id=client&redirect_uri=https%3A%2F%2Fmail.olibuijr.com%2Fauth%2Foidc%2Fcallback&response_type=code&scope=openid+email&state=st&code_challenge=iMnq5o6zALKXGivsnlom_0F5_WYda32GHkxlV7mq7hQ&code_challenge_method=S256"
    );
    assert_eq!(flows.take("st"), Some("verifier".to_string()));
    assert_eq!(flows.take("st"), None);
}

#[test]
fn login_url_is_random() {
    let cfg = config_with("secret");
    let mut flows = Flows::new();
    let first = oidc_login_url(&cfg, &mut flows);
    let second = oidc_login_url(&cfg, &mut flows);
    assert!(first.starts_with("https://auth.olibuijr.com/authorize?client_id=client&"));
    assert_ne!(first, second);
}

#[test]
fn login_needs_a_provider() {
    let mut flows = Flows::new();
    let reply = oidc_login(&get(&no_env()), &mut flows);
    assert_eq!(reply, Reply::Text(503, "OIDC not configured".to_string()));
    match oidc_login(&config_with("secret"), &mut flows) {
        Reply::Redirect(307, url, cookies) => {
            assert!(url.contains("&state="));
            assert!(cookies.is_empty());
        }
        other => panic!("{other:?}"),
    }
}

fn query(code: Option<&str>, state: Option<&str>, error: Option<&str>, why: Option<&str>) -> OidcCallbackQuery {
    OidcCallbackQuery {
        code: code.map(|s| s.to_string()),
        state: state.map(|s| s.to_string()),
        error: error.map(|s| s.to_string()),
        error_description: why.map(|s| s.to_string()),
    }
}

#[test]
fn callback_refuses() {
    let cfg = config_with("secret");
    let mut flows = Flows::new();
    flows.insert("st".to_string(), "v".to_string());
    let cases = vec![
        (query(Some("c"), Some("st"), Some("e"), Some("denied")), 401, "Login failed: denied"),
        (query(None, None, Some("e"), None), 401, "Login failed: Unknown error"),
        (query(None, Some("st"), None, None), 400, "Missing authorization code"),
        (query(Some("c"), None, None, None), 400, "Missing state parameter"),
        (query(Some("c"), Some("zz"), None, None), 400, "Invalid or expired state"),
    ];
    for (q, status, body) in cases {
        assert_eq!(
            oidc_callback(&q, &cfg, &mut flows),
            Callback::Answer(Reply::Text(status, body.to_string()))
        );
    }
    assert_eq!(flows.take("st"), Some("v".to_string()));
}

#[test]
fn state_is_used_once() {
    let cfg = config_with("secret");
    let mut flows = Flows::new();
    flows.insert("st".to_string(), "v".to_string());
    let q = query(Some("c"), Some("st"), None, None);
    match oidc_callback(&q, &cfg, &mut flows) {
        Callback::Ask(t) => {
            assert_eq!(t.url, "https://auth.olibuijr.com/token");
            assert_eq!(t.code, "c");
            assert_eq!(t.redirect_uri, "https://mail.olibuijr.com/auth/oidc/callback");
            assert_eq!(t.client_id, "client");
            assert_eq!(t.client_secret, "hush");
            assert_eq!(t.code_verifier, "v");
        }
        other => panic!("{other:?}"),
    }
    assert_eq!(
        oidc_callback(&q, &cfg, &mut flows),
        Callback::Answer(Reply::Text(400, "Invalid or expired state".to_string()))
    );
}

#[test]
fn token_gives_the_address() {
    let token = |t: &str| object(vec![("id_token", text(t))]);
    let good = token("h.eyJlbWFpbCI6ImFAYi5jIn0.s");
    assert_eq!(extract_email_from_id_token(&good), Some("a@b.c".to_string()));
    assert_eq!(extract_email_from_id_token(&token("h.eyJlbWFpbCI6NX0.s")), None);
    assert_eq!(extract_email_from_id_token(&token("h.eyJlbWFpbCI6ImFAYi5jIn0")), None);
    assert_eq!(extract_email_from_id_token(&token("h.***.s")), None);
    assert_eq!(extract_email_from_id_token(&token("h.eA.s")), None);
    assert_eq!(extract_email_from_id_token(&token("h.W10.s")), None);
    assert_eq!(extract_email_from_id_token(&token("h.e30.s")), None);
    assert_eq!(extract_email_from_id_token(&Json::Null), None);
}

#[test]
fn login_starts_a_session() {
    let mut sessions = Sessions::new();
    let tokens = object(vec![("id_token", text("h.eyJlbWFpbCI6ImFAYi5jIn0.s"))]);
    let reply = finish_login(&TokenOutcome::Tokens(tokens), &mut sessions, "sid".to_string());
    assert_eq!(
        reply,
        Reply::Redirect(
            303,
            "/".to_string(),
            vec!["akurai_session=sid; Path=/; HttpOnly; SameSite=Lax; Secure; Max-Age=36000".to_string()]
        )
    );
    assert_eq!(sessions.get("sid"), Some("a@b.c".to_string()));
    finish_login(&TokenOutcome::Tokens(Json::Null), &mut sessions, "two".to_string());
    assert_eq!(sessions.get("two"), Some("unknown".to_string()));
}

#[test]
fn login_can_fail_at_the_provider() {
    let mut sessions = Sessions::new();
    let cases = vec![
        (TokenOutcome::Unreachable, 502, "Failed to contact IDP"),
        (TokenOutcome::Refused, 401, "Token exchange failed"),
        (TokenOutcome::Unreadable, 502, "Invalid token response"),
    ];
    for (outcome, status, body) in cases {
        let reply = finish_login(&outcome, &mut sessions, "sid".to_string());
        assert_eq!(reply, Reply::Text(status, body.to_string()));
    }
    assert!(!sessions.contains("sid"));
    match oidc_callback_finish(&TokenOutcome::Tokens(Json::Null), &mut sessions) {
        Reply::Redirect(303, place, cookies) => {
            assert_eq!(place, "/");
            assert_eq!(cookies.len(), 1);
        }
        other => panic!("{other:?}"),
    }
}

#[test]
fn auth_check_knows_the_method() {
    let cfg = config_with("secret");
    let mut sessions = Sessions::new();
    sessions.insert("sid".to_string(), "a@b.c".to_string());
    let by_provider = auth_check_response(
        &parse_cookies(&Some("akurai_session=sid".to_string())),
        &cfg,
        &sessions,
    );
    assert_eq!(
        by_provider,
        object(vec![
            ("authenticated", Json::Bool(true)),
            ("user", text("a@b.c")),
            ("method", text("oidc"))
        ])
    );
    let by_password = auth_check_response(
        &parse_cookies(&Some(format!("akurai_session={ADMIN_SESSION}"))),
        &cfg,
        &sessions,
    );
    assert_eq!(
        by_password,
        object(vec![
            ("authenticated", Json::Bool(true)),
            ("mailbox", Json::Null),
            ("user", text("admin")),
            ("method", text("password"))
        ])
    );
    let nobody = auth_check_response(&parse_cookies(&None), &cfg, &sessions);
    assert_eq!(
        nobody,
        object(vec![
            ("authenticated", Json::Bool(false)),
            ("mailbox", Json::Null),
            ("user", text("")),
            ("method", text("none"))
        ])
    );
}

#[test]
fn login_cookie_is_accepted_when_it_comes_back() {
    let cfg = config_with("secret");
    let sessions = Sessions::new();
    let form = LoginForm {
        email: "admin".to_string(),
        password: "secret".to_string(),
        next: "/domains".to_string(),
    };
    match login(&form, &cfg) {
        Reply::Data(200, body, cookies) => {
            assert_eq!(body, object(vec![("ok", Json::Bool(true)), ("next", text("/domains"))]));
            assert_eq!(cookies.len(), 1);
            let sent = cookies[0].split(';').next().unwrap().to_string();
            assert_eq!(sent, format!("{SESSION_COOKIE}={ADMIN_SESSION}"));
            assert!(admin_allowed(&Some(sent), &cfg, &sessions));
        }
        other => panic!("{other:?}"),
    }
    assert!(!admin_allowed(&None, &cfg, &sessions));
}

#[test]
fn wrong_login_is_refused() {
    let cfg = config_with("secret");
    let form = LoginForm {
        email: "admin".to_string(),
        password: "x".to_string(),
        next: String::new(),
    };
    assert_eq!(login(&form, &cfg), failed(401, "The email or password is incorrect."));
    let elsewhere = LoginForm {
        email: "admin".to_string(),
        password: "secret".to_string(),
        next: "http://evil".to_string(),
    };
    match login(&elsewhere, &cfg) {
        Reply::Data(200, body, _) => {
            assert_eq!(body, object(vec![("ok", Json::Bool(true)), ("next", text("/"))]))
        }
        other => panic!("{other:?}"),
    }
}

#[test]
fn mailbox_cookie_is_accepted_when_it_comes_back() {
    let cfg = config_with("pw");
    let sessions = Sessions::new();
    let form = WebmailLoginBody {
        email: "a@b.c".to_string(),
        password: "any".to_string(),
        next: "/elsewhere".to_string(),
    };
    match webmail_login(&form, true, &cfg) {
        Reply::Data(200, body, cookies) => {
            assert_eq!(body, object(vec![("ok", Json::Bool(true)), ("next", text("/webmail"))]));
            let sent = cookies[0].split(';').next().unwrap().to_string();
            assert_eq!(sent, format!("{MAILBOX_SESSION_COOKIE}=a@b.c:{BOX_TOKEN}"));
            let header = Some(sent);
            assert!(webmail_allowed(&header, &cfg, &sessions));
            assert!(!admin_allowed(&header, &cfg, &sessions));
            assert_eq!(
                mailbox_email(&parse_cookies(&header), &cfg, &sessions),
                Some("a@b.c".to_string())
            );
        }
        other => panic!("{other:?}"),
    }
    assert_eq!(
        webmail_login(&form, false, &cfg),
        failed(401, "The email or password is incorrect.")
    );
}

#[test]
fn mailbox_session_reaches_own_mailbox_only() {
    let cfg = config_with("pw");
    let sessions = Sessions::new();
    let own = parse_cookies(&Some(format!("{MAILBOX_SESSION_COOKIE}=a@b.c:{BOX_TOKEN}")));
    let asked = Some("other@b.c".to_string());
    assert_eq!(resolve_webmail_email(&own, &cfg, &sessions, &asked), Some("a@b.c".to_string()));
    let nobody = parse_cookies(&None);
    assert_eq!(resolve_webmail_email(&nobody, &cfg, &sessions, &asked), None);
    assert!(!webmail_allowed(&None, &cfg, &sessions));
    let secret = config_with("secret");
    let admin = parse_cookies(&Some(format!("{SESSION_COOKIE}={ADMIN_SESSION}")));
    assert_eq!(
        resolve_webmail_email(&admin, &secret, &sessions, &asked),
        Some("other@b.c".to_string())
    );
    assert_eq!(resolve_webmail_email(&admin, &secret, &sessions, &Some(String::new())), None);
    assert_eq!(resolve_webmail_email(&admin, &secret, &sessions, &None), None);
    assert_eq!(mailbox_email(&admin, &secret, &sessions), None);
    assert!(webmail_allowed(&Some(format!("{SESSION_COOKIE}={ADMIN_SESSION}")), &secret, &sessions));
}

#[test]
fn logout_takes_cookies_back() {
    let cfg = config_with("pw");
    let sessions = Sessions::new();
    let cleared = vec![
        "akurai_session=; Path=/; HttpOnly; SameSite=Lax; Secure; Max-Age=0".to_string(),
        "akurai_mailbox_session=; Path=/webmail; HttpOnly; SameSite=Lax; Secure; Max-Age=0".to_string(),
    ];
    assert_eq!(
        logout(&None, &cfg, &sessions),
        Reply::Redirect(303, "/login".to_string(), cleared.clone())
    );
    let header = Some(format!("{MAILBOX_SESSION_COOKIE}=a@b.c:{BOX_TOKEN}"));
    assert_eq!(
        logout(&header, &cfg, &sessions),
        Reply::Redirect(303, "/webmail/login".to_string(), cleared.clone())
    );
    assert_eq!(
        webmail_logout(),
        Reply::Redirect(303, "/webmail/login".to_string(), vec![cleared[1].clone()])
    );
}

#[test]
fn auth_check_route_answers() {
    let cfg = config_with("pw");
    let header = Some(format!("{MAILBOX_SESSION_COOKIE}=a@b.c:{BOX_TOKEN}"));
    assert_eq!(
        auth_check(&header, &cfg, &Sessions::new()),
        Reply::Data(
            200,
            object(vec![
                ("authenticated", Json::Bool(false)),
                ("mailbox", text("a@b.c")),
                ("user", text(""))
            ]),
            vec![]
        )
    );
    assert_eq!(unauthorized(), failed(401, "authentication required"));
}

#[test]
fn command_results_are_answered() {
    assert_eq!(command_reply(Ok(Json::Null)), Reply::Data(200, Json::Null, vec![]));
    assert_eq!(command_reply(Err("broken".to_string())), failed(500, "broken"));
}

fn action(name: &str) -> ActionBody {
    ActionBody {
        action: name.to_string(),
        email: Some("e".to_string()),
        alias: Some("a".to_string()),
        target: Some("t".to_string()),
        domain: Some("d".to_string()),
        policy: None,
    }
}

#[test]
fn admin_actions_are_commands() {
    let s = |x: &str| x.to_string();
    let cases = vec![
        ("add-user", Command::AddUser(s("e"))),
        ("set-password", Command::SetPassword(s("e"))),
        ("add-alias", Command::AddAlias(s("a"), s("t"))),
        ("anti-spam-config", Command::AntiSpamConfig(object(vec![]))),
        ("anti-spam-scan", Command::AntiSpamScan(Some(s("e")))),
        ("domain-add", Command::DomainAdd(s("d"))),
        ("domain-check", Command::DomainCheck(s("d"))),
        ("domain-remove", Command::DomainRemove(s("d"))),
    ];
    for (name, command) in cases {
        assert_eq!(actions(&action(name)), Decision::Perform(command));
    }
    assert_eq!(actions(&action("nothing")), Decision::Answer(failed(400, "unknown action")));
    let mut all = action("anti-spam-scan");
    all.email = None;
    assert_eq!(actions(&all), Decision::Perform(Command::AntiSpamScan(None)));
    let mut bare = action("add-user");
    bare.email = None;
    assert_eq!(actions(&bare), Decision::Perform(Command::AddUser(String::new())));
}

#[test]
fn folder_requests_are_commands() {
    let cfg = config_with("pw");
    let header = Some(format!("{MAILBOX_SESSION_COOKIE}=a@b.c:{BOX_TOKEN}"));
    let q = WebmailQuery { email: None, folder: None, query: None };
    assert_eq!(
        webmail_get(&header, &cfg, &Sessions::new(), &q),
        Decision::Perform(Command::WebmailState("a@b.c".to_string(), "Inbox".to_string(), String::new()))
    );
    assert_eq!(
        webmail_get(&None, &cfg, &Sessions::new(), &q),
        Decision::Answer(failed(400, "email is required"))
    );
}

fn post(name: &str) -> WebmailPostBody {
    WebmailPostBody {
        action: name.to_string(),
        email: None,
        id: Some("i".to_string()),
        message: Some(Json::Bool(true)),
        message_action: Some("star".to_string()),
        target: None,
        kind: Some("rule".to_string()),
        value: None,
        folder: None,
        index: Some("2".to_string()),
    }
}

#[test]
fn webmail_requests_are_commands() {
    let cfg = config_with("pw");
    let header = Some(format!("{MAILBOX_SESSION_COOKIE}=a@b.c:{BOX_TOKEN}"));
    let sessions = Sessions::new();
    let mut limiter = RateLimiter::new();
    let s = |x: &str| x.to_string();
    let m = || "a@b.c".to_string();
    let cases = vec![
        ("read", Command::WebmailRead(m(), s("i"))),
        ("send", Command::WebmailSend(m(), Json::Bool(true))),
        ("draft", Command::WebmailDraft(m(), Json::Bool(true))),
        ("message", Command::WebmailAction(m(), s("i"), s("star"), s("Archive"))),
        ("config", Command::WebmailConfig(m(), s("rule"), object(vec![]))),
        ("apply-rules", Command::WebmailApplyRules(m(), s("Inbox"))),
        ("export", Command::WebmailExport(m())),
        ("import", Command::WebmailImport(m(), object(vec![]))),
        ("attachment", Command::WebmailAttachment(m(), s("i"), s("2"))),
    ];
    for (name, command) in cases {
        assert_eq!(
            webmail_post(&header, &cfg, &sessions, &post(name), &mut limiter, 0),
            Decision::Perform(command)
        );
    }
    assert_eq!(
        webmail_post(&header, &cfg, &sessions, &post("zap"), &mut limiter, 0),
        Decision::Answer(failed(400, "unknown action"))
    );
    assert_eq!(
        webmail_post(&None, &cfg, &sessions, &post("read"), &mut limiter, 0),
        Decision::Answer(failed(400, "email is required"))
    );
}

#[test]
fn requests_are_limited() {
    let cfg = config_with("pw");
    let sessions = Sessions::new();
    let mut limiter = RateLimiter::new();
    for i in 0..90 {
        assert!(limiter.rate_limit("global", i), "{i}");
    }
    assert_eq!(
        webmail_post(&None, &cfg, &sessions, &post("read"), &mut limiter, 90),
        Decision::Answer(failed(429, "rate limit exceeded"))
    );
    assert!(limiter.rate_limit("other", 90));
}

#[test]
fn window_counts_all_requests() {
    let second = 1_000_000_000;
    let mut limiter = RateLimiter::new();
    for _ in 0..91 {
        limiter.rate_limit("k", 0);
    }
    assert!(!limiter.rate_limit("k", 60 * second - 1));
    assert!(limiter.rate_limit("k", 60 * second));
}

#[test]
fn login_comes_back_with_its_key() {
    let cfg = config_with("secret");
    let mut flows = Flows::new();
    start_login(&cfg, &mut flows, "st".to_string(), "key".to_string());
    start_login(&cfg, &mut flows, "other".to_string(), "key2".to_string());
    match oidc_callback(&query(Some("c"), Some("st"), None, None), &cfg, &mut flows) {
        Callback::Ask(t) => assert_eq!(t.code_verifier, "key"),
        other => panic!("{other:?}"),
    }
    assert_eq!(flows.take("other"), Some("key2".to_string()));
}

#[test]
fn sessions_start_for_an_address() {
    let mut sessions = Sessions::new();
    start_session(&mut sessions, "one".to_string(), Some("a@b.c".to_string()));
    start_session(&mut sessions, "two".to_string(), None);
    assert_eq!(sessions.get("one"), Some("a@b.c".to_string()));
    assert_eq!(sessions.get("two"), Some("unknown".to_string()));
}
