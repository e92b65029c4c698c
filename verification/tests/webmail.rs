use akurai_mail::antispam::{
    anti_spam_config, anti_spam_scan, block_sender, can_block, can_configure, can_record_scan, process_incoming,
    record_scan, scan_mailbox_for_spam, scan_sums, scan_targets, scans_folder, sender_of, spam_summary, spam_total, MailboxScan, SpamCount,
};
use akurai_mail::json::{Json, Number};
use akurai_mail::mail::{
    all_parts, attachment_names, escape_html, filename, first_body, html_from_message, message_links,
    parse_message, part_by_index, sanitize_html,
};
use akurai_mail::maildir::FolderCount;
use akurai_mail::messages::{
    list_messages, message_summary, webmail_attachment, webmail_read, webmail_state,
};
use akurai_mail::score::{scan_message, scan_totals, score_signs, should_move, spam_score, Scan};
use akurai_mail::spam::{clean_list, spam_policy, spam_policy_default, update_policy_list};
use akurai_mail::state::{state_default, webmail_default};
use akurai_mail::users::MailUser;
use akurai_mail::webmail::{
    action_reply, active_rules, can_import, can_set, put_contact, put_rule, renamed, rule_id, rule_target, rule_targets,
    webmail_action, webmail_apply_rules,
    webmail_config, webmail_export, webmail_import, MessageAction,
};

fn object(members: Vec<(&str, Json)>) -> Json {
    Json::Object(members.into_iter().map(|(k, v)| (k.to_string(), v)).collect())
}

fn text(s: &str) -> Json {
    Json::Text(s.to_string())
}

fn number(n: u64) -> Json {
    Json::Number(Number::Unsigned(n))
}

fn texts(list: &[&str]) -> Json {
    Json::Array(list.iter().map(|s| text(s)).collect())
}

const PLAIN: &[u8] = b"From: Joe <Joe@Spam.org>\r\nTo: me@b.c\r\nSubject: You are a WINNER\r\nDate: today\r\n\r\nhello  there\r\nhttp://x www.y\r\n";

const MIXED: &[u8] = b"From: a@b.c\r\nContent-Type: multipart/mixed; boundary=\"B\"\r\n\r\n--B\r\nContent-Type: text/plain\r\n\r\nbody <1>\r\n--B\r\nContent-Type: text/plain; name=\"n.txt\"\r\nContent-Disposition: attachment; filename=\"f.EXE\"\r\nContent-Transfer-Encoding: base64\r\n\r\naGVsbG8=\r\n--B--\r\n";

const HTML: &[u8] = b"From: a@b.c\r\nContent-Type: text/html\r\n\r\n<b>hi</b>";

#[test]
fn plain_message_is_parsed() {
    let m = parse_message(PLAIN).unwrap();
    assert_eq!(m.from, Some("Joe <Joe@Spam.org>".to_string()));
    assert_eq!(m.subject, Some("You are a WINNER".to_string()));
    assert_eq!(m.authentication, None);
    assert_eq!(m.root.mimetype, "text/plain");
    assert_eq!(first_body(&m.root, "TEXT/plain"), "hello  there\r\nhttp://x www.y\r\n");
    assert_eq!(first_body(&m.root, "text/html"), "");
}

#[test]
fn parts_are_walked_in_order() {
    let m = parse_message(MIXED).unwrap();
    let parts = all_parts(&m.root);
    assert_eq!(parts.len(), 3);
    assert_eq!(filename(parts[2]), Some("f.EXE".to_string()));
    assert_eq!(parts[2].content_name, Some("n.txt".to_string()));
    assert_eq!(parts[2].raw, Ok(b"hello".to_vec()));
    assert_eq!(first_body(&m.root, "text/plain").trim_end(), "body <1>");
    assert_eq!(attachment_names(&m.root), vec!["f.EXE"]);
    assert_eq!(part_by_index(&m.root, 2), Some(parts[2]));
    assert_eq!(part_by_index(&m.root, 0), Some(&m.root));
    assert_eq!(part_by_index(&m.root, 3), None);
}

#[test]
fn bad_message_is_refused() {
    let bad = b" folded";
    assert!(parse_message(bad).is_err());
    assert_eq!(scan_message(bad, &spam_policy_default()), Scan::Skipped);
    assert_eq!(sender_of(bad), None);
    let policy = spam_policy_default();
    let summary = message_summary("Inbox", "cur", "n", bad, 0, &policy).unwrap_err();
    assert!(summary.starts_with("parse message: "));
    let read = webmail_read("Inbox", "cur", "n", bad, 0, &policy).unwrap_err();
    assert!(read.starts_with("parse message: "));
    assert!(webmail_attachment(bad, "0").unwrap_err().starts_with("parse message: "));
}

#[test]
fn escaped_text_is_inert() {
    assert_eq!(escape_html("<a href=\"x\">&</a>"), "&lt;a href=&quot;x&quot;&gt;&amp;&lt;/a&gt;");
    assert_eq!(message_links("HTTP://a https://b www.c wwwx"), 3);
}

#[test]
fn html_is_cleaned() {
    assert_eq!(sanitize_html("<b>x</b>"), "<b>x</b>");
    assert_eq!(
        sanitize_html("<p onclick=\"go()\">a<script>x</script>b</p><STYLE\n>q</style>c"),
        "<p>ab</p>c"
    );
    for name in ["script", "style", "iframe", "object", "embed", "link", "meta", "base", "form"] {
        let upper = name.to_uppercase();
        assert_eq!(sanitize_html(&format!("a<{name} x=1>in\nside</{upper}>b")), "ab");
        assert_eq!(sanitize_html(&format!("a<{name} x=1/>b")), "ab");
        assert_eq!(sanitize_html(&format!("a<{name}>b")), "ab");
    }
    assert_eq!(sanitize_html("<i onload = 'a\"b' id='c'>d</i>"), "<i id='c'>d</i>");
    assert_eq!(sanitize_html("<a href=\" javascript:go()\">d</a>"), "<ahref=\"#\">d</a>");
    assert_eq!(sanitize_html("<a SRC='JavaScript:go(\"x\")'>d</a>"), "<aSRC=\"#\">d</a>");
    assert_eq!(sanitize_html("<a href='http://x'>d</a>"), "<a href='http://x'>d</a>");
}

#[test]
fn html_shows_a_message() {
    assert_eq!(html_from_message(&parse_message(HTML).unwrap().root), "<b>hi</b>");
    assert!(html_from_message(&parse_message(MIXED).unwrap().root).starts_with("body &lt;1&gt;"));
    let raw = b"From: a@b.com\r\nContent-Type: text/html\r\n\r\n<b>hi</b><script>x</script>";
    let reply = webmail_read("Inbox", "cur", "n", raw, 1, &spam_policy_default()).unwrap();
    assert!(reply.bool_at("ok", false));
    let message = reply.copy_at("message");
    assert_eq!(message.text_at("bodyHtml", ""), "<b>hi</b>");
    assert_eq!(message.text_at("bodyText", "?"), "");
    assert_eq!(message.text_at("from", ""), "a@b.com");
}

#[test]
fn lists_are_cleaned() {
    let raw = Json::Array(vec![text(" B@x, @y;\n,b@X "), number(1), texts(&["z"])]);
    assert_eq!(clean_list(&raw, false), vec!["@y", "b@x", "z"]);
    assert_eq!(clean_list(&raw, true), vec!["b@x", "y", "z"]);
    assert!(clean_list(&Json::Null, false).is_empty());
    for values in [raw, text("ÄÖ@x; Σ@Y,İ@z")] {
        let once = clean_list(&values, false);
        let again = Json::Array(once.iter().map(|s| text(s)).collect());
        assert_eq!(clean_list(&again, false), once);
    }
}

#[test]
fn policy_lists_are_updated() {
    let mut policy = spam_policy_default();
    update_policy_list(&mut policy, "blocklist", "add", &text("b@x,a@x"));
    update_policy_list(&mut policy, "blocklist", "add", &text("c@x"));
    assert_eq!(policy.copy_at("blocklist"), texts(&["a@x", "b@x", "c@x"]));
    update_policy_list(&mut policy, "blocklist", "remove", &text("b@x"));
    assert_eq!(policy.copy_at("blocklist"), texts(&["a@x", "c@x"]));
    update_policy_list(&mut policy, "blocklist", "set", &text("q"));
    assert_eq!(policy.copy_at("blocklist"), texts(&["q"]));
    let many: Vec<Json> = (0..300).map(|i| text(&format!("{i:03}"))).collect();
    update_policy_list(&mut policy, "blocklist", "set", &Json::Array(many));
    assert_eq!(policy.items_at("blocklist").len(), 200);
}

#[test]
fn policy_is_completed() {
    let mut data = object(vec![("spamPolicy", object(vec![("threshold", number(9))]))]);
    let policy = spam_policy(&mut data);
    assert_eq!(policy.unsigned_at("threshold", 0), 9);
    assert_eq!(policy.unsigned_at("maxLinks", 0), 10);
    assert_eq!(data.copy_at("spamPolicy"), policy);
    let mut none = Json::Null;
    assert_eq!(spam_policy(&mut none).unsigned_at("threshold", 0), 5);
}

#[test]
fn spam_is_scored() {
    let policy = spam_policy_default();
    let m = parse_message(PLAIN).unwrap();
    assert_eq!(spam_score(&m, &policy), (2, vec!["keyword: winner".to_string()]));
    let m = parse_message(MIXED).unwrap();
    assert_eq!(spam_score(&m, &policy), (6, vec!["attachment: .exe".to_string()]));
    let raw = b"From: a@b.com\r\nAuthentication-Results: x; SPF=fail dkim=fail\r\n\r\nhttp://a http://b";
    let mut strict = spam_policy_default();
    strict.set("maxLinks", number(1));
    strict.set("domainBlocklist", texts(&["b.com"]));
    assert_eq!(
        spam_score(&parse_message(raw).unwrap(), &strict),
        (
            16,
            vec![
                "blocked domain".to_string(),
                "spf=fail".to_string(),
                "dkim=fail".to_string(),
                "link count: 2".to_string()
            ]
        )
    );
}

#[test]
fn allowlisted_sender_stays() {
    let mut policy = spam_policy_default();
    policy.set("blocklist", texts(&["joe@spam.org"]));
    let m = parse_message(PLAIN).unwrap();
    assert_eq!(
        spam_score(&m, &policy),
        (12, vec!["blocked sender".to_string(), "keyword: winner".to_string()])
    );
    assert_eq!(scan_message(PLAIN, &policy), Scan::Moved);
    policy.set("allowlist", texts(&["spam.org"]));
    assert_eq!(spam_score(&m, &policy), (0, vec!["allowlisted".to_string()]));
    assert_eq!(scan_message(PLAIN, &policy), Scan::Kept);
}

#[test]
fn moving_follows_the_policy() {
    let mut policy = spam_policy_default();
    assert!(should_move(5, &policy));
    assert!(!should_move(4, &policy));
    policy.set("autoMove", Json::Bool(false));
    assert!(!should_move(50, &policy));
    policy.set("autoMove", Json::Bool(true));
    policy.set("enabled", Json::Bool(false));
    assert!(!should_move(50, &policy));
    assert_eq!(scan_totals(&vec![Scan::Moved, Scan::Kept, Scan::Skipped, Scan::Moved]), (3, 2));
}

fn counts(n: u64) -> Vec<SpamCount> {
    vec![
        SpamCount { email: "a@b.c".to_string(), spam: n },
        SpamCount { email: "d@b.c".to_string(), spam: 1 },
    ]
}

#[test]
fn spam_is_summed_up() {
    assert_eq!(spam_total(&counts(4)), Some(5));
    assert_eq!(spam_total(&counts(u64::MAX)), None);
    let mut data = state_default();
    let summary = spam_summary(&mut data, &counts(4));
    assert_eq!(summary.unsigned_at("totalSpam", 0), 5);
    assert_eq!(
        summary.items_at("mailboxes")[0],
        object(vec![("email", text("a@b.c")), ("spam", number(4))])
    );
    assert_eq!(summary.copy_at("policy"), data.copy_at("spamPolicy"));
}

#[test]
fn policy_numbers_stay_in_range() {
    let mut data = state_default();
    let payload = object(vec![
        ("enabled", Json::Bool(false)),
        ("threshold", Json::Number(Number::Negative(-3))),
        ("maxLinks", number(1000)),
        ("field", text("domainBlocklist")),
        ("value", text("@x.y")),
    ]);
    let reply = anti_spam_config(&mut data, &payload, 8, &counts(0));
    assert!(reply.bool_at("ok", false));
    let policy = data.copy_at("spamPolicy");
    assert!(!policy.bool_at("enabled", true));
    assert_eq!(policy.unsigned_at("threshold", 0), 1);
    assert_eq!(policy.unsigned_at("maxLinks", 0), 100);
    assert_eq!(policy.copy_at("domainBlocklist"), texts(&["x.y"]));
    assert_eq!(reply.copy_at("antiSpam").copy_at("policy"), policy);
    assert_eq!(data.items_at("events")[0].text_at("text", ""), "Anti-spam policy updated");
    let odd = object(vec![("field", text("stats")), ("values", text("x"))]);
    anti_spam_config(&mut data, &odd, 9, &counts(0));
    assert_eq!(data.copy_at("spamPolicy"), policy);
}

#[test]
fn scans_are_recorded() {
    let mut data = state_default();
    assert!(can_record_scan(&data, 3, 1));
    record_scan(&mut data, 3, 1, 77);
    record_scan(&mut data, 2, 0, 78);
    let stats = data.copy_at("spamPolicy").copy_at("stats");
    assert_eq!(stats.unsigned_at("scanned", 0), 5);
    assert_eq!(stats.unsigned_at("moved", 0), 1);
    assert_eq!(stats.unsigned_at("lastScan", 0), 78);
    assert!(!can_record_scan(&data, u64::MAX, 0));
    let mut state = state_default();
    assert!(process_incoming(&mut state, &vec![Scan::Kept], 5));
    assert!(!process_incoming(&mut state, &vec![Scan::Skipped], 6));
    let stats = state.copy_at("spamPolicy").copy_at("stats");
    assert_eq!(stats.unsigned_at("lastScan", 0), 5);
    assert!(scans_folder("Inbox"));
    assert!(!scans_folder("Spam"));
}

#[test]
fn mailboxes_are_scanned() {
    let users = vec![
        MailUser { email: "a@b.c".to_string(), home: "/a".to_string() },
        MailUser { email: "d@b.c".to_string(), home: "/d".to_string() },
    ];
    assert_eq!(scan_targets(&None, &users), vec!["a@b.c", "d@b.c"]);
    assert_eq!(scan_targets(&Some("z".to_string()), &users), vec!["z"]);
    let row = scan_mailbox_for_spam("a@b.c", &vec![Scan::Moved, Scan::Kept]);
    assert_eq!((row.scanned, row.moved), (2, 1));
    let rows = vec![row, MailboxScan { email: "d@b.c".to_string(), scanned: 3, moved: 0 }];
    assert_eq!(scan_sums(&rows), Some((5, 1)));
    let mut data = state_default();
    let reply = anti_spam_scan(&mut data, &rows, 9, &counts(1));
    assert_eq!(reply.unsigned_at("scanned", 0), 5);
    assert_eq!(reply.unsigned_at("moved", 0), 1);
    assert_eq!(
        reply.items_at("results")[0],
        object(vec![("email", text("a@b.c")), ("scanned", number(2)), ("moved", number(1))])
    );
    assert_eq!(
        data.items_at("events")[0].text_at("text", ""),
        "Anti-spam scan moved 1 of 5 message(s)"
    );
}

#[test]
fn blocked_sender_is_listed() {
    assert_eq!(sender_of(PLAIN), Some("joe@spam.org".to_string()));
    let mut state = state_default();
    assert!(block_sender(&mut state, "joe@spam.org", 4));
    assert!(!block_sender(&mut state, "joe@spam.org", 5));
    assert!(!block_sender(&mut state, "", 5));
    assert_eq!(state.copy_at("spamPolicy").copy_at("blocklist"), texts(&["joe@spam.org"]));
    assert_eq!(
        state.items_at("events")[0].text_at("text", ""),
        "Spam sender blocked: joe@spam.org"
    );
    let policy = spam_policy(&mut state);
    assert_eq!(scan_message(PLAIN, &policy), Scan::Moved);
}

#[test]
fn messages_are_summarized() {
    let row = message_summary("Inbox", "new", "n:2,F", PLAIN, 99, &spam_policy_default()).unwrap();
    assert_eq!(row.text_at("folder", ""), "Inbox");
    assert_eq!(row.text_at("from", ""), "Joe <Joe@Spam.org>");
    assert_eq!(row.text_at("to", ""), "me@b.c");
    assert_eq!(row.text_at("subject", ""), "You are a WINNER");
    assert_eq!(row.text_at("date", ""), "today");
    assert_eq!(row.unsigned_at("timestamp", 0), 99);
    assert_eq!(row.text_at("preview", ""), "hello there http://x www.y");
    assert!(row.bool_at("unread", false));
    assert!(row.bool_at("flagged", false));
    assert_eq!(row.copy_at("attachments"), Json::Array(vec![]));
    assert_eq!(row.unsigned_at("spamScore", 0), 2);
    assert_eq!(row.copy_at("spamReasons"), texts(&["keyword: winner"]));
    let seen = message_summary("Inbox", "cur", "n:2,S", MIXED, 0, &spam_policy_default()).unwrap();
    assert!(!seen.bool_at("unread", true));
    assert_eq!(seen.text_at("subject", ""), "(no subject)");
    let long = format!("From: a\r\n\r\n{}", "é".repeat(200));
    let row = message_summary("Inbox", "cur", "n", long.as_bytes(), 0, &Json::Null).unwrap();
    assert_eq!(row.text_at("preview", "").chars().count(), 180);
}

#[test]
fn message_is_read() {
    let reply = webmail_read("Inbox", "cur", "n", MIXED, 5, &spam_policy_default()).unwrap();
    assert!(reply.bool_at("ok", false));
    let m = reply.copy_at("message");
    assert_eq!(m.text_at("bodyText", "").trim_end(), "body <1>");
    assert!(m.text_at("bodyHtml", "").starts_with("body &lt;1&gt;"));
    assert_eq!(
        m.items_at("attachments")[0],
        object(vec![
            ("index", number(2)),
            ("filename", text("f.EXE")),
            ("contentType", text("text/plain")),
            ("size", number(5))
        ])
    );
}

#[test]
fn listed_attachment_is_found() {
    assert_eq!(
        webmail_attachment(MIXED, "2"),
        Ok(object(vec![
            ("ok", Json::Bool(true)),
            ("filename", text("f.EXE")),
            ("contentType", text("text/plain")),
            ("data", text("aGVsbG8="))
        ]))
    );
    assert_eq!(webmail_attachment(MIXED, "x"), Err("invalid attachment index".to_string()));
    assert_eq!(webmail_attachment(MIXED, "1"), Err("attachment not found".to_string()));
    assert_eq!(webmail_attachment(MIXED, "9"), Err("attachment not found".to_string()));
}

#[test]
fn newest_messages_come_first() {
    let row = |subject: &str, at: u64| {
        object(vec![("from", text("Joe")), ("subject", text(subject)), ("timestamp", number(at))])
    };
    let rows = vec![row("a", 1), row("b", 3), row("c", 1)];
    let order: Vec<String> =
        list_messages(&rows, "").iter().map(|r| r.text_at("subject", "")).collect();
    assert_eq!(order, vec!["b", "a", "c"]);
    assert_eq!(list_messages(&rows, "JOE").len(), 3);
    assert_eq!(list_messages(&rows, "nobody").len(), 0);
    let many: Vec<Json> = (0..150).map(|i| row("x", i)).collect();
    let shown = list_messages(&many, "");
    assert_eq!(shown.len(), 100);
    assert_eq!(shown[0].unsigned_at("timestamp", 0), 149);
}

#[test]
fn mailbox_is_shown() {
    let mut data = webmail_default();
    let audit: Vec<Json> = (0..30).map(number).collect();
    data.set("audit", Json::Array(audit));
    let folders: Vec<FolderCount> = (0..6).map(|_| FolderCount { total: 1, unread: 1 }).collect();
    let reply = webmail_state("a@b.c", "Sent", "", &data, &folders, &vec![]);
    assert_eq!(reply.text_at("mailbox", ""), "a@b.c");
    assert_eq!(reply.text_at("folder", ""), "Sent");
    assert_eq!(reply.items_at("folders").len(), 6);
    assert_eq!(reply.items_at("audit").len(), 20);
    assert_eq!(reply.copy_at("preferences").text_at("density", ""), "comfortable");
}

#[test]
fn contact_is_kept_once() {
    let mut list = put_contact(&vec![], "Zed", "z@x");
    list = put_contact(&list, "Al", "a@x");
    list = put_contact(&list, "Zack", "z@x");
    assert_eq!(
        list,
        vec![
            object(vec![("name", text("Al")), ("email", text("a@x"))]),
            object(vec![("name", text("Zack")), ("email", text("z@x"))])
        ]
    );
    assert_eq!(put_contact(&list, "x", "").len(), 2);
}

#[test]
fn settings_are_changed() {
    let mut data = webmail_default();
    let none = Json::object();
    let contact = object(vec![("email", text(" a@x\n")), ("name", text("Al"))]);
    let reply = webmail_config(&mut data, "me@x", "contact", &contact, b"").unwrap();
    assert_eq!(reply.copy_at("webmail"), data);
    assert_eq!(data.items_at("contacts")[0].text_at("email", ""), "a@x");
    let signature = object(vec![("signature", text("bye"))]);
    webmail_config(&mut data, "me@x", "signature", &signature, b"").unwrap();
    assert_eq!(data.copy_at("signatures").text_at("me@x", ""), "bye");
    webmail_config(&mut data, "me@x", "vacation", &none, b"").unwrap();
    assert!(!data.copy_at("vacation").bool_at("enabled", true));
    let preferences = object(vec![("theme", text("dark")), ("new", number(1))]);
    webmail_config(&mut data, "me@x", "preferences", &preferences, b"").unwrap();
    let kept = data.copy_at("preferences");
    assert_eq!(kept.text_at("theme", ""), "dark");
    assert_eq!(kept.text_at("density", ""), "comfortable");
    assert_eq!(kept.unsigned_at("new", 0), 1);
    assert_eq!(
        webmail_config(&mut data, "me@x", "zap", &none, b""),
        Err("unknown config kind".to_string())
    );
    let mut bad = object(vec![("signatures", Json::Null), ("preferences", Json::Null)]);
    assert_eq!(
        webmail_config(&mut bad, "me@x", "signature", &none, b""),
        Err("invalid signatures state".to_string())
    );
    assert_eq!(
        webmail_config(&mut bad, "me@x", "preferences", &none, b""),
        Err("invalid preferences state".to_string())
    );
}

#[test]
fn new_rule_is_last() {
    let mut data = webmail_default();
    let request = b"{\"field\":\"from\"}";
    let payload = object(vec![("field", text("from"))]);
    assert_eq!(rule_id(request), "5da9519262e6");
    for _ in 0..55 {
        webmail_config(&mut data, "me@x", "rule", &payload, request).unwrap();
    }
    let rules = data.items_at("rules");
    assert_eq!(rules.len(), 50);
    assert_eq!(
        rules[49],
        object(vec![
            ("id", text("5da9519262e6")),
            ("field", text("from")),
            ("contains", text("")),
            ("action", text("Archive")),
            ("enabled", Json::Bool(true))
        ])
    );
}

#[test]
fn import_restores_export() {
    let mut data = webmail_default();
    data.set("contacts", Json::Array(vec![number(1)]));
    let exported = webmail_export(&data).copy_at("webmail");
    assert_eq!(exported, data);
    let mut fresh = webmail_default();
    let reply = webmail_import(&mut fresh, &exported, 6);
    assert!(reply.bool_at("ok", false));
    for key in ["contacts", "signatures", "vacation", "rules", "preferences"] {
        assert_eq!(fresh.copy_at(key), data.copy_at(key));
    }
    assert_eq!(
        fresh.items_at("audit")[0],
        object(vec![("at", number(6)), ("text", text("Settings imported"))])
    );
}

#[test]
fn rules_choose_a_folder() {
    let rule = |contains: &str, action: &str, enabled: bool| {
        object(vec![
            ("field", text("subject")),
            ("contains", text(contains)),
            ("action", text(action)),
            ("enabled", Json::Bool(enabled)),
        ])
    };
    let data = object(vec![(
        "rules",
        Json::Array(vec![
            rule("Win", "Spam", false),
            rule("", "Trash", true),
            rule("win", "Nowhere", true),
            rule("WIN", "Inbox", true),
            rule("win", "Archive", true),
        ]),
    )]);
    let rules = active_rules(&data);
    assert_eq!(rules.len(), 4);
    let item = object(vec![("subject", text("Winner"))]);
    assert_eq!(rule_target(&rules, &item, "Inbox"), Some("Archive".to_string()));
    assert_eq!(rule_target(&rules, &item, "Archive"), Some("Inbox".to_string()));
    assert_eq!(rule_target(&rules, &Json::Null, "Inbox"), None);
    let items = vec![item, Json::Null, object(vec![("subject", text("no WIN no"))])];
    let targets = rule_targets(&rules, &items, "Inbox");
    let archive = Some("Archive".to_string());
    assert_eq!(targets, vec![archive.clone(), None, archive]);
    assert_eq!(
        webmail_apply_rules(&targets),
        object(vec![("ok", Json::Bool(true)), ("moved", number(2))])
    );
    assert_eq!(
        webmail_apply_rules(&vec![]),
        object(vec![("ok", Json::Bool(true)), ("moved", number(0))])
    );
}

#[test]
fn message_actions_are_known() {
    let cases = vec![
        ("delete", MessageAction::MoveTo("Trash".to_string())),
        ("archive", MessageAction::MoveTo("Archive".to_string())),
        ("spam", MessageAction::Spam),
        ("move", MessageAction::MoveTo("Sent".to_string())),
        ("read", MessageAction::MarkRead),
        ("unread", MessageAction::MarkUnread),
        ("star", MessageAction::Star(true)),
        ("unstar", MessageAction::Star(false)),
    ];
    for (name, action) in cases {
        assert_eq!(webmail_action(name, "Sent"), Ok(action));
    }
    assert_eq!(webmail_action("zap", "Sent"), Err("unknown message action".to_string()));
    assert_eq!(
        action_reply("star"),
        object(vec![("ok", Json::Bool(true)), ("action", text("star"))])
    );
}

#[test]
fn known_signs_are_scored() {
    let mut policy = spam_policy_default();
    policy.set("blocklist", texts(&["x@y.zz"]));
    policy.set("attachmentExtensions", texts(&["..exe"]));
    let names = vec!["a.EXE".to_string(), "b.txt".to_string(), "noext".to_string()];
    assert_eq!(
        score_signs("x@y.zz", "crypto lottery", "dmarc=fail spf=softfail", &names, 11, &policy),
        (
            28,
            vec![
                "blocked sender".to_string(),
                "keyword: crypto".to_string(),
                "keyword: lottery".to_string(),
                "dmarc=fail".to_string(),
                "spf=softfail".to_string(),
                "attachment: .exe".to_string(),
                "link count: 11".to_string(),
            ]
        )
    );
    assert_eq!(score_signs("x@y.zz", "", "", &vec![], 10, &policy).0, 10);
    let many = Json::Array((0..20).map(|i| text(&format!("w{i:02}"))).collect());
    policy.set("subjectKeywords", many);
    let search: String = (0..20).map(|i| format!("w{i:02} ")).collect();
    let (score, reasons) = score_signs("a@b.cc", &search, "", &vec![], 0, &policy);
    assert_eq!((score, reasons.len()), (40, 8));
}

#[test]
fn changes_need_a_place() {
    let good = state_default();
    let bad = object(vec![("spamPolicy", Json::Bool(true))]);
    let change = object(vec![("enabled", Json::Bool(true))]);
    assert!(can_configure(&good, &change));
    assert!(!can_configure(&bad, &change));
    assert!(!can_configure(&bad, &object(vec![("field", text("allowlist"))])));
    assert!(can_configure(&bad, &object(vec![("field", text("other"))])));
    assert!(can_block(&good, "a@b.cc"));
    assert!(!can_block(&bad, "a@b.cc"));
    assert!(can_block(&bad, ""));
    assert!(can_set(&Json::Null, "rule"));
    assert!(!can_set(&Json::Bool(true), "rule"));
    assert!(can_set(&Json::Bool(true), "zap"));
    assert!(!can_import(&Json::Bool(true), &object(vec![("rules", Json::Null)])));
    assert!(can_import(&Json::Bool(true), &object(vec![("audit", Json::Null)])));
}

#[test]
fn rules_are_put_with_their_identifier() {
    let rules = put_rule(vec![], "id", &object(vec![("contains", text("x"))]));
    assert_eq!(rules[0].text_at("id", ""), "id");
    assert_eq!(rules[0].text_at("contains", ""), "x");
    assert_eq!(rules[0].text_at("field", ""), "from");
}

#[test]
fn only_older_messages_are_left_out() {
    let rows: Vec<Json> = (0..101).map(|i| object(vec![("timestamp", number(i))])).collect();
    let shown = list_messages(&rows, "");
    assert_eq!(shown.len(), 100);
    assert!(shown.iter().all(|r| r.unsigned_at("timestamp", 0) > 0));
}

#[test]
fn removed_entries_are_gone() {
    let mut policy = spam_policy_default();
    update_policy_list(&mut policy, "domainBlocklist", "add", &text("@A.com, b.com"));
    assert_eq!(policy.copy_at("domainBlocklist"), texts(&["a.com", "b.com"]));
    update_policy_list(&mut policy, "domainBlocklist", "remove", &text("@@a.com"));
    assert_eq!(policy.copy_at("domainBlocklist"), texts(&["b.com"]));
}

#[test]
fn actions_are_shown() {
    let pair = |d: &str, n: &str| Some((d.to_string(), n.to_string()));
    assert_eq!(renamed(&MessageAction::MarkRead, "new", "n"), pair("cur", "n:2,S"));
    assert_eq!(renamed(&MessageAction::MarkRead, "cur", "n"), None);
    assert_eq!(renamed(&MessageAction::MarkUnread, "cur", "n:2,FS"), pair("new", "n:2,F"));
    assert_eq!(renamed(&MessageAction::Star(true), "cur", "n:2,S"), pair("cur", "n:2,FS"));
    assert_eq!(renamed(&MessageAction::Star(false), "new", "n:2,F"), pair("new", "n:2,"));
    assert_eq!(renamed(&MessageAction::Spam, "cur", "n"), None);
    assert_eq!(renamed(&MessageAction::MoveTo("Trash".to_string()), "cur", "n"), None);
    let shown = |subdir: &str, name: &str| {
        let row = message_summary("Inbox", subdir, name, PLAIN, 0, &spam_policy_default()).unwrap();
        (row.bool_at("unread", false), row.bool_at("flagged", false))
    };
    assert_eq!(shown("cur", "n:2,S"), (false, false));
    assert_eq!(shown("new", "n:2,F"), (true, true));
}

#[test]
fn setting_changes_only_itself() {
    let mut data = webmail_default();
    data.set("vacationSent", object(vec![("x", number(1))]));
    data.set("signatures", object(vec![("you@x", text("hi"))]));
    let before = data.copy();
    let payload = object(vec![("signature", text("bye"))]);
    webmail_config(&mut data, "me@x", "signature", &payload, b"").unwrap();
    assert_eq!(data.copy_at("signatures").text_at("me@x", ""), "bye");
    assert_eq!(data.copy_at("signatures").text_at("you@x", ""), "hi");
    for key in ["contacts", "vacation", "vacationSent", "rules", "preferences", "audit"] {
        assert_eq!(data.copy_at(key), before.copy_at(key));
    }
}

#[test]
fn configured_policy_is_read() {
    let mut data = state_default();
    let payload = object(vec![("threshold", number(7)), ("field", text("allowlist")), ("value", text("a@b.cc"))]);
    anti_spam_config(&mut data, &payload, 1, &counts(0));
    let policy = spam_policy(&mut data);
    assert_eq!(policy.unsigned_at("threshold", 0), 7);
    assert_eq!(policy.copy_at("allowlist"), texts(&["a@b.cc"]));
    assert_eq!(policy.unsigned_at("maxLinks", 0), 10);
}
