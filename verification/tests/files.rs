use akurai_mail::checks::{
    check_row, dns, dns_check_domain, dns_health, domain_checks, domain_dns_records, health_checks,
    read_dkim_public_key, Check, Expect,
};
use akurai_mail::domains::{
    addition_for, all_ok, check_addition, clean_domain, configure_domain_mail, decide_addition, domain_add,
    domain_check, domain_list, domain_remove, domain_row, drop_domain, is_domain, is_primary,
    managed_domains, removal_of, removal_steps, replace_lines_containing, Addition, DomainFiles,
    ManagedDomain, Refusal,
};
use akurai_mail::json::{Json, Number};
use akurai_mail::mailboxes::{
    add_alias, add_user, alias_steps, check_user, chosen_password, failure, known_domains, mailbox_files, mailbox_place,
    mailbox_start, random_password, replace_line, set_password,
};
use akurai_mail::maildir::{
    candidate_name, decode_msg_id, flags, folder_counts, folder_root, folder_suffix, folders, is_hidden,
    message_path, message_place, msg_id, next_candidate, parts_of_row, save_to_folder, set_seen, update_flag,
    FolderCount, MessagePlace, NameSearch,
};
use akurai_mail::state::{domains_default, state_default};
use akurai_mail::steps::{command_checked, file_text, join_path, Step};
use akurai_mail::users::{
    aliases, dovecot_user_rows, is_user, mailbox_last_delivery, mailbox_size, user_home, user_row, MailUser,
};

fn object(members: Vec<(&str, Json)>) -> Json {
    Json::Object(members.into_iter().map(|(k, v)| (k.to_string(), v)).collect())
}

fn text(s: &str) -> Json {
    Json::Text(s.to_string())
}

fn number(n: u64) -> Json {
    Json::Number(Number::Unsigned(n))
}

fn strings(list: &[&str]) -> Vec<String> {
    list.iter().map(|s| s.to_string()).collect()
}

fn run(command: &str, args: &[&str]) -> Step {
    Step::Run(command.to_string(), strings(args))
}

fn reload(service: &str) -> Step {
    run("systemctl", &["reload", service])
}

fn write(path: &str, body: &str) -> Step {
    Step::Write(path.to_string(), body.to_string())
}

fn users() -> Vec<MailUser> {
    vec![MailUser { email: "a@b.c".to_string(), home: "/var/vmail/b.c/a".to_string() }]
}

#[test]
fn mailbox_rows_are_read() {
    let file = "# c@d.e:x:1:1::/home::\n\nz@b.c:h:5000:8:: /z ::\nnocolon@x\nbad:h:1:1::/h::\nq@b.c:h:1:1::::\n a@b.c :h:5000:8::/a::\n";
    let rows = dovecot_user_rows(file);
    let got: Vec<(&str, &str)> = rows.iter().map(|u| (u.email.as_str(), u.home.as_str())).collect();
    assert_eq!(got, vec![("a@b.c", "/a"), ("z@b.c", "/z")]);
    assert_eq!(user_home(&rows, "z@b.c"), Ok("/z".to_string()));
    assert_eq!(user_home(&rows, "x@b.c"), Err("mailbox not found".to_string()));
    assert!(is_user(&rows, "a@b.c"));
    assert!(!is_user(&rows, "A@b.c"));
}

#[test]
fn mailboxes_are_sorted() {
    let rows = dovecot_user_rows("b@x:1:2:3:4:/2\na@x:1:2:3:4:/1\nb@x:1:2:3:4:/3\n");
    let homes: Vec<&str> = rows.iter().map(|u| u.home.as_str()).collect();
    assert_eq!(homes, vec!["/1", "/2", "/3"]);
}

#[test]
fn mailbox_is_measured() {
    assert_eq!(mailbox_size(&vec![1, 2, 3]), Some(6));
    assert_eq!(mailbox_size(&vec![]), Some(0));
    assert_eq!(mailbox_size(&vec![u64::MAX, 1]), None);
    assert_eq!(mailbox_last_delivery(&vec![3, 9, 4]), 9);
    assert_eq!(mailbox_last_delivery(&vec![]), 0);
    let row = user_row(&users()[0], 7, Number::Float(0), 9);
    assert_eq!(row.text_at("email", ""), "a@b.c");
    assert_eq!(row.text_at("home", ""), "/var/vmail/b.c/a");
    assert_eq!(row.text_at("status", ""), "active");
    assert_eq!(row.unsigned_at("createdAt", 5), 0);
    assert!(row.bool_at("hasPassword", false));
    assert_eq!(row.unsigned_at("quotaUsed", 0), 7);
    assert_eq!(row.copy_at("quotaUsedMb"), Json::Number(Number::Float(0)));
    assert_eq!(row.unsigned_at("lastDelivery", 0), 9);
}

#[test]
fn aliases_are_read() {
    let rows = aliases("# no\nz@x   y@x extra\n\nlonely\n a@x\tb@x \n").items();
    assert_eq!(rows.len(), 2);
    assert_eq!(rows[0].text_at("alias", ""), "a@x");
    assert_eq!(rows[0].text_at("target", ""), "b@x");
    assert_eq!(rows[1].text_at("alias", ""), "z@x");
    assert_eq!(rows[1].text_at("target", ""), "y@x extra");
    assert_eq!(rows[1].text_at("status", ""), "active");
}

#[test]
fn passwords_are_random() {
    let a = random_password();
    assert_eq!(a.len(), 24);
    assert!(a.chars().all(|c| c.is_ascii_alphanumeric()));
    assert_ne!(a, random_password());
    assert_eq!(chosen_password(Some("given".to_string())), "given");
    assert_eq!(chosen_password(None).len(), 24);
}

#[test]
fn domains_are_known() {
    let data = object(vec![(
        "domains",
        Json::Array(vec![
            object(vec![("domain", text("b.c"))]),
            Json::Null,
            object(vec![("domain", text("olibuijr.com"))]),
            object(vec![("domain", text("b.c"))]),
        ]),
    )]);
    assert_eq!(known_domains(&data), vec!["olibuijr.com", "b.c"]);
    assert_eq!(known_domains(&Json::Null), vec!["olibuijr.com"]);
}

#[test]
fn mailbox_must_be_in_a_domain() {
    let known = strings(&["olibuijr.com", "b.c"]);
    let place = mailbox_place("a@b.c", &known).unwrap();
    assert_eq!((place.local.as_str(), place.domain.as_str()), ("a", "b.c"));
    assert_eq!(place.root, "/var/vmail/b.c/a");
    assert_eq!(mailbox_place("a", &known), Err("mailbox must include a domain".to_string()));
    let message = "mailbox must be in a configured domain (have: olibuijr.com, b.c)";
    assert_eq!(mailbox_place("a@x.y", &known), Err(message.to_string()));
    assert_eq!(mailbox_place("@b.c", &known), Err(message.to_string()));
}

#[test]
fn mailbox_is_made() {
    let place = mailbox_place("a@b.c", &strings(&["b.c"])).unwrap();
    let root = "/var/vmail/b.c/a";
    assert_eq!(
        mailbox_start(&place, "pw"),
        vec![
            Step::MakeDir(root.to_string()),
            run("chown", &["-R", "vmail:mail", root]),
            run("chmod", &["0770", root]),
            Step::Check("doveadm".to_string(), strings(&["pw", "-s", "BLF-CRYPT", "-p", "pw"])),
        ]
    );
    assert_eq!(
        mailbox_files("a@b.c", &place, "HASH", "a@b.c:old\n\nx@b.c:y\n", "x@b.c b.c/x/\na@b.c old"),
        vec![
            write(
                "/etc/dovecot/users",
                "x@b.c:y\na@b.c:HASH:5000:8::/var/vmail/b.c/a::userdb_mail=maildir:/var/vmail/b.c/a/Maildir\n"
            ),
            run("chown", &["root:dovecot", "/etc/dovecot/users"]),
            run("chmod", &["0640", "/etc/dovecot/users"]),
            write("/etc/postfix/vmailbox", "x@b.c b.c/x/\na@b.c b.c/a/\n"),
            run("postmap", &["/etc/postfix/vmailbox"]),
            reload("dovecot"),
            reload("postfix"),
        ]
    );
}

#[test]
fn new_mailbox_is_found() {
    let place = mailbox_place("a@b.c", &strings(&["b.c"])).unwrap();
    let steps = mailbox_files("a@b.c", &place, "HASH", "x@b.c:h:1:1::/x::", "");
    let body = steps
        .iter()
        .find_map(|s| match s {
            Step::Write(p, b) if p == "/etc/dovecot/users" => Some(b.clone()),
            _ => None,
        })
        .unwrap();
    let rows = dovecot_user_rows(&body);
    assert_eq!(user_home(&rows, "a@b.c"), Ok("/var/vmail/b.c/a".to_string()));
    assert_eq!(user_home(&rows, "x@b.c"), Ok("/x".to_string()));
}

#[test]
fn alias_is_added_and_read() {
    let steps = alias_steps("a@x old\nb@x c@x\n\n", "a@x", "new@x");
    assert_eq!(
        steps,
        vec![
            write("/etc/postfix/virtual", "b@x c@x\na@x new@x\n"),
            run("postmap", &["/etc/postfix/virtual"]),
            reload("postfix"),
        ]
    );
    let rows = aliases("b@x c@x\na@x new@x\n").items();
    assert_eq!(rows[0].text_at("target", ""), "new@x");
    assert_eq!(replace_line("", "a ", "a b".to_string()), "a b\n");
}

#[test]
fn missing_mailboxes_are_not_recorded() {
    let mut data = state_default();
    let known = strings(&["x.y"]);
    assert_eq!(
        add_user(&mut data, "a", &known, "pw", 5),
        Err("mailbox must include a domain".to_string())
    );
    let message = "mailbox must be in a configured domain (have: x.y)".to_string();
    assert_eq!(add_user(&mut data, "a@b.c", &known, "pw", 5), Err(message.clone()));
    assert_eq!(check_user(&users(), "a@b.c"), Ok(()));
    assert_eq!(check_user(&users(), "q@b.c"), Err(failure("user not found")));
    assert_eq!(
        set_password(&mut data, &users(), "q@b.c", &known, "pw", 5),
        Ok(failure("user not found"))
    );
    assert_eq!(set_password(&mut data, &users(), "a@b.c", &known, "pw", 5), Err(message));
    assert_eq!(data, state_default());
}

#[test]
fn mailbox_changes_are_reported() {
    let mut data = state_default();
    let known = strings(&["b.c"]);
    let reply = add_user(&mut data, "a@b.c", &known, "pw", 5).unwrap();
    assert_eq!(
        reply,
        object(vec![("ok", Json::Bool(true)), ("email", text("a@b.c")), ("password", text("pw"))])
    );
    let reply = set_password(&mut data, &users(), "a@b.c", &known, "pw2", 6).unwrap();
    assert_eq!(reply.text_at("password", ""), "pw2");
    let reply = add_alias(&mut data, "x@b.c", "a@b.c", 7);
    assert_eq!(
        reply,
        object(vec![("ok", Json::Bool(true)), ("alias", text("x@b.c")), ("target", text("a@b.c"))])
    );
    let events: Vec<String> =
        data.items_at("events").iter().map(|e| e.text_at("text", "")).collect();
    assert_eq!(
        events,
        vec!["Alias active: x@b.c -> a@b.c", "Password rotated: a@b.c", "Mailbox active: a@b.c"]
    );
    assert_eq!(
        failure("user not found"),
        object(vec![("ok", Json::Bool(false)), ("error", text("user not found"))])
    );
}

#[test]
fn commands_are_checked() {
    assert_eq!(command_checked("c", true, " out\n", "err"), Ok("out".to_string()));
    assert_eq!(command_checked("c", false, "out", "err\n"), Err("c failed: err\n".to_string()));
}

#[test]
fn paths_and_files_are_put_together() {
    assert_eq!(join_path("/a", "b"), "/a/b");
    assert_eq!(join_path("/a/", "b"), "/a/b");
    assert_eq!(join_path("/a", "/b"), "/b");
    assert_eq!(join_path("/a", ""), "/a/");
    assert_eq!(file_text(&strings(&["a", "b"])), "a\nb\n");
    assert_eq!(file_text(&vec![]), "\n");
}

#[test]
fn domain_names_are_checked() {
    assert_eq!(clean_domain("  Ex.COM\n"), "ex.com");
    for good in ["a.b", "ex-ample.co.uk", "1.2"] {
        assert!(is_domain(good), "{good}");
    }
    for bad in ["", "a", "a..b", "-a.b", "a-.b", "A.b", "a.b.", "a b.c"] {
        assert!(!is_domain(bad), "{bad}");
    }
    assert!(is_primary("olibuijr.com"));
    assert!(!is_primary("b.c"));
}

fn fresh() -> DomainFiles {
    DomainFiles {
        domains: " x.y \n\n".to_string(),
        has_key: false,
        key_table: "mail._domainkey.b.c old\nother\n".to_string(),
        signing_table: String::new(),
        trusted_hosts: None,
    }
}

#[test]
fn domain_is_configured() {
    assert_eq!(
        configure_domain_mail("b.c", &fresh()),
        vec![
            write("/etc/postfix/vmailbox_domains", "x.y\nb.c\n"),
            Step::MakeDir("/etc/opendkim/keys/b.c".to_string()),
            Step::Check(
                "opendkim-genkey".to_string(),
                strings(&["-s", "mail", "-d", "b.c", "-D", "/etc/opendkim/keys/b.c"])
            ),
            run("chown", &["-R", "opendkim:opendkim", "/etc/opendkim/keys/b.c"]),
            run("chmod", &["0600", "/etc/opendkim/keys/b.c/mail.private"]),
            write(
                "/etc/opendkim/KeyTable",
                "other\nmail._domainkey.b.c b.c:mail:/etc/opendkim/keys/b.c/mail.private\n"
            ),
            write("/etc/opendkim/SigningTable", "*@b.c mail._domainkey.b.c\n"),
            write("/etc/opendkim/TrustedHosts", "127.0.0.1\n::1\nlocalhost\nb.c\n"),
            Step::MakeDir("/var/vmail/b.c".to_string()),
            run("chown", &["-R", "vmail:mail", "/var/vmail/b.c"]),
            reload("opendkim"),
            reload("postfix"),
        ]
    );
}

#[test]
fn configured_domain_is_left_alone() {
    let files = DomainFiles {
        domains: "b.c\n".to_string(),
        has_key: true,
        key_table: String::new(),
        signing_table: String::new(),
        trusted_hosts: Some("b.c\n".to_string()),
    };
    let steps = configure_domain_mail("b.c", &files);
    assert_eq!(steps.len(), 6);
    assert_eq!(
        steps[0],
        write(
            "/etc/opendkim/KeyTable",
            "mail._domainkey.b.c b.c:mail:/etc/opendkim/keys/b.c/mail.private\n"
        )
    );
}

#[test]
fn table_holds_a_domain_once() {
    let once = replace_lines_containing("z\nb.c 1\n", "b.c", "b.c 2".to_string());
    assert_eq!(once, "z\nb.c 2\n");
    assert_eq!(replace_lines_containing(&once, "b.c", "b.c 2".to_string()), once);
}

#[test]
fn domain_is_added_and_removed() {
    let mut data = domains_default();
    let before = data.copy();
    let mut state = state_default();
    assert_eq!(check_addition(&data, "olibuijr.com"), Addition::Known);
    assert_eq!(check_addition(&data, "b.c"), Addition::Free);
    assert_eq!(check_addition(&object(vec![("domains", Json::Null)]), "b.c"), Addition::BadState);
    assert_eq!(check_addition(&text("x"), "b.c"), Addition::BadState);
    assert_eq!(addition_for(" B.c\n", &data), Ok("b.c".to_string()));
    let reply = domain_add(&mut data, &mut state, " B.c\n", 9, "KEY").unwrap();
    assert!(reply.bool_at("ok", false));
    assert_eq!(reply.text_at("domain", ""), "b.c");
    assert_eq!(reply.items_at("dnsRecords")[3].text_at("value", ""), "KEY");
    assert_eq!(
        data.items_at("domains")[1],
        object(vec![("domain", text("b.c")), ("addedAt", number(9)), ("status", text("active"))])
    );
    assert_eq!(check_addition(&data, "b.c"), Addition::Known);
    drop_domain(&mut data, "b.c");
    assert_eq!(data, before);
    let reply = domain_remove(&mut state, "b.c", 10);
    assert_eq!(
        reply,
        object(vec![("ok", Json::Bool(true)), ("domain", text("b.c")), ("removed", Json::Bool(true))])
    );
    let events: Vec<String> =
        state.items_at("events").iter().map(|e| e.text_at("text", "")).collect();
    assert_eq!(events, vec!["Domain removed: b.c", "Domain added: b.c"]);
}

#[test]
fn bad_domains_are_not_added() {
    let mut data = domains_default();
    let mut state = state_default();
    let invalid = || Refusal::Answer(failure("invalid domain name"));
    for bad in ["", "nonsense", "a..b", "a b.c"] {
        assert_eq!(addition_for(bad, &data), Err(invalid()));
        assert_eq!(domain_add(&mut data, &mut state, bad, 9, "KEY"), Err(invalid()));
    }
    let known = || Refusal::Answer(failure("domain already exists"));
    assert_eq!(addition_for(" OLIBUIJR.com ", &data), Err(known()));
    assert_eq!(domain_add(&mut data, &mut state, " OLIBUIJR.com ", 9, "KEY"), Err(known()));
    assert_eq!(data, domains_default());
    assert_eq!(state, state_default());
    let mut odd = Json::Null;
    let fault = || Refusal::Fault("invalid domains state".to_string());
    assert_eq!(addition_for("nonsense", &odd), Err(invalid()));
    assert_eq!(domain_add(&mut odd, &mut state, "b.c", 9, "KEY"), Err(fault()));
    assert_eq!(odd, Json::Null);
    assert_eq!(state, state_default());
    assert_eq!(decide_addition("b.c", true, &data), Ok("b.c".to_string()));
    assert_eq!(decide_addition("b.c", false, &data), Err(invalid()));
    assert_eq!(decide_addition("olibuijr.com", true, &data), Err(known()));
}

#[test]
fn primary_domain_is_not_removed() {
    assert_eq!(removal_of("  OLIBUIJR.com "), Err(failure("cannot remove the primary domain")));
    assert_eq!(removal_of(" B.c "), Ok("b.c".to_string()));
    let mut data = domains_default();
    drop_domain(&mut data, "b.c");
    assert_eq!(data, domains_default());
    let mut state = state_default();
    for primary in ["olibuijr.com", "  OLIBUIJR.com "] {
        assert_eq!(
            domain_remove(&mut state, primary, 10),
            object(vec![
                ("ok", Json::Bool(false)),
                ("error", text("cannot remove the primary domain"))
            ])
        );
        assert_eq!(state, state_default());
    }
    assert_eq!(
        domain_remove(&mut state, " B.c ", 10),
        object(vec![("ok", Json::Bool(true)), ("domain", text("b.c")), ("removed", Json::Bool(true))])
    );
    assert_eq!(state.items_at("events")[0].text_at("text", ""), "Domain removed: b.c");
}

#[test]
fn second_configuration_changes_nothing() {
    let mut files = fresh();
    for step in configure_domain_mail("b.c", &files) {
        if let Step::Write(path, body) = step {
            match path.as_str() {
                "/etc/postfix/vmailbox_domains" => files.domains = body,
                "/etc/opendkim/KeyTable" => files.key_table = body,
                "/etc/opendkim/SigningTable" => files.signing_table = body,
                "/etc/opendkim/TrustedHosts" => files.trusted_hosts = Some(body),
                other => panic!("{other}"),
            }
        }
    }
    files.has_key = true;
    assert_eq!(
        configure_domain_mail("b.c", &files),
        vec![
            write("/etc/opendkim/KeyTable", &files.key_table),
            write("/etc/opendkim/SigningTable", &files.signing_table),
            Step::MakeDir("/var/vmail/b.c".to_string()),
            run("chown", &["-R", "vmail:mail", "/var/vmail/b.c"]),
            reload("opendkim"),
            reload("postfix"),
        ]
    );
}

#[test]
fn domain_leaves_the_tables() {
    assert_eq!(
        removal_steps("b.c", "a\nmail b.c\n", "*@b.c x\n", "localhost\n b.c \nb.c.d\n", "x.y\nb.c\n"),
        vec![
            write("/etc/opendkim/KeyTable", "a\n"),
            write("/etc/opendkim/SigningTable", "\n"),
            write("/etc/opendkim/TrustedHosts", "localhost\nb.c.d\n"),
            write("/etc/postfix/vmailbox_domains", "x.y\n"),
            reload("opendkim"),
            reload("postfix"),
        ]
    );
}

fn check(expect: Expect) -> Check {
    Check { name: "n".to_string(), kind: "TXT".to_string(), expect }
}

#[test]
fn checks_are_reported() {
    let exactly = check(Expect::Exactly("v".to_string()));
    assert_eq!(
        check_row(&exactly, &Ok(strings(&["u", "v"])), true),
        object(vec![
            ("name", text("n")),
            ("type", text("TXT")),
            ("expect", text("v")),
            ("ok", Json::Bool(true)),
            ("values", Json::Array(vec![text("u"), text("v")]))
        ])
    );
    assert_eq!(
        check_row(&exactly, &Err("down".to_string()), false),
        object(vec![
            ("name", text("n")),
            ("type", text("TXT")),
            ("ok", Json::Bool(false)),
            ("values", Json::Array(vec![])),
            ("error", text("down"))
        ])
    );
    let containing = check(Expect::Containing("v".to_string()));
    assert!(check_row(&containing, &Ok(strings(&["uvw"])), false).bool_at("ok", false));
    assert!(!check_row(&containing, &Ok(strings(&["u"])), false).bool_at("ok", true));
    assert!(!check_row(&exactly, &Ok(strings(&["uvw"])), false).bool_at("ok", true));
}

#[test]
fn health_is_checked() {
    let names: Vec<String> = health_checks().into_iter().map(|c| c.name).collect();
    assert_eq!(
        names,
        vec!["mail.olibuijr.com", "olibuijr.com", "olibuijr.com", "_dmarc.olibuijr.com"]
    );
    let answers = vec![
        Ok(strings(&["3.94.46.219"])),
        Ok(strings(&["10 mail.olibuijr.com"])),
        Ok(strings(&["v=spf1 ip4:3.94.46.219 mx -all"])),
        Ok(strings(&["v=DMARC1; p=quarantine; rua=mailto:postmaster@olibuijr.com"])),
    ];
    let rows = dns_health(&answers);
    assert!(all_ok(&rows));
    assert_eq!(rows.items()[0].text_at("expect", ""), "3.94.46.219");
}

#[test]
fn listed_records_pass() {
    let answers = vec![
        Ok(strings(&["3.94.46.219"])),
        Ok(vec![]),
        Ok(vec![]),
        Err("timeout".to_string()),
    ];
    let rows = dns_health(&answers);
    assert!(!all_ok(&rows));
    let listed = dns().items_at("records");
    assert_eq!(listed.len(), 8);
    let values: Vec<String> = listed.iter().map(|r| r.text_at("value", "")).collect();
    for (c, at) in health_checks().iter().zip([0, 4, 5, 6]) {
        assert_eq!(c.expect, Expect::Exactly(values[at].clone()));
    }
    assert_eq!(values[7], "See /etc/opendkim/keys/olibuijr.com/mail.txt");
}

#[test]
fn signing_key_is_read() {
    let file = "mail._domainkey IN TXT ( \"v=DKIM1; k=rsa; \"\n\t\"p=ABC\" ) ; ----";
    assert_eq!(read_dkim_public_key(file), "v=DKIM1; k=rsa; p=ABC");
    assert_eq!(read_dkim_public_key("nothing"), "");
}

#[test]
fn domain_records_are_listed() {
    let rows = domain_dns_records("b.c", "").items();
    assert_eq!(rows[0].text_at("value", ""), "10 mail.olibuijr.com.");
    assert_eq!(rows[1].text_at("value", ""), "v=spf1 mx a:mail.olibuijr.com -all");
    assert_eq!(rows[2].text_at("value", ""), "v=DMARC1; p=quarantine; rua=mailto:postmaster@b.c");
    assert_eq!(rows[3].text_at("value", ""), "(DKIM key not yet generated)");
    assert_eq!(domain_dns_records("b.c", "K").items()[3].text_at("value", ""), "K");
}

#[test]
fn domain_is_verified_or_pending() {
    assert_eq!(domain_checks("b.c", false).len(), 3);
    assert_eq!(domain_checks("b.c", true)[3].name, "mail._domainkey.b.c");
    let good = vec![
        Ok(strings(&["10 mail.olibuijr.com"])),
        Ok(strings(&["v=spf1 mx"])),
        Ok(strings(&["v=DMARC1; p=none"])),
        Ok(strings(&["v=DKIM1; k"])),
    ];
    assert!(all_ok(&dns_check_domain("b.c", true, &good)));
    let item = ManagedDomain { domain: "b.c".to_string(), added_at: 4 };
    let row = domain_row(&item, "K", &good);
    assert_eq!(row.text_at("status", ""), "verified");
    assert_eq!(row.unsigned_at("addedAt", 0), 4);
    let mut bad = good;
    bad[1] = Ok(vec![]);
    let reply = domain_check(" B.C ", "K", &bad);
    assert_eq!(reply.text_at("domain", ""), "b.c");
    assert_eq!(reply.items_at("dnsChecks")[0].text_at("name", ""), "b.c");
    assert_eq!(reply.text_at("status", ""), "pending");
    assert!(reply.bool_at("ok", false));
    let list = domain_list(vec![row]);
    assert_eq!(list.items_at("domains").len(), 1);
}

#[test]
fn managed_domains_are_listed() {
    let data = object(vec![(
        "domains",
        Json::Array(vec![
            object(vec![("domain", text("b.c")), ("addedAt", number(3))]),
            Json::Null,
        ]),
    )]);
    assert_eq!(
        managed_domains(&data),
        vec![
            ManagedDomain { domain: "b.c".to_string(), added_at: 3 },
            ManagedDomain { domain: "olibuijr.com".to_string(), added_at: 0 },
        ]
    );
    assert!(managed_domains(&Json::Null).is_empty());
}

#[test]
fn folders_have_places() {
    assert_eq!(folders(), vec!["Inbox", "Sent", "Drafts", "Archive", "Spam", "Trash"]);
    assert_eq!(folder_suffix("Spam"), Ok(".Junk".to_string()));
    assert_eq!(folder_suffix("Inbox"), Ok(String::new()));
    assert_eq!(folder_suffix("spam"), Err("unknown folder".to_string()));
    assert_eq!(folder_root(&users(), "a@b.c", "Inbox"), Ok("/var/vmail/b.c/a/Maildir".to_string()));
    assert_eq!(
        folder_root(&users(), "a@b.c", "Sent"),
        Ok("/var/vmail/b.c/a/Maildir/.Sent".to_string())
    );
    assert_eq!(folder_root(&users(), "x@b.c", "no"), Err("mailbox not found".to_string()));
    assert_eq!(folder_root(&users(), "a@b.c", "no"), Err("unknown folder".to_string()));
}

#[test]
fn folders_are_counted() {
    let counts: Vec<FolderCount> = (0..6).map(|i| FolderCount { total: i, unread: 0 }).collect();
    let rows = folder_counts(&counts).items();
    assert_eq!(
        rows[4],
        object(vec![("name", text("Spam")), ("total", number(4)), ("unread", number(0))])
    );
}

#[test]
fn message_ids_read_back() {
    let id = msg_id("Inbox", "new", "1.2.host");
    assert_eq!(id, "WyJJbmJveCIsIm5ldyIsIjEuMi5ob3N0Il0");
    assert_eq!(
        decode_msg_id(&id),
        Ok(("Inbox".to_string(), "new".to_string(), "1.2.host".to_string()))
    );
    let odd = msg_id("Ä", "\"\\", "\u{7}\n");
    assert_eq!(
        decode_msg_id(&odd),
        Ok(("Ä".to_string(), "\"\\".to_string(), "\u{7}\n".to_string()))
    );
}

#[test]
fn bad_message_ids_are_refused() {
    assert!(decode_msg_id("*").unwrap_err().starts_with("invalid message id: "));
    assert!(decode_msg_id("ew").unwrap_err().starts_with("invalid message id JSON: "));
    assert_eq!(decode_msg_id("WyJhIiwiYiJd"), Err("invalid message id".to_string()));
}

#[test]
fn messages_have_places() {
    let id = msg_id("Spam", "cur", "n");
    assert_eq!(
        message_path(&users(), "a@b.c", &id),
        Ok(MessagePlace {
            folder: "Spam".to_string(),
            subdir: "cur".to_string(),
            path: "/var/vmail/b.c/a/Maildir/.Junk/cur/n".to_string(),
        })
    );
    assert_eq!(
        message_path(&users(), "a@b.c", "WyJJbmJveCIsInRtcCIsIngiXQ"),
        Err("message not found".to_string())
    );
    assert_eq!(message_path(&users(), "x@b.c", &id), Err("mailbox not found".to_string()));
    let odd = msg_id("Nowhere", "cur", "n");
    assert_eq!(message_path(&users(), "a@b.c", &odd), Err("unknown folder".to_string()));
}

#[test]
fn flags_are_changed() {
    assert_eq!(flags("n:2,FS"), "FS");
    assert_eq!(flags("n"), "");
    assert_eq!(update_flag("n", 'S', true), "n:2,S");
    assert_eq!(update_flag("n:2,S", 'F', true), "n:2,FS");
    assert_eq!(update_flag("n:2,FS", 'F', true), "n:2,FS");
    assert_eq!(update_flag("n:2,SFS", 'S', false), "n:2,F");
    assert_eq!(update_flag("n", 'S', false), "n:2,");
}

#[test]
fn clearing_a_flag_undoes_setting_it() {
    let set = update_flag("n:2,RS", 'F', true);
    assert_eq!(set, "n:2,FRS");
    assert_eq!(update_flag(&set, 'F', false), "n:2,RS");
    assert_eq!(update_flag(&set, 'F', true), set);
}

#[test]
fn read_message_is_seen() {
    assert_eq!(set_seen("new", "n"), Some("n:2,S".to_string()));
    assert_eq!(set_seen("new", "n:2,F"), Some("n:2,F".to_string()));
    assert_eq!(set_seen("cur", "n"), None);
}

#[test]
fn moved_messages_get_free_names() {
    assert_eq!(candidate_name("n", 0), "n");
    assert_eq!(candidate_name("n", 1), "n.1");
    assert_ne!(candidate_name("n", 12), candidate_name("n", 2));
    assert_eq!(next_candidate(0, false), NameSearch::Use(0));
    assert_eq!(next_candidate(0, true), NameSearch::Try(1));
    let taken = ["n", "n.1", "n.3"];
    let mut suffix = 0;
    while let NameSearch::Try(next) = next_candidate(suffix, taken.contains(&candidate_name("n", suffix).as_str())) {
        suffix = next;
    }
    assert_eq!(suffix, 2);
    assert_eq!(save_to_folder(5, 6, true), ("cur".to_string(), "5.6.rust:2,S".to_string()));
    assert_eq!(save_to_folder(5, 6, false), ("new".to_string(), "5.6.rust".to_string()));
    assert!(is_hidden(".x"));
    assert!(!is_hidden("x"));
}

#[test]
fn lists_of_three_are_places() {
    assert_eq!(
        parts_of_row(&strings(&["a", "b", "c"])),
        Ok(("a".to_string(), "b".to_string(), "c".to_string()))
    );
    assert_eq!(parts_of_row(&strings(&["a"])), Err("invalid message id".to_string()));
    assert_eq!(
        message_place(&users(), "a@b.c", "Inbox", "new", "n").map(|p| p.path),
        Ok("/var/vmail/b.c/a/Maildir/new/n".to_string())
    );
    assert_eq!(
        message_place(&users(), "a@b.c", "Inbox", "tmp", "n"),
        Err("message not found".to_string())
    );
}

#[test]
fn folders_lie_apart() {
    let mut roots: Vec<String> =
        folders().iter().map(|f| folder_root(&users(), "a@b.c", f).unwrap()).collect();
    roots.sort();
    roots.dedup();
    assert_eq!(roots.len(), 6);
}

#[test]
fn other_aliases_stay() {
    let steps = alias_steps("a@x old\nb@x c@x\r\nz@x\tq@x\n", "a@x", "new@x");
    match &steps[0] {
        Step::Write(_, body) => {
            let rows: Vec<(String, String)> = aliases(body)
                .items()
                .iter()
                .map(|r| (r.text_at("alias", ""), r.text_at("target", "")))
                .collect();
            let pair = |a: &str, t: &str| (a.to_string(), t.to_string());
            assert_eq!(rows, vec![pair("a@x", "new@x"), pair("b@x", "c@x"), pair("z@x", "q@x")]);
        }
        other => panic!("{other:?}"),
    }
}
