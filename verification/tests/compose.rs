use akurai_mail::address::{addresses, clean_addr, normalized_email, sender_domain};
use akurai_mail::compose::{build_message, wrap_base64, wrap_lines, write_data, MAX_ATTACHMENT_BYTES};
use akurai_mail::json::Json;
use akurai_mail::users::MailUser;
use akurai_mail::webmail::{draft_reply, send_failure, sent_reply, webmail_draft, webmail_send};

fn object(members: Vec<(&str, Json)>) -> Json {
    Json::Object(members.into_iter().map(|(k, v)| (k.to_string(), v)).collect())
}

fn text(s: &str) -> Json {
    Json::Text(s.to_string())
}

fn built(payload: &Json) -> Result<(String, Vec<String>), String> {
    build_message("me@b.c", payload, " Mon, 1 Jan 2024 00:00:00 +0000\n", 7, 9)
        .map(|(m, r)| (String::from_utf8(m).unwrap(), r))
}

#[test]
fn cleaned_values_are_one_line() {
    assert_eq!(clean_addr("  a\r\nb\n "), "a  b");
    assert_eq!(clean_addr(&clean_addr(" x\ny ")), "x y");
    assert_eq!(clean_addr(""), "");
}

#[test]
fn address_lists_are_split() {
    assert_eq!(addresses("a@b.c, ;d@e.f;\n g@h.i "), vec!["a@b.c", "d@e.f", "g@h.i"]);
    assert!(addresses(" , ;").is_empty());
}

#[test]
fn addresses_are_found() {
    assert_eq!(normalized_email("Joe <Joe.X+y@Example.COM>, z@q.rs"), "joe.x+y@example.com");
    assert_eq!(normalized_email("nobody"), "");
    assert_eq!(sender_domain("Joe <Joe@Example.COM>"), "example.com");
    assert_eq!(sender_domain("nobody"), "");
}

#[test]
fn wrapping_adds_only_breaks() {
    let line = "A".repeat(76);
    assert_eq!(wrap_lines(&line), line);
    assert_eq!(wrap_lines(&"A".repeat(77)), format!("{line}\r\nA"));
    assert_eq!(wrap_base64(&[0; 60]), format!("{}\r\n{}", "A".repeat(76), "A".repeat(4)));
    assert_eq!(wrap_base64(b"hello"), "aGVsbG8=");
    assert_eq!(wrap_base64(b""), "");
    for l in wrap_base64(&[7; 500]).split("\r\n") {
        assert!(l.len() <= 76);
    }
}

#[test]
fn plain_message_is_built() {
    let payload = object(vec![
        ("to", text("a@b.c, d@e.f")),
        ("bcc", text("x@y.z")),
        ("subject", text("Hi\nthere")),
        ("body", text("text  ")),
        ("signature", text(" me ")),
    ]);
    let (message, recipients) = built(&payload).unwrap();
    assert_eq!(
        message,
        "From: me@b.c\r\nTo: a@b.c, d@e.f\r\nSubject: Hi there\r\nDate: Mon, 1 Jan 2024 00:00:00 +0000\r\nMessage-ID: <7.9@olibuijr.com>\r\nMIME-Version: 1.0\r\nContent-Type: text/plain; charset=utf-8\r\n\r\ntext\n\nme\r\n"
    );
    assert_eq!(recipients, vec!["a@b.c", "d@e.f", "x@y.z"]);
}

#[test]
fn subject_and_copies_are_optional() {
    let payload = object(vec![("cc", text("c@d.e"))]);
    let (message, recipients) = built(&payload).unwrap();
    assert!(message.starts_with("From: me@b.c\r\nTo: \r\nCc: c@d.e\r\nSubject: (no subject)\r\n"));
    assert_eq!(recipients, vec!["c@d.e"]);
}

#[test]
fn message_needs_a_recipient() {
    assert_eq!(built(&Json::Null), Err("at least one recipient is required".to_string()));
    let payload = object(vec![("to", Json::Bool(true))]);
    assert_eq!(built(&payload), Err("at least one recipient is required".to_string()));
}

#[test]
fn attachments_are_parts() {
    let file = object(vec![
        ("name", text("a.txt")),
        ("type", text("text/plain")),
        ("data", text("data:text/plain;base64,aGVsbG8=")),
    ]);
    let payload = object(vec![
        ("to", text("a@b.c")),
        ("body", text("see")),
        ("attachments", Json::Array(vec![file])),
    ]);
    let (message, _) = built(&payload).unwrap();
    let body = message.split_once("MIME-Version: 1.0\r\n").unwrap().1;
    assert_eq!(
        body,
        "Content-Type: multipart/mixed; boundary=\"akurai-7-9\"\r\n\r\n--akurai-7-9\r\nContent-Type: text/plain; charset=utf-8\r\n\r\nsee\r\n--akurai-7-9\r\nContent-Type: text/plain\r\nContent-Disposition: attachment; filename=\"a.txt\"\r\nContent-Transfer-Encoding: base64\r\n\r\naGVsbG8=\r\n--akurai-7-9--\r\n"
    );
}

#[test]
fn five_attachments_are_sent() {
    let payload = object(vec![
        ("to", text("a@b.c")),
        ("attachments", Json::Array((0..7).map(|_| object(vec![("data", text("aGVsbG8="))])).collect())),
    ]);
    let (message, _) = built(&payload).unwrap();
    assert_eq!(message.matches("filename=\"attachment\"").count(), 5);
    assert_eq!(message.matches("Content-Type: application/octet-stream").count(), 5);
}

#[test]
fn bad_attachments_are_refused() {
    let payload = object(vec![
        ("to", text("a@b.c")),
        ("attachments", Json::Array(vec![object(vec![("data", text("***"))])])),
    ]);
    assert!(built(&payload).unwrap_err().starts_with("invalid attachment: "));
    let large = "A".repeat(4 * (8 * 1024 * 1024 / 3 + 2));
    let payload = object(vec![
        ("to", text("a@b.c")),
        (
            "attachments",
            Json::Array(vec![object(vec![("name", text("big")), ("data", text(&large))])]),
        ),
    ]);
    assert_eq!(built(&payload), Err("attachment too large: big".to_string()));
}

#[test]
fn blind_copies_are_hidden() {
    let one = object(vec![("to", text("a@b.c")), ("bcc", text("x@y.z"))]);
    let two = object(vec![("to", text("a@b.c")), ("bcc", text("other@y.z"))]);
    assert_eq!(built(&one).unwrap().0, built(&two).unwrap().0);
    assert_ne!(built(&one).unwrap().1, built(&two).unwrap().1);
}

#[test]
fn head_is_its_headers() {
    let payload = object(vec![
        ("to", text("a@b.c\r\nBcc: evil@x.y")),
        ("subject", text("x\r\n\r\nbody")),
    ]);
    let (message, _) = built(&payload).unwrap();
    let head = message.split_once("\r\n\r\n").unwrap().0;
    let names: Vec<&str> = head.split("\r\n").map(|l| l.split_once(": ").unwrap().0).collect();
    assert_eq!(names, vec!["From", "To", "Subject", "Date", "Message-ID", "MIME-Version", "Content-Type"]);
}

#[test]
fn recipients_are_single_addresses() {
    let payload = object(vec![("to", text("a@b.c;;\nd@e.f,")), ("cc", text(" , "))]);
    assert_eq!(built(&payload).unwrap().1, vec!["a@b.c", "d@e.f"]);
}

#[test]
fn sender_must_be_a_mailbox() {
    let users = vec![MailUser { email: "me@b.c".to_string(), home: "/h".to_string() }];
    let payload = object(vec![("to", text("a@b.c"))]);
    let sent = webmail_send(&users, "me@b.c", &payload, "d", 1, 2).unwrap();
    assert_eq!(sent.sender, "me@b.c");
    assert_eq!(sent.recipients, vec!["a@b.c"]);
    assert!(String::from_utf8(sent.message).unwrap().starts_with("From: me@b.c\r\n"));
    assert_eq!(
        webmail_send(&users, "you@b.c", &payload, "d", 1, 2),
        Err("sender mailbox not found".to_string())
    );
    let other = object(vec![("from", text("you@b.c")), ("to", text("a@b.c"))]);
    assert_eq!(
        webmail_send(&users, "me@b.c", &other, "d", 1, 2),
        Err("sender mailbox not found".to_string())
    );
    assert_eq!(
        webmail_send(&users, "me@b.c", &Json::Null, "d", 1, 2),
        Err("at least one recipient is required".to_string())
    );
}

#[test]
fn drafts_have_a_subject() {
    let payload = object(vec![("to", text("a@b.c")), ("signature", text("sig"))]);
    let draft = String::from_utf8(webmail_draft("me@b.c", &payload, "d", 1, 2).unwrap()).unwrap();
    assert!(draft.contains("Subject: (draft)\r\n"));
    assert!(!draft.contains("sig"));
    assert_eq!(
        webmail_draft("me@b.c", &Json::Null, "d", 1, 2),
        Err("at least one recipient is required".to_string())
    );
}

#[test]
fn sending_is_answered() {
    assert_eq!(
        sent_reply(&vec!["a".to_string()]),
        object(vec![
            ("ok", Json::Bool(true)),
            ("sent", Json::Bool(true)),
            ("recipients", Json::Array(vec![text("a")]))
        ])
    );
    assert_eq!(draft_reply("n"), object(vec![("ok", Json::Bool(true)), ("draft", text("n"))]));
    assert_eq!(send_failure(&"é".repeat(500)), "é".repeat(400));
}

#[test]
fn data_is_written_as_a_part() {
    assert_eq!(
        write_data("n", "t/p", b"hello", "B"),
        Ok("--B\r\nContent-Type: t/p\r\nContent-Disposition: attachment; filename=\"n\"\r\nContent-Transfer-Encoding: base64\r\n\r\naGVsbG8=\r\n".to_string())
    );
    let large = vec![0; MAX_ATTACHMENT_BYTES + 1];
    assert_eq!(write_data("n", "t/p", &large, "B"), Err("attachment too large: n".to_string()));
    assert!(write_data("n", "t/p", &large[1..], "B").is_ok());
}
