use akurai_mail::dns::{dns_answers, dns_question, read_name, record_type};
use akurai_mail::json::{merge_defaults, prepend_event, string_array, Json, Number};
use akurai_mail::order::{insert_ascending, is_before, stable_order, Newest, TextKey};
use akurai_mail::state::{domains_default, state_default, webmail_default};
use akurai_mail::system::{
    build_status, cpu_change, cpu_times, delivery_errors, disk_fields, disk_info, line_tail, mail_queue,
    mem_info, memory_numbers, metrics, process_row, services, show_errors, top_processes, trouble_lines, vm_metrics,
    Findings, Slot,
};
use akurai_mail::text::{
    contains, decimal_of, find, join, lines, parse_number, replace, split_last, split_on, split_once,
    split_once_at, take_chars, to_lower, trim, words,
};

fn object(members: Vec<(&str, Json)>) -> Json {
    Json::Object(members.into_iter().map(|(k, v)| (k.to_string(), v)).collect())
}

fn text(s: &str) -> Json {
    Json::Text(s.to_string())
}

fn number(n: u64) -> Json {
    Json::Number(Number::Unsigned(n))
}

#[test]
fn texts_come_apart() {
    assert_eq!(lines("a\r\nb\n\nc"), "a\r\nb\n\nc".lines().collect::<Vec<_>>());
    assert_eq!(lines("a\n"), vec!["a"]);
    assert!(lines("").is_empty());
    assert_eq!(words(" a\tb\u{a0}c "), vec!["a", "b", "c"]);
    assert_eq!(split_on("a::b", ':'), vec!["a", "", "b"]);
    assert_eq!(split_once("a=b=c", '='), Some(("a".to_string(), "b=c".to_string())));
    assert_eq!(split_last("a=b=c", '='), Some(("a=b".to_string(), "c".to_string())));
    assert_eq!(split_once_at("x:2,S", ":2,"), Some(("x".to_string(), "S".to_string())));
    assert_eq!(trim("\u{3000} é \n"), "é");
}

#[test]
fn texts_are_searched() {
    assert!(contains("abc", "bc"));
    assert!(contains("abc", ""));
    assert!(!contains("abc", "ac"));
    assert_eq!(find("éabab", "ab"), Some(1));
    assert_eq!(find("a", "ab"), None);
    assert_eq!(replace("a&b&", '&', "&amp;"), "a&amp;b&amp;");
    assert_eq!(take_chars("éèê", 2), "éè");
    assert_eq!(join(&vec!["a".to_string(), "b".to_string()], ", "), "a, b");
    assert_eq!(join(&vec![], ", "), "");
}

#[test]
fn decimal_reads_back() {
    for n in [0, 9, 10, 12345, u64::MAX] {
        assert_eq!(decimal_of(n), n.to_string());
        assert_eq!(parse_number(&decimal_of(n), u64::MAX), Some(n));
    }
    assert_eq!(parse_number("+7", 10), Some(7));
    assert_eq!(parse_number("11", 10), None);
    assert_eq!(parse_number("", 10), None);
    assert_eq!(parse_number("+", 10), None);
    assert_eq!(parse_number("-1", 10), None);
    assert_eq!(parse_number("18446744073709551616", u64::MAX), None);
}

#[test]
fn texts_are_ordered() {
    assert!(is_before("a", "b"));
    assert!(is_before("", "a"));
    assert!(is_before("Z", "a"));
    assert!(!is_before("b", "b"));
    let mut list = Vec::new();
    for s in ["b", "a", "b", "c"] {
        insert_ascending(&mut list, s.to_string());
    }
    assert_eq!(list, vec!["a", "b", "c"]);
    let keys = vec![
        TextKey(Some("b".to_string())),
        TextKey(None),
        TextKey(Some("a".to_string())),
        TextKey(Some("b".to_string())),
    ];
    assert_eq!(stable_order(&keys), vec![1, 2, 0, 3]);
    let times = vec![Newest(Some(1)), Newest(None), Newest(Some(5)), Newest(Some(1))];
    assert_eq!(stable_order(&times), vec![2, 0, 3, 1]);
}

#[test]
fn defaults_are_filled_in_once() {
    let mut value = object(vec![("a", number(1)), ("o", object(vec![("x", number(2))]))]);
    let defaults = object(vec![
        ("a", number(9)),
        ("b", number(3)),
        ("o", object(vec![("x", number(9)), ("y", number(4))])),
    ]);
    merge_defaults(&mut value, &defaults);
    let filled = object(vec![
        ("a", number(1)),
        ("o", object(vec![("x", number(2)), ("y", number(4))])),
        ("b", number(3)),
    ]);
    assert_eq!(value.copy_at("a"), number(1));
    assert_eq!(value.copy_at("b"), number(3));
    assert_eq!(value.copy_at("o").copy_at("x"), number(2));
    assert_eq!(value.copy_at("o").copy_at("y"), number(4));
    let once = value.copy();
    merge_defaults(&mut value, &defaults);
    assert_eq!(value, once);
    let mut same = filled.copy();
    merge_defaults(&mut same, &defaults);
    assert_eq!(same, filled);
    let mut list = Json::Array(vec![]);
    merge_defaults(&mut list, &defaults);
    assert_eq!(list, Json::Array(vec![]));
}

#[test]
fn newest_event_is_first() {
    let mut data = object(vec![("other", number(1))]);
    for i in 0..5 {
        prepend_event(&mut data, "events", i, &format!("e{i}"), 3);
    }
    let rows = data.items_at("events");
    assert_eq!(rows.len(), 3);
    assert_eq!(rows[0], object(vec![("at", number(4)), ("text", text("e4"))]));
    assert_eq!(rows[2].text_at("text", ""), "e2");
    assert_eq!(data.copy_at("other"), number(1));
    let mut bad = Json::Bool(true);
    prepend_event(&mut bad, "events", 1, "e", 3);
    assert_eq!(bad.items_at("events").len(), 1);
}

#[test]
fn values_are_looked_up() {
    let twice = object(vec![("a", number(1)), ("a", number(2))]);
    assert_eq!(twice.copy_at("a"), number(2));
    assert_eq!(twice.copy_at("b"), Json::Null);
    assert_eq!(string_array(&Json::Array(vec![text("x"), number(1), text("y")])), vec!["x", "y"]);
    assert!(string_array(&Json::Null).is_empty());
    assert_eq!(Json::Number(Number::Negative(-3)).as_signed(), Some(-3));
    assert_eq!(number(u64::MAX).as_signed(), None);
    let mut o = twice.copy();
    o.remove("a");
    assert_eq!(o, object(vec![]));
    let mut n = Json::Null;
    n.set("k", Json::Bool(true));
    assert!(n.bool_at("k", false));
}

#[test]
fn first_states_are_complete() {
    let state = state_default();
    assert_eq!(state.text_at("domain", ""), "olibuijr.com");
    assert_eq!(state.text_at("hostname", ""), "mail.olibuijr.com");
    assert_eq!(state.text_at("publicIp", ""), "3.94.46.219");
    let policy = state.copy_at("spamPolicy");
    assert_eq!(policy.unsigned_at("threshold", 0), 5);
    assert_eq!(policy.unsigned_at("maxLinks", 0), 10);
    assert_eq!(policy.items_at("subjectKeywords").len(), 6);
    assert_eq!(policy.items_at("attachmentExtensions").len(), 8);
    let webmail = webmail_default();
    assert_eq!(webmail.copy_at("preferences").text_at("theme", ""), "light");
    let domains = domains_default();
    assert_eq!(domains.items_at("domains")[0].text_at("domain", ""), "olibuijr.com");
}

#[test]
fn names_are_read() {
    let data = [1, b'a', 3, b'b', b'c', b'd', 0, 2, b'x', b'y', 192, 2];
    let mut pos = 0;
    assert_eq!(read_name(&data, &mut pos), Ok("a.bcd".to_string()));
    assert_eq!(pos, 7);
    assert_eq!(read_name(&data, &mut pos), Ok("xy.bcd".to_string()));
    assert_eq!(pos, 12);
    assert_eq!(read_name(&data, &mut pos), Err("dns name out of range".to_string()));
    assert_eq!(read_name(&[192], &mut 0), Err("dns pointer out of range".to_string()));
    assert_eq!(read_name(&[192, 0], &mut 0), Err("dns pointer loop".to_string()));
    assert_eq!(read_name(&[5, 1], &mut 0), Err("dns label out of range".to_string()));
    let mut odd = 0;
    assert_eq!(read_name(&[1, 255, 0], &mut odd), Ok("\u{fffd}".to_string()));
}

#[test]
fn question_is_written() {
    let packet = dns_question(0x1234, "ab.c.", "MX").unwrap();
    assert_eq!(
        packet,
        vec![0x12, 0x34, 1, 0, 0, 1, 0, 0, 0, 0, 0, 0, 2, b'a', b'b', 1, b'c', 0, 0, 15, 0, 1]
    );
    assert_eq!(dns_question(0, "a", "AAAA"), Err("unsupported qtype".to_string()));
    assert_eq!(record_type("A"), Ok(1));
    assert_eq!(record_type("TXT"), Ok(16));
}

#[test]
fn question_reads_back() {
    let packet = dns_question(7, "mail.olibuijr.com", "A").unwrap();
    let mut pos = 12;
    assert_eq!(read_name(&packet, &mut pos), Ok("mail.olibuijr.com".to_string()));
    assert_eq!(pos + 4, packet.len());
}

fn answer(count: u8, records: &[u8]) -> Vec<u8> {
    let mut data = dns_question(0, "a.b", "A").unwrap();
    data[7] = count;
    data.extend_from_slice(records);
    data
}

#[test]
fn answers_are_read() {
    let a = answer(1, &[192, 12, 0, 1, 0, 1, 0, 0, 0, 0, 0, 4, 3, 94, 46, 219]);
    assert_eq!(dns_answers(&a, 1), Ok(vec!["3.94.46.219".to_string()]));
    assert_eq!(dns_answers(&a, 15), Ok(vec![]));
    let mx = answer(1, &[192, 12, 0, 15, 0, 1, 0, 0, 0, 0, 0, 6, 0, 10, 1, b'm', 192, 12]);
    assert_eq!(dns_answers(&mx, 15), Ok(vec!["10 m.a.b".to_string()]));
    let txt = answer(1, &[192, 12, 0, 16, 0, 1, 0, 0, 0, 0, 0, 7, 2, b'v', b'=', 1, b'x', 9, b'y']);
    assert_eq!(dns_answers(&txt, 16), Ok(vec!["v=x".to_string()]));
    let cut = answer(2, &[192, 12, 0, 1, 0, 1, 0, 0, 0, 0, 0, 4, 3, 94, 46, 219, 0, 0, 1]);
    assert_eq!(dns_answers(&cut, 1), Ok(vec!["3.94.46.219".to_string()]));
    assert_eq!(dns_answers(&[0; 11], 1), Err("short dns response".to_string()));
    assert_eq!(dns_answers(&answer(1, &[]), 1), Err("dns name out of range".to_string()));
}

#[test]
fn services_are_shown() {
    let said: Vec<String> = ["active\n", "failed\n", " x ", "", "active", "unknown"]
        .iter()
        .map(|s| s.to_string())
        .collect();
    let shown = services(&said);
    assert_eq!(shown.text_at("postfix", "?"), "active");
    assert_eq!(shown.text_at("dovecot", "?"), "failed");
    assert_eq!(shown.text_at("opendkim", "?"), "x");
    assert_eq!(shown.text_at("nginx", "?"), "");
    assert_eq!(shown.text_at("fail2ban", "?"), "unknown");
}

#[test]
fn memory_is_read() {
    let t = "MemTotal:       2000 kB\nMemFree: 5 kB\nMemAvailable:    500 kB\n";
    assert_eq!(memory_numbers(t), (2000, 1500));
    assert_eq!(memory_numbers(""), (1, 1));
    assert_eq!(memory_numbers("MemTotal: x\nMemAvailable: 9 kB"), (1, 0));
    assert_eq!(
        mem_info(2, 1, Number::Float(0)),
        object(vec![
            ("totalMb", number(2)),
            ("usedMb", number(1)),
            ("percent", Json::Number(Number::Float(0)))
        ])
    );
}

#[test]
fn processor_is_measured() {
    assert_eq!(cpu_times("cpu  1 2 3 4 5 6\ncpu0 9"), Some((21, 9)));
    assert_eq!(cpu_times("cpu 1 2 3"), Some((6, 0)));
    assert_eq!(cpu_times(""), Some((0, 0)));
    assert_eq!(cpu_times("cpu 18446744073709551615 1"), None);
    let mut data = Json::Null;
    assert_eq!(cpu_change(&mut data, 100, 40), (0, 1));
    assert_eq!(cpu_change(&mut data, 150, 60), (20, 50));
    assert_eq!(cpu_change(&mut data, 10, 5), (0, 1));
    assert_eq!(data.copy_at("lastCpu"), object(vec![("total", number(10)), ("idle", number(5))]));
}

#[test]
fn disk_is_read() {
    let t = "Filesystem 1B-blocks Used Available\n/dev/sda 1000 250 750\n";
    assert_eq!(disk_fields(t), (Some("1000".to_string()), Some("250".to_string())));
    assert_eq!(disk_fields("head\n/dev 7"), (Some("7".to_string()), None));
    assert_eq!(disk_fields("head"), (None, None));
    let shown = disk_info(Number::Float(1), Number::Float(2), Number::Float(3));
    assert_eq!(shown.copy_at("usedGb"), Json::Number(Number::Float(2)));
}

#[test]
fn measurements_are_kept() {
    let mut data = Json::Null;
    for i in 0..50 {
        let memory = object(vec![("percent", number(i))]);
        let disk = object(vec![("percent", number(1))]);
        let m = vm_metrics(&mut data, i, Number::Unsigned(3), memory, disk);
        assert_eq!(m.unsigned_at("at", 99), i);
    }
    let history = data.items_at("metricsHistory");
    assert_eq!(history.len(), 48);
    assert_eq!(
        history[0],
        object(vec![("at", number(2)), ("cpu", number(3)), ("memory", number(2)), ("disk", number(1))])
    );
}

#[test]
fn queue_is_shown() {
    let empty = object(vec![("count", number(0)), ("summary", text("Mail queue is empty"))]);
    assert_eq!(mail_queue(" \n"), empty);
    assert_eq!(mail_queue("Mail queue is empty\n"), empty);
    let t = "-Queue ID-\nABC12 1\n  to x\nf00 2\n-- 2 Kbytes in 2 Requests.\n";
    assert_eq!(
        mail_queue(t),
        object(vec![("count", number(2)), ("summary", text("-- 2 Kbytes in 2 Requests."))])
    );
}

#[test]
fn errors_are_shown() {
    let log = "ok line\nWARNING: one\nnoreject here\nx error y\n";
    assert_eq!(
        delivery_errors(log),
        Json::Array(vec![text("WARNING: one"), text("x error y")])
    );
    let many: String = (0..20).map(|i| format!("error {i}\n")).collect();
    match delivery_errors(&many) {
        Json::Array(rows) => {
            assert_eq!(rows.len(), 12);
            assert_eq!(rows[0], text("error 8"));
        }
        other => panic!("{other:?}"),
    }
}

#[test]
fn long_lines_are_cut_at_characters() {
    let line = format!("{}{}", "x".repeat(10), "y".repeat(240));
    assert_eq!(line_tail(&line), "y".repeat(240));
    assert_eq!(line_tail("short"), "short");
    assert_eq!(line_tail(""), "");
    let even = "é".repeat(200);
    assert_eq!(line_tail(&even), "é".repeat(120));
    let odd = format!("{}z", "é".repeat(200));
    let end = format!("{}z", "é".repeat(119));
    assert_eq!(line_tail(&odd), end);
    assert_eq!(line_tail(&end), end);
    assert_eq!(delivery_errors(&format!("error {odd}")), Json::Array(vec![text(&end)]));
    assert_eq!(line_tail(&"🙂".repeat(61)), "🙂".repeat(60));
}

#[test]
fn processes_are_read() {
    let head = "USER         PID %CPU %MEM    VSZ   RSS TTY      STAT START   TIME COMMAND";
    let line = "root           1  0.5  1.5 168140 11776 ?        Ss   Jan01   0:09 /sbin/init  splash";
    let short = "root           2  0.0  0.0      0     0 ?        S    Jan01   0:00 ";
    let list = top_processes(&format!("{head}\n{line}\n{short}\n"));
    assert_eq!(list.len(), 1);
    let p = &list[0];
    assert_eq!((p.pid, p.vsz, p.rss), (1, 168140, 11776));
    assert_eq!((p.user.as_str(), p.cpu.as_str(), p.mem.as_str()), ("root", "0.5", "1.5"));
    assert_eq!(p.command, "/sbin/init  splash");
    let row = process_row(p, Number::Float(7), Number::Float(8));
    assert_eq!(row.copy_at("cpu"), Json::Number(Number::Float(7)));
    assert_eq!(row.unsigned_at("pid", 0), 1);
    let many: String = (0..30).map(|_| format!("{line}\n")).collect();
    assert_eq!(top_processes(&format!("HEAD\n{many}")).len(), 15);
    assert!(top_processes("").is_empty());
}

#[test]
fn padded_columns_are_read() {
    let t = "USER         PID %CPU %MEM    VSZ   RSS TTY      STAT START   TIME COMMAND\n\
             root         1  0.0  0.1 168140 11776 ?        Ss   Jan01   0:09 /sbin/init\n\
             \x20\x20www-data    77 12.5  3.0   9000    80 pts/0    R+   10:00   1:00    nginx: worker  x\n\
             root         x  0.0  0.0      y     z ?        S    Jan01   0:00 a b\n";
    let list = top_processes(t);
    assert_eq!(list.len(), 3);
    let p = &list[0];
    assert_eq!((p.pid, p.user.as_str()), (1, "root"));
    assert_eq!((p.cpu.as_str(), p.mem.as_str()), ("0.0", "0.1"));
    assert_eq!((p.vsz, p.rss), (168140, 11776));
    assert_eq!(p.command, "/sbin/init");
    assert_eq!((list[1].pid, list[1].user.as_str()), (77, "www-data"));
    assert_eq!(list[1].command, "nginx: worker  x");
    assert_eq!((list[2].pid, list[2].vsz, list[2].rss), (0, 0, 0));
    assert_eq!(list[2].command, "a b");
    let long = format!("HEAD\nu 1 0 0 1 1 ? S J 0 {}\n", "c".repeat(130));
    assert_eq!(top_processes(&long)[0].command, "c".repeat(120));
}

#[test]
fn status_is_built() {
    let mut data = state_default();
    let findings = Findings {
        measured_at: 70,
        services: text("s"),
        cpu: Number::Unsigned(1),
        memory: object(vec![("percent", number(2))]),
        disk: object(vec![("percent", number(3))]),
        users: vec![text("u")],
        aliases: text("a"),
        queue: text("q"),
        errors: text("e"),
        health: text("h"),
    };
    build_status(&mut data, findings, &vec![], 77);
    assert_eq!(data.text_at("services", ""), "s");
    assert_eq!(data.copy_at("users"), Json::Array(vec![text("u")]));
    assert_eq!(data.text_at("dnsHealth", ""), "h");
    assert_eq!(data.copy_at("metrics").unsigned_at("at", 0), 70);
    assert_eq!(data.items_at("metricsHistory").len(), 1);
    assert_eq!(data.copy_at("antiSpam").unsigned_at("totalSpam", 9), 0);
    assert_eq!(data.unsigned_at("generatedAt", 0), 77);
    let reply = metrics(text("m"), text("s"), vec![], 5);
    assert_eq!(reply.text_at("metrics", ""), "m");
    assert_eq!(reply.unsigned_at("at", 0), 5);
}

#[test]
fn values_are_kept_for_a_while() {
    let mut slot = Slot::new();
    assert_eq!(slot.cached(0, 10), None);
    slot.put(5, number(1));
    assert_eq!(slot.cached(14, 10), Some(number(1)));
    assert_eq!(slot.cached(15, 10), None);
    slot.clear();
    assert_eq!(slot.cached(5, 10), None);
}

#[test]
fn trouble_is_found_and_shown() {
    let log = "ok\nFATAL x\nerrors\nbounced\n";
    let found = trouble_lines(log);
    assert_eq!(found, vec!["FATAL x", "bounced"]);
    assert_eq!(show_errors(&found), Json::Array(vec![text("FATAL x"), text("bounced")]));
    let long = format!("{}z", "é".repeat(200));
    assert_eq!(show_errors(&vec![long]), Json::Array(vec![text(&format!("{}z", "é".repeat(119)))]));
}

#[test]
fn texts_are_put_into_lower_case() {
    assert_eq!(to_lower("AbC-9"), "abc-9");
    assert_eq!(to_lower("ÄΣ"), "ÄΣ".to_lowercase());
}

#[test]
fn pieces_join_again() {
    for s in ["", ".", "a.b", ".a..b."] {
        assert_eq!(join(&split_on(s, '.'), "."), s);
    }
}
