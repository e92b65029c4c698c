//! What is done and shown for a managed domain and its DNS records.
use crate::checks::{
    check_row_of, check_rows_of, dkim_key_of, domain_checks_of, domain_records_of, health_checks_of, is_met,
    primary_records, CheckTree, ExpectTree,
};
use crate::config::{config_of, Environment};
use crate::domains::{
    addition_asked, added_reply, check_reply, differing, domain_row_of, domain_steps_of, lacking, managed_of,
    removal_steps_of, trimmed_lines, trusted_text, with_domain, with_line_for, DomainFiles, RefusalTree,
};
use crate::json::Tree;
use crate::mailboxes::failure_of;
use crate::outside::{regex_groups, regex_match, texts_result};
use crate::spam::count;
use crate::state::{domain_entry, first_domains, first_state, first_webmail};
use crate::steps::{file_of, Deed};
use crate::text::{has_text, joined, lines_of, lowered, stripped_end, trimmed};
use vstd::prelude::*;

verus! {

// ---------------------------------------------------------------------------
// Checks
// ---------------------------------------------------------------------------

/// A check that expects a value is met if one of the values is that value; one
/// that expects a text is met if the text stands in one of the values.
pub proof fn law_checks_look_at_every_value(values: Seq<Seq<char>>, value: Seq<char>, text: Seq<char>)
    ensures
        !is_met(ExpectTree::Exactly(text), Seq::empty()),
        !is_met(ExpectTree::Containing(text), Seq::empty()),
        is_met(ExpectTree::Exactly(text), values.push(value)) == (value == text || is_met(
            ExpectTree::Exactly(text),
            values,
        )),
        is_met(ExpectTree::Containing(text), values.push(value)) == (has_text(value, text) || is_met(
            ExpectTree::Containing(text),
            values,
        )),
{
    let now = values.push(value);
    assert(now[values.len() as int] == value);
    if is_met(ExpectTree::Exactly(text), values) {
        let k = choose|k: int| 0 <= k < values.len() && values[k] == text;
        assert(now[k] == text);
    }
    if is_met(ExpectTree::Exactly(text), now) && value != text {
        let k = choose|k: int| 0 <= k < now.len() && now[k] == text;
        assert(values[k] == text);
    }
    if is_met(ExpectTree::Containing(text), values) {
        let k = choose|k: int| 0 <= k < values.len() && has_text(#[trigger] values[k], text);
        assert(has_text(now[k], text));
    }
    if has_text(value, text) {
        assert(has_text(now[values.len() as int], text));
    }
    if is_met(ExpectTree::Containing(text), now) && !has_text(value, text) {
        let k = choose|k: int| 0 <= k < now.len() && has_text(#[trigger] now[k], text);
        assert(has_text(values[k], text));
    }
}

proof fn lemma_check_keys()
    ensures
        "name"@.len() == 4 && "name"@[0] == 'n',
        "type"@.len() == 4 && "type"@[0] == 't',
        "expect"@.len() == 6 && "expect"@[0] == 'e',
        "ok"@.len() == 2,
        "values"@.len() == 6 && "values"@[0] == 'v',
        "error"@.len() == 5 && "error"@[0] == 'e',
        "value"@.len() == 5 && "value"@[0] == 'v',
{
    reveal_strlit("name");
    reveal_strlit("type");
    reveal_strlit("expect");
    reveal_strlit("ok");
    reveal_strlit("values");
    reveal_strlit("error");
    reveal_strlit("value");
}

/// The result of a check is shown with the name and the type of the record, the
/// values that were found, and whether they are as expected; a query that failed
/// is shown as a check that failed, with the reason.
pub proof fn law_results_of_checks_are_shown(
    name: Seq<char>,
    kind: Seq<char>,
    expect: ExpectTree,
    values: Seq<Seq<char>>,
    why: Seq<char>,
    shown: bool,
)
    ensures
        ({
            let check = CheckTree { name, kind, expect };
            let found = check_row_of(check, Ok(values), shown);
            let failed = check_row_of(check, Err(why), shown);
            &&& found.at("name"@) == Tree::Text(name)
            &&& found.at("type"@) == Tree::Text(kind)
            &&& found.at("ok"@) == Tree::Bool(is_met(expect, values))
            &&& found.at("values"@).items() == values.map_values(|v: Seq<char>| Tree::Text(v))
            &&& found.at("error"@) == Tree::Null
            &&& failed.at("name"@) == Tree::Text(name)
            &&& failed.at("type"@) == Tree::Text(kind)
            &&& failed.at("ok"@) == Tree::Bool(false)
            &&& failed.at("values"@).items().len() == 0
            &&& failed.at("error"@) == Tree::Text(why)
            &&& expect matches ExpectTree::Exactly(v) ==> found.at("expect"@) == (if shown {
                Tree::Text(v)
            } else {
                Tree::Null
            })
            &&& expect is Containing ==> found.at("expect"@) == Tree::Null
        }),
{
    lemma_check_keys();
    let check = CheckTree { name, kind, expect };
    let found = check_row_of(check, Ok(values), shown);
    assert(found.at("values"@).items() =~= values.map_values(|v: Seq<char>| Tree::Text(v)));
}

/// Every check is shown with the answer to its own query.
pub proof fn law_each_check_has_its_answer(
    checks: Seq<CheckTree>,
    answers: Seq<Result<Vec<String>, String>>,
    shown: bool,
    i: int,
)
    requires
        checks.len() == answers.len(),
        0 <= i < checks.len(),
    ensures
        check_rows_of(checks, answers, shown).len() == checks.len(),
        check_rows_of(checks, answers, shown)[i] == check_row_of(checks[i], texts_result(answers[i]), shown),
{
}

/// A managed domain is checked for the record that has its mail delivered here,
/// for a record of its senders, for a record of its reports, and, if it has a
/// key, for a record of the key.
pub proof fn law_domain_is_checked_for_its_records(domain: Seq<char>, has_key: bool)
    ensures
        ({
            let checks = domain_checks_of(domain, has_key);
            &&& checks.len() == (if has_key {
                4int
            } else {
                3
            })
            &&& checks[0] == (CheckTree {
                name: domain,
                kind: "MX"@,
                expect: ExpectTree::Exactly("10 mail.olibuijr.com"@),
            })
            &&& checks[1] == (CheckTree {
                name: domain,
                kind: "TXT"@,
                expect: ExpectTree::Containing("v=spf1"@),
            })
            &&& checks[2] == (CheckTree {
                name: "_dmarc."@ + domain,
                kind: "TXT"@,
                expect: ExpectTree::Containing("v=DMARC1"@),
            })
            &&& has_key ==> checks[3] == (CheckTree {
                name: "mail._domainkey."@ + domain,
                kind: "TXT"@,
                expect: ExpectTree::Containing("v=DKIM1"@),
            })
        }),
{
    reveal_strlit("10 ");
    reveal_strlit("mail.olibuijr.com");
    reveal_strlit("10 mail.olibuijr.com");
    let host = "mail.olibuijr.com"@;
    let kind = crate::text::only('.');
    assert(host.last() == 'm');
    assert(!kind(host[host.len() - 1]));
    crate::text::lemma_run_start(host, kind, host.len() as int);
    assert(stripped_end(host, '.') =~= host);
    assert("10 "@ + host =~= "10 mail.olibuijr.com"@);
}

/// The records that a domain needs are the four that it is checked for, and the
/// one of its key holds the key.
pub proof fn law_domain_needs_its_records(domain: Seq<char>, key: Seq<char>)
    ensures
        ({
            let records = domain_records_of(domain, key);
            &&& records.len() == 4
            &&& records[0].at("type"@) == Tree::Text("MX"@) && records[0].at("name"@) == Tree::Text("@"@)
                && records[0].at("value"@) == Tree::Text("10 mail.olibuijr.com."@)
            &&& records[1].at("type"@) == Tree::Text("TXT"@) && records[1].at("name"@) == Tree::Text("@"@)
                && records[1].at("value"@) == Tree::Text("v=spf1 mx a:mail.olibuijr.com -all"@)
            &&& records[2].at("type"@) == Tree::Text("TXT"@) && records[2].at("name"@) == Tree::Text(
                "_dmarc"@,
            ) && records[2].at("value"@) == Tree::Text(
                "v=DMARC1; p=quarantine; rua=mailto:postmaster@"@ + domain,
            )
            &&& records[3].at("type"@) == Tree::Text("TXT"@) && records[3].at("name"@) == Tree::Text(
                "mail._domainkey"@,
            )
            &&& key.len() > 0 ==> records[3].at("value"@) == Tree::Text(key)
            &&& key.len() == 0 ==> records[3].at("value"@) == Tree::Text("(DKIM key not yet generated)"@)
        }),
{
    lemma_check_keys();
    reveal_strlit("10 ");
    reveal_strlit("mail.olibuijr.com");
    reveal_strlit(".");
    reveal_strlit("10 mail.olibuijr.com.");
    reveal_strlit("v=spf1 mx a:");
    reveal_strlit(" -all");
    reveal_strlit("v=spf1 mx a:mail.olibuijr.com -all");
    let host = "mail.olibuijr.com"@;
    assert("10 "@ + host + "."@ =~= "10 mail.olibuijr.com."@);
    assert("v=spf1 mx a:"@ + host + " -all"@ =~= "v=spf1 mx a:mail.olibuijr.com -all"@);
}

/// The records of the primary domain are those that it is checked for: each
/// check finds, under its name and type, a record with the value it expects.
pub proof fn law_own_records_meet_the_checks(i: int)
    requires
        0 <= i < 4,
    ensures
        health_checks_of().len() == 4,
        exists|j: int|
            0 <= j < primary_records().len() && (#[trigger] primary_records()[j]).at("type"@) == Tree::Text(
                health_checks_of()[i].kind,
            ) && primary_records()[j].at("name"@) == Tree::Text(health_checks_of()[i].name)
                && health_checks_of()[i].expect == ExpectTree::Exactly(
                primary_records()[j].at("value"@).text_or(""@),
            ),
        health_checks_of()[0].kind == "A"@ && health_checks_of()[0].name == "mail.olibuijr.com"@
            && health_checks_of()[0].expect == ExpectTree::Exactly("3.94.46.219"@),
        health_checks_of()[1].kind == "MX"@ && health_checks_of()[1].name == "olibuijr.com"@
            && health_checks_of()[1].expect == ExpectTree::Exactly("10 mail.olibuijr.com"@),
        health_checks_of()[2].kind == "TXT"@ && health_checks_of()[2].name == "olibuijr.com"@
            && health_checks_of()[2].expect == ExpectTree::Exactly("v=spf1 ip4:3.94.46.219 mx -all"@),
        health_checks_of()[3].kind == "TXT"@ && health_checks_of()[3].name == "_dmarc."@ + "olibuijr.com"@
            && health_checks_of()[3].expect == ExpectTree::Exactly(
            "v=DMARC1; p=quarantine; rua=mailto:postmaster@olibuijr.com"@,
        ),
{
    lemma_check_keys();
    reveal_strlit("10 ");
    reveal_strlit("mail.olibuijr.com");
    reveal_strlit("olibuijr.com");
    reveal_strlit("10 mail.olibuijr.com");
    reveal_strlit("3.94.46.219");
    reveal_strlit("v=spf1 ip4:");
    reveal_strlit(" mx -all");
    reveal_strlit("v=spf1 ip4:3.94.46.219 mx -all");
    reveal_strlit("v=DMARC1; p=quarantine; rua=mailto:postmaster@");
    reveal_strlit("v=DMARC1; p=quarantine; rua=mailto:postmaster@olibuijr.com");
    assert("10 "@ + "mail.olibuijr.com"@ =~= "10 mail.olibuijr.com"@);
    assert("v=spf1 ip4:"@ + "3.94.46.219"@ + " mx -all"@ =~= "v=spf1 ip4:3.94.46.219 mx -all"@);
    assert("v=DMARC1; p=quarantine; rua=mailto:postmaster@"@ + "olibuijr.com"@
        =~= "v=DMARC1; p=quarantine; rua=mailto:postmaster@olibuijr.com"@);
    let r = primary_records();
    let c = health_checks_of();
    let j = if i == 0 {
        0int
    } else {
        i + 3
    };
    assert(r[0].at("type"@) == Tree::Text("A"@));
    assert(r[j].at("type"@) == Tree::Text(c[i].kind));
    assert(r[j].at("name"@) == Tree::Text(c[i].name));
    assert(c[i].expect == ExpectTree::Exactly(r[j].at("value"@).text_or(""@)));
}

/// The public key is what stands in quotation marks, one after another.
pub proof fn law_key_is_put_together(text: Seq<char>)
    ensures
        dkim_key_of(text) == joined(regex_groups("\"([^\"]*)\""@, text), ""@),
{
}

// ---------------------------------------------------------------------------
// Managed domains
// ---------------------------------------------------------------------------

/// A domain is added in lower case and without white space around it, if it is
/// a domain name and not managed yet; each other case is refused for its own
/// reason.
pub proof fn law_domain_is_added_if_free(domain: Seq<char>, data: Tree)
    ensures
        ({
            let name = lowered(trimmed(domain));
            let valid = regex_match(
                r"^[a-z0-9]([a-z0-9-]*[a-z0-9])?(\.[a-z0-9]([a-z0-9-]*[a-z0-9])?)+$"@,
                name,
            );
            let known = exists|i: int|
                0 <= i < data.at("domains"@).items().len() && (#[trigger] data.at("domains"@).items()[i]).at(
                    "domain"@,
                ) == Tree::Text(name);
            let asked = addition_asked(domain, data);
            &&& !valid ==> asked == Err::<Seq<char>, RefusalTree>(
                RefusalTree::Answer(failure_of("invalid domain name"@)),
            )
            &&& valid && !(data.at("domains"@) is Array) ==> asked == Err::<Seq<char>, RefusalTree>(
                RefusalTree::Fault("invalid domains state"@),
            )
            &&& valid && data.at("domains"@) is Array && known ==> asked == Err::<Seq<char>, RefusalTree>(
                RefusalTree::Answer(failure_of("domain already exists"@)),
            )
            &&& valid && data.at("domains"@) is Array && !known ==> asked == Ok::<Seq<char>, RefusalTree>(name)
        }),
{
    let name = lowered(trimmed(domain));
    let rows = data.at("domains"@).items();
    if exists|i: int| 0 <= i < rows.len() && (#[trigger] rows[i]).at("domain"@) == Tree::Text(name) {
        let i = choose|i: int| 0 <= i < rows.len() && (#[trigger] rows[i]).at("domain"@) == Tree::Text(name);
        assert(crate::domains::is_row(rows[i], name));
    }
    if crate::domains::has_domain(rows, name) {
        let i = choose|i: int| 0 <= i < rows.len() && crate::domains::is_row(#[trigger] rows[i], name);
        assert(rows[i].at("domain"@) == Tree::Text(name));
    }
}

proof fn lemma_domain_keys()
    ensures
        "domain"@.len() == 6 && "domain"@[0] == 'd',
        "addedAt"@.len() == 7 && "addedAt"@[0] == 'a',
        "status"@.len() == 6 && "status"@[0] == 's',
        "dnsRecords"@.len() == 10,
        "dnsChecks"@.len() == 9,
        "ok"@.len() == 2,
        "domains"@.len() == 7 && "domains"@[0] == 'd',
{
    reveal_strlit("domain");
    reveal_strlit("addedAt");
    reveal_strlit("status");
    reveal_strlit("dnsRecords");
    reveal_strlit("dnsChecks");
    reveal_strlit("ok");
    reveal_strlit("domains");
}

/// A domain that is added is listed last, with its name, the time and its
/// status; the others, and everything else, stay as they are.
pub proof fn law_added_domain_is_listed_last(data: Tree, domain: Seq<char>, at: u64, other: Seq<char>)
    requires
        data is Object,
    ensures
        ({
            let now = with_domain(data, domain, at);
            let rows = now.at("domains"@).items();
            &&& rows.drop_last() == data.at("domains"@).items()
            &&& rows.len() == data.at("domains"@).items().len() + 1
            &&& rows.last().at("domain"@) == Tree::Text(domain)
            &&& rows.last().at("addedAt"@) == count(at)
            &&& rows.last().at("status"@) == Tree::Text("active"@)
            &&& managed_of(rows.last()) == (domain, at)
            &&& other != "domains"@ ==> now.get(other) == data.get(other)
        }),
{
    lemma_domain_keys();
    let rows = data.at("domains"@).items();
    let now = with_domain(data, domain, at).at("domains"@).items();
    assert(now == rows.push(domain_entry(domain, at)));
    assert(now.drop_last() =~= rows);
}

/// The answer that a domain was added names it and the records that it needs.
pub proof fn law_added_domain_is_answered(domain: Seq<char>, key: Seq<char>)
    ensures
        added_reply(domain, key).at("ok"@) == Tree::Bool(true),
        added_reply(domain, key).at("domain"@) == Tree::Text(domain),
        added_reply(domain, key).at("dnsRecords"@) == Tree::Array(domain_records_of(domain, key)),
{
    lemma_domain_keys();
}

/// A domain is verified exactly if all of its checks passed, and pending if one
/// of them did not; it is shown with its checks and the records it needs.
pub proof fn law_domain_is_verified_by_its_checks(
    domain: Seq<char>,
    added_at: u64,
    key: Seq<char>,
    answers: Seq<Result<Vec<String>, String>>,
)
    ensures
        ({
            let rows = check_rows_of(domain_checks_of(domain, key.len() > 0), answers, false);
            let good = forall|i: int| 0 <= i < rows.len() ==> (#[trigger] rows[i]).at("ok"@) == Tree::Bool(true);
            let shown = domain_row_of(domain, added_at, key, answers);
            let reply = check_reply(domain, key, answers);
            &&& good ==> shown.at("status"@) == Tree::Text("verified"@)
            &&& !good ==> shown.at("status"@) == Tree::Text("pending"@)
            &&& shown.at("domain"@) == Tree::Text(domain)
            &&& shown.at("addedAt"@) == count(added_at)
            &&& shown.at("dnsRecords"@) == Tree::Array(domain_records_of(domain, key))
            &&& shown.at("dnsChecks"@) == Tree::Array(rows)
            &&& reply.at("ok"@) == Tree::Bool(true)
            &&& reply.at("domain"@) == Tree::Text(domain)
            &&& reply.at("status"@) == shown.at("status"@)
            &&& reply.at("dnsRecords"@) == shown.at("dnsRecords"@)
            &&& reply.at("dnsChecks"@) == shown.at("dnsChecks"@)
        }),
{
    lemma_domain_keys();
    let rows = check_rows_of(domain_checks_of(domain, key.len() > 0), answers, false);
    if forall|i: int| 0 <= i < rows.len() ==> (#[trigger] rows[i]).at("ok"@) == Tree::Bool(true) {
        assert forall|i: int| 0 <= i < rows.len() implies (#[trigger] rows[i]).at("ok"@).bool_or(false) by {
            assert(rows[i].at("ok"@) == Tree::Bool(true));
        }
        assert(crate::domains::all_ok_of(rows));
    } else {
        let i = choose|i: int| 0 <= i < rows.len() && (#[trigger] rows[i]).at("ok"@) != Tree::Bool(true);
        assert(!rows[i].at("ok"@).bool_or(false));
        assert(!crate::domains::all_ok_of(rows));
    }
}

/// A row of the list of managed domains gives its name and time; one without a
/// name is that of the primary domain, and one without a time was there from the
/// start.
pub proof fn law_managed_domain_is_read(row: Tree, domain: Seq<char>, at: u64)
    ensures
        row.at("domain"@) == Tree::Text(domain) ==> managed_of(row).0 == domain,
        !(row.at("domain"@) is Text) ==> managed_of(row).0 == "olibuijr.com"@,
        row.at("addedAt"@) == count(at) ==> managed_of(row).1 == at,
        row.at("addedAt"@) == Tree::Null ==> managed_of(row).1 == 0,
{
}

// ---------------------------------------------------------------------------
// The files of the servers
// ---------------------------------------------------------------------------

/// Of lines, those are kept that hold more than white space, without the white
/// space around them.
pub proof fn law_blank_lines_are_left_out(list: Seq<Seq<char>>, line: Seq<char>)
    ensures
        trimmed_lines(Seq::empty()) == Seq::<Seq<char>>::empty(),
        trimmed(line).len() == 0 ==> trimmed_lines(list.push(line)) == trimmed_lines(list),
        trimmed(line).len() > 0 ==> trimmed_lines(list.push(line)) == trimmed_lines(list).push(trimmed(line)),
{
    assert(list.push(line).drop_last() =~= list);
}

/// Having mail taken for a domain lists it for the mail server, makes it a key
/// unless it has one, enters it into the tables of the signing service and the
/// list of trusted hosts, makes the directory of its mailboxes, and has the
/// servers read their settings again.
pub proof fn law_mail_is_taken_for_a_domain(domain: Seq<char>, files: DomainFiles)
    ensures
        ({
            let listed = trimmed_lines(lines_of(files.domains@));
            let trusted = lines_of(trusted_text(files.trusted_hosts));
            let dir = crate::steps::below("/etc/opendkim/keys"@, domain);
            let root = crate::steps::below("/var/vmail"@, domain);
            domain_steps_of(domain, files) == (if listed.contains(domain) {
                Seq::<Deed>::empty()
            } else {
                seq![Deed::Write("/etc/postfix/vmailbox_domains"@, file_of(listed.push(domain)))]
            }) + (if files.has_key {
                Seq::<Deed>::empty()
            } else {
                seq![
                    Deed::MakeDir(dir),
                    Deed::Check("opendkim-genkey"@, seq!["-s"@, "mail"@, "-d"@, domain, "-D"@, dir]),
                    Deed::Run("chown"@, seq!["-R"@, "opendkim:opendkim"@, dir]),
                    Deed::Run("chmod"@, seq!["0600"@, crate::steps::below(dir, "mail.private"@)]),
                ]
            }) + seq![
                Deed::Write(
                    "/etc/opendkim/KeyTable"@,
                    with_line_for(
                        files.key_table@,
                        domain,
                        "mail._domainkey."@ + domain + " "@ + domain + ":mail:"@ + dir + "/mail.private"@,
                    ),
                ),
                Deed::Write(
                    "/etc/opendkim/SigningTable"@,
                    with_line_for(files.signing_table@, domain, "*@"@ + domain + " mail._domainkey."@ + domain),
                ),
            ] + (if trusted.contains(domain) {
                Seq::<Deed>::empty()
            } else {
                seq![Deed::Write("/etc/opendkim/TrustedHosts"@, file_of(trusted.push(domain)))]
            }) + seq![
                Deed::MakeDir(root),
                Deed::Run("chown"@, seq!["-R"@, "vmail:mail"@, root]),
                Deed::Run("systemctl"@, seq!["reload"@, "opendkim"@]),
                Deed::Run("systemctl"@, seq!["reload"@, "postfix"@]),
            ]
        }),
        files.trusted_hosts is None ==> trusted_text(files.trusted_hosts) == "127.0.0.1\n::1\nlocalhost\n"@,
        files.trusted_hosts matches Some(t) ==> trusted_text(files.trusted_hosts) == t@,
{
}

/// The lines that a domain takes the place of are those that hold its name, and
/// those that it is taken out of are those that are its name.
pub proof fn law_lines_of_other_domains_stay(text: Seq<char>, domain: Seq<char>, line: Seq<char>)
    ensures
        with_line_for(text, domain, line) == file_of(
            lines_of(text).filter(|l: Seq<char>| !has_text(l, domain)).push(line),
        ),
        lacking(domain)(line) == !has_text(line, domain),
        differing(domain)(line) == (trimmed(line) != domain),
{
    assert(lacking(domain) =~= (|l: Seq<char>| !has_text(l, domain)));
}

/// Removing a domain takes its lines out of the four files, leaves the lines of
/// the others in their order, and has the servers read their settings again.
pub proof fn law_domain_is_taken_out_of_the_files(
    domain: Seq<char>,
    key_table: Seq<char>,
    signing_table: Seq<char>,
    trusted_hosts: Seq<char>,
    domains: Seq<char>,
)
    ensures
        removal_steps_of(domain, key_table, signing_table, trusted_hosts, domains) == seq![
            Deed::Write(
                "/etc/opendkim/KeyTable"@,
                file_of(lines_of(key_table).filter(|l: Seq<char>| !has_text(l, domain))),
            ),
            Deed::Write(
                "/etc/opendkim/SigningTable"@,
                file_of(lines_of(signing_table).filter(|l: Seq<char>| !has_text(l, domain))),
            ),
            Deed::Write(
                "/etc/opendkim/TrustedHosts"@,
                file_of(lines_of(trusted_hosts).filter(|l: Seq<char>| trimmed(l) != domain)),
            ),
            Deed::Write(
                "/etc/postfix/vmailbox_domains"@,
                file_of(lines_of(domains).filter(|l: Seq<char>| trimmed(l) != domain)),
            ),
            Deed::Run("systemctl"@, seq!["reload"@, "opendkim"@]),
            Deed::Run("systemctl"@, seq!["reload"@, "postfix"@]),
        ],
{
    assert(lacking(domain) =~= (|l: Seq<char>| !has_text(l, domain)));
    assert(differing(domain) =~= (|l: Seq<char>| trimmed(l) != domain));
}

// ---------------------------------------------------------------------------
// What holds at first
// ---------------------------------------------------------------------------

/// A setting is what the environment says; one that the environment leaves open
/// has its default.
pub proof fn law_settings_come_from_the_environment(env: Environment)
    ensures
        config_of(env).admin_user == (match env.admin_user {
            Some(t) => t@,
            None => "admin"@,
        }),
        config_of(env).admin_password == (match env.admin_password {
            Some(t) => t@,
            None => ""@,
        }),
        config_of(env).listen_addr == (match env.listen_addr {
            Some(t) => t@,
            None => "127.0.0.1:3000"@,
        }),
        config_of(env).static_dir == (match env.static_dir {
            Some(t) => t@,
            None => "./static"@,
        }),
        config_of(env).base_url == (match env.base_url {
            Some(t) => t@,
            None => "https://mail.olibuijr.com"@,
        }),
        config_of(env).oidc_issuer == (match env.oidc_issuer {
            Some(t) => t@,
            None => "https://auth.olibuijr.com"@,
        }),
        config_of(env).oidc_client_id == (match env.oidc_client_id {
            Some(t) => t@,
            None => ""@,
        }),
        config_of(env).oidc_client_secret == (match env.oidc_client_secret {
            Some(t) => t@,
            None => ""@,
        }),
{
}

/// At first the platform knows its own names and address, the policy that holds
/// at first, and no mailboxes, aliases, events or measurements.
pub proof fn law_platform_starts_empty(key: Seq<char>)
    ensures
        first_state().at("domain"@) == Tree::Text("olibuijr.com"@),
        first_state().at("hostname"@) == Tree::Text("mail.olibuijr.com"@),
        first_state().at("publicIp"@) == Tree::Text("3.94.46.219"@),
        first_state().at("spamPolicy"@) == crate::spam::policy_default(),
        first_state().at("users"@) == Tree::Array(Seq::empty()),
        first_state().at("aliases"@) == Tree::Array(Seq::empty()),
        first_state().at("events"@) == Tree::Array(Seq::empty()),
        first_state().at("metricsHistory"@) == Tree::Array(Seq::empty()),
        first_state().get(key) is Some ==> key == "domain"@ || key == "hostname"@ || key == "publicIp"@ || key
            == "spamPolicy"@ || key == "users"@ || key == "aliases"@ || key == "events"@ || key
            == "metricsHistory"@,
        first_domains().at("domains"@).items().map_values(|row: Tree| managed_of(row)) == seq![
            ("olibuijr.com"@, 0u64),
        ],
{
    reveal_strlit("domain");
    reveal_strlit("hostname");
    reveal_strlit("publicIp");
    reveal_strlit("spamPolicy");
    reveal_strlit("users");
    reveal_strlit("aliases");
    reveal_strlit("events");
    reveal_strlit("metricsHistory");
    reveal_strlit("addedAt");
    reveal_strlit("status");
    assert("domain"@.len() == 6 && "hostname"@.len() == 8 && "publicIp"@.len() == 8 && "spamPolicy"@.len() == 10
        && "users"@.len() == 5 && "aliases"@.len() == 7 && "events"@.len() == 6 && "metricsHistory"@.len() == 14
        && "addedAt"@.len() == 7 && "status"@.len() == 6);
    assert("domain"@[0] == 'd' && "events"@[0] == 'e' && "status"@[0] == 's' && "hostname"@[0] == 'h'
        && "publicIp"@[0] == 'p');
    assert(first_domains().at("domains"@).items().map_values(|row: Tree| managed_of(row)) =~= seq![
        ("olibuijr.com"@, 0u64),
    ]);
}

/// At first webmail has no contacts, signatures, rules or records of actions,
/// and shows things comfortably and light.
pub proof fn law_webmail_starts_empty(key: Seq<char>)
    ensures
        first_webmail().at("contacts"@) == Tree::Array(Seq::empty()),
        first_webmail().at("rules"@) == Tree::Array(Seq::empty()),
        first_webmail().at("audit"@) == Tree::Array(Seq::empty()),
        first_webmail().at("signatures"@) == Tree::Object(Map::empty()),
        first_webmail().at("vacation"@) == Tree::Object(Map::empty()),
        first_webmail().at("vacationSent"@) == Tree::Object(Map::empty()),
        first_webmail().at("preferences"@).at("density"@) == Tree::Text("comfortable"@),
        first_webmail().at("preferences"@).at("theme"@) == Tree::Text("light"@),
        first_webmail().get(key) is Some ==> key == "contacts"@ || key == "rules"@ || key == "audit"@ || key
            == "signatures"@ || key == "vacation"@ || key == "vacationSent"@ || key == "preferences"@,
{
    reveal_strlit("contacts");
    reveal_strlit("rules");
    reveal_strlit("audit");
    reveal_strlit("signatures");
    reveal_strlit("vacation");
    reveal_strlit("vacationSent");
    reveal_strlit("preferences");
    reveal_strlit("density");
    reveal_strlit("theme");
    assert("contacts"@.len() == 8 && "rules"@.len() == 5 && "audit"@.len() == 5 && "signatures"@.len() == 10
        && "vacation"@.len() == 8 && "vacationSent"@.len() == 12 && "preferences"@.len() == 11
        && "density"@.len() == 7 && "theme"@.len() == 5);
    assert("contacts"@[0] == 'c' && "vacation"@[0] == 'v' && "rules"@[0] == 'r' && "audit"@[0] == 'a');
}

} // verus!
