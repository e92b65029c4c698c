//! DNS records that a mail domain needs, and checking that they are there.
use crate::json::{text_array, trees, Json, Tree};
use crate::outside::{regex_first_groups, regex_groups, texts_result, QUOTED_PATTERN};
use crate::site::{DOMAIN, HOSTNAME, PUBLIC_IP};
use crate::text::{contains, has_text, holds, join, joined, strip_end, stripped_end, texts};
use vstd::prelude::*;

verus! {

/// What a check expects among the values of a record.
#[derive(Debug, PartialEq, Eq)]
pub enum Expect {
    /// This value.
    Exactly(String),
    /// A value that holds this text.
    Containing(String),
}

/// A check of a DNS record.
#[derive(Debug, PartialEq, Eq)]
pub struct Check {
    pub name: String,
    pub kind: String,
    pub expect: Expect,
}

/// What a check expects among the values of a record.
pub ghost enum ExpectTree {
    Exactly(Seq<char>),
    Containing(Seq<char>),
}

/// A check of a DNS record.
pub ghost struct CheckTree {
    pub name: Seq<char>,
    pub kind: Seq<char>,
    pub expect: ExpectTree,
}

impl View for Check {
    type V = CheckTree;

    open spec fn view(&self) -> CheckTree {
        CheckTree {
            name: self.name@,
            kind: self.kind@,
            expect: match self.expect {
                Expect::Exactly(s) => ExpectTree::Exactly(s@),
                Expect::Containing(s) => ExpectTree::Containing(s@),
            },
        }
    }
}

/// The checks of a list.
pub open spec fn check_trees(checks: Seq<Check>) -> Seq<CheckTree> {
    checks.map_values(|c: Check| c@)
}

/// Whether the values of a record are as expected.
pub open spec fn is_met(expect: ExpectTree, values: Seq<Seq<char>>) -> bool {
    match expect {
        ExpectTree::Exactly(s) => values.contains(s),
        ExpectTree::Containing(s) => exists|i: int| 0 <= i < values.len() && has_text(#[trigger] values[i], s),
    }
}

/// Whether the answer to a query meets a check.
pub open spec fn passes(check: CheckTree, answer: Result<Seq<Seq<char>>, Seq<char>>) -> bool {
    match answer {
        Ok(values) => is_met(check.expect, values),
        Err(_) => false,
    }
}

/// The row that shows a check without its result; the expected value is shown
/// on request.
pub open spec fn check_start(check: CheckTree, shown: bool) -> Tree {
    let start = Tree::object().with("name"@, Tree::Text(check.name)).with("type"@, Tree::Text(check.kind));
    match check.expect {
        ExpectTree::Exactly(s) => if shown {
            start.with("expect"@, Tree::Text(s))
        } else {
            start
        },
        ExpectTree::Containing(_) => start,
    }
}

/// The row that shows the result of a check.
pub open spec fn check_row_of(
    check: CheckTree,
    answer: Result<Seq<Seq<char>>, Seq<char>>,
    shown: bool,
) -> Tree {
    let row = check_start(check, shown).with("ok"@, Tree::Bool(passes(check, answer)));
    match answer {
        Ok(values) => row.with("values"@, text_array(values)),
        Err(e) => row.with("values"@, text_array(seq![])).with("error"@, Tree::Text(e)),
    }
}

fn some_contains(values: &Vec<String>, needle: &str) -> (r: bool)
    ensures
        r == is_met(ExpectTree::Containing(needle@), texts(values@)),
{
    let ghost all = texts(values@);
    let mut i: usize = 0;
    while i < values.len()
        invariant
            i <= values@.len(),
            all == texts(values@),
            forall|j: int| 0 <= j < i ==> !has_text(#[trigger] all[j], needle@),
        decreases values@.len() - i,
    {
        proof {
            assert(all[i as int] == values@[i as int]@);
        }
        if contains(values[i].as_str(), needle) {
            return true;
        }
        i += 1;
    }
    false
}

/// Shows the result of a check.
pub fn check_row(check: &Check, answer: &Result<Vec<String>, String>, shown: bool) -> (r: Json)
    ensures
        r@ == check_row_of(check@, texts_result(*answer), shown),
{
    let mut row = Json::object()
        .with("name", Json::text(check.name.as_str()))
        .with("type", Json::text(check.kind.as_str()));
    if shown {
        if let Expect::Exactly(s) = &check.expect {
            row.set("expect", Json::text(s.as_str()));
        }
    }
    match answer {
        Ok(values) => {
            let ok = match &check.expect {
                Expect::Exactly(s) => holds(values, s.as_str()),
                Expect::Containing(s) => some_contains(values, s.as_str()),
            };
            row.with("ok", Json::Bool(ok)).with("values", Json::texts(values))
        },
        Err(e) => {
            let none: Vec<String> = Vec::new();
            proof {
                assert(texts(none@) =~= seq![]);
            }
            row.with("ok", Json::Bool(false)).with("values", Json::texts(&none)).with(
                "error",
                Json::text(e.as_str()),
            )
        },
    }
}

/// The rows that show the results of checks.
pub open spec fn check_rows_of(
    checks: Seq<CheckTree>,
    answers: Seq<Result<Vec<String>, String>>,
    shown: bool,
) -> Seq<Tree> {
    Seq::new(checks.len(), |i: int| check_row_of(checks[i], texts_result(answers[i]), shown))
}

/// Shows the results of checks.
pub fn check_rows(checks: &Vec<Check>, answers: &Vec<Result<Vec<String>, String>>, shown: bool) -> (r: Vec<Json>)
    requires
        checks@.len() == answers@.len(),
    ensures
        trees(r@) == check_rows_of(check_trees(checks@), answers@, shown),
{
    let mut rows: Vec<Json> = Vec::new();
    let mut i: usize = 0;
    while i < checks.len()
        invariant
            i <= checks@.len(),
            checks@.len() == answers@.len(),
            rows@.len() == i,
            forall|j: int|
                0 <= j < i ==> (#[trigger] rows@[j])@ == check_row_of(
                    checks@[j]@,
                    texts_result(answers@[j]),
                    shown,
                ),
        decreases checks@.len() - i,
    {
        rows.push(check_row(&checks[i], &answers[i], shown));
        i += 1;
    }
    proof {
        assert(trees(rows@) =~= check_rows_of(check_trees(checks@), answers@, shown));
    }
    rows
}

fn exactly(name: &str, kind: &str, expect: &str) -> (r: Check)
    ensures
        r@ == (CheckTree { name: name@, kind: kind@, expect: ExpectTree::Exactly(expect@) }),
{
    Check { name: name.to_owned(), kind: kind.to_owned(), expect: Expect::Exactly(expect.to_owned()) }
}

fn containing(name: &str, kind: &str, expect: &str) -> (r: Check)
    ensures
        r@ == (CheckTree { name: name@, kind: kind@, expect: ExpectTree::Containing(expect@) }),
{
    Check { name: name.to_owned(), kind: kind.to_owned(), expect: Expect::Containing(expect.to_owned()) }
}

fn prefixed(prefix: &str, s: &str) -> (r: String)
    ensures
        r@ == prefix@ + s@,
{
    let mut out = prefix.to_owned();
    out.append(s);
    out
}

/// The checks of the primary domain.
pub open spec fn health_checks_of() -> Seq<CheckTree> {
    seq![
        CheckTree { name: HOSTNAME@, kind: "A"@, expect: ExpectTree::Exactly(PUBLIC_IP@) },
        CheckTree { name: DOMAIN@, kind: "MX"@, expect: ExpectTree::Exactly("10 mail.olibuijr.com"@) },
        CheckTree {
            name: DOMAIN@,
            kind: "TXT"@,
            expect: ExpectTree::Exactly("v=spf1 ip4:3.94.46.219 mx -all"@),
        },
        CheckTree {
            name: "_dmarc."@ + DOMAIN@,
            kind: "TXT"@,
            expect: ExpectTree::Exactly("v=DMARC1; p=quarantine; rua=mailto:postmaster@olibuijr.com"@),
        },
    ]
}

/// Lists the checks of the primary domain.
pub fn health_checks() -> (r: Vec<Check>)
    ensures
        check_trees(r@) == health_checks_of(),
{
    let dmarc = prefixed("_dmarc.", DOMAIN);
    let r = vec![
        exactly(HOSTNAME, "A", PUBLIC_IP),
        exactly(DOMAIN, "MX", "10 mail.olibuijr.com"),
        exactly(DOMAIN, "TXT", "v=spf1 ip4:3.94.46.219 mx -all"),
        exactly(
            dmarc.as_str(),
            "TXT",
            "v=DMARC1; p=quarantine; rua=mailto:postmaster@olibuijr.com",
        ),
    ];
    proof {
        assert(check_trees(r@) =~= health_checks_of());
    }
    r
}

/// Reports on the checks of the primary domain, given the answers to their
/// queries.
pub fn dns_health(answers: &Vec<Result<Vec<String>, String>>) -> (r: Json)
    requires
        answers@.len() == health_checks_of().len(),
    ensures
        r@ == Tree::Array(check_rows_of(health_checks_of(), answers@, true)),
{
    let checks = health_checks();
    proof {
        assert(check_trees(checks@).len() == checks@.len());
    }
    Json::array(check_rows(&checks, answers, true))
}

/// The public key in the text that the signing service wrote for it: what
/// stands in quotation marks, one after another.
pub open spec fn dkim_key_of(text: Seq<char>) -> Seq<char> {
    joined(regex_groups(QUOTED_PATTERN@, text), ""@)
}

/// Reads the public key of a domain.
pub fn read_dkim_public_key(text: &str) -> (r: String)
    ensures
        r@ == dkim_key_of(text@),
{
    let parts = regex_first_groups(QUOTED_PATTERN, text);
    join(&parts, "")
}

/// The checks of a managed domain; its key is checked if there is one.
pub open spec fn domain_checks_of(domain: Seq<char>, has_key: bool) -> Seq<CheckTree> {
    let first = seq![
        CheckTree {
            name: domain,
            kind: "MX"@,
            expect: ExpectTree::Exactly("10 "@ + stripped_end(HOSTNAME@, '.')),
        },
        CheckTree { name: domain, kind: "TXT"@, expect: ExpectTree::Containing("v=spf1"@) },
        CheckTree { name: "_dmarc."@ + domain, kind: "TXT"@, expect: ExpectTree::Containing("v=DMARC1"@) },
    ];
    if has_key {
        first.push(
            CheckTree {
                name: "mail._domainkey."@ + domain,
                kind: "TXT"@,
                expect: ExpectTree::Containing("v=DKIM1"@),
            },
        )
    } else {
        first
    }
}

/// Lists the checks of a managed domain.
pub fn domain_checks(domain: &str, has_key: bool) -> (r: Vec<Check>)
    ensures
        check_trees(r@) == domain_checks_of(domain@, has_key),
{
    let exchange = prefixed("10 ", strip_end(HOSTNAME, '.').as_str());
    let dmarc = prefixed("_dmarc.", domain);
    let mut r = vec![
        exactly(domain, "MX", exchange.as_str()),
        containing(domain, "TXT", "v=spf1"),
        containing(dmarc.as_str(), "TXT", "v=DMARC1"),
    ];
    let ghost first = check_trees(r@);
    proof {
        assert(first =~= domain_checks_of(domain@, false));
    }
    if has_key {
        let key = prefixed("mail._domainkey.", domain);
        r.push(containing(key.as_str(), "TXT", "v=DKIM1"));
        proof {
            assert(check_trees(r@) =~= first.push(r@.last()@));
        }
    }
    r
}

/// Reports on the checks of a managed domain, given the answers to their
/// queries.
pub fn dns_check_domain(
    domain: &str,
    has_key: bool,
    answers: &Vec<Result<Vec<String>, String>>,
) -> (r: Json)
    requires
        answers@.len() == domain_checks_of(domain@, has_key).len(),
    ensures
        r@ == Tree::Array(check_rows_of(domain_checks_of(domain@, has_key), answers@, false)),
{
    let checks = domain_checks(domain, has_key);
    proof {
        assert(check_trees(checks@).len() == checks@.len());
    }
    Json::array(check_rows(&checks, answers, false))
}

/// A DNS record.
pub open spec fn record_of(kind: Seq<char>, name: Seq<char>, value: Seq<char>) -> Tree {
    Tree::object().with("type"@, Tree::Text(kind)).with("name"@, Tree::Text(name)).with(
        "value"@,
        Tree::Text(value),
    )
}

fn record(kind: &str, name: &str, value: &str) -> (r: Json)
    ensures
        r@ == record_of(kind@, name@, value@),
{
    Json::object()
        .with("type", Json::text(kind))
        .with("name", Json::text(name))
        .with("value", Json::text(value))
}

/// The DNS records that a managed domain needs, given its public key.
pub open spec fn domain_records_of(domain: Seq<char>, key: Seq<char>) -> Seq<Tree> {
    seq![
        record_of("MX"@, "@"@, "10 "@ + HOSTNAME@ + "."@),
        record_of("TXT"@, "@"@, "v=spf1 mx a:"@ + HOSTNAME@ + " -all"@),
        record_of("TXT"@, "_dmarc"@, "v=DMARC1; p=quarantine; rua=mailto:postmaster@"@ + domain),
        record_of(
            "TXT"@,
            "mail._domainkey"@,
            if key.len() == 0 {
                "(DKIM key not yet generated)"@
            } else {
                key
            },
        ),
    ]
}

/// Lists the DNS records that a managed domain needs.
pub fn domain_dns_records(domain: &str, key: &str) -> (r: Json)
    ensures
        r@ == Tree::Array(domain_records_of(domain@, key@)),
{
    let mut exchange = prefixed("10 ", HOSTNAME);
    exchange.append(".");
    let mut spf = prefixed("v=spf1 mx a:", HOSTNAME);
    spf.append(" -all");
    let dmarc = prefixed("v=DMARC1; p=quarantine; rua=mailto:postmaster@", domain);
    let dkim = if key.is_empty() {
        "(DKIM key not yet generated)"
    } else {
        key
    };
    let rows = vec![
        record("MX", "@", exchange.as_str()),
        record("TXT", "@", spf.as_str()),
        record("TXT", "_dmarc", dmarc.as_str()),
        record("TXT", "mail._domainkey", dkim),
    ];
    proof {
        assert(trees(rows@) =~= domain_records_of(domain@, key@));
    }
    Json::array(rows)
}

/// The DNS records of the primary domain.
pub open spec fn primary_records() -> Seq<Tree> {
    seq![
        record_of("A"@, HOSTNAME@, PUBLIC_IP@),
        record_of("A"@, "smtp."@ + DOMAIN@, PUBLIC_IP@),
        record_of("A"@, "imap."@ + DOMAIN@, PUBLIC_IP@),
        record_of("A"@, "webmail."@ + DOMAIN@, PUBLIC_IP@),
        record_of("MX"@, DOMAIN@, "10 "@ + HOSTNAME@),
        record_of("TXT"@, DOMAIN@, "v=spf1 ip4:"@ + PUBLIC_IP@ + " mx -all"@),
        record_of(
            "TXT"@,
            "_dmarc."@ + DOMAIN@,
            "v=DMARC1; p=quarantine; rua=mailto:postmaster@"@ + DOMAIN@,
        ),
        record_of(
            "TXT"@,
            "mail._domainkey."@ + DOMAIN@,
            "See /etc/opendkim/keys/"@ + DOMAIN@ + "/mail.txt"@,
        ),
    ]
}

/// Lists the DNS records of the primary domain.
pub fn dns() -> (r: Json)
    ensures
        r@ == Tree::object().with("records"@, Tree::Array(primary_records())),
{
    let mut spf = prefixed("v=spf1 ip4:", PUBLIC_IP);
    spf.append(" mx -all");
    let mut see = prefixed("See /etc/opendkim/keys/", DOMAIN);
    see.append("/mail.txt");
    let rows = vec![
        record("A", HOSTNAME, PUBLIC_IP),
        record("A", prefixed("smtp.", DOMAIN).as_str(), PUBLIC_IP),
        record("A", prefixed("imap.", DOMAIN).as_str(), PUBLIC_IP),
        record("A", prefixed("webmail.", DOMAIN).as_str(), PUBLIC_IP),
        record("MX", DOMAIN, prefixed("10 ", HOSTNAME).as_str()),
        record("TXT", DOMAIN, spf.as_str()),
        record(
            "TXT",
            prefixed("_dmarc.", DOMAIN).as_str(),
            prefixed("v=DMARC1; p=quarantine; rua=mailto:postmaster@", DOMAIN).as_str(),
        ),
        record("TXT", prefixed("mail._domainkey.", DOMAIN).as_str(), see.as_str()),
    ];
    proof {
        assert(trees(rows@) =~= primary_records());
    }
    Json::object().with("records", Json::array(rows))
}

/// A domain whose records for its senders and for reports are as listed passes
/// the checks of them.
pub proof fn law_listed_records_pass(domain: Seq<char>, key: Seq<char>, has_key: bool)
    ensures
        is_met(
            domain_checks_of(domain, has_key)[1].expect,
            seq![domain_records_of(domain, key)[1].at("value"@).text_or(""@)],
        ),
        is_met(
            domain_checks_of(domain, has_key)[2].expect,
            seq![domain_records_of(domain, key)[2].at("value"@).text_or(""@)],
        ),
{
    let spf = "v=spf1 mx a:"@ + HOSTNAME@ + " -all"@;
    let dmarc = "v=DMARC1; p=quarantine; rua=mailto:postmaster@"@ + domain;
    reveal_strlit("v=spf1 mx a:");
    reveal_strlit("v=spf1");
    reveal_strlit("v=DMARC1; p=quarantine; rua=mailto:postmaster@");
    reveal_strlit("v=DMARC1");
    assert(spf.subrange(0, 6) =~= "v=spf1"@);
    assert(crate::text::stands_at(spf, "v=spf1"@, 0));
    assert(dmarc.subrange(0, 8) =~= "v=DMARC1"@);
    assert(crate::text::stands_at(dmarc, "v=DMARC1"@, 0));
    assert(domain_records_of(domain, key)[1].at("value"@) == Tree::Text(spf));
    assert(domain_records_of(domain, key)[2].at("value"@) == Tree::Text(dmarc));
    assert(has_text(seq![spf][0], "v=spf1"@));
    assert(has_text(seq![dmarc][0], "v=DMARC1"@));
}

} // verus!
