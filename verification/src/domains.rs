//! Managed domains: adding, listing and removing them.
use crate::checks::{
    check_rows_of, dns_check_domain, domain_checks_of, domain_dns_records, domain_records_of,
};
use crate::json::{prepend_event, trees, with_event, Json, Tree};
use crate::mailboxes::{failure, failure_of, VMAIL_ROOT};
use crate::outside::{domain_char, regex_is_match, regex_match, DOMAIN_PATTERN};
use crate::site::DOMAIN;
use crate::spam::count;
use crate::state::{domain_entry, new_domain_entry, EVENTS_KEPT};
use crate::steps::{
    below, deeds, file_of, file_text, join_path, reload, reload_of, run_three, run_two, Deed, Step,
};
use crate::text::{
    contains, has_text, holds, lines, lines_of, lowered, same, texts, to_lower, trim, trimmed,
};
use vstd::prelude::*;

verus! {

/// The file of the domains that mail is taken for.
pub const VMAILBOX_DOMAINS: &'static str = "/etc/postfix/vmailbox_domains";

/// The table of signing keys.
pub const OPENDKIM_KEYTABLE: &'static str = "/etc/opendkim/KeyTable";

/// The table of what is signed with which key.
pub const OPENDKIM_SIGNINGTABLE: &'static str = "/etc/opendkim/SigningTable";

/// The file of hosts whose mail is signed.
pub const OPENDKIM_TRUSTEDHOSTS: &'static str = "/etc/opendkim/TrustedHosts";

/// The directory of signing keys.
pub const OPENDKIM_KEYS_DIR: &'static str = "/etc/opendkim/keys";

/// The hosts whose mail is signed where no file names them.
pub const FIRST_TRUSTED: &'static str = "127.0.0.1\n::1\nlocalhost\n";

/// A domain as it was asked for, trimmed and in lower case.
pub fn clean_domain(domain: &str) -> (r: String)
    ensures
        r@ == lowered(trimmed(domain@)),
{
    to_lower(trim(domain).as_str())
}

/// Whether a text is a domain name. A domain name is not empty, and holds lower
/// case letters, digits, hyphens and dots only.
pub fn is_domain(domain: &str) -> (r: bool)
    ensures
        r == regex_match(DOMAIN_PATTERN@, domain@),
        r ==> domain@.len() > 0 && forall|i: int| 0 <= i < domain@.len() ==> domain_char(#[trigger] domain@[i]),
{
    regex_is_match(DOMAIN_PATTERN, domain)
}

/// The kind of lines that do not hold a text.
pub open spec fn lacking(needle: Seq<char>) -> spec_fn(Seq<char>) -> bool {
    |l: Seq<char>| !has_text(l, needle)
}

/// Keeps the lines that do not hold a text.
pub fn lines_lacking(text: &str, needle: &str) -> (r: Vec<String>)
    ensures
        texts(r@) == lines_of(text@).filter(lacking(needle@)),
{
    let list = lines(text);
    let ghost all = texts(list@);
    let ghost kind = lacking(needle@);
    let mut out: Vec<String> = Vec::new();
    let mut i: usize = 0;
    proof {
        reveal(Seq::filter);
        assert(texts(out@) =~= all.take(0).filter(kind));
    }
    while i < list.len()
        invariant
            i <= list@.len(),
            all == texts(list@),
            kind == lacking(needle@),
            texts(out@) == all.take(i as int).filter(kind),
        decreases list@.len() - i,
    {
        let ghost out0 = out@;
        proof {
            reveal(Seq::filter);
            assert(all.take(i + 1).drop_last() =~= all.take(i as int));
            assert(all.take(i + 1).last() == list@[i as int]@);
        }
        if !contains(list[i].as_str(), needle) {
            out.push(list[i].clone());
            proof {
                assert(texts(out@) =~= texts(out0).push(list@[i as int]@));
            }
        }
        i += 1;
    }
    proof {
        assert(all.take(all.len() as int) =~= all);
    }
    out
}

/// The kind of lines that are not a text, white space around them aside.
pub open spec fn differing(word: Seq<char>) -> spec_fn(Seq<char>) -> bool {
    |l: Seq<char>| trimmed(l) != word
}

/// Keeps the lines that are not a text.
pub fn lines_differing(text: &str, word: &str) -> (r: Vec<String>)
    ensures
        texts(r@) == lines_of(text@).filter(differing(word@)),
{
    let list = lines(text);
    let ghost all = texts(list@);
    let ghost kind = differing(word@);
    let mut out: Vec<String> = Vec::new();
    let mut i: usize = 0;
    proof {
        reveal(Seq::filter);
        assert(texts(out@) =~= all.take(0).filter(kind));
    }
    while i < list.len()
        invariant
            i <= list@.len(),
            all == texts(list@),
            kind == differing(word@),
            texts(out@) == all.take(i as int).filter(kind),
        decreases list@.len() - i,
    {
        let ghost out0 = out@;
        proof {
            reveal(Seq::filter);
            assert(all.take(i + 1).drop_last() =~= all.take(i as int));
            assert(all.take(i + 1).last() == list@[i as int]@);
        }
        if !same(trim(list[i].as_str()).as_str(), word) {
            out.push(list[i].clone());
            proof {
                assert(texts(out@) =~= texts(out0).push(list@[i as int]@));
            }
        }
        i += 1;
    }
    proof {
        assert(all.take(all.len() as int) =~= all);
    }
    out
}

/// The texts of lines that hold something, without the white space around
/// them.
pub open spec fn trimmed_lines(list: Seq<Seq<char>>) -> Seq<Seq<char>>
    decreases list.len(),
{
    if list.len() == 0 {
        Seq::empty()
    } else if trimmed(list.last()).len() == 0 {
        trimmed_lines(list.drop_last())
    } else {
        trimmed_lines(list.drop_last()).push(trimmed(list.last()))
    }
}

fn filled_lines(text: &str) -> (r: Vec<String>)
    ensures
        texts(r@) == trimmed_lines(lines_of(text@)),
{
    let list = lines(text);
    let ghost all = texts(list@);
    let mut out: Vec<String> = Vec::new();
    let mut i: usize = 0;
    proof {
        assert(texts(out@) =~= trimmed_lines(all.take(0)));
    }
    while i < list.len()
        invariant
            i <= list@.len(),
            all == texts(list@),
            texts(out@) == trimmed_lines(all.take(i as int)),
        decreases list@.len() - i,
    {
        let ghost out0 = out@;
        proof {
            assert(all.take(i + 1).drop_last() =~= all.take(i as int));
            assert(all.take(i + 1).last() == list@[i as int]@);
        }
        let l = trim(list[i].as_str());
        if !l.as_str().is_empty() {
            let ghost t = l@;
            out.push(l);
            proof {
                assert(texts(out@) =~= texts(out0).push(t));
            }
        }
        i += 1;
    }
    proof {
        assert(all.take(all.len() as int) =~= all);
    }
    out
}

/// A file in which one line takes the place of those that hold a text.
pub open spec fn with_line_for(text: Seq<char>, needle: Seq<char>, line: Seq<char>) -> Seq<char> {
    file_of(lines_of(text).filter(lacking(needle)).push(line))
}

/// Puts one line in the place of those that hold a text.
pub fn replace_lines_containing(text: &str, needle: &str, line: String) -> (r: String)
    ensures
        r@ == with_line_for(text@, needle@, line@),
{
    let mut list = lines_lacking(text, needle);
    let ghost before = texts(list@);
    list.push(line);
    proof {
        assert(texts(list@) =~= before.push(line@));
    }
    file_text(&list)
}

/// The directory of the signing key of a domain.
pub open spec fn key_dir_of(domain: Seq<char>) -> Seq<char> {
    below(OPENDKIM_KEYS_DIR@, domain)
}

/// The directory of the signing key of a domain.
pub fn key_dir(domain: &str) -> (r: String)
    ensures
        r@ == key_dir_of(domain@),
{
    join_path(OPENDKIM_KEYS_DIR, domain)
}

/// What makes a text the last line of a file, unless a line is that text.
pub open spec fn listed_once(path: Seq<char>, list: Seq<Seq<char>>, domain: Seq<char>) -> Seq<Deed> {
    if list.contains(domain) {
        Seq::empty()
    } else {
        seq![Deed::Write(path, file_of(list.push(domain)))]
    }
}

/// What makes a signing key for a domain.
pub open spec fn key_steps_of(domain: Seq<char>) -> Seq<Deed> {
    let dir = key_dir_of(domain);
    seq![
        Deed::MakeDir(dir),
        Deed::Check("opendkim-genkey"@, seq!["-s"@, "mail"@, "-d"@, domain, "-D"@, dir]),
        Deed::Run("chown"@, seq!["-R"@, "opendkim:opendkim"@, dir]),
        Deed::Run("chmod"@, seq!["0600"@, below(dir, "mail.private"@)]),
    ]
}

/// The line of the table of signing keys for a domain.
pub open spec fn key_line_of(domain: Seq<char>) -> Seq<char> {
    "mail._domainkey."@ + domain + " "@ + domain + ":mail:"@ + key_dir_of(domain) + "/mail.private"@
}

/// The line of the table of what is signed for a domain.
pub open spec fn signing_line_of(domain: Seq<char>) -> Seq<char> {
    "*@"@ + domain + " mail._domainkey."@ + domain
}

/// What enters a domain into the tables of the signing service.
pub open spec fn table_steps_of(domain: Seq<char>, key_table: Seq<char>, signing_table: Seq<char>) -> Seq<Deed> {
    seq![
        Deed::Write(OPENDKIM_KEYTABLE@, with_line_for(key_table, domain, key_line_of(domain))),
        Deed::Write(OPENDKIM_SIGNINGTABLE@, with_line_for(signing_table, domain, signing_line_of(domain))),
    ]
}

/// What makes the directory of the mailboxes of a domain, and has the servers
/// read their settings again.
pub open spec fn last_steps_of(domain: Seq<char>) -> Seq<Deed> {
    let dir = below(VMAIL_ROOT@, domain);
    seq![
        Deed::MakeDir(dir),
        Deed::Run("chown"@, seq!["-R"@, "vmail:mail"@, dir]),
        reload_of("opendkim"@),
        reload_of("postfix"@),
    ]
}

/// The files that adding a domain changes, as they are. Files that are not
/// there are empty; the file of trusted hosts has contents of its own then.
#[derive(Debug, PartialEq, Eq)]
pub struct DomainFiles {
    pub domains: String,
    /// Whether the domain has a signing key.
    pub has_key: bool,
    pub key_table: String,
    pub signing_table: String,
    pub trusted_hosts: Option<String>,
}

/// The text of the file of trusted hosts.
pub open spec fn trusted_text(file: Option<String>) -> Seq<char> {
    match file {
        Some(t) => t@,
        None => FIRST_TRUSTED@,
    }
}

/// What has mail taken and signed for a domain.
pub open spec fn domain_steps_of(domain: Seq<char>, files: DomainFiles) -> Seq<Deed> {
    listed_once(VMAILBOX_DOMAINS@, trimmed_lines(lines_of(files.domains@)), domain) + (if files.has_key {
        Seq::empty()
    } else {
        key_steps_of(domain)
    }) + table_steps_of(domain, files.key_table@, files.signing_table@) + listed_once(
        OPENDKIM_TRUSTEDHOSTS@,
        lines_of(trusted_text(files.trusted_hosts)),
        domain,
    ) + last_steps_of(domain)
}

fn add_listed(steps: &mut Vec<Step>, path: &str, list: Vec<String>, domain: &str)
    ensures
        deeds(final(steps)@) == deeds(old(steps)@) + listed_once(path@, texts(list@), domain@),
{
    let ghost before = deeds(steps@);
    if !holds(&list, domain) {
        let mut longer = list;
        let ghost held = texts(longer@);
        longer.push(domain.to_owned());
        proof {
            assert(texts(longer@) =~= held.push(domain@));
        }
        steps.push(Step::Write(path.to_owned(), file_text(&longer)));
    }
    proof {
        assert(deeds(steps@) =~= before + listed_once(path@, texts(list@), domain@));
    }
}

fn add_steps(steps: &mut Vec<Step>, more: Vec<Step>)
    ensures
        deeds(final(steps)@) == deeds(old(steps)@) + deeds(more@),
{
    let ghost before = steps@;
    let mut rest = more;
    steps.append(&mut rest);
    proof {
        assert(deeds(steps@) =~= deeds(before) + deeds(more@));
    }
}

fn key_steps(domain: &str) -> (r: Vec<Step>)
    ensures
        deeds(r@) == key_steps_of(domain@),
{
    let dir = key_dir(domain);
    let private = join_path(dir.as_str(), "mail.private");
    let args = vec![
        "-s".to_owned(),
        "mail".to_owned(),
        "-d".to_owned(),
        domain.to_owned(),
        "-D".to_owned(),
        dir.clone(),
    ];
    proof {
        assert(texts(args@) =~= seq!["-s"@, "mail"@, "-d"@, domain@, "-D"@, dir@]);
    }
    let r = vec![
        Step::MakeDir(dir.clone()),
        Step::Check("opendkim-genkey".to_owned(), args),
        run_three("chown", "-R", "opendkim:opendkim", dir.as_str()),
        run_two("chmod", "0600", private.as_str()),
    ];
    proof {
        assert(deeds(r@) =~= key_steps_of(domain@));
    }
    r
}

fn table_steps(domain: &str, key_table: &str, signing_table: &str) -> (r: Vec<Step>)
    ensures
        deeds(r@) == table_steps_of(domain@, key_table@, signing_table@),
{
    let mut key_line = "mail._domainkey.".to_owned();
    key_line.append(domain);
    key_line.append(" ");
    key_line.append(domain);
    key_line.append(":mail:");
    key_line.append(key_dir(domain).as_str());
    key_line.append("/mail.private");
    let mut signing_line = "*@".to_owned();
    signing_line.append(domain);
    signing_line.append(" mail._domainkey.");
    signing_line.append(domain);
    let r = vec![
        Step::Write(
            OPENDKIM_KEYTABLE.to_owned(),
            replace_lines_containing(key_table, domain, key_line),
        ),
        Step::Write(
            OPENDKIM_SIGNINGTABLE.to_owned(),
            replace_lines_containing(signing_table, domain, signing_line),
        ),
    ];
    proof {
        assert(deeds(r@) =~= table_steps_of(domain@, key_table@, signing_table@));
    }
    r
}

fn last_steps(domain: &str) -> (r: Vec<Step>)
    ensures
        deeds(r@) == last_steps_of(domain@),
{
    let dir = join_path(VMAIL_ROOT, domain);
    let r = vec![
        Step::MakeDir(dir.clone()),
        run_three("chown", "-R", "vmail:mail", dir.as_str()),
        reload("opendkim"),
        reload("postfix"),
    ];
    proof {
        assert(deeds(r@) =~= last_steps_of(domain@));
    }
    r
}

/// The steps that have mail taken and signed for a domain.
pub fn configure_domain_mail(domain: &str, files: &DomainFiles) -> (r: Vec<Step>)
    ensures
        deeds(r@) == domain_steps_of(domain@, *files),
{
    let mut steps: Vec<Step> = Vec::new();
    proof {
        assert(deeds(steps@) =~= Seq::<Deed>::empty());
    }
    let domains = filled_lines(files.domains.as_str());
    add_listed(&mut steps, VMAILBOX_DOMAINS, domains, domain);
    if !files.has_key {
        add_steps(&mut steps, key_steps(domain));
    }
    add_steps(
        &mut steps,
        table_steps(domain, files.key_table.as_str(), files.signing_table.as_str()),
    );
    let trusted = match &files.trusted_hosts {
        Some(t) => lines(t.as_str()),
        None => lines(FIRST_TRUSTED),
    };
    add_listed(&mut steps, OPENDKIM_TRUSTEDHOSTS, trusted, domain);
    add_steps(&mut steps, last_steps(domain));
    proof {
        assert(deeds(steps@) =~= domain_steps_of(domain@, *files));
    }
    steps
}

// ---------------------------------------------------------------------------
// The list of managed domains
// ---------------------------------------------------------------------------

/// Whether a row is that of a domain.
pub open spec fn is_row(row: Tree, domain: Seq<char>) -> bool {
    row.at("domain"@) == Tree::Text(domain)
}

/// Whether the rows of managed domains hold one of a domain.
pub open spec fn has_domain(rows: Seq<Tree>, domain: Seq<char>) -> bool {
    exists|i: int| 0 <= i < rows.len() && is_row(#[trigger] rows[i], domain)
}

/// What stands against adding a domain.
#[derive(Clone, Copy, Debug, PartialEq, Eq, Structural)]
pub enum Addition {
    /// The state holds no list of domains.
    BadState,
    /// The domain is managed.
    Known,
    /// Nothing.
    Free,
}

/// What stands against adding a domain.
pub open spec fn addition_of(data: Tree, domain: Seq<char>) -> Addition {
    match data.at("domains"@) {
        Tree::Array(rows) => if has_domain(rows, domain) {
            Addition::Known
        } else {
            Addition::Free
        },
        _ => Addition::BadState,
    }
}

fn row_is(row: &Json, domain: &str) -> (r: bool)
    ensures
        r == is_row(row@, domain@),
{
    match row.opt_text_at("domain") {
        Some(d) => same(d.as_str(), domain),
        None => false,
    }
}

/// Finds out what stands against adding a domain.
pub fn check_addition(data: &Json, domain: &str) -> (r: Addition)
    ensures
        r == addition_of(data@, domain@),
{
    match data.get("domains") {
        Some(Json::Array(rows)) => {
            let ghost all = data@.at("domains"@)->Array_0;
            let mut i: usize = 0;
            while i < rows.len()
                invariant
                    i <= rows@.len(),
                    all.len() == rows@.len(),
                    forall|j: int| 0 <= j < all.len() ==> all[j] == (#[trigger] rows@[j])@,
                    forall|j: int| 0 <= j < i ==> !is_row(#[trigger] all[j], domain@),
                    data@.at("domains"@) == Tree::Array(all),
                decreases rows@.len() - i,
            {
                proof {
                    assert(all[i as int] == rows@[i as int]@);
                }
                if row_is(&rows[i], domain) {
                    return Addition::Known;
                }
                i += 1;
            }
            Addition::Free
        },
        _ => Addition::BadState,
    }
}

/// Why a domain is not added.
#[derive(Debug, PartialEq, Eq)]
pub enum Refusal {
    /// The request is answered with this.
    Answer(Json),
    /// The request fails for this reason.
    Fault(String),
}

/// Why a domain is not added.
pub ghost enum RefusalTree {
    Answer(Tree),
    Fault(Seq<char>),
}

impl View for Refusal {
    type V = RefusalTree;

    open spec fn view(&self) -> RefusalTree {
        match self {
            Refusal::Answer(j) => RefusalTree::Answer(j@),
            Refusal::Fault(s) => RefusalTree::Fault(s@),
        }
    }
}

/// The decision on adding a domain, given whether it is a domain name: the
/// domain, or why it is not added.
pub open spec fn addition_decided(domain: Seq<char>, valid: bool, data: Tree) -> Result<
    Seq<char>,
    RefusalTree,
> {
    if !valid {
        Err(RefusalTree::Answer(failure_of("invalid domain name"@)))
    } else {
        match addition_of(data, domain) {
            Addition::BadState => Err(RefusalTree::Fault("invalid domains state"@)),
            Addition::Known => Err(RefusalTree::Answer(failure_of("domain already exists"@))),
            Addition::Free => Ok(domain),
        }
    }
}

/// The decision on adding a domain as it was asked for.
pub open spec fn addition_asked(domain: Seq<char>, data: Tree) -> Result<Seq<char>, RefusalTree> {
    let name = lowered(trimmed(domain));
    addition_decided(name, regex_match(DOMAIN_PATTERN@, name), data)
}

/// The decision that a result holds.
pub open spec fn decision_of(r: Result<String, Refusal>) -> Result<Seq<char>, RefusalTree> {
    match r {
        Ok(d) => Ok(d@),
        Err(e) => Err(e@),
    }
}

/// Decides on adding a domain, given whether it is a domain name.
pub fn decide_addition(domain: &str, valid: bool, data: &Json) -> (r: Result<String, Refusal>)
    ensures
        decision_of(r) == addition_decided(domain@, valid, data@),
{
    if !valid {
        return Err(Refusal::Answer(failure("invalid domain name")));
    }
    match check_addition(data, domain) {
        Addition::BadState => Err(Refusal::Fault("invalid domains state".to_owned())),
        Addition::Known => Err(Refusal::Answer(failure("domain already exists"))),
        Addition::Free => Ok(domain.to_owned()),
    }
}

/// Decides on adding a domain as it was asked for. A domain that is added holds
/// lower case letters, digits, hyphens and dots only.
pub fn addition_for(domain: &str, data: &Json) -> (r: Result<String, Refusal>)
    ensures
        decision_of(r) == addition_asked(domain@, data@),
        r matches Ok(d) ==> d@.len() > 0 && forall|i: int|
            0 <= i < d@.len() ==> domain_char(#[trigger] d@[i]),
{
    let name = clean_domain(domain);
    let valid = is_domain(name.as_str());
    decide_addition(name.as_str(), valid, data)
}

/// The list of managed domains with one more.
pub open spec fn with_domain(data: Tree, domain: Seq<char>, at: u64) -> Tree {
    data.with(
        "domains"@,
        Tree::Array(data.at("domains"@).items().push(domain_entry(domain, at))),
    )
}

/// The answer that a domain was added, with the DNS records it needs.
pub open spec fn added_reply(domain: Seq<char>, key: Seq<char>) -> Tree {
    Tree::object().with("ok"@, Tree::Bool(true)).with("domain"@, Tree::Text(domain)).with(
        "dnsRecords"@,
        Tree::Array(domain_records_of(domain, key)),
    )
}

/// Adds a domain as it was asked for to the list of managed domains, records it
/// in the state of the platform, and answers with the DNS records it needs.
/// Where the domain is refused, nothing changes.
pub fn domain_add(data: &mut Json, state: &mut Json, domain: &str, at: u64, key: &str) -> (r: Result<
    Json,
    Refusal,
>)
    ensures
        match addition_asked(domain@, old(data)@) {
            Ok(d) => {
                &&& final(data)@ == with_domain(old(data)@, d, at)
                &&& final(state)@ == with_event(
                    old(state)@,
                    "events"@,
                    at,
                    "Domain added: "@ + d,
                    EVENTS_KEPT as int,
                )
                &&& r matches Ok(j) && j@ == added_reply(d, key@)
            },
            Err(why) => {
                &&& final(data)@ == old(data)@
                &&& final(state)@ == old(state)@
                &&& r matches Err(e) && e@ == why
            },
        },
{
    let name = match addition_for(domain, data) {
        Ok(d) => d,
        Err(e) => return Err(e),
    };
    let mut rows = data.items_at("domains");
    let ghost before = trees(rows@);
    let entry = new_domain_entry(name.as_str(), at);
    rows.push(entry);
    proof {
        assert(trees(rows@) =~= before.push(entry@));
    }
    data.set("domains", Json::array(rows));
    let mut event = "Domain added: ".to_owned();
    event.append(name.as_str());
    prepend_event(state, "events", at, event.as_str(), EVENTS_KEPT);
    Ok(
        Json::object()
            .with("ok", Json::Bool(true))
            .with("domain", Json::text(name.as_str()))
            .with("dnsRecords", domain_dns_records(name.as_str(), key)),
    )
}

/// The kind of rows of other domains.
pub open spec fn other_domain(domain: Seq<char>) -> spec_fn(Tree) -> bool {
    |row: Tree| !is_row(row, domain)
}

/// The list of managed domains without one.
pub open spec fn without_domain(data: Tree, domain: Seq<char>) -> Tree {
    data.with(
        "domains"@,
        match data.at("domains"@) {
            Tree::Array(rows) => Tree::Array(rows.filter(other_domain(domain))),
            other => other,
        },
    )
}

/// Whether a domain is the primary one, which cannot be removed.
pub fn is_primary(domain: &str) -> (r: bool)
    ensures
        r == (domain@ == DOMAIN@),
{
    same(domain, DOMAIN)
}

/// Decides on removing a domain as it was asked for: the domain, or the answer
/// that it is the primary one.
pub fn removal_of(domain: &str) -> (r: Result<String, Json>)
    ensures
        lowered(trimmed(domain@)) == DOMAIN@ ==> (r matches Err(j) && j@ == failure_of(
            "cannot remove the primary domain"@,
        )),
        lowered(trimmed(domain@)) != DOMAIN@ ==> (r matches Ok(d) && d@ == lowered(trimmed(domain@))),
{
    let name = clean_domain(domain);
    if is_primary(name.as_str()) {
        Err(failure("cannot remove the primary domain"))
    } else {
        Ok(name)
    }
}

/// Removes a domain, which is not the primary one, from the list of managed
/// domains.
pub fn drop_domain(data: &mut Json, domain: &str)
    requires
        old(data)@.settable(),
        domain@ != DOMAIN@,
    ensures
        final(data)@ == without_domain(old(data)@, domain@),
{
    let held = data.copy_at("domains");
    let ghost kind = other_domain(domain@);
    let kept = match &held {
        Json::Array(rows) => {
            let ghost all = held@->Array_0;
            let mut out: Vec<Json> = Vec::new();
            let mut i: usize = 0;
            proof {
                reveal(Seq::filter);
                assert(trees(out@) =~= all.take(0).filter(kind));
            }
            while i < rows.len()
                invariant
                    i <= rows@.len(),
                    all.len() == rows@.len(),
                    forall|j: int| 0 <= j < all.len() ==> all[j] == (#[trigger] rows@[j])@,
                    kind == other_domain(domain@),
                    trees(out@) == all.take(i as int).filter(kind),
                decreases rows@.len() - i,
            {
                let ghost out0 = out@;
                proof {
                    reveal(Seq::filter);
                    assert(all.take(i + 1).drop_last() =~= all.take(i as int));
                    assert(all.take(i + 1).last() == rows@[i as int]@);
                }
                if !row_is(&rows[i], domain) {
                    out.push(rows[i].copy());
                    proof {
                        assert(trees(out@) =~= trees(out0).push(rows@[i as int]@));
                    }
                }
                i += 1;
            }
            proof {
                assert(all.take(all.len() as int) =~= all);
            }
            Json::array(out)
        },
        _ => held.copy(),
    };
    data.set("domains", kept);
}

/// What takes a domain out of the files of the servers, given the files as they
/// are.
pub open spec fn removal_steps_of(
    domain: Seq<char>,
    key_table: Seq<char>,
    signing_table: Seq<char>,
    trusted_hosts: Seq<char>,
    domains: Seq<char>,
) -> Seq<Deed> {
    seq![
        Deed::Write(OPENDKIM_KEYTABLE@, file_of(lines_of(key_table).filter(lacking(domain)))),
        Deed::Write(OPENDKIM_SIGNINGTABLE@, file_of(lines_of(signing_table).filter(lacking(domain)))),
        Deed::Write(OPENDKIM_TRUSTEDHOSTS@, file_of(lines_of(trusted_hosts).filter(differing(domain)))),
        Deed::Write(VMAILBOX_DOMAINS@, file_of(lines_of(domains).filter(differing(domain)))),
        reload_of("opendkim"@),
        reload_of("postfix"@),
    ]
}

/// The steps that take a domain, which is not the primary one, out of the files
/// of the servers.
pub fn removal_steps(
    domain: &str,
    key_table: &str,
    signing_table: &str,
    trusted_hosts: &str,
    domains: &str,
) -> (r: Vec<Step>)
    requires
        domain@ != DOMAIN@,
    ensures
        deeds(r@) == removal_steps_of(domain@, key_table@, signing_table@, trusted_hosts@, domains@),
{
    let keys = lines_lacking(key_table, domain);
    let signing = lines_lacking(signing_table, domain);
    let trusted = lines_differing(trusted_hosts, domain);
    let others = lines_differing(domains, domain);
    let r = vec![
        Step::Write(OPENDKIM_KEYTABLE.to_owned(), file_text(&keys)),
        Step::Write(OPENDKIM_SIGNINGTABLE.to_owned(), file_text(&signing)),
        Step::Write(OPENDKIM_TRUSTEDHOSTS.to_owned(), file_text(&trusted)),
        Step::Write(VMAILBOX_DOMAINS.to_owned(), file_text(&others)),
        reload("opendkim"),
        reload("postfix"),
    ];
    proof {
        assert(deeds(r@) =~= removal_steps_of(
            domain@,
            key_table@,
            signing_table@,
            trusted_hosts@,
            domains@,
        ));
    }
    r
}

/// Records in the state of the platform that a domain, as it was asked for, was
/// removed, and answers. The primary domain is refused, and nothing is recorded.
pub fn domain_remove(state: &mut Json, domain: &str, at: u64) -> (r: Json)
    ensures
        lowered(trimmed(domain@)) == DOMAIN@ ==> final(state)@ == old(state)@ && r@ == failure_of(
            "cannot remove the primary domain"@,
        ),
        lowered(trimmed(domain@)) != DOMAIN@ ==> final(state)@ == with_event(
            old(state)@,
            "events"@,
            at,
            "Domain removed: "@ + lowered(trimmed(domain@)),
            EVENTS_KEPT as int,
        ) && r@ == Tree::object().with("ok"@, Tree::Bool(true)).with(
            "domain"@,
            Tree::Text(lowered(trimmed(domain@))),
        ).with("removed"@, Tree::Bool(true)),
{
    let name = match removal_of(domain) {
        Ok(d) => d,
        Err(reply) => return reply,
    };
    let mut event = "Domain removed: ".to_owned();
    event.append(name.as_str());
    prepend_event(state, "events", at, event.as_str(), EVENTS_KEPT);
    Json::object()
        .with("ok", Json::Bool(true))
        .with("domain", Json::text(name.as_str()))
        .with("removed", Json::Bool(true))
}

// ---------------------------------------------------------------------------
// Showing domains
// ---------------------------------------------------------------------------

/// Whether all rows say that their check passed.
pub open spec fn all_ok_of(rows: Seq<Tree>) -> bool {
    forall|i: int| 0 <= i < rows.len() ==> (#[trigger] rows[i]).at("ok"@).bool_or(false)
}

/// Whether all rows say that their check passed.
pub fn all_ok(rows: &Json) -> (r: bool)
    requires
        rows@ is Array,
    ensures
        r == all_ok_of(rows@.items()),
{
    let items = rows.items();
    let ghost all = rows@.items();
    let mut i: usize = 0;
    while i < items.len()
        invariant
            i <= items@.len(),
            all == trees(items@),
            forall|j: int| 0 <= j < i ==> (#[trigger] all[j]).at("ok"@).bool_or(false),
            all == rows@.items(),
        decreases items@.len() - i,
    {
        proof {
            assert(all[i as int] == items@[i as int]@);
        }
        if !items[i].bool_at("ok", false) {
            return false;
        }
        i += 1;
    }
    true
}

/// The status of a domain whose checks gave these rows.
pub open spec fn status_of(rows: Seq<Tree>) -> Seq<char> {
    if all_ok_of(rows) {
        "verified"@
    } else {
        "pending"@
    }
}

fn status_text(rows: &Json) -> (r: Json)
    requires
        rows@ is Array,
    ensures
        r@ == Tree::Text(status_of(rows@.items())),
{
    if all_ok(rows) {
        Json::text("verified")
    } else {
        Json::text("pending")
    }
}

/// A managed domain.
#[derive(Debug, PartialEq, Eq)]
pub struct ManagedDomain {
    pub domain: String,
    pub added_at: u64,
}

/// The name and the time of addition that a row of the list of managed domains
/// holds; a row without a name is that of the primary domain.
pub open spec fn managed_of(row: Tree) -> (Seq<char>, u64) {
    (row.at("domain"@).text_or(DOMAIN@), row.at("addedAt"@).unsigned_or(0))
}

/// The names and times of managed domains.
pub open spec fn managed_trees(list: Seq<ManagedDomain>) -> Seq<(Seq<char>, u64)> {
    list.map_values(|m: ManagedDomain| (m.domain@, m.added_at))
}

/// Lists the managed domains.
pub fn managed_domains(data: &Json) -> (r: Vec<ManagedDomain>)
    ensures
        managed_trees(r@) == data@.at("domains"@).items().map_values(|row: Tree| managed_of(row)),
{
    let rows = data.items_at("domains");
    let ghost all = data@.at("domains"@).items();
    let mut out: Vec<ManagedDomain> = Vec::new();
    let mut i: usize = 0;
    while i < rows.len()
        invariant
            i <= rows@.len(),
            all == trees(rows@),
            out@.len() == i,
            forall|j: int|
                0 <= j < i ==> ((#[trigger] out@[j]).domain@, out@[j].added_at) == managed_of(all[j]),
        decreases rows@.len() - i,
    {
        proof {
            assert(all[i as int] == rows@[i as int]@);
        }
        out.push(
            ManagedDomain {
                domain: rows[i].text_at("domain", DOMAIN),
                added_at: rows[i].unsigned_at("addedAt", 0),
            },
        );
        i += 1;
    }
    proof {
        assert(managed_trees(out@) =~= all.map_values(|row: Tree| managed_of(row)));
    }
    out
}

/// The row that shows a managed domain, given its key and the answers to the
/// queries of its checks.
pub open spec fn domain_row_of(
    domain: Seq<char>,
    added_at: u64,
    key: Seq<char>,
    answers: Seq<Result<Vec<String>, String>>,
) -> Tree {
    let rows = check_rows_of(domain_checks_of(domain, key.len() > 0), answers, false);
    Tree::object().with("domain"@, Tree::Text(domain)).with("addedAt"@, count(added_at)).with(
        "status"@,
        Tree::Text(status_of(rows)),
    ).with("dnsRecords"@, Tree::Array(domain_records_of(domain, key))).with(
        "dnsChecks"@,
        Tree::Array(rows),
    )
}

/// Shows a managed domain.
pub fn domain_row(item: &ManagedDomain, key: &str, answers: &Vec<Result<Vec<String>, String>>) -> (r: Json)
    requires
        answers@.len() == domain_checks_of(item.domain@, key@.len() > 0).len(),
    ensures
        r@ == domain_row_of(item.domain@, item.added_at, key@, answers@),
{
    let rows = dns_check_domain(item.domain.as_str(), !key.is_empty(), answers);
    Json::object()
        .with("domain", Json::text(item.domain.as_str()))
        .with("addedAt", Json::unsigned(item.added_at))
        .with("status", status_text(&rows))
        .with("dnsRecords", domain_dns_records(item.domain.as_str(), key))
        .with("dnsChecks", rows)
}

/// Answers with the rows of the managed domains.
pub fn domain_list(rows: Vec<Json>) -> (r: Json)
    ensures
        r@ == Tree::object().with("ok"@, Tree::Bool(true)).with("domains"@, Tree::Array(trees(rows@))),
{
    Json::object().with("ok", Json::Bool(true)).with("domains", Json::array(rows))
}

/// The answer on the state of the DNS records of a domain.
pub open spec fn check_reply(
    domain: Seq<char>,
    key: Seq<char>,
    answers: Seq<Result<Vec<String>, String>>,
) -> Tree {
    let rows = check_rows_of(domain_checks_of(domain, key.len() > 0), answers, false);
    Tree::object().with("ok"@, Tree::Bool(true)).with("domain"@, Tree::Text(domain)).with(
        "status"@,
        Tree::Text(status_of(rows)),
    ).with("dnsRecords"@, Tree::Array(domain_records_of(domain, key))).with(
        "dnsChecks"@,
        Tree::Array(rows),
    )
}

/// Answers with the state of the DNS records of a domain as it was asked for,
/// given its key and the answers to the queries of its checks.
pub fn domain_check(domain: &str, key: &str, answers: &Vec<Result<Vec<String>, String>>) -> (r: Json)
    requires
        answers@.len() == domain_checks_of(domain@, key@.len() > 0).len(),
    ensures
        r@ == check_reply(lowered(trimmed(domain@)), key@, answers@),
{
    let name = clean_domain(domain);
    let rows = dns_check_domain(name.as_str(), !key.is_empty(), answers);
    Json::object()
        .with("ok", Json::Bool(true))
        .with("domain", Json::text(name.as_str()))
        .with("status", status_text(&rows))
        .with("dnsRecords", domain_dns_records(name.as_str(), key))
        .with("dnsChecks", rows)
}

} // verus!
