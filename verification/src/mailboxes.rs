//! Making mailboxes and aliases.
use crate::json::{prepend_event, with_event, Json, Tree};
use crate::outside::{alphanumeric, random_alphanumeric};
use crate::site::DOMAIN;
use crate::state::EVENTS_KEPT;
use crate::steps::{
    below, deeds, file_of, file_text, join_path, reload, reload_of, run_one, run_three, run_two, Deed,
    Step,
};
use crate::text::{
    holds, join, joined, lines, lines_of, only, parted, split_once, starts_with, texts, trim, trimmed,
};
use crate::users::{has_user, is_user, user_trees, MailUser};
use vstd::prelude::*;

verus! {

/// The file of mailboxes.
pub const DOVECOT_USERS: &'static str = "/etc/dovecot/users";

/// The file that says where mail for mailboxes goes.
pub const POSTFIX_VMAILBOX: &'static str = "/etc/postfix/vmailbox";

/// The file of aliases.
pub const POSTFIX_VIRTUAL: &'static str = "/etc/postfix/virtual";

/// The directory of mailboxes.
pub const VMAIL_ROOT: &'static str = "/var/vmail";

/// The length of a password that the platform makes up.
pub const PASSWORD_LENGTH: usize = 24;

/// Makes up a password: random letters and digits.
pub fn random_password() -> (r: String)
    ensures
        r@.len() == PASSWORD_LENGTH,
        forall|i: int| 0 <= i < r@.len() ==> alphanumeric(#[trigger] r@[i]),
{
    random_alphanumeric(PASSWORD_LENGTH)
}

/// The password that was asked for, or else one that is made up.
pub fn chosen_password(password: Option<String>) -> (r: String)
    ensures
        match password {
            Some(p) => r@ == p@,
            None => r@.len() == PASSWORD_LENGTH && forall|i: int|
                0 <= i < r@.len() ==> alphanumeric(#[trigger] r@[i]),
        },
{
    match password {
        Some(p) => p,
        None => random_password(),
    }
}

/// The domains of rows, added to those known before, each once.
pub open spec fn known_with(start: Seq<Seq<char>>, rows: Seq<Tree>) -> Seq<Seq<char>>
    decreases rows.len(),
{
    if rows.len() == 0 {
        start
    } else {
        let before = known_with(start, rows.drop_last());
        match rows.last().at("domain"@) {
            Tree::Text(d) => if before.contains(d) {
                before
            } else {
                before.push(d)
            },
            _ => before,
        }
    }
}

/// The domains that mailboxes can be in: the primary one, and those managed.
pub open spec fn known_of(data: Tree) -> Seq<Seq<char>> {
    known_with(seq![DOMAIN@], data.at("domains"@).items())
}

/// Lists the domains that mailboxes can be in.
pub fn known_domains(data: &Json) -> (r: Vec<String>)
    ensures
        texts(r@) == known_of(data@),
{
    let mut out = vec![DOMAIN.to_owned()];
    let rows = data.items_at("domains");
    let ghost all = data@.at("domains"@).items();
    let mut i: usize = 0;
    proof {
        assert(texts(out@) =~= seq![DOMAIN@]);
        assert(texts(out@) == known_with(seq![DOMAIN@], all.take(0)));
    }
    while i < rows.len()
        invariant
            i <= rows@.len(),
            all == crate::json::trees(rows@),
            texts(out@) == known_with(seq![DOMAIN@], all.take(i as int)),
        decreases rows@.len() - i,
    {
        let ghost out0 = out@;
        proof {
            assert(all.take(i + 1).drop_last() =~= all.take(i as int));
            assert(all.take(i + 1).last() == rows@[i as int]@);
        }
        if let Some(domain) = rows[i].opt_text_at("domain") {
            let ghost d = domain@;
            if !holds(&out, domain.as_str()) {
                out.push(domain);
                proof {
                    assert(texts(out@) =~= texts(out0).push(d));
                }
            }
        }
        i += 1;
    }
    proof {
        assert(all.take(all.len() as int) =~= all);
    }
    out
}

/// Where a mailbox lies.
#[derive(Debug, PartialEq, Eq)]
pub struct MailboxPlace {
    pub local: String,
    pub domain: String,
    pub root: String,
}

/// Where a mailbox lies.
pub ghost struct PlaceTree {
    pub local: Seq<char>,
    pub domain: Seq<char>,
    pub root: Seq<char>,
}

impl View for MailboxPlace {
    type V = PlaceTree;

    open spec fn view(&self) -> PlaceTree {
        PlaceTree { local: self.local@, domain: self.domain@, root: self.root@ }
    }
}

/// The place of a mailbox, or why there can be none.
pub open spec fn place_of(email: Seq<char>, domains: Seq<Seq<char>>) -> Result<PlaceTree, Seq<char>> {
    match parted(email, only('@')) {
        None => Err("mailbox must include a domain"@),
        Some((local, domain)) => if local.len() == 0 || !domains.contains(domain) {
            Err("mailbox must be in a configured domain (have: "@ + joined(domains, ", "@) + ")"@)
        } else {
            Ok(PlaceTree { local, domain, root: below(below(VMAIL_ROOT@, domain), local) })
        },
    }
}

/// Finds the place of a mailbox.
pub fn mailbox_place(email: &str, domains: &Vec<String>) -> (r: Result<MailboxPlace, String>)
    ensures
        match r {
            Ok(p) => place_of(email@, texts(domains@)) == Ok::<PlaceTree, Seq<char>>(p@),
            Err(e) => place_of(email@, texts(domains@)) == Err::<PlaceTree, Seq<char>>(e@),
        },
{
    match split_once(email, '@') {
        None => Err("mailbox must include a domain".to_owned()),
        Some((local, domain)) => {
            if local.as_str().is_empty() || !holds(domains, domain.as_str()) {
                let mut e = "mailbox must be in a configured domain (have: ".to_owned();
                e.append(join(domains, ", ").as_str());
                e.append(")");
                return Err(e);
            }
            let root = join_path(join_path(VMAIL_ROOT, domain.as_str()).as_str(), local.as_str());
            Ok(MailboxPlace { local, domain, root })
        },
    }
}

/// What is done first to make a mailbox: its directory, and the hash of its
/// password.
pub open spec fn mailbox_start_of(place: PlaceTree, password: Seq<char>) -> Seq<Deed> {
    seq![
        Deed::MakeDir(place.root),
        Deed::Run("chown"@, seq!["-R"@, "vmail:mail"@, place.root]),
        Deed::Run("chmod"@, seq!["0770"@, place.root]),
        Deed::Check("doveadm"@, seq!["pw"@, "-s"@, "BLF-CRYPT"@, "-p"@, password]),
    ]
}

/// The steps that start making a mailbox. The last one gives the hash.
pub fn mailbox_start(place: &MailboxPlace, password: &str) -> (r: Vec<Step>)
    ensures
        deeds(r@) == mailbox_start_of(place@, password@),
{
    let args = vec![
        "pw".to_owned(),
        "-s".to_owned(),
        "BLF-CRYPT".to_owned(),
        "-p".to_owned(),
        password.to_owned(),
    ];
    proof {
        assert(texts(args@) =~= seq!["pw"@, "-s"@, "BLF-CRYPT"@, "-p"@, password@]);
    }
    let r = vec![
        Step::MakeDir(place.root.clone()),
        run_three("chown", "-R", "vmail:mail", place.root.as_str()),
        run_two("chmod", "0770", place.root.as_str()),
        Step::Check("doveadm".to_owned(), args),
    ];
    proof {
        assert(deeds(r@) =~= mailbox_start_of(place@, password@));
    }
    r
}

/// The kind of lines that hold something and do not start with a prefix.
pub open spec fn other_line(prefix: Seq<char>) -> spec_fn(Seq<char>) -> bool {
    |l: Seq<char>| !prefix.is_prefix_of(l) && trimmed(l).len() > 0
}

/// The lines of a text that hold something and do not start with a prefix.
pub open spec fn other_lines(text: Seq<char>, prefix: Seq<char>) -> Seq<Seq<char>> {
    lines_of(text).filter(other_line(prefix))
}

/// Keeps the lines of a text that hold something and do not start with a
/// prefix.
pub fn lines_without(text: &str, prefix: &str) -> (r: Vec<String>)
    ensures
        texts(r@) == other_lines(text@, prefix@),
{
    let list = lines(text);
    let ghost all = texts(list@);
    let ghost kind = other_line(prefix@);
    let mut out: Vec<String> = Vec::new();
    let mut i: usize = 0;
    proof {
        reveal(Seq::filter);
        assert(texts(out@) =~= all.take(0).filter(kind));
    }
    while i < list.len()
        invariant
            i <= list@.len(),
            all == texts(list@),
            kind == other_line(prefix@),
            texts(out@) == all.take(i as int).filter(kind),
        decreases list@.len() - i,
    {
        let ghost out0 = out@;
        proof {
            reveal(Seq::filter);
            assert(all.take(i + 1).drop_last() =~= all.take(i as int));
            assert(all.take(i + 1).last() == list@[i as int]@);
        }
        if !starts_with(list[i].as_str(), prefix) && !trim(list[i].as_str()).as_str().is_empty() {
            out.push(list[i].clone());
            proof {
                assert(texts(out@) =~= texts(out0).push(list@[i as int]@));
            }
        }
        i += 1;
    }
    proof {
        assert(all.take(all.len() as int) =~= all);
    }
    out
}

/// A file in which one line takes the place of those that start with a prefix.
pub open spec fn with_line(text: Seq<char>, prefix: Seq<char>, line: Seq<char>) -> Seq<char> {
    file_of(other_lines(text, prefix).push(line))
}

/// Puts one line in the place of those that start with a prefix.
pub fn replace_line(text: &str, prefix: &str, line: String) -> (r: String)
    ensures
        r@ == with_line(text@, prefix@, line@),
{
    let mut list = lines_without(text, prefix);
    let ghost before = texts(list@);
    list.push(line);
    proof {
        assert(texts(list@) =~= before.push(line@));
    }
    file_text(&list)
}

/// The line that describes a mailbox.
pub open spec fn user_line(email: Seq<char>, hash: Seq<char>, root: Seq<char>) -> Seq<char> {
    email + ":"@ + hash + ":5000:8::"@ + root + "::userdb_mail=maildir:"@ + root + "/Maildir"@
}

/// The line that says where mail for a mailbox goes.
pub open spec fn vmailbox_line(email: Seq<char>, place: PlaceTree) -> Seq<char> {
    email + " "@ + place.domain + "/"@ + place.local + "/"@
}

/// The file of mailboxes with a mailbox in it.
pub open spec fn with_user(text: Seq<char>, email: Seq<char>, hash: Seq<char>, root: Seq<char>) -> Seq<char> {
    with_line(text, email + ":"@, user_line(email, hash, root))
}

/// What is done to finish making a mailbox, given its hash and the files as
/// they are.
pub open spec fn mailbox_files_of(
    email: Seq<char>,
    place: PlaceTree,
    hash: Seq<char>,
    users: Seq<char>,
    vmailbox: Seq<char>,
) -> Seq<Deed> {
    seq![
        Deed::Write(DOVECOT_USERS@, with_user(users, email, hash, place.root)),
        Deed::Run("chown"@, seq!["root:dovecot"@, DOVECOT_USERS@]),
        Deed::Run("chmod"@, seq!["0640"@, DOVECOT_USERS@]),
        Deed::Write(
            POSTFIX_VMAILBOX@,
            with_line(vmailbox, email + " "@, vmailbox_line(email, place)),
        ),
        Deed::Run("postmap"@, seq![POSTFIX_VMAILBOX@]),
        reload_of("dovecot"@),
        reload_of("postfix"@),
    ]
}

fn write_user_line(email: &str, hash: &str, root: &str) -> (r: String)
    ensures
        r@ == user_line(email@, hash@, root@),
{
    let mut line = email.to_owned();
    line.append(":");
    line.append(hash);
    line.append(":5000:8::");
    line.append(root);
    line.append("::userdb_mail=maildir:");
    line.append(root);
    line.append("/Maildir");
    line
}

/// The steps that finish making a mailbox.
pub fn mailbox_files(email: &str, place: &MailboxPlace, hash: &str, users: &str, vmailbox: &str) -> (r: Vec<Step>)
    ensures
        deeds(r@) == mailbox_files_of(email@, place@, hash@, users@, vmailbox@),
{
    let line = write_user_line(email, hash, place.root.as_str());
    let mut prefix = email.to_owned();
    prefix.append(":");
    let users_text = replace_line(users, prefix.as_str(), line);
    let mut entry = email.to_owned();
    entry.append(" ");
    let ghost start = entry@;
    let mut row = entry.clone();
    row.append(place.domain.as_str());
    row.append("/");
    row.append(place.local.as_str());
    row.append("/");
    let vmailbox_text = replace_line(vmailbox, entry.as_str(), row);
    let r = vec![
        Step::Write(DOVECOT_USERS.to_owned(), users_text),
        run_two("chown", "root:dovecot", DOVECOT_USERS),
        run_two("chmod", "0640", DOVECOT_USERS),
        Step::Write(POSTFIX_VMAILBOX.to_owned(), vmailbox_text),
        run_one("postmap", POSTFIX_VMAILBOX),
        reload("dovecot"),
        reload("postfix"),
    ];
    proof {
        assert(deeds(r@) =~= mailbox_files_of(email@, place@, hash@, users@, vmailbox@));
    }
    r
}

/// The answer that a request failed.
pub open spec fn failure_of(message: Seq<char>) -> Tree {
    Tree::object().with("ok"@, Tree::Bool(false)).with("error"@, Tree::Text(message))
}

/// The answer that a request failed.
pub fn failure(message: &str) -> (r: Json)
    ensures
        r@ == failure_of(message@),
{
    Json::object().with("ok", Json::Bool(false)).with("error", Json::text(message))
}

/// The answer that names a mailbox and its password.
pub open spec fn password_reply(email: Seq<char>, password: Seq<char>) -> Tree {
    Tree::object().with("ok"@, Tree::Bool(true)).with("email"@, Tree::Text(email)).with(
        "password"@,
        Tree::Text(password),
    )
}

/// The state and the answer after a password of a mailbox was set, which an
/// event tells of; or why there can be no such mailbox.
pub open spec fn recorded(
    data: Tree,
    email: Seq<char>,
    domains: Seq<Seq<char>>,
    password: Seq<char>,
    at: u64,
    event: Seq<char>,
) -> (Tree, Result<Tree, Seq<char>>) {
    match place_of(email, domains) {
        Err(e) => (data, Err(e)),
        Ok(_) => (
            with_event(data, "events"@, at, event + email, EVENTS_KEPT as int),
            Ok(password_reply(email, password)),
        ),
    }
}

/// The answer that a result holds, or why there is none.
pub open spec fn reply_tree(r: Result<Json, String>) -> Result<Tree, Seq<char>> {
    match r {
        Ok(j) => Ok(j@),
        Err(e) => Err(e@),
    }
}

fn record_password(
    data: &mut Json,
    email: &str,
    domains: &Vec<String>,
    password: &str,
    at: u64,
    event: &str,
) -> (r: Result<Json, String>)
    ensures
        (final(data)@, reply_tree(r)) == recorded(
            old(data)@,
            email@,
            texts(domains@),
            password@,
            at,
            event@,
        ),
{
    match mailbox_place(email, domains) {
        Err(e) => Err(e),
        Ok(_) => {
            let mut text = event.to_owned();
            text.append(email);
            prepend_event(data, "events", at, text.as_str(), EVENTS_KEPT);
            Ok(
                Json::object()
                    .with("ok", Json::Bool(true))
                    .with("email", Json::text(email))
                    .with("password", Json::text(password)),
            )
        },
    }
}

/// Records in a state that a mailbox in one of the domains was made, and
/// answers. Where there can be no such mailbox, nothing is recorded.
pub fn add_user(data: &mut Json, email: &str, domains: &Vec<String>, password: &str, at: u64) -> (r: Result<
    Json,
    String,
>)
    ensures
        (final(data)@, reply_tree(r)) == recorded(
            old(data)@,
            email@,
            texts(domains@),
            password@,
            at,
            "Mailbox active: "@,
        ),
{
    record_password(data, email, domains, password, at, "Mailbox active: ")
}

/// Finds out whether the password of a mailbox can be set: there must be the
/// mailbox.
pub fn check_user(users: &Vec<MailUser>, email: &str) -> (r: Result<(), Json>)
    ensures
        has_user(user_trees(users@), email@) ==> r is Ok,
        !has_user(user_trees(users@), email@) ==> (r matches Err(j) && j@ == failure_of("user not found"@)),
{
    if is_user(users, email) {
        Ok(())
    } else {
        Err(failure("user not found"))
    }
}

/// Records in a state that a mailbox has a new password, and answers. Where
/// there is no such mailbox, or none can be, nothing is recorded.
pub fn set_password(
    data: &mut Json,
    users: &Vec<MailUser>,
    email: &str,
    domains: &Vec<String>,
    password: &str,
    at: u64,
) -> (r: Result<Json, String>)
    ensures
        (final(data)@, reply_tree(r)) == (if has_user(user_trees(users@), email@) {
            recorded(old(data)@, email@, texts(domains@), password@, at, "Password rotated: "@)
        } else {
            (old(data)@, Ok(failure_of("user not found"@)))
        }),
{
    match check_user(users, email) {
        Err(reply) => Ok(reply),
        Ok(()) => record_password(data, email, domains, password, at, "Password rotated: "),
    }
}

/// The line that describes an alias.
pub open spec fn alias_line(alias: Seq<char>, target: Seq<char>) -> Seq<char> {
    alias + " "@ + target
}

/// The file of aliases with an alias in it.
pub open spec fn with_alias(text: Seq<char>, alias: Seq<char>, target: Seq<char>) -> Seq<char> {
    with_line(text, alias + " "@, alias_line(alias, target))
}

/// What is done to make an alias, given the file as it is.
pub open spec fn alias_steps_of(text: Seq<char>, alias: Seq<char>, target: Seq<char>) -> Seq<Deed> {
    seq![
        Deed::Write(POSTFIX_VIRTUAL@, with_alias(text, alias, target)),
        Deed::Run("postmap"@, seq![POSTFIX_VIRTUAL@]),
        reload_of("postfix"@),
    ]
}

/// The steps that make an alias.
pub fn alias_steps(text: &str, alias: &str, target: &str) -> (r: Vec<Step>)
    ensures
        deeds(r@) == alias_steps_of(text@, alias@, target@),
{
    let mut prefix = alias.to_owned();
    prefix.append(" ");
    let mut line = prefix.clone();
    line.append(target);
    let file = replace_line(text, prefix.as_str(), line);
    let r = vec![
        Step::Write(POSTFIX_VIRTUAL.to_owned(), file),
        run_one("postmap", POSTFIX_VIRTUAL),
        reload("postfix"),
    ];
    proof {
        assert(deeds(r@) =~= alias_steps_of(text@, alias@, target@));
    }
    r
}

/// Records in a state that an alias was made, and answers.
pub fn add_alias(data: &mut Json, alias: &str, target: &str, at: u64) -> (r: Json)
    ensures
        final(data)@ == with_event(
            old(data)@,
            "events"@,
            at,
            "Alias active: "@ + alias@ + " -> "@ + target@,
            EVENTS_KEPT as int,
        ),
        r@ == Tree::object().with("ok"@, Tree::Bool(true)).with("alias"@, Tree::Text(alias@)).with(
            "target"@,
            Tree::Text(target@),
        ),
{
    let mut event = "Alias active: ".to_owned();
    event.append(alias);
    event.append(" -> ");
    event.append(target);
    prepend_event(data, "events", at, event.as_str(), EVENTS_KEPT);
    Json::object()
        .with("ok", Json::Bool(true))
        .with("alias", Json::text(alias))
        .with("target", Json::text(target))
}

} // verus!
