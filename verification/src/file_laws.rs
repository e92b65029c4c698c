//! What the files of mailboxes and aliases say, and how they are changed.
use crate::json::Tree;
use crate::mailbox_laws::{lemma_filter_from, lemma_lines_have_no_feed, one_line};
use crate::mailboxes::{
    alias_steps_of, failure_of, known_of, known_with, mailbox_files_of, mailbox_start_of, other_line,
    place_of, recorded, with_line, PlaceTree,
};
use crate::json::Number;
use crate::spam::count;
use crate::steps::{checked, law_file_lines, Deed};
use crate::text::{
    among, blank, first_at, lemma_first_at, lemma_pieces_join, lemma_pieces_whole, lemma_run_end,
    lemma_run_start, lemma_trimmed_fixed, lines_of, run_end, split_at, trimmed, white_space, without_return,
};
use crate::users::{
    alias_in_line, alias_row_of, aliases_in, has_user, home_of, sum_of, user_in_line, user_row_of, users_in,
    UserTree,
};
use vstd::prelude::*;

verus! {

// ---------------------------------------------------------------------------
// The file of mailboxes
// ---------------------------------------------------------------------------

/// A text that holds more than white space is not empty when trimmed.
proof fn lemma_trimmed_some(s: Seq<char>, k: int)
    requires
        0 <= k < s.len(),
        !white_space(s[k]),
    ensures
        trimmed(s).len() > 0,
{
    let kind = blank();
    let i = run_end(s, kind, 0);
    lemma_run_end(s, kind, 0);
    assert(!kind(s[k]));
    let rest = s.skip(i);
    lemma_run_start(rest, kind, rest.len() as int);
    assert(rest[k - i] == s[k]);
}

proof fn lemma_field(s: Seq<char>)
    requires
        !s.contains(':'),
    ensures
        split_at(s, ':') == seq![s],
{
    let kind = among(seq![':']);
    assert forall|i: int| 0 <= i < s.len() implies !kind(#[trigger] s[i]) by {
        assert(s.contains(s[i]));
    }
    lemma_pieces_whole(s, kind);
}

proof fn lemma_field_join(a: Seq<char>, b: Seq<char>)
    ensures
        split_at(a.push(':') + b, ':') == split_at(a, ':') + split_at(b, ':'),
{
    let kind = among(seq![':']);
    assert(seq![':'][0] == ':');
    lemma_pieces_join(a, ':', b, kind);
}

/// A line of six fields or more, with colons between them, describes the mailbox
/// whose address stands in the first field and whose directory stands in the
/// sixth, whatever the others hold.
pub proof fn law_mailbox_is_described_by_a_line(
    email: Seq<char>,
    hash: Seq<char>,
    uid: Seq<char>,
    gid: Seq<char>,
    note: Seq<char>,
    home: Seq<char>,
    more: Seq<char>,
)
    requires
        !email.contains(':'),
        !hash.contains(':'),
        !uid.contains(':'),
        !gid.contains(':'),
        !note.contains(':'),
        !home.contains(':'),
        email.len() > 0,
        email[0] != '#',
        trimmed(email).contains('@'),
        trimmed(home).len() > 0,
    ensures
        ({
            let five = (((email.push(':') + hash).push(':') + uid).push(':') + gid).push(':') + note;
            let line = five.push(':') + home;
            let user = UserTree { email: trimmed(email), home: trimmed(home) };
            &&& user_in_line(line) == Some(user)
            &&& user_in_line(line.push(':') + more) == Some(user)
            &&& user_in_line(five) is None
        }),
{
    reveal_strlit("#");
    let a = email.push(':') + hash;
    let b = a.push(':') + uid;
    let c = b.push(':') + gid;
    let five = c.push(':') + note;
    let line = five.push(':') + home;
    let long = line.push(':') + more;
    lemma_field(email);
    lemma_field(hash);
    lemma_field(uid);
    lemma_field(gid);
    lemma_field(note);
    lemma_field(home);
    lemma_field_join(email, hash);
    lemma_field_join(a, uid);
    lemma_field_join(b, gid);
    lemma_field_join(c, note);
    lemma_field_join(five, home);
    lemma_field_join(line, more);
    assert(split_at(five, ':') =~= seq![email, hash, uid, gid, note]);
    assert(split_at(line, ':') =~= seq![email, hash, uid, gid, note, home]);
    let n = email.len() as int;
    assert(five[n] == ':' && line[n] == ':' && long[n] == ':');
    assert(!white_space(':'));
    assert(five[0] == email[0] && line[0] == email[0] && long[0] == email[0]);
    lemma_trimmed_some(five, n);
    lemma_trimmed_some(line, n);
    lemma_trimmed_some(long, n);
    assert(split_at(long, ':')[0] == email && split_at(long, ':')[5] == home);
    assert(!"#"@.is_prefix_of(line) && !"#"@.is_prefix_of(long)) by {
        assert("#"@[0] == '#');
    }
}

/// Blank lines, comments, lines without a colon, and lines whose first field is
/// no address describe no mailbox.
pub proof fn law_other_lines_describe_no_mailbox(line: Seq<char>)
    ensures
        trimmed(line).len() == 0 ==> user_in_line(line) is None,
        line.len() > 0 && line[0] == '#' ==> user_in_line(line) is None,
        !line.contains(':') ==> user_in_line(line) is None,
        !trimmed(split_at(line, ':')[0]).contains('@') ==> user_in_line(line) is None,
{
    reveal_strlit("#");
    if line.len() > 0 && line[0] == '#' {
        assert("#"@ =~= line.subrange(0, 1));
    }
}

/// Every line that describes a mailbox or an alias counts, in the order of the
/// lines, and the others do not.
pub proof fn law_every_line_counts(list: Seq<Seq<char>>, line: Seq<char>)
    ensures
        users_in(Seq::empty()) == Seq::<UserTree>::empty(),
        user_in_line(line) matches Some(u) ==> users_in(list.push(line)) == users_in(list).push(u),
        user_in_line(line) is None ==> users_in(list.push(line)) == users_in(list),
        aliases_in(Seq::empty()) == Seq::<(Seq<char>, Seq<char>)>::empty(),
        alias_in_line(line) matches Some(a) ==> aliases_in(list.push(line)) == aliases_in(list).push(a),
        alias_in_line(line) is None ==> aliases_in(list.push(line)) == aliases_in(list),
{
    assert(list.push(line).drop_last() =~= list);
}

/// The directory of an address is that of the first mailbox with this address,
/// and there is one exactly if there is such a mailbox.
pub proof fn law_first_mailbox_is_found(users: Seq<UserTree>, address: Seq<char>, i: int)
    ensures
        has_user(users, address) == (home_of(users, address) is Some),
        0 <= i < users.len() && users[i].email == address && (forall|j: int|
            0 <= j < i ==> (#[trigger] users[j]).email != address) ==> home_of(users, address) == Some(
            users[i].home,
        ),
    decreases users.len(),
{
    if users.len() > 0 {
        let rest = users.skip(1);
        law_first_mailbox_is_found(rest, address, i - 1);
        if has_user(users, address) && users[0].email != address {
            let k = choose|k: int| 0 <= k < users.len() && (#[trigger] users[k]).email == address;
            assert(rest[k - 1].email == address);
        }
        if has_user(rest, address) {
            let k = choose|k: int| 0 <= k < rest.len() && (#[trigger] rest[k]).email == address;
            assert(users[k + 1].email == address);
        }
        if users[0].email == address {
            assert(has_user(users, address));
        }
        if 0 < i < users.len() && users[i].email == address && (forall|j: int|
            0 <= j < i ==> (#[trigger] users[j]).email != address) {
            assert(users[0].email != address);
            assert(rest[i - 1] == users[i]);
            assert forall|j: int| 0 <= j < i - 1 implies (#[trigger] rest[j]).email != address by {
                assert(rest[j] == users[j + 1]);
            }
        }
    }
}

proof fn lemma_user_keys()
    ensures
        "email"@.len() == 5,
        "createdAt"@.len() == 9,
        "status"@.len() == 6,
        "home"@.len() == 4,
        "hasPassword"@.len() == 11 && "hasPassword"@[0] == 'h',
        "quotaUsed"@.len() == 9,
        "quotaUsed"@[0] == 'q',
        "createdAt"@[0] == 'c',
        "quotaUsedMb"@.len() == 11 && "quotaUsedMb"@[0] == 'q',
        "lastDelivery"@.len() == 12,
        "alias"@.len() == 5,
        "target"@.len() == 6,
        "target"@[0] == 't',
        "status"@[0] == 's',
{
    reveal_strlit("email");
    reveal_strlit("createdAt");
    reveal_strlit("status");
    reveal_strlit("home");
    reveal_strlit("hasPassword");
    reveal_strlit("quotaUsed");
    reveal_strlit("quotaUsedMb");
    reveal_strlit("lastDelivery");
    reveal_strlit("alias");
    reveal_strlit("target");
}

/// A mailbox is shown with its address, its directory, what it holds in bytes
/// and in megabytes, and its last delivery; an alias with its target.
pub proof fn law_mailboxes_and_aliases_are_shown(
    user: UserTree,
    size: u64,
    size_mb: Number,
    last: u64,
    alias: Seq<char>,
    target: Seq<char>,
)
    ensures
        user_row_of(user, size, size_mb, last).at("email"@) == Tree::Text(user.email),
        user_row_of(user, size, size_mb, last).at("home"@) == Tree::Text(user.home),
        user_row_of(user, size, size_mb, last).at("quotaUsed"@) == count(size),
        user_row_of(user, size, size_mb, last).at("quotaUsedMb"@) == Tree::Number(size_mb),
        user_row_of(user, size, size_mb, last).at("lastDelivery"@) == count(last),
        user_row_of(user, size, size_mb, last).at("status"@) == Tree::Text("active"@),
        user_row_of(user, size, size_mb, last).at("createdAt"@) == count(0),
        user_row_of(user, size, size_mb, last).at("hasPassword"@) == Tree::Bool(true),
        alias_row_of((alias, target)).at("alias"@) == Tree::Text(alias),
        alias_row_of((alias, target)).at("target"@) == Tree::Text(target),
        alias_row_of((alias, target)).at("status"@) == Tree::Text("active"@),
        alias_row_of((alias, target)).at("createdAt"@) == count(0),
        count(size).unsigned_or(0) == size,
        count(size).unsigned_or(1) == size,
{
    lemma_user_keys();
}

/// The size of a mailbox is what all of its files add up to.
pub proof fn law_sizes_add_up(sizes: Seq<u64>, size: u64)
    ensures
        sum_of(Seq::empty()) == 0,
        sum_of(sizes.push(size)) == sum_of(sizes) + size,
{
    assert(sizes.push(size).drop_last() =~= sizes);
}

// ---------------------------------------------------------------------------
// The file of aliases
// ---------------------------------------------------------------------------

/// A line of a word, white space and a target describes that alias; blank lines,
/// comments and single words describe none.
pub proof fn law_alias_is_described_by_a_line(alias: Seq<char>, space: char, target: Seq<char>)
    requires
        alias.len() > 0,
        alias[0] != '#',
        forall|i: int| 0 <= i < alias.len() ==> !white_space(#[trigger] alias[i]),
        white_space(space),
        target.len() > 0,
        !white_space(target.last()),
    ensures
        alias_in_line(alias.push(space) + target) == Some((alias, trimmed(target))),
        alias_in_line(alias) is None,
        alias_in_line(seq!['#'] + alias.push(space) + target) is None,
        alias_in_line(Seq::empty()) is None,
        alias_in_line(seq![space]) is None,
{
    reveal_strlit("#");
    let line = alias.push(space) + target;
    let kind = blank();
    assert(!white_space(alias[0]) && !white_space(alias.last()));
    lemma_trimmed_fixed(line);
    lemma_trimmed_fixed(alias);
    assert(!"#"@.is_prefix_of(line) && !"#"@.is_prefix_of(alias)) by {
        assert("#"@[0] == '#');
    }
    lemma_first_at(line, kind, 0);
    lemma_first_at(alias, kind, 0);
    let n = first_at(line, kind, 0);
    assert(line[alias.len() as int] == space);
    assert(kind(line[alias.len() as int]));
    assert forall|i: int| 0 <= i < alias.len() implies !kind(#[trigger] line[i]) by {
        assert(line[i] == alias[i]);
    }
    assert(n == alias.len());
    assert(line.take(n) =~= alias);
    assert(line.skip(n + 1) =~= target);
    assert(first_at(alias, kind, 0) == alias.len());
    let comment = seq!['#'] + alias.push(space) + target;
    assert(comment[0] == '#' && comment.last() == target.last());
    lemma_trimmed_fixed(comment);
    assert("#"@ =~= comment.subrange(0, 1));
    let none = Seq::<char>::empty();
    lemma_trimmed_fixed(none);
    assert(none.push(space) =~= seq![space]);
    crate::text::lemma_trimmed_push(none, space);
}

// ---------------------------------------------------------------------------
// How the files change
// ---------------------------------------------------------------------------

/// A file in which one line took the place of those that start with a prefix
/// holds the other lines in their order, without the blank ones, and the new
/// line last.
pub proof fn law_line_takes_the_place_of_others(text: Seq<char>, prefix: Seq<char>, line: Seq<char>)
    requires
        one_line(line),
        line.len() == 0 || line.last() != '\r',
        forall|i: int|
            0 <= i < lines_of(text).len() ==> without_return(#[trigger] lines_of(text)[i]) == lines_of(text)[i],
    ensures
        lines_of(with_line(text, prefix, line)) == lines_of(text).filter(
            |l: Seq<char>| !prefix.is_prefix_of(l) && trimmed(l).len() > 0,
        ).push(line),
{
    let all = lines_of(text);
    let kind = |l: Seq<char>| !prefix.is_prefix_of(l) && trimmed(l).len() > 0;
    assert(other_line(prefix) =~= kind);
    let kept = all.filter(kind);
    let list = kept.push(line);
    lemma_lines_have_no_feed(text);
    lemma_filter_from(all, kind);
    assert forall|i: int| 0 <= i < list.len() implies one_line(#[trigger] list[i]) && without_return(list[i])
        == list[i] by {
        if i < kept.len() {
            assert(all.contains(kept[i]));
            let k = choose|k: int| 0 <= k < all.len() && all[k] == kept[i];
            assert(one_line(all[k]));
            assert(without_return(all[k]) == all[k]);
        }
    }
    assert forall|i: int, j: int| 0 <= i < list.len() && 0 <= j < list[i].len() implies (#[trigger] list[i][j])
        != '\n' by {
        assert(one_line(list[i]));
        assert(list[i].contains(list[i][j]));
    }
    law_file_lines(list);
    assert(list.map_values(|l: Seq<char>| without_return(l)) =~= list);
}

/// Making a mailbox makes its directory, gives it to the mail user alone, and
/// asks for the hash of the password.
pub proof fn law_mailbox_is_started(place: PlaceTree, password: Seq<char>)
    ensures
        mailbox_start_of(place, password) == seq![
            Deed::MakeDir(place.root),
            Deed::Run("chown"@, seq!["-R"@, "vmail:mail"@, place.root]),
            Deed::Run("chmod"@, seq!["0770"@, place.root]),
            Deed::Check("doveadm"@, seq!["pw"@, "-s"@, "BLF-CRYPT"@, "-p"@, password]),
        ],
{
}

/// A mailbox is entered into the two files with its address, the hash of its
/// password and its directory, the first file stays readable for the server
/// only, and the servers read their settings again.
pub proof fn law_mailbox_is_entered(
    email: Seq<char>,
    place: PlaceTree,
    hash: Seq<char>,
    users: Seq<char>,
    vmailbox: Seq<char>,
)
    ensures
        mailbox_files_of(email, place, hash, users, vmailbox) == seq![
            Deed::Write(
                "/etc/dovecot/users"@,
                with_line(
                    users,
                    email + seq![':'],
                    email + seq![':'] + hash + ":5000:8::"@ + place.root + "::userdb_mail=maildir:"@ + place.root
                        + "/Maildir"@,
                ),
            ),
            Deed::Run("chown"@, seq!["root:dovecot"@, "/etc/dovecot/users"@]),
            Deed::Run("chmod"@, seq!["0640"@, "/etc/dovecot/users"@]),
            Deed::Write(
                "/etc/postfix/vmailbox"@,
                with_line(
                    vmailbox,
                    email + seq![' '],
                    email + seq![' '] + place.domain + seq!['/'] + place.local + seq!['/'],
                ),
            ),
            Deed::Run("postmap"@, seq!["/etc/postfix/vmailbox"@]),
            Deed::Run("systemctl"@, seq!["reload"@, "dovecot"@]),
            Deed::Run("systemctl"@, seq!["reload"@, "postfix"@]),
        ],
{
    reveal_strlit(":");
    reveal_strlit(" ");
    reveal_strlit("/");
    assert(":"@ =~= seq![':']);
    assert(" "@ =~= seq![' ']);
    assert("/"@ =~= seq!['/']);
}

/// An alias is entered into its file in place of the alias of the same name, and
/// the mail server reads it again.
pub proof fn law_alias_is_entered(text: Seq<char>, alias: Seq<char>, target: Seq<char>)
    ensures
        alias_steps_of(text, alias, target) == seq![
            Deed::Write(
                "/etc/postfix/virtual"@,
                with_line(text, alias + seq![' '], alias + seq![' '] + target),
            ),
            Deed::Run("postmap"@, seq!["/etc/postfix/virtual"@]),
            Deed::Run("systemctl"@, seq!["reload"@, "postfix"@]),
        ],
{
    reveal_strlit(" ");
    assert(" "@ =~= seq![' ']);
}

/// What a command that must succeed wrote is taken without the white space
/// around it; a failure is told with the name of the command.
pub proof fn law_failed_commands_are_told(command: Seq<char>, stdout: Seq<char>, stderr: Seq<char>)
    ensures
        checked(command, true, stdout, stderr) == Ok::<Seq<char>, Seq<char>>(trimmed(stdout)),
        checked(command, false, stdout, stderr) == Err::<Seq<char>, Seq<char>>(command + " failed: "@ + stderr),
{
}

// ---------------------------------------------------------------------------
// What is recorded and answered
// ---------------------------------------------------------------------------

/// That the password of a mailbox was set is told by the newest event, and
/// answered with the address and the password; where there can be no such
/// mailbox, nothing is recorded and the answer says why.
pub proof fn law_new_password_is_recorded(
    data: Tree,
    email: Seq<char>,
    domains: Seq<Seq<char>>,
    password: Seq<char>,
    at: u64,
    event: Seq<char>,
)
    ensures
        match place_of(email, domains) {
            Ok(_) => {
                &&& recorded(data, email, domains, password, at, event).1 matches Ok(reply)
                &&& reply.at("ok"@) == Tree::Bool(true)
                &&& reply.at("email"@) == Tree::Text(email)
                &&& reply.at("password"@) == Tree::Text(password)
                &&& recorded(data, email, domains, password, at, event).0 == crate::json::with_event(
                    data,
                    "events"@,
                    at,
                    event + email,
                    40,
                )
            },
            Err(why) => recorded(data, email, domains, password, at, event) == (
                data,
                Err::<Tree, Seq<char>>(why),
            ),
        },
        failure_of(event).at("ok"@) == Tree::Bool(false),
        failure_of(event).at("error"@) == Tree::Text(event),
{
    reveal_strlit("ok");
    reveal_strlit("email");
    reveal_strlit("error");
    reveal_strlit("password");
    assert("ok"@.len() == 2 && "email"@.len() == 5 && "password"@.len() == 8 && "error"@.len() == 5);
}

proof fn lemma_known_once(start: Seq<Seq<char>>, rows: Seq<Tree>)
    requires
        start.no_duplicates(),
    ensures
        known_with(start, rows).no_duplicates(),
        start.is_prefix_of(known_with(start, rows)),
    decreases rows.len(),
{
    if rows.len() > 0 {
        lemma_known_once(start, rows.drop_last());
        let before = known_with(start, rows.drop_last());
        let now = known_with(start, rows);
        if now != before {
            assert(now.take(before.len() as int) =~= before);
            assert(now.subrange(0, start.len() as int) =~= before.subrange(0, start.len() as int));
        }
    }
}

/// Mailboxes can be in the primary domain and in the domains that are managed,
/// each of which is listed once, the primary one first.
pub proof fn law_mailboxes_can_be_in_managed_domains(data: Tree, domain: Seq<char>)
    ensures
        known_of(data).no_duplicates(),
        known_of(data).len() > 0,
        known_of(data)[0] == "olibuijr.com"@,
        known_of(data).contains(domain) == (domain == "olibuijr.com"@ || exists|i: int|
            0 <= i < data.at("domains"@).items().len() && (#[trigger] data.at("domains"@).items()[i]).at("domain"@)
                == Tree::Text(domain)),
{
    let start = seq!["olibuijr.com"@];
    let rows = data.at("domains"@).items();
    lemma_known_once(start, rows);
    assert(start[0] == "olibuijr.com"@);
    let now = known_of(data);
    assert(now.subrange(0, 1)[0] == start[0]);
    crate::domain_laws::lemma_known(start, rows, domain);
    if crate::domains::has_domain(rows, domain) {
        let i = choose|i: int| 0 <= i < rows.len() && crate::domains::is_row(#[trigger] rows[i], domain);
        assert(rows[i].at("domain"@) == Tree::Text(domain));
    }
    if exists|i: int| 0 <= i < rows.len() && (#[trigger] rows[i]).at("domain"@) == Tree::Text(domain) {
        let i = choose|i: int| 0 <= i < rows.len() && (#[trigger] rows[i]).at("domain"@) == Tree::Text(domain);
        assert(crate::domains::is_row(rows[i], domain));
    }
}

} // verus!
