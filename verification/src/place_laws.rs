//! Where mailboxes, their folders and their messages lie, and what their files
//! are called.
use crate::json::Tree;
use crate::spam::count;
use crate::mailboxes::PlaceTree;
use crate::maildir::{
    base_of, candidate_of, changed_flags, char_leq, flagged_name, flags_of, folder_rows, folders_of, id_of,
    message_path_of, place_of, root_of, saved_of, seen_name_of, suffix_of, FolderCount,
};
use crate::outside::{base64_url_bytes, base64_url_text, json_list, json_list_read};
use crate::steps::below;
use crate::text::{decimal, first_at, has_text, joined, lemma_first_at, only, parted};
use crate::users::{home_of, UserTree};
use vstd::prelude::*;
use vstd::utf8::encode_utf8;

verus! {

/// A path is made of its parts with one slash between; a part that starts at the
/// root stands for itself.
pub proof fn law_paths_are_joined(base: Seq<char>, part: Seq<char>)
    ensures
        base.len() > 0 && base.last() != '/' && (part.len() == 0 || part[0] != '/') ==> below(base, part) == base
            + seq!['/'] + part,
        base.len() > 0 && base.last() == '/' && (part.len() == 0 || part[0] != '/') ==> below(base, part) == base
            + part,
        base.len() == 0 ==> below(base, part) == part,
        part.len() > 0 && part[0] == '/' ==> below(base, part) == part,
{
    reveal_strlit("/");
    assert("/"@ =~= seq!['/']);
    if base.len() == 0 {
        assert(base + part =~= part);
    }
}

/// The folders of a mailbox have their directories below its mail directory,
/// that of the inbox being the mail directory itself; other folders, and folders
/// of unknown mailboxes, have none.
pub proof fn law_folder_has_its_directory(
    users: Seq<UserTree>,
    address: Seq<char>,
    home: Seq<char>,
    folder: Seq<char>,
)
    requires
        home.len() > 0,
        home.last() != '/',
    ensures
        home_of(users, address) == Some(home) ==> {
            &&& root_of(users, address, "Inbox"@) == Ok::<Seq<char>, Seq<char>>(home + "/Maildir"@)
            &&& root_of(users, address, "Sent"@) == Ok::<Seq<char>, Seq<char>>(home + "/Maildir/.Sent"@)
            &&& root_of(users, address, "Drafts"@) == Ok::<Seq<char>, Seq<char>>(home + "/Maildir/.Drafts"@)
            &&& root_of(users, address, "Archive"@) == Ok::<Seq<char>, Seq<char>>(home + "/Maildir/.Archive"@)
            &&& root_of(users, address, "Spam"@) == Ok::<Seq<char>, Seq<char>>(home + "/Maildir/.Junk"@)
            &&& root_of(users, address, "Trash"@) == Ok::<Seq<char>, Seq<char>>(home + "/Maildir/.Trash"@)
            &&& folder != "Inbox"@ && folder != "Sent"@ && folder != "Drafts"@ && folder != "Archive"@ && folder
                != "Spam"@ && folder != "Trash"@ ==> root_of(users, address, folder) == Err::<
                Seq<char>,
                Seq<char>,
            >("unknown folder"@)
        },
        home_of(users, address) is None ==> root_of(users, address, folder) == Err::<Seq<char>, Seq<char>>(
            "mailbox not found"@,
        ),
{
    reveal_strlit("");
    reveal_strlit("/");
    reveal_strlit("Maildir");
    reveal_strlit("/Maildir");
    reveal_strlit("Inbox");
    reveal_strlit("Sent");
    reveal_strlit("Drafts");
    reveal_strlit("Archive");
    reveal_strlit("Spam");
    reveal_strlit("Trash");
    reveal_strlit(".Sent");
    reveal_strlit(".Drafts");
    reveal_strlit(".Archive");
    reveal_strlit(".Junk");
    reveal_strlit(".Trash");
    reveal_strlit("/Maildir/.Sent");
    reveal_strlit("/Maildir/.Drafts");
    reveal_strlit("/Maildir/.Archive");
    reveal_strlit("/Maildir/.Junk");
    reveal_strlit("/Maildir/.Trash");
    assert("Inbox"@[0] == 'I' && "Sent"@[0] == 'S' && "Sent"@[1] == 'e' && "Drafts"@[0] == 'D' && "Archive"@[0]
        == 'A' && "Spam"@[0] == 'S' && "Spam"@[1] == 'p' && "Trash"@[0] == 'T');
    let base = below(home, "Maildir"@);
    assert(base =~= home + "/Maildir"@);
    assert(base.last() == 'r');
    assert(below(base, ".Sent"@) =~= home + "/Maildir/.Sent"@);
    assert(below(base, ".Drafts"@) =~= home + "/Maildir/.Drafts"@);
    assert(below(base, ".Archive"@) =~= home + "/Maildir/.Archive"@);
    assert(below(base, ".Junk"@) =~= home + "/Maildir/.Junk"@);
    assert(below(base, ".Trash"@) =~= home + "/Maildir/.Trash"@);
}

/// The folders that are listed are those that there are.
pub proof fn law_all_folders_are_listed(folder: Seq<char>)
    ensures
        folders_of().contains(folder) == (suffix_of(folder) is Some),
        folders_of().no_duplicates(),
        folders_of() == seq!["Inbox"@, "Sent"@, "Drafts"@, "Archive"@, "Spam"@, "Trash"@],
{
    reveal_strlit("Inbox");
    reveal_strlit("Sent");
    reveal_strlit("Drafts");
    reveal_strlit("Archive");
    reveal_strlit("Spam");
    reveal_strlit("Trash");
    assert("Inbox"@[0] == 'I' && "Sent"@[0] == 'S' && "Sent"@[1] == 'e' && "Drafts"@[0] == 'D' && "Archive"@[0]
        == 'A' && "Spam"@[0] == 'S' && "Spam"@[1] == 'p' && "Trash"@[0] == 'T');
    let f = folders_of();
    assert(f[0] == "Inbox"@ && f[1] == "Sent"@ && f[2] == "Drafts"@ && f[3] == "Archive"@ && f[4] == "Spam"@
        && f[5] == "Trash"@);
    if suffix_of(folder) is Some {
        assert(exists|i: int| 0 <= i < 6 && #[trigger] f[i] == folder);
    }
}

/// Every folder is shown under its name with the number of its messages and of
/// those not read.
pub proof fn law_folders_are_counted(counts: Seq<FolderCount>, i: int)
    requires
        0 <= i < 6,
        counts.len() == 6,
    ensures
        folder_rows(counts).items().len() == 6,
        folder_rows(counts).items()[i].at("name"@) == Tree::Text(folders_of()[i]),
        folder_rows(counts).items()[i].at("total"@) == count(counts[i].total),
        folder_rows(counts).items()[i].at("unread"@) == count(counts[i].unread),
{
    reveal_strlit("name");
    reveal_strlit("total");
    reveal_strlit("unread");
    assert("name"@.len() == 4 && "total"@.len() == 5 && "unread"@.len() == 6);
}

/// A message lies in one of two directories of its folder, under its file name;
/// there are none anywhere else.
pub proof fn law_message_lies_in_its_folder(
    users: Seq<UserTree>,
    address: Seq<char>,
    folder: Seq<char>,
    subdir: Seq<char>,
    name: Seq<char>,
    root: Seq<char>,
    why: Seq<char>,
)
    requires
        root.len() > 0,
        root.last() != '/',
        name.len() > 0,
        name[0] != '/',
    ensures
        root_of(users, address, folder) == Ok::<Seq<char>, Seq<char>>(root) ==> {
            &&& place_of(users, address, folder, "cur"@, name) == Ok::<
                (Seq<char>, Seq<char>, Seq<char>),
                Seq<char>,
            >((folder, "cur"@, root + "/cur/"@ + name))
            &&& place_of(users, address, folder, "new"@, name) == Ok::<
                (Seq<char>, Seq<char>, Seq<char>),
                Seq<char>,
            >((folder, "new"@, root + "/new/"@ + name))
        },
        root_of(users, address, folder) == Err::<Seq<char>, Seq<char>>(why) ==> place_of(
            users,
            address,
            folder,
            "cur"@,
            name,
        ) == Err::<(Seq<char>, Seq<char>, Seq<char>), Seq<char>>(why),
        subdir != "cur"@ && subdir != "new"@ ==> place_of(users, address, folder, subdir, name) == Err::<
            (Seq<char>, Seq<char>, Seq<char>),
            Seq<char>,
        >("message not found"@),
{
    reveal_strlit("/");
    reveal_strlit("cur");
    reveal_strlit("new");
    reveal_strlit("/cur/");
    reveal_strlit("/new/");
    assert(below(below(root, "cur"@), name) =~= root + "/cur/"@ + name);
    assert(below(below(root, "new"@), name) =~= root + "/new/"@ + name);
}

/// The message of an identifier is that of the folder, directory and file name
/// that the identifier spells, in this order; a text that spells something else
/// finds none, and says why.
pub proof fn law_identifier_finds_its_message(
    users: Seq<UserTree>,
    address: Seq<char>,
    folder: Seq<char>,
    subdir: Seq<char>,
    name: Seq<char>,
    id: Seq<char>,
)
    ensures
        id_of(folder, subdir, name) == base64_url_text(encode_utf8(json_list(seq![folder, subdir, name]))),
        match base64_url_bytes(id) {
            Err(e) => message_path_of(users, address, id) == Err::<(Seq<char>, Seq<char>, Seq<char>), Seq<char>>(
                "invalid message id: "@ + e,
            ),
            Ok(bytes) => match json_list_read(bytes) {
                Err(e) => message_path_of(users, address, id) == Err::<
                    (Seq<char>, Seq<char>, Seq<char>),
                    Seq<char>,
                >("invalid message id JSON: "@ + e),
                Ok(row) => {
                    &&& row.len() == 3 ==> message_path_of(users, address, id) == place_of(
                        users,
                        address,
                        row[0],
                        row[1],
                        row[2],
                    )
                    &&& row.len() != 3 ==> message_path_of(users, address, id) == Err::<
                        (Seq<char>, Seq<char>, Seq<char>),
                        Seq<char>,
                    >("invalid message id"@)
                },
            },
        },
{
}

/// The flags of a file name follow the mark; a name without the mark has none.
pub proof fn law_flags_follow_the_mark(base: Seq<char>, flags: Seq<char>)
    requires
        !has_text(base, ":2,"@),
    ensures
        flags_of(base) == Seq::<char>::empty(),
        base_of(base) == base,
        !has_text(base.push(':').push('2'), ":2,"@) ==> flags_of(base + ":2,"@ + flags) == flags,
{
    reveal_strlit(":2,");
    let name = base + ":2,"@ + flags;
    let mark = ":2,"@;
    crate::text::lemma_find_from(base, mark, 0);
    crate::text::lemma_find_from(name, mark, 0);
    let i = crate::text::find_from(name, mark, 0);
    assert(name.subrange(base.len() as int, base.len() as int + 3) =~= mark);
    assert(crate::text::stands_at(name, mark, base.len() as int));
    if !has_text(base.push(':').push('2'), mark) {
        let short = base.push(':').push('2');
        if i < base.len() {
            assert(short.subrange(i, i + 3) =~= name.subrange(i, i + 3));
            assert(crate::text::stands_at(short, mark, i));
        }
        assert(i == base.len());
        assert(name.skip(i + 3) =~= flags);
    }
}

/// Setting or clearing a flag leaves the flags in order.
pub proof fn law_flags_are_in_order(name: Seq<char>, flag: char, enabled: bool, i: int, j: int)
    ensures
        ({
            let now = flagged_name(name, flag, enabled);
            let mark = base_of(name).len() as int + 3;
            &&& now.take(mark) == base_of(name) + ":2,"@
            &&& mark <= i < j < now.len() ==> now[i] <= now[j]
            &&& enabled && flags_of(name).contains(flag) ==> now.skip(mark).to_multiset() == flags_of(
                name,
            ).to_multiset()
            &&& enabled && !flags_of(name).contains(flag) ==> now.skip(mark).to_multiset() == flags_of(
                name,
            ).to_multiset().insert(flag)
        }),
{
    reveal_strlit(":2,");
    let held = flags_of(name);
    let set = changed_flags(held, flag, enabled);
    let leq = char_leq();
    let sorted = set.sort_by(leq);
    crate::maildir::lemma_char_order();
    set.lemma_sort_by_ensures(leq);
    let now = flagged_name(name, flag, enabled);
    let mark = base_of(name).len() as int + 3;
    assert(now.take(mark) =~= base_of(name) + ":2,"@);
    assert(now.skip(mark) =~= sorted);
    if mark <= i < j < now.len() {
        assert(leq(sorted[i - mark], sorted[j - mark]));
    }
    set.to_multiset_ensures();
    held.to_multiset_ensures();
}

/// A message that was read keeps its file name if that has flags, and else gets
/// the flag of read messages.
pub proof fn law_read_message_keeps_its_name(name: Seq<char>)
    ensures
        has_text(name, ":2,"@) ==> seen_name_of(name) == name,
        !has_text(name, ":2,"@) ==> seen_name_of(name) == name + seq![':', '2', ',', 'S'],
{
    reveal_strlit(":2,S");
    assert(":2,S"@ =~= seq![':', '2', ',', 'S']);
}

/// A message keeps its file name in another folder if that is free, and else
/// gets a number at its end.
pub proof fn law_moved_message_keeps_its_name(name: Seq<char>, suffix: u64)
    ensures
        candidate_of(name, 0) == name,
        suffix > 0 ==> candidate_of(name, suffix) == name + seq!['.'] + decimal(suffix as nat),
{
    reveal_strlit(".");
    assert("."@ =~= seq!['.']);
}

/// A message is saved under a name made of the time and the process, as a read
/// one or as a new one.
pub proof fn law_saved_message_is_read_or_new(at: u64, pid: u32)
    ensures
        saved_of(at, pid, true) == ("cur"@, decimal(at as nat) + "."@ + decimal(pid as nat) + ".rust:2,S"@),
        saved_of(at, pid, false) == ("new"@, decimal(at as nat) + "."@ + decimal(pid as nat) + ".rust"@),
{
    reveal_strlit("");
    reveal_strlit(":2,S");
    reveal_strlit(".rust");
    reveal_strlit(".rust:2,S");
    let front = decimal(at as nat) + "."@ + decimal(pid as nat);
    assert(front + ".rust"@ + ":2,S"@ =~= front + ".rust:2,S"@);
    assert(front + ".rust"@ + ""@ =~= front + ".rust"@);
}

/// A mailbox of a known domain lies below the directory of its domain, under
/// what stands before the first at sign; there can be no mailbox without a
/// domain, of an unknown domain, or with nothing before the at sign.
pub proof fn law_mailbox_lies_below_its_domain(local: Seq<char>, domain: Seq<char>, domains: Seq<Seq<char>>)
    requires
        !local.contains('@'),
    ensures
        local.len() > 0 && local[0] != '/' && domain.len() > 0 && domain[0] != '/' && domain.last() != '/'
            && domains.contains(domain) ==> crate::mailboxes::place_of(local.push('@') + domain, domains) == Ok::<
            PlaceTree,
            Seq<char>,
        >(PlaceTree { local, domain, root: "/var/vmail/"@ + domain + "/"@ + local }),
        local.len() == 0 || !domains.contains(domain) ==> crate::mailboxes::place_of(
            local.push('@') + domain,
            domains,
        ) == Err::<PlaceTree, Seq<char>>(
            "mailbox must be in a configured domain (have: "@ + joined(domains, ", "@) + ")"@,
        ),
        crate::mailboxes::place_of(local, domains) == Err::<PlaceTree, Seq<char>>(
            "mailbox must include a domain"@,
        ),
{
    reveal_strlit("/");
    reveal_strlit("/var/vmail");
    reveal_strlit("/var/vmail/");
    let kind = only('@');
    let email = local.push('@') + domain;
    lemma_first_at(email, kind, 0);
    lemma_first_at(local, kind, 0);
    let n = first_at(email, kind, 0);
    assert(email[local.len() as int] == '@');
    assert(kind(email[local.len() as int]));
    assert forall|i: int| 0 <= i < local.len() implies !kind(#[trigger] local[i]) && email[i] == local[i] by {
        assert(local.contains(local[i]));
    }
    assert(n == local.len());
    let m = first_at(local, kind, 0);
    assert(m == local.len());
    assert(email.take(n) =~= local);
    assert(email.skip(n + 1) =~= domain);
    assert(parted(email, kind) == Some((local, domain)));
    assert(parted(local, kind) is None);
    if local.len() > 0 && local[0] != '/' && domain.len() > 0 && domain[0] != '/' && domain.last() != '/' {
        assert(below("/var/vmail"@, domain) =~= "/var/vmail/"@ + domain);
        assert(below(below("/var/vmail"@, domain), local) =~= "/var/vmail/"@ + domain + "/"@ + local);
    }
}

} // verus!
