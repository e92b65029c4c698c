//! Maildir folders: where they lie, the identifiers of messages, and the flags
//! in their file names.
use crate::json::{trees, Json, Tree};
use crate::outside::{
    base64_url_bytes, base64_url_char, base64_url_decode, base64_url_encode, base64_url_text,
    json_list, json_list_parse, json_list_read, json_list_text,
};
use crate::spam::count;
use crate::steps::{below, join_path};
use crate::text::{
    chars_of, contains, decimal, decimal_of, has_text, is_among, parted_at, same, split_once_at,
    text_from, texts,
};
use crate::users::{home_of, user_home, user_trees, MailUser, UserTree};
use vstd::prelude::*;
use vstd::relations::{sorted_by, total_ordering};
use vstd::utf8::encode_utf8;

verus! {

/// The directory of a folder inside a mailbox; that of the inbox is the mailbox
/// itself.
pub open spec fn suffix_of(folder: Seq<char>) -> Option<Seq<char>> {
    if folder == "Inbox"@ {
        Some(""@)
    } else if folder == "Sent"@ {
        Some(".Sent"@)
    } else if folder == "Drafts"@ {
        Some(".Drafts"@)
    } else if folder == "Archive"@ {
        Some(".Archive"@)
    } else if folder == "Spam"@ {
        Some(".Junk"@)
    } else if folder == "Trash"@ {
        Some(".Trash"@)
    } else {
        None
    }
}

/// The folders of a mailbox.
pub open spec fn folders_of() -> Seq<Seq<char>> {
    seq!["Inbox"@, "Sent"@, "Drafts"@, "Archive"@, "Spam"@, "Trash"@]
}

/// Lists the folders of a mailbox.
pub fn folders() -> (r: Vec<String>)
    ensures
        texts(r@) == folders_of(),
{
    let r = vec![
        "Inbox".to_owned(),
        "Sent".to_owned(),
        "Drafts".to_owned(),
        "Archive".to_owned(),
        "Spam".to_owned(),
        "Trash".to_owned(),
    ];
    proof {
        assert(texts(r@) =~= folders_of());
    }
    r
}

/// Finds the directory of a folder inside a mailbox.
pub fn folder_suffix(folder: &str) -> (r: Result<String, String>)
    ensures
        match r {
            Ok(s) => suffix_of(folder@) == Some(s@),
            Err(e) => suffix_of(folder@) is None && e@ == "unknown folder"@,
        },
{
    if same(folder, "Inbox") {
        Ok("".to_owned())
    } else if same(folder, "Sent") {
        Ok(".Sent".to_owned())
    } else if same(folder, "Drafts") {
        Ok(".Drafts".to_owned())
    } else if same(folder, "Archive") {
        Ok(".Archive".to_owned())
    } else if same(folder, "Spam") {
        Ok(".Junk".to_owned())
    } else if same(folder, "Trash") {
        Ok(".Trash".to_owned())
    } else {
        Err("unknown folder".to_owned())
    }
}

/// The directory of a folder of a mailbox, or why there is none.
pub open spec fn root_of(users: Seq<UserTree>, address: Seq<char>, folder: Seq<char>) -> Result<
    Seq<char>,
    Seq<char>,
> {
    match home_of(users, address) {
        None => Err("mailbox not found"@),
        Some(home) => match suffix_of(folder) {
            None => Err("unknown folder"@),
            Some(s) => if s.len() == 0 {
                Ok(below(home, "Maildir"@))
            } else {
                Ok(below(below(home, "Maildir"@), s))
            },
        },
    }
}

/// Finds the directory of a folder of a mailbox.
pub fn folder_root(users: &Vec<MailUser>, address: &str, folder: &str) -> (r: Result<String, String>)
    ensures
        crate::outside::text_result(r) == root_of(user_trees(users@), address@, folder@),
{
    let home = match user_home(users, address) {
        Ok(h) => h,
        Err(e) => return Err(e),
    };
    let suffix = match folder_suffix(folder) {
        Ok(s) => s,
        Err(e) => return Err(e),
    };
    let root = join_path(home.as_str(), "Maildir");
    if suffix.as_str().is_empty() {
        Ok(root)
    } else {
        Ok(join_path(root.as_str(), suffix.as_str()))
    }
}

/// How many messages a folder holds, and how many of them are new.
#[derive(Clone, Copy, Debug, PartialEq, Eq)]
pub struct FolderCount {
    pub total: u64,
    pub unread: u64,
}

/// The row that shows a folder.
pub open spec fn folder_row(name: Seq<char>, c: FolderCount) -> Tree {
    Tree::object().with("name"@, Tree::Text(name)).with("total"@, count(c.total)).with(
        "unread"@,
        count(c.unread),
    )
}

/// The rows that show the folders of a mailbox.
pub open spec fn folder_rows(counts: Seq<FolderCount>) -> Tree {
    Tree::Array(Seq::new(folders_of().len(), |i: int| folder_row(folders_of()[i], counts[i])))
}

/// Shows the folders of a mailbox, given how many messages each holds.
pub fn folder_counts(counts: &Vec<FolderCount>) -> (r: Json)
    requires
        counts@.len() == folders_of().len(),
    ensures
        r@ == folder_rows(counts@),
{
    let names = folders();
    let mut rows: Vec<Json> = Vec::new();
    let mut i: usize = 0;
    proof {
        assert(names@.len() == texts(names@).len());
    }
    while i < names.len()
        invariant
            i <= names@.len(),
            names@.len() == counts@.len(),
            texts(names@) == folders_of(),
            rows@.len() == i,
            forall|j: int| 0 <= j < i ==> (#[trigger] rows@[j])@ == folder_row(folders_of()[j], counts@[j]),
        decreases names@.len() - i,
    {
        proof {
            assert(texts(names@)[i as int] == names@[i as int]@);
        }
        let row = Json::object()
            .with("name", Json::text(names[i].as_str()))
            .with("total", Json::unsigned(counts[i].total))
            .with("unread", Json::unsigned(counts[i].unread));
        rows.push(row);
        i += 1;
    }
    proof {
        assert(trees(rows@) =~= folder_rows(counts@)->Array_0);
    }
    Json::array(rows)
}

// ---------------------------------------------------------------------------
// Identifiers of messages
// ---------------------------------------------------------------------------

/// The identifier of a message: its folder, its directory there and its file
/// name, in text that is safe in URLs.
pub open spec fn id_of(folder: Seq<char>, subdir: Seq<char>, name: Seq<char>) -> Seq<char> {
    base64_url_text(encode_utf8(json_list(seq![folder, subdir, name])))
}

/// The folder, directory and file name that a list holds, or why it holds none.
pub open spec fn row_parts(row: Seq<Seq<char>>) -> Result<(Seq<char>, Seq<char>, Seq<char>), Seq<char>> {
    if row.len() != 3 {
        Err("invalid message id"@)
    } else {
        Ok((row[0], row[1], row[2]))
    }
}

/// The folder, directory and file name that an identifier spells, or why it
/// spells none.
pub open spec fn id_parts(value: Seq<char>) -> Result<(Seq<char>, Seq<char>, Seq<char>), Seq<char>> {
    match base64_url_bytes(value) {
        Err(e) => Err("invalid message id: "@ + e),
        Ok(bytes) => match json_list_read(bytes) {
            Err(e) => Err("invalid message id JSON: "@ + e),
            Ok(row) => row_parts(row),
        },
    }
}

/// Makes the identifier of a message. It is safe in URLs, and decoding gives
/// back what it was made of.
pub fn msg_id(folder: &str, subdir: &str, name: &str) -> (r: String)
    ensures
        r@ == id_of(folder@, subdir@, name@),
        id_parts(r@) == Ok::<(Seq<char>, Seq<char>, Seq<char>), Seq<char>>((folder@, subdir@, name@)),
        forall|i: int| 0 <= i < r@.len() ==> base64_url_char(#[trigger] r@[i]),
{
    let row = vec![folder.to_owned(), subdir.to_owned(), name.to_owned()];
    proof {
        assert(texts(row@) =~= seq![folder@, subdir@, name@]);
    }
    let text = json_list_text(&row);
    base64_url_encode(text.as_str().as_bytes())
}

/// The texts in a result of reading an identifier.
pub open spec fn parts_result(r: Result<(String, String, String), String>) -> Result<
    (Seq<char>, Seq<char>, Seq<char>),
    Seq<char>,
> {
    match r {
        Ok((folder, subdir, name)) => Ok((folder@, subdir@, name@)),
        Err(e) => Err(e@),
    }
}

/// Takes the folder, directory and file name out of a list.
pub fn parts_of_row(row: &Vec<String>) -> (r: Result<(String, String, String), String>)
    ensures
        parts_result(r) == row_parts(texts(row@)),
{
    proof {
        assert(texts(row@).len() == row@.len());
    }
    if row.len() != 3 {
        return Err("invalid message id".to_owned());
    }
    proof {
        assert(texts(row@)[0] == row@[0]@);
        assert(texts(row@)[1] == row@[1]@);
        assert(texts(row@)[2] == row@[2]@);
    }
    Ok((row[0].clone(), row[1].clone(), row[2].clone()))
}

/// Reads the identifier of a message.
pub fn decode_msg_id(value: &str) -> (r: Result<(String, String, String), String>)
    ensures
        parts_result(r) == id_parts(value@),
{
    let bytes = match base64_url_decode(value) {
        Ok(b) => b,
        Err(e) => {
            let mut out = "invalid message id: ".to_owned();
            out.append(e.as_str());
            return Err(out);
        },
    };
    match json_list_parse(bytes.as_slice()) {
        Ok(row) => parts_of_row(&row),
        Err(e) => {
            let mut out = "invalid message id JSON: ".to_owned();
            out.append(e.as_str());
            Err(out)
        },
    }
}

/// Where a message lies.
#[derive(Debug, PartialEq, Eq)]
pub struct MessagePlace {
    pub folder: String,
    pub subdir: String,
    pub path: String,
}

/// The texts in a result of finding a message.
pub open spec fn place_result(r: Result<MessagePlace, String>) -> Result<
    (Seq<char>, Seq<char>, Seq<char>),
    Seq<char>,
> {
    match r {
        Ok(p) => Ok((p.folder@, p.subdir@, p.path@)),
        Err(e) => Err(e@),
    }
}

/// The folder, directory and path of a message, or why there is none.
pub open spec fn place_of(
    users: Seq<UserTree>,
    address: Seq<char>,
    folder: Seq<char>,
    subdir: Seq<char>,
    name: Seq<char>,
) -> Result<(Seq<char>, Seq<char>, Seq<char>), Seq<char>> {
    if subdir != "cur"@ && subdir != "new"@ {
        Err("message not found"@)
    } else {
        match root_of(users, address, folder) {
            Err(e) => Err(e),
            Ok(root) => Ok((folder, subdir, below(below(root, subdir), name))),
        }
    }
}

/// Finds where a message lies, given its folder, directory and file name.
pub fn message_place(
    users: &Vec<MailUser>,
    address: &str,
    folder: &str,
    subdir: &str,
    name: &str,
) -> (r: Result<MessagePlace, String>)
    ensures
        place_result(r) == place_of(user_trees(users@), address@, folder@, subdir@, name@),
{
    if !same(subdir, "cur") && !same(subdir, "new") {
        return Err("message not found".to_owned());
    }
    match folder_root(users, address, folder) {
        Err(e) => Err(e),
        Ok(root) => {
            let path = join_path(join_path(root.as_str(), subdir).as_str(), name);
            Ok(MessagePlace { folder: folder.to_owned(), subdir: subdir.to_owned(), path })
        },
    }
}

/// The folder, directory and path of the message of an identifier, or why there
/// is none.
pub open spec fn message_path_of(users: Seq<UserTree>, address: Seq<char>, id: Seq<char>) -> Result<
    (Seq<char>, Seq<char>, Seq<char>),
    Seq<char>,
> {
    match id_parts(id) {
        Err(e) => Err(e),
        Ok((folder, subdir, name)) => place_of(users, address, folder, subdir, name),
    }
}

/// Finds where the message of an identifier lies.
pub fn message_path(users: &Vec<MailUser>, address: &str, id: &str) -> (r: Result<MessagePlace, String>)
    ensures
        place_result(r) == message_path_of(user_trees(users@), address@, id@),
{
    match decode_msg_id(id) {
        Ok((folder, subdir, name)) => message_place(
            users,
            address,
            folder.as_str(),
            subdir.as_str(),
            name.as_str(),
        ),
        Err(e) => Err(e),
    }
}

/// What follows the mark of the flags in a file name.
pub open spec fn flags_of(name: Seq<char>) -> Seq<char> {
    match parted_at(name, ":2,"@) {
        Some((_, f)) => f,
        None => Seq::empty(),
    }
}

/// What stands before the mark of the flags in a file name.
pub open spec fn base_of(name: Seq<char>) -> Seq<char> {
    match parted_at(name, ":2,"@) {
        Some((b, _)) => b,
        None => name,
    }
}

/// Reads the flags in a file name.
pub fn flags(name: &str) -> (r: String)
    ensures
        r@ == flags_of(name@),
{
    match split_once_at(name, ":2,") {
        Some((_, f)) => f,
        None => String::new(),
    }
}

/// The file name of a message once it is read.
pub open spec fn seen_name_of(name: Seq<char>) -> Seq<char> {
    if has_text(name, ":2,"@) {
        name
    } else {
        name + ":2,S"@
    }
}

/// Finds the file name that a message gets in the directory of read mail, if it
/// has to go there: where its directory is that of new mail.
pub fn set_seen(subdir: &str, name: &str) -> (r: Option<String>)
    ensures
        crate::text::opt_text(r) == (if subdir@ == "new"@ {
            Some(seen_name_of(name@))
        } else {
            None
        }),
{
    if !same(subdir, "new") {
        return None;
    }
    let mut out = name.to_owned();
    if !contains(name, ":2,") {
        out.append(":2,S");
    }
    Some(out)
}

/// The order of characters.
pub open spec fn char_leq() -> spec_fn(char, char) -> bool {
    |a: char, b: char| a <= b
}

/// The kind of characters other than one.
pub open spec fn other_than(flag: char) -> spec_fn(char) -> bool {
    |c: char| c != flag
}

/// Flags with one set or cleared.
pub open spec fn changed_flags(flags: Seq<char>, flag: char, enabled: bool) -> Seq<char> {
    if enabled {
        if flags.contains(flag) {
            flags
        } else {
            flags.push(flag)
        }
    } else {
        flags.filter(other_than(flag))
    }
}

/// A file name with a flag set or cleared; the flags are in order.
pub open spec fn flagged_name(name: Seq<char>, flag: char, enabled: bool) -> Seq<char> {
    base_of(name) + ":2,"@ + changed_flags(flags_of(name), flag, enabled).sort_by(char_leq())
}

pub proof fn lemma_char_order()
    ensures
        total_ordering(char_leq()),
{
    let leq = char_leq();
    assert(vstd::relations::reflexive(leq));
    assert(vstd::relations::antisymmetric(leq)) by {
        assert forall|x: char, y: char| #[trigger] leq(x, y) && #[trigger] leq(y, x) implies x == y by {
            assert(x as u32 == y as u32);
        }
    }
    assert(vstd::relations::transitive(leq));
    assert(vstd::relations::strongly_connected(leq));
}

/// Puts characters in order.
fn sort_chars(v: &Vec<char>) -> (r: Vec<char>)
    ensures
        r@ == v@.sort_by(char_leq()),
{
    let ghost leq = char_leq();
    let mut out: Vec<char> = Vec::new();
    let mut i: usize = 0;
    proof {
        assert(v@.take(0) =~= Seq::empty());
        assert(out@ =~= Seq::empty());
    }
    while i < v.len()
        invariant
            i <= v@.len(),
            leq == char_leq(),
            out@.len() == i,
            sorted_by(out@, leq),
            out@.to_multiset() == v@.take(i as int).to_multiset(),
        decreases v@.len() - i,
    {
        let c = v[i];
        let ghost out0 = out@;
        let mut p: usize = out.len();
        while p > 0 && c < out[p - 1]
            invariant
                p <= out@.len(),
                out@ == out0,
                leq == char_leq(),
                sorted_by(out0, leq),
                forall|j: int| p <= j < out0.len() ==> c < #[trigger] out0[j],
            decreases p,
        {
            p -= 1;
        }
        out.insert(p, c);
        proof {
            assert(v@.take(i + 1) =~= v@.take(i as int).push(c));
            v@.take(i as int).to_multiset_ensures();
            vstd::seq_lib::to_multiset_insert(out0, p as int, c);
            assert forall|a: int, b: int| 0 <= a < b < out@.len() implies #[trigger] leq(out@[a], out@[b]) by {
                let a0 = if a < p { a } else { a - 1 };
                let b0 = if b < p { b } else { b - 1 };
                if a != p && b != p {
                    assert(leq(out0[a0], out0[b0]));
                } else if b == p && a < p - 1 {
                    assert(leq(out0[a], out0[p - 1]));
                }
            }
        }
        i += 1;
    }
    proof {
        assert(v@.take(v@.len() as int) =~= v@);
        lemma_char_order();
        v@.lemma_sort_by_ensures(leq);
        vstd::seq_lib::lemma_sorted_unique(out@, v@.sort_by(leq), leq);
    }
    out
}

fn without_char(v: &Vec<char>, flag: char) -> (r: Vec<char>)
    ensures
        r@ == v@.filter(other_than(flag)),
{
    let ghost all = v@;
    let ghost kind = other_than(flag);
    let mut out: Vec<char> = Vec::new();
    let mut i: usize = 0;
    proof {
        reveal(Seq::filter);
        assert(out@ =~= all.take(0).filter(kind));
    }
    while i < v.len()
        invariant
            i <= v@.len(),
            all == v@,
            kind == other_than(flag),
            out@ == all.take(i as int).filter(kind),
        decreases v@.len() - i,
    {
        proof {
            reveal(Seq::filter);
            assert(all.take(i + 1).drop_last() =~= all.take(i as int));
            assert(all.take(i + 1).last() == v@[i as int]);
        }
        if v[i] != flag {
            out.push(v[i]);
        }
        i += 1;
    }
    proof {
        assert(all.take(all.len() as int) =~= all);
    }
    out
}

/// Finds the file name of a message with a flag set or cleared.
pub fn update_flag(name: &str, flag: char, enabled: bool) -> (r: String)
    ensures
        r@ == flagged_name(name@, flag, enabled),
{
    let (base, held) = match split_once_at(name, ":2,") {
        Some(parts) => parts,
        None => (name.to_owned(), String::new()),
    };
    let mut chars = chars_of(held.as_str());
    if enabled {
        if !is_among(flag, &chars) {
            chars.push(flag);
        }
    } else {
        chars = without_char(&chars, flag);
    }
    let sorted = sort_chars(&chars);
    let mut out = base;
    out.append(":2,");
    out.append(text_from(&sorted).as_str());
    out
}

/// The file names that a message can get in a folder, tried one after another.
pub open spec fn candidate_of(name: Seq<char>, suffix: u64) -> Seq<char> {
    if suffix == 0 {
        name
    } else {
        name + "."@ + decimal(suffix as nat)
    }
}

/// One of the file names that a message can get in a folder.
pub fn candidate_name(name: &str, suffix: u64) -> (r: String)
    ensures
        r@ == candidate_of(name@, suffix),
{
    let mut out = name.to_owned();
    if suffix > 0 {
        out.append(".");
        out.append(decimal_of(suffix).as_str());
    }
    out
}

/// How the search for a free file name goes on.
#[derive(Clone, Copy, Debug, PartialEq, Eq, Structural)]
pub enum NameSearch {
    /// The candidate with this suffix is used.
    Use(u64),
    /// The candidate with this suffix is tried.
    Try(u64),
}

/// How the search for a free file name goes on from a candidate, given whether
/// its name is taken.
pub open spec fn search_after(suffix: nat, taken: bool) -> (bool, nat) {
    if taken {
        (false, suffix + 1)
    } else {
        (true, suffix)
    }
}

/// Whether the search is over, and the suffix it stands at.
pub open spec fn search_state(s: NameSearch) -> (bool, nat) {
    match s {
        NameSearch::Use(n) => (true, n as nat),
        NameSearch::Try(n) => (false, n as nat),
    }
}

/// Goes on with the search for a free file name from a candidate, given whether
/// its name is taken.
pub fn next_candidate(suffix: u64, taken: bool) -> (r: NameSearch)
    requires
        taken ==> suffix < u64::MAX,
    ensures
        search_state(r) == search_after(suffix as nat, taken),
{
    if taken {
        NameSearch::Try(suffix + 1)
    } else {
        NameSearch::Use(suffix)
    }
}

/// The suffix that a search from some suffix on ends at, if it ends, given which
/// of the first names are taken.
pub open spec fn found_suffix(taken: Seq<bool>, suffix: nat) -> Option<nat>
    decreases taken.len() - suffix,
{
    if suffix >= taken.len() {
        None
    } else {
        match search_after(suffix, taken[suffix as int]) {
            (true, n) => Some(n),
            (false, n) => if n > suffix {
                found_suffix(taken, n)
            } else {
                None
            },
        }
    }
}

/// The directory and file name under which a message is saved.
pub open spec fn saved_of(at: u64, pid: u32, seen: bool) -> (Seq<char>, Seq<char>) {
    (
        if seen {
            "cur"@
        } else {
            "new"@
        },
        decimal(at as nat) + "."@ + decimal(pid as nat) + ".rust"@ + (if seen {
            ":2,S"@
        } else {
            ""@
        }),
    )
}

/// Finds the directory and file name under which a message is saved.
pub fn save_to_folder(at: u64, pid: u32, seen: bool) -> (r: (String, String))
    ensures
        (r.0@, r.1@) == saved_of(at, pid, seen),
{
    let mut name = decimal_of(at);
    name.append(".");
    name.append(decimal_of(pid as u64).as_str());
    name.append(".rust");
    if seen {
        name.append(":2,S");
        ("cur".to_owned(), name)
    } else {
        name.append("");
        ("new".to_owned(), name)
    }
}

/// Whether a file of a folder is hidden, so that it is no message.
pub fn is_hidden(name: &str) -> (r: bool)
    ensures
        r == "."@.is_prefix_of(name@),
{
    crate::text::starts_with(name, ".")
}

} // verus!
