//! Showing messages: summaries, whole messages, attachments, and the state of a
//! folder.
use crate::address::{clean_addr, cleaned};
use crate::json::{text_array, trees, Json, Tree};
use crate::mail::{
    all_parts, attachment_names, body_in, filename, first_body, html_from_message, html_of, message_of,
    name_of, names_in, parse_message, part_by_index, parts_of, walk, MailPart, Message, MessageTree,
};
use crate::maildir::{flags, flags_of, folder_counts, folder_rows, folders_of, id_of, msg_id, FolderCount};
use crate::order::{
    arranged, is_order, keys_of, lemma_order_unique, positions, sorted_by, stable_order, Newest,
};
use crate::outside::{base64_encode, base64_text, PartTree};
use crate::score::{or_empty, reasons_of, score_of, spam_score};
use crate::spam::count;
use crate::text::{
    contains, first_chars, has_char, has_text, join, joined, lowered, opt_text, parse_number,
    parsed_number, same, take_chars, texts, to_lower, words, words_of,
};
use vstd::prelude::*;

verus! {

/// How many characters of the plain text a summary shows.
pub const PREVIEW_LENGTH: usize = 180;

/// The first words of the plain text of a message, with single blanks between.
pub open spec fn preview_of(p: PartTree) -> Seq<char> {
    first_chars(joined(words_of(body_in(walk(p), "text/plain"@)), " "@), PREVIEW_LENGTH as int)
}

/// Whether a message is shown as unread, given its directory and file name.
pub open spec fn is_unread(subdir: Seq<char>, name: Seq<char>) -> bool {
    subdir == "new"@ || !flags_of(name).contains('S')
}

/// Whether a message is shown with a star, given its file name.
pub open spec fn is_starred(name: Seq<char>) -> bool {
    flags_of(name).contains('F')
}

/// The summary of a message.
pub open spec fn summary_of(
    folder: Seq<char>,
    subdir: Seq<char>,
    name: Seq<char>,
    m: MessageTree,
    timestamp: u64,
    policy: Tree,
) -> Tree {
    Tree::object().with("id"@, Tree::Text(id_of(folder, subdir, name))).with("folder"@, Tree::Text(folder)).with(
        "from"@,
        Tree::Text(cleaned(or_empty(m.from))),
    ).with("to"@, Tree::Text(cleaned(or_empty(m.to)))).with(
        "subject"@,
        Tree::Text(
            match m.subject {
                Some(s) => s,
                None => "(no subject)"@,
            },
        ),
    ).with("date"@, Tree::Text(or_empty(m.date))).with("timestamp"@, count(timestamp)).with(
        "preview"@,
        Tree::Text(preview_of(m.root)),
    ).with("unread"@, Tree::Bool(is_unread(subdir, name))).with(
        "flagged"@,
        Tree::Bool(is_starred(name)),
    ).with("attachments"@, text_array(names_in(walk(m.root)))).with(
        "spamScore"@,
        count(score_of(m, policy) as u64),
    ).with("spamReasons"@, text_array(reasons_of(m, policy)))
}

fn text_or(s: &Option<String>, default: &str) -> (r: String)
    ensures
        r@ == (match opt_text(*s) {
            Some(t) => t,
            None => default@,
        }),
{
    match s {
        Some(t) => t.clone(),
        None => default.to_owned(),
    }
}

/// Summarises a message.
pub fn summarize(
    folder: &str,
    subdir: &str,
    name: &str,
    m: &Message,
    timestamp: u64,
    policy: &Json,
) -> (r: Json)
    ensures
        r@ == summary_of(folder@, subdir@, name@, m@, timestamp, policy@),
{
    let held = flags(name);
    let plain = first_body(&m.root, "text/plain");
    let preview = take_chars(join(&words(plain.as_str()), " ").as_str(), PREVIEW_LENGTH);
    let attachments = attachment_names(&m.root);
    let (score, reasons) = spam_score(m, policy);
    proof {
        reveal_strlit("");
        assert(""@ =~= Seq::<char>::empty());
    }
    Json::object()
        .with("id", Json::text(msg_id(folder, subdir, name).as_str()))
        .with("folder", Json::text(folder))
        .with("from", Json::text(clean_addr(text_or(&m.from, "").as_str()).as_str()))
        .with("to", Json::text(clean_addr(text_or(&m.to, "").as_str()).as_str()))
        .with("subject", Json::text(text_or(&m.subject, "(no subject)").as_str()))
        .with("date", Json::text(text_or(&m.date, "").as_str()))
        .with("timestamp", Json::unsigned(timestamp))
        .with("preview", Json::text(preview.as_str()))
        .with("unread", Json::Bool(same(subdir, "new") || !has_char(held.as_str(), 'S')))
        .with("flagged", Json::Bool(has_char(held.as_str(), 'F')))
        .with("attachments", Json::texts(&attachments))
        .with("spamScore", Json::unsigned(score))
        .with("spamReasons", Json::texts(&reasons))
}

/// The summary of the message that bytes spell, or why there is none.
pub open spec fn summary_read(
    folder: Seq<char>,
    subdir: Seq<char>,
    name: Seq<char>,
    raw: Seq<u8>,
    timestamp: u64,
    policy: Tree,
) -> Result<Tree, Seq<char>> {
    match message_of(raw) {
        Err(e) => Err("parse message: "@ + e),
        Ok(m) => Ok(summary_of(folder, subdir, name, m, timestamp, policy)),
    }
}

/// Why bytes could not be read as a message.
fn parse_failure(e: &str) -> (r: String)
    ensures
        r@ == "parse message: "@ + e@,
{
    let mut out = "parse message: ".to_owned();
    out.append(e);
    out
}

/// Summarises the message that bytes spell.
pub fn message_summary(
    folder: &str,
    subdir: &str,
    name: &str,
    raw: &[u8],
    timestamp: u64,
    policy: &Json,
) -> (r: Result<Json, String>)
    ensures
        match r {
            Ok(j) => summary_read(folder@, subdir@, name@, raw@, timestamp, policy@) == Ok::<Tree, Seq<char>>(
                j@,
            ),
            Err(e) => summary_read(folder@, subdir@, name@, raw@, timestamp, policy@) == Err::<
                Tree,
                Seq<char>,
            >(e@),
        },
{
    match parse_message(raw) {
        Err(e) => Err(parse_failure(e.as_str())),
        Ok(m) => Ok(summarize(folder, subdir, name, &m, timestamp, policy)),
    }
}

// ---------------------------------------------------------------------------
// Whole messages
// ---------------------------------------------------------------------------

/// The row that shows an attachment, given its place in the walk through all
/// parts.
pub open spec fn attachment_row(index: int, name: Seq<char>, p: PartTree) -> Tree {
    Tree::object().with("index"@, count(index as u64)).with("filename"@, Tree::Text(name)).with(
        "contentType"@,
        Tree::Text(p.mimetype),
    ).with(
        "size"@,
        count(
            match p.raw {
                Ok(b) => b.len() as u64,
                Err(_) => 0,
            },
        ),
    )
}

/// The rows that show the attached parts of a walk.
pub open spec fn attachment_rows(parts: Seq<PartTree>) -> Seq<Tree>
    decreases parts.len(),
{
    if parts.len() == 0 {
        Seq::empty()
    } else {
        let before = attachment_rows(parts.drop_last());
        match name_of(parts.last()) {
            Some(n) => before.push(attachment_row(parts.len() - 1, n, parts.last())),
            None => before,
        }
    }
}

/// Shows the attachments of a message.
pub fn attachments_meta(part: &MailPart) -> (r: Vec<Json>)
    ensures
        trees(r@) == attachment_rows(walk(part@)),
{
    let parts = all_parts(part);
    let ghost all = walk(part@);
    let mut rows: Vec<Json> = Vec::new();
    let mut i: usize = 0;
    proof {
        assert(trees(rows@) =~= attachment_rows(all.take(0)));
    }
    while i < parts.len()
        invariant
            i <= parts@.len(),
            all == parts_of(parts@),
            trees(rows@) == attachment_rows(all.take(i as int)),
        decreases parts@.len() - i,
    {
        let ghost rows0 = rows@;
        let p = parts[i];
        proof {
            assert(all.take(i + 1).drop_last() =~= all.take(i as int));
            assert(all.take(i + 1).last() == p@);
        }
        if let Some(name) = filename(p) {
            let size: u64 = match &p.raw {
                Ok(b) => b.len() as u64,
                Err(_) => 0,
            };
            let row = Json::object()
                .with("index", Json::unsigned(i as u64))
                .with("filename", Json::text(name.as_str()))
                .with("contentType", Json::text(p.mimetype.as_str()))
                .with("size", Json::unsigned(size));
            rows.push(row);
            proof {
                assert(trees(rows@) =~= trees(rows0).push(attachment_row(i as int, name@, p@)));
            }
        }
        i += 1;
    }
    proof {
        assert(all.take(all.len() as int) =~= all);
    }
    rows
}

/// The answer that shows a whole message.
pub open spec fn shown_of(summary: Tree, p: PartTree) -> Tree {
    Tree::object().with("ok"@, Tree::Bool(true)).with(
        "message"@,
        summary.with("bodyText"@, Tree::Text(body_in(walk(p), "text/plain"@))).with(
            "bodyHtml"@,
            Tree::Text(html_of(p)),
        ).with("attachments"@, Tree::Array(attachment_rows(walk(p)))),
    )
}

/// Shows a whole message.
pub fn show_message(
    folder: &str,
    subdir: &str,
    name: &str,
    m: &Message,
    timestamp: u64,
    policy: &Json,
) -> (r: Json)
    ensures
        r@ == shown_of(summary_of(folder@, subdir@, name@, m@, timestamp, policy@), m@.root),
{
    let rows = attachments_meta(&m.root);
    let message = summarize(folder, subdir, name, m, timestamp, policy)
        .with("bodyText", Json::text(first_body(&m.root, "text/plain").as_str()))
        .with("bodyHtml", Json::text(html_from_message(&m.root).as_str()))
        .with("attachments", Json::array(rows));
    Json::object().with("ok", Json::Bool(true)).with("message", message)
}

/// Shows the message that bytes spell.
pub fn webmail_read(
    folder: &str,
    subdir: &str,
    name: &str,
    raw: &[u8],
    timestamp: u64,
    policy: &Json,
) -> (r: Result<Json, String>)
    ensures
        match r {
            Ok(j) => message_of(raw@) matches Ok(m) && j@ == shown_of(
                summary_of(folder@, subdir@, name@, m, timestamp, policy@),
                m.root,
            ),
            Err(e) => message_of(raw@) matches Err(why) && e@ == "parse message: "@ + why,
        },
{
    match parse_message(raw) {
        Err(e) => Err(parse_failure(e.as_str())),
        Ok(m) => Ok(show_message(folder, subdir, name, &m, timestamp, policy)),
    }
}

/// The answer that holds an attachment, or why there is none.
pub open spec fn attachment_of(p: PartTree, index: Seq<char>) -> Result<Tree, Seq<char>> {
    match parsed_number(index, usize::MAX as nat) {
        None => Err("invalid attachment index"@),
        Some(n) => if n >= walk(p).len() {
            Err("attachment not found"@)
        } else {
            let part = walk(p)[n as int];
            match name_of(part) {
                None => Err("attachment not found"@),
                Some(name) => match part.raw {
                    Err(e) => Err("read attachment: "@ + e),
                    Ok(data) => Ok(
                        Tree::object().with("ok"@, Tree::Bool(true)).with("filename"@, Tree::Text(name)).with(
                            "contentType"@,
                            Tree::Text(part.mimetype),
                        ).with("data"@, Tree::Text(base64_text(data))),
                    ),
                },
            }
        },
    }
}

/// Finds an attachment by its place in the walk through all parts.
pub fn find_attachment(root: &MailPart, index: &str) -> (r: Result<Json, String>)
    ensures
        match r {
            Ok(j) => attachment_of(root@, index@) == Ok::<Tree, Seq<char>>(j@),
            Err(e) => attachment_of(root@, index@) == Err::<Tree, Seq<char>>(e@),
        },
{
    let target: usize = match parse_number(index, usize::MAX as u64) {
        Some(n) => n as usize,
        None => return Err("invalid attachment index".to_owned()),
    };
    match part_by_index(root, target) {
        None => Err("attachment not found".to_owned()),
        Some(part) => match filename(part) {
            None => Err("attachment not found".to_owned()),
            Some(name) => match &part.raw {
                Err(e) => {
                    let mut out = "read attachment: ".to_owned();
                    out.append(e.as_str());
                    Err(out)
                },
                Ok(data) => Ok(
                    Json::object()
                        .with("ok", Json::Bool(true))
                        .with("filename", Json::text(name.as_str()))
                        .with("contentType", Json::text(part.mimetype.as_str()))
                        .with("data", Json::text(base64_encode(data.as_slice()).as_str())),
                ),
            },
        },
    }
}

/// Answers with an attachment of the message that bytes spell.
pub fn webmail_attachment(raw: &[u8], index: &str) -> (r: Result<Json, String>)
    ensures
        match r {
            Ok(j) => message_of(raw@) matches Ok(m) && attachment_of(m.root, index@) == Ok::<Tree, Seq<char>>(
                j@,
            ),
            Err(e) => match message_of(raw@) {
                Ok(m) => attachment_of(m.root, index@) == Err::<Tree, Seq<char>>(e@),
                Err(why) => e@ == "parse message: "@ + why,
            },
        },
{
    match parse_message(raw) {
        Err(e) => Err(parse_failure(e.as_str())),
        Ok(m) => find_attachment(&m.root, index),
    }
}

// ---------------------------------------------------------------------------
// The state of a folder
// ---------------------------------------------------------------------------

/// The most messages that the state of a folder shows.
pub const MESSAGES_MAX: usize = 100;

/// The text of a summary in which a query is looked for.
pub open spec fn haystack(item: Tree) -> Seq<char> {
    lowered(
        item.at("from"@).text_or(""@) + " "@ + item.at("to"@).text_or(""@) + " "@ + item.at(
            "subject"@,
        ).text_or(""@) + " "@ + item.at("preview"@).text_or(""@),
    )
}

/// Whether a summary answers a query: the empty query is answered by all.
pub open spec fn answers_query(item: Tree, query: Seq<char>) -> bool {
    let q = lowered(query);
    q.len() == 0 || has_text(haystack(item), q)
}

/// The kind of summaries that answer a query.
pub open spec fn answering(query: Seq<char>) -> spec_fn(Tree) -> bool {
    |item: Tree| answers_query(item, query)
}

/// The times of summaries.
pub open spec fn times_of(rows: Seq<Tree>) -> Seq<Option<u64>> {
    rows.map_values(|row: Tree| row.at("timestamp"@).unsigned())
}

/// The summaries that the state of a folder shows: those that answer a query,
/// the newest first, as many as there is room for.
pub open spec fn shown_rows(rows: Seq<Tree>, query: Seq<char>) -> Seq<Tree> {
    let found = rows.filter(answering(query));
    let sorted = sorted_by::<Newest, Tree>(found, times_of(found));
    if sorted.len() > MESSAGES_MAX {
        sorted.take(MESSAGES_MAX as int)
    } else {
        sorted
    }
}

/// Whether a summary answers a query that is in lower case.
fn matches_query(item: &Json, query: &str) -> (r: bool)
    ensures
        r == (query@.len() == 0 || has_text(haystack(item@), query@)),
{
    if query.is_empty() {
        return true;
    }
    let mut s = item.text_at("from", "");
    s.append(" ");
    s.append(item.text_at("to", "").as_str());
    s.append(" ");
    s.append(item.text_at("subject", "").as_str());
    s.append(" ");
    s.append(item.text_at("preview", "").as_str());
    contains(to_lower(s.as_str()).as_str(), query)
}

fn found_rows(rows: &Vec<Json>, query: &str) -> (r: Vec<Json>)
    ensures
        trees(r@) == trees(rows@).filter(answering(query@)),
{
    let q = to_lower(query);
    let ghost all = trees(rows@);
    let ghost kind = answering(query@);
    let mut out: Vec<Json> = Vec::new();
    let mut i: usize = 0;
    proof {
        reveal(Seq::filter);
        assert(trees(out@) =~= all.take(0).filter(kind));
    }
    while i < rows.len()
        invariant
            i <= rows@.len(),
            all == trees(rows@),
            kind == answering(query@),
            q@ == lowered(query@),
            trees(out@) == all.take(i as int).filter(kind),
        decreases rows@.len() - i,
    {
        let ghost out0 = out@;
        proof {
            reveal(Seq::filter);
            assert(all.take(i + 1).drop_last() =~= all.take(i as int));
            assert(all.take(i + 1).last() == rows@[i as int]@);
        }
        if matches_query(&rows[i], q.as_str()) {
            out.push(rows[i].copy());
            proof {
                assert(trees(out@) =~= trees(out0).push(rows@[i as int]@));
            }
        }
        i += 1;
    }
    proof {
        assert(all.take(all.len() as int) =~= all);
    }
    out
}

/// Lists the summaries that the state of a folder shows.
pub fn list_messages(rows: &Vec<Json>, query: &str) -> (r: Vec<Json>)
    ensures
        trees(r@) == shown_rows(trees(rows@), query@),
{
    let found = found_rows(rows, query);
    let ghost all = trees(found@);
    let mut keys: Vec<Newest> = Vec::new();
    let mut i: usize = 0;
    while i < found.len()
        invariant
            i <= found@.len(),
            keys@.len() == i,
            forall|j: int| 0 <= j < i ==> (#[trigger] keys@[j])@ == found@[j]@.at("timestamp"@).unsigned(),
        decreases found@.len() - i,
    {
        let time = found[i].copy_at("timestamp");
        keys.push(Newest(time.as_unsigned()));
        i += 1;
    }
    let ghost ks = times_of(all);
    proof {
        assert(keys_of(keys@) =~= ks);
    }
    let order = stable_order(&keys);
    proof {
        lemma_order_unique::<Newest>(ks, positions(order@));
    }
    let mut out: Vec<Json> = Vec::new();
    let mut n: usize = 0;
    while n < order.len()
        invariant
            n <= order@.len(),
            all == trees(found@),
            ks.len() == all.len(),
            is_order::<Newest>(ks, positions(order@)),
            out@.len() == n,
            forall|j: int| 0 <= j < n ==> (#[trigger] out@[j])@ == all[order@[j] as int],
        decreases order@.len() - n,
    {
        proof {
            assert(positions(order@)[n as int] == order@[n as int]);
            assert(all[order@[n as int] as int] == found@[order@[n as int] as int]@);
        }
        out.push(found[order[n]].copy());
        n += 1;
    }
    let ghost sorted = trees(out@);
    proof {
        assert(sorted =~= arranged(all, positions(order@)));
    }
    if out.len() > MESSAGES_MAX {
        out.truncate(MESSAGES_MAX);
        proof {
            assert(trees(out@) =~= sorted.take(MESSAGES_MAX as int));
        }
    }
    out
}

/// How many entries of the audit the state of a folder shows.
pub const AUDIT_SHOWN: usize = 20;

/// The first entries of the audit.
pub open spec fn audit_shown(data: Tree) -> Seq<Tree> {
    let rows = data.at("audit"@).items();
    if rows.len() > AUDIT_SHOWN {
        rows.take(AUDIT_SHOWN as int)
    } else {
        rows
    }
}

/// The state of a folder: its messages, and the settings of webmail.
pub open spec fn folder_state(
    email: Seq<char>,
    folder: Seq<char>,
    query: Seq<char>,
    data: Tree,
    counts: Seq<FolderCount>,
    rows: Seq<Tree>,
) -> Tree {
    Tree::object().with("ok"@, Tree::Bool(true)).with("mailbox"@, Tree::Text(email)).with(
        "folder"@,
        Tree::Text(folder),
    ).with("folders"@, folder_rows(counts)).with("messages"@, Tree::Array(shown_rows(rows, query))).with(
        "contacts"@,
        data.at("contacts"@),
    ).with("signatures"@, data.at("signatures"@)).with("vacation"@, data.at("vacation"@)).with(
        "rules"@,
        data.at("rules"@),
    ).with("preferences"@, data.at("preferences"@)).with("audit"@, Tree::Array(audit_shown(data)))
}

/// Answers with the state of a folder, given the settings of webmail, the
/// counts of all folders and the summaries of all messages of this one.
pub fn webmail_state(
    email: &str,
    folder: &str,
    query: &str,
    data: &Json,
    counts: &Vec<FolderCount>,
    rows: &Vec<Json>,
) -> (r: Json)
    requires
        counts@.len() == folders_of().len(),
    ensures
        r@ == folder_state(email@, folder@, query@, data@, counts@, trees(rows@)),
{
    let messages = list_messages(rows, query);
    let mut audit = data.items_at("audit");
    let ghost whole = trees(audit@);
    if audit.len() > AUDIT_SHOWN {
        audit.truncate(AUDIT_SHOWN);
        proof {
            assert(trees(audit@) =~= whole.take(AUDIT_SHOWN as int));
        }
    }
    Json::object()
        .with("ok", Json::Bool(true))
        .with("mailbox", Json::text(email))
        .with("folder", Json::text(folder))
        .with("folders", folder_counts(counts))
        .with("messages", Json::array(messages))
        .with("contacts", data.copy_at("contacts"))
        .with("signatures", data.copy_at("signatures"))
        .with("vacation", data.copy_at("vacation"))
        .with("rules", data.copy_at("rules"))
        .with("preferences", data.copy_at("preferences"))
        .with("audit", Json::array(audit))
}

} // verus!
