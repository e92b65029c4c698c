//! What the state of a folder shows, how messages are read, and what actions do
//! to the file of a message.
use crate::config::Config;
use crate::json::Tree;
use crate::limit::times_of;
use crate::mail::{message_of, name_of, MailPart, Message, MessageTree};
use crate::maildir::{flagged_name, folder_rows, seen_name_of, FolderCount};
use crate::messages::{
    answers_query, attachment_row, attachment_rows, folder_state, shown_rows, summary_of, summary_read,
};
use crate::oidc::{finish_of, finished_with, login_url_of, sessions_after, starts_login, TokenOutcome};
use crate::outside::{hex_text, mail_header, mail_tree, PartTree};
use crate::reply::ReplyTree;
use crate::spam::count;
use crate::text::opt_text;
use crate::webmail::{place_after, ActionTree};
use vstd::prelude::*;

verus! {

/// A message is read from its headers of these names and from its parts; bytes
/// that are no message cannot be read or summarised.
pub proof fn law_message_is_read_from_its_headers(
    raw: Seq<u8>,
    folder: Seq<char>,
    subdir: Seq<char>,
    name: Seq<char>,
    timestamp: u64,
    policy: Tree,
)
    ensures
        match mail_tree(raw) {
            Ok(root) => {
                &&& message_of(raw) matches Ok(m)
                &&& m.root == root
                &&& m.from == mail_header(raw, "From"@)
                &&& m.to == mail_header(raw, "To"@)
                &&& m.subject == mail_header(raw, "Subject"@)
                &&& m.date == mail_header(raw, "Date"@)
                &&& m.authentication == mail_header(raw, "Authentication-Results"@)
                &&& summary_read(folder, subdir, name, raw, timestamp, policy) == Ok::<Tree, Seq<char>>(
                    summary_of(folder, subdir, name, m, timestamp, policy),
                )
            },
            Err(e) => {
                &&& message_of(raw) == Err::<MessageTree, Seq<char>>(e)
                &&& summary_read(folder, subdir, name, raw, timestamp, policy) == Err::<Tree, Seq<char>>(
                    "parse message: "@ + e,
                )
            },
        },
{
}

/// What is said of a message and of its parts is what their fields hold.
pub proof fn law_parts_are_what_they_hold(m: Message, p: MailPart, i: int)
    ensures
        m@.from == opt_text(m.from),
        m@.to == opt_text(m.to),
        m@.subject == opt_text(m.subject),
        m@.date == opt_text(m.date),
        m@.authentication == opt_text(m.authentication),
        m@.root == m.root@,
        p@.mimetype == p.mimetype@,
        p@.disposition_name == opt_text(p.disposition_name),
        p@.content_name == opt_text(p.content_name),
        p@.body == p.body@,
        p.raw matches Ok(b) ==> p@.raw == Ok::<Seq<u8>, Seq<char>>(b@),
        p.raw matches Err(e) ==> p@.raw == Err::<Seq<u8>, Seq<char>>(e@),
        p@.subparts.len() == p.subparts@.len(),
        0 <= i < p.subparts@.len() ==> p@.subparts[i] == p.subparts@[i]@,
{
}

/// The rows of attachments are those of all parts with a name, in the order of
/// the walk; a part whose data cannot be decoded is shown with no size.
pub proof fn law_attachments_are_listed_in_order(parts: Seq<PartTree>, more: PartTree, name: Seq<char>)
    ensures
        attachment_rows(Seq::empty()) == Seq::<Tree>::empty(),
        name_of(more) is None ==> attachment_rows(parts.push(more)) == attachment_rows(parts),
        name_of(more) == Some(name) ==> attachment_rows(parts.push(more)) == attachment_rows(parts).push(
            attachment_row(parts.len() as int, name, more),
        ),
        more.raw is Err ==> attachment_row(parts.len() as int, name, more).at("size"@) == count(0),
{
    assert(parts.push(more).drop_last() =~= parts);
    reveal_strlit("size");
}

proof fn lemma_state_keys()
    ensures
        "ok"@.len() == 2,
        "mailbox"@.len() == 7,
        "folder"@.len() == 6,
        "folders"@.len() == 7 && "folders"@[0] == 'f' && "mailbox"@[0] == 'm',
        "messages"@.len() == 8 && "messages"@[0] == 'm',
        "contacts"@.len() == 8 && "contacts"@[0] == 'c',
        "signatures"@.len() == 10,
        "vacation"@.len() == 8 && "vacation"@[0] == 'v',
        "rules"@.len() == 5 && "rules"@[0] == 'r',
        "preferences"@.len() == 11,
        "audit"@.len() == 5 && "audit"@[0] == 'a',
{
    reveal_strlit("ok");
    reveal_strlit("mailbox");
    reveal_strlit("folder");
    reveal_strlit("folders");
    reveal_strlit("messages");
    reveal_strlit("contacts");
    reveal_strlit("signatures");
    reveal_strlit("vacation");
    reveal_strlit("rules");
    reveal_strlit("preferences");
    reveal_strlit("audit");
}

/// The state of a folder shows the mailbox and the folder that were asked for,
/// the counts of all folders, the messages that answer the query, the settings
/// of webmail, and the last twenty records of actions.
pub proof fn law_folder_state_shows_what_was_asked_for(
    email: Seq<char>,
    folder: Seq<char>,
    query: Seq<char>,
    data: Tree,
    counts: Seq<FolderCount>,
    rows: Seq<Tree>,
)
    ensures
        ({
            let state = folder_state(email, folder, query, data, counts, rows);
            let audit = data.at("audit"@).items();
            &&& state.at("ok"@) == Tree::Bool(true)
            &&& state.at("mailbox"@) == Tree::Text(email)
            &&& state.at("folder"@) == Tree::Text(folder)
            &&& state.at("folders"@) == folder_rows(counts)
            &&& state.at("messages"@) == Tree::Array(shown_rows(rows, query))
            &&& state.at("contacts"@) == data.at("contacts"@)
            &&& state.at("signatures"@) == data.at("signatures"@)
            &&& state.at("vacation"@) == data.at("vacation"@)
            &&& state.at("rules"@) == data.at("rules"@)
            &&& state.at("preferences"@) == data.at("preferences"@)
            &&& audit.len() <= 20 ==> state.at("audit"@) == Tree::Array(audit)
            &&& audit.len() > 20 ==> state.at("audit"@) == Tree::Array(audit.take(20))
        }),
{
    lemma_state_keys();
}

/// Of the messages that answer the query, a hundred are shown, or all where
/// there are fewer.
pub proof fn law_hundred_messages_are_shown(rows: Seq<Tree>, query: Seq<char>)
    ensures
        ({
            let found = rows.filter(|item: Tree| answers_query(item, query));
            &&& found.len() <= 100 ==> shown_rows(rows, query).len() == found.len()
            &&& found.len() > 100 ==> shown_rows(rows, query).len() == 100
        }),
{
    let kind = |item: Tree| answers_query(item, query);
    assert(crate::messages::answering(query) =~= kind);
    let found = rows.filter(kind);
    let keys = crate::messages::times_of(found);
    crate::order::lemma_order_exists::<crate::order::Newest>(keys);
}

/// A message that is marked as read leaves the directory of new mail, and one
/// that is marked as unread goes there; stars change its name only. Other
/// actions move it to another folder.
pub proof fn law_actions_change_the_file(
    subdir: Seq<char>,
    name: Seq<char>,
    on: bool,
    folder: Seq<char>,
)
    ensures
        place_after(ActionTree::MarkRead, "new"@, name) == Some(("cur"@, seen_name_of(name))),
        subdir != "new"@ ==> place_after(ActionTree::MarkRead, subdir, name) is None,
        place_after(ActionTree::MarkUnread, subdir, name) == Some(("new"@, flagged_name(name, 'S', false))),
        place_after(ActionTree::Star(on), subdir, name) == Some((subdir, flagged_name(name, 'F', on))),
        place_after(ActionTree::MoveTo(folder), subdir, name) is None,
        place_after(ActionTree::Spam, subdir, name) is None,
{
}

/// The requests of each user are counted for themselves.
pub proof fn law_users_are_counted_apart(
    limiter: Map<Seq<char>, Seq<u64>>,
    key: Seq<char>,
    times: Seq<u64>,
    other: Seq<char>,
)
    requires
        other != key,
    ensures
        times_of(limiter.insert(key, times), key) == times,
        times_of(limiter.insert(key, times), other) == times_of(limiter, other),
        times_of(Map::empty(), key) == Seq::<u64>::empty(),
{
}

/// The secrets of a login and of a session are long: sixteen random bytes for
/// the state, thirty-two for the proof key, and thirty-two for the session.
pub proof fn law_secrets_are_long(
    cfg: Config,
    before: Map<Seq<char>, Seq<char>>,
    now: Map<Seq<char>, Seq<char>>,
    url: Seq<char>,
    state: Seq<u8>,
    verifier: Seq<u8>,
    outcome: TokenOutcome,
    reply: ReplyTree,
    id: Seq<u8>,
)
    ensures
        starts_login(cfg, before, now, url, state, verifier) ==> state.len() == 16 && verifier.len() == 32 && url
            == login_url_of(cfg, hex_text(state), hex_text(verifier)) && now == before.insert(
            hex_text(state),
            hex_text(verifier),
        ),
        finished_with(outcome, before, now, reply, id) ==> id.len() == 32 && reply == finish_of(
            outcome,
            hex_text(id),
        ) && now == sessions_after(outcome, hex_text(id), before),
{
}

} // verus!
