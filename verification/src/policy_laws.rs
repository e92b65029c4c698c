//! What a request changes in the policy against spam, what its lists hold, and
//! what is recorded of scans.
use crate::antispam::{
    all_moved, all_scanned, configured, is_new_sender, list_fields, scan_row, scanned_state, spam_summary_of,
    targets_of, total_spam, with_blocked, MailboxScan, SpamCount,
};
use crate::json::{filled, text_array, with_event, Number, Tree};
use crate::order::{ascending, before, lemma_ascending_unique};
use crate::score::policy_texts;
use crate::spam::{
    count, entries, entries_of, in_order, list_of, listed, listed_first, policy_default, policy_of,
};
use crate::state::{AUDIT_KEPT, EVENTS_KEPT};
use crate::text::{
    among, decimal, lemma_pieces_join, lemma_pieces_whole, lowered, pieces, stripped_start, trimmed,
};
use crate::users::UserTree;
use vstd::prelude::*;

verus! {

// ---------------------------------------------------------------------------
// Requests
// ---------------------------------------------------------------------------

proof fn lemma_fields()
    ensures
        "enabled"@.len() == 7 && "enabled"@[0] == 'e',
        "autoMove"@.len() == 8 && "autoMove"@[0] == 'a',
        "threshold"@.len() == 9 && "threshold"@[0] == 't',
        "maxLinks"@.len() == 8 && "maxLinks"@[0] == 'm',
        "blocklist"@.len() == 9 && "blocklist"@[0] == 'b',
        "allowlist"@.len() == 9 && "allowlist"@[0] == 'a',
        "domainBlocklist"@.len() == 15 && "domainBlocklist"@[0] == 'd',
        "subjectKeywords"@.len() == 15 && "subjectKeywords"@[0] == 's',
        "attachmentExtensions"@.len() == 20,
        "stats"@.len() == 5,
        forall|f: Seq<char>| #[trigger]
            list_fields().contains(f) <==> f == "blocklist"@ || f == "allowlist"@ || f == "domainBlocklist"@ || f
                == "subjectKeywords"@ || f == "attachmentExtensions"@,
{
    reveal_strlit("enabled");
    reveal_strlit("autoMove");
    reveal_strlit("threshold");
    reveal_strlit("maxLinks");
    reveal_strlit("blocklist");
    reveal_strlit("allowlist");
    reveal_strlit("domainBlocklist");
    reveal_strlit("subjectKeywords");
    reveal_strlit("attachmentExtensions");
    reveal_strlit("stats");
    let l = list_fields();
    assert(l[0] == "blocklist"@ && l[1] == "allowlist"@ && l[2] == "domainBlocklist"@ && l[3]
        == "subjectKeywords"@ && l[4] == "attachmentExtensions"@);
    assert forall|f: Seq<char>| #[trigger] l.contains(f) implies f == "blocklist"@ || f == "allowlist"@ || f
        == "domainBlocklist"@ || f == "subjectKeywords"@ || f == "attachmentExtensions"@ by {
        let k = choose|k: int| 0 <= k < l.len() && l[k] == f;
    }
}

/// A request switches on and off what it names; what it does not name stays.
pub proof fn law_request_switches(policy: Tree, payload: Tree, on: bool)
    requires
        policy is Object,
    ensures
        payload.at("enabled"@) == Tree::Bool(on) ==> configured(policy, payload).at("enabled"@) == Tree::Bool(on),
        !(payload.at("enabled"@) is Bool) ==> configured(policy, payload).at("enabled"@) == policy.at(
            "enabled"@,
        ),
        payload.at("autoMove"@) == Tree::Bool(on) ==> configured(policy, payload).at("autoMove"@) == Tree::Bool(
            on,
        ),
        !(payload.at("autoMove"@) is Bool) ==> configured(policy, payload).at("autoMove"@) == policy.at(
            "autoMove"@,
        ),
{
    lemma_fields();
}

/// A request sets the numbers that it names, or the nearest ones that are
/// allowed; a number that it does not name stays.
pub proof fn law_request_sets_numbers(policy: Tree, payload: Tree, n: i64)
    requires
        policy is Object,
    ensures
        payload.at("threshold"@).signed() == Some(n) ==> configured(policy, payload).at("threshold"@) == count(
            if n < 1 {
                1
            } else if n > 20 {
                20
            } else {
                n as u64
            },
        ),
        payload.at("threshold"@).signed() is None ==> configured(policy, payload).at("threshold"@) == policy.at(
            "threshold"@,
        ),
        payload.at("maxLinks"@).signed() == Some(n) ==> configured(policy, payload).at("maxLinks"@) == count(
            if n < 0 {
                0
            } else if n > 100 {
                100
            } else {
                n as u64
            },
        ),
        payload.at("maxLinks"@).signed() is None ==> configured(policy, payload).at("maxLinks"@) == policy.at(
            "maxLinks"@,
        ),
{
    lemma_fields();
}

/// The ascending list of a set is the only one.
proof fn lemma_list_of(s: Set<Seq<char>>, list: Seq<Seq<char>>)
    requires
        ascending(list),
        list.to_set() == s,
    ensures
        in_order(s) == list,
{
    lemma_ascending_unique(in_order(s), list);
}

/// A request changes the list that it names: it replaces the entries, takes
/// entries away, or else adds entries. The list is then in ascending order,
/// with the first two hundred entries.
pub proof fn law_request_changes_the_list_it_names(
    policy: Tree,
    payload: Tree,
    field: Seq<char>,
    list: Seq<Seq<char>>,
)
    requires
        policy is Object,
        field == "blocklist"@ || field == "allowlist"@ || field == "domainBlocklist"@ || field
            == "subjectKeywords"@ || field == "attachmentExtensions"@,
        payload.at("field"@) == Tree::Text(field),
        ascending(list),
        ({
            let domains = field == "domainBlocklist"@;
            let held = listed(policy.at(field), domains);
            let named = listed(
                match payload.get("values"@) {
                    Some(v) => v,
                    None => payload.at("value"@),
                },
                domains,
            );
            list.to_set() == (if payload.at("mode"@) == Tree::Text("set"@) {
                named
            } else if payload.at("mode"@) == Tree::Text("remove"@) {
                held.difference(named)
            } else {
                held.union(named)
            })
        }),
    ensures
        list.len() <= 200 ==> policy_texts(configured(policy, payload), field) == list,
        list.len() > 200 ==> policy_texts(configured(policy, payload), field) == list.take(200),
{
    lemma_fields();
    reveal_strlit("set");
    reveal_strlit("remove");
    reveal_strlit("add");
    assert("set"@.len() == 3 && "set"@[0] == 's' && "add"@.len() == 3 && "add"@[0] == 'a' && "remove"@.len() == 6);
    lemma_list_of(list.to_set(), list);
    let shown = list_of(list.to_set());
    crate::json::lemma_text_items(shown);
    assert(list_fields().contains(field));
    let now = configured(policy, payload);
    assert(now.at(field) == text_array(shown));
}

/// Nothing of a policy changes but what a request names.
pub proof fn law_request_changes_nothing_else(policy: Tree, payload: Tree, key: Seq<char>)
    requires
        policy is Object,
        payload.at("field"@) != Tree::Text(key),
        key != "enabled"@,
        key != "autoMove"@,
        key != "threshold"@,
        key != "maxLinks"@,
    ensures
        configured(policy, payload).get(key) == policy.get(key),
{
    lemma_fields();
}

// ---------------------------------------------------------------------------
// Lists
// ---------------------------------------------------------------------------

proof fn lemma_entries_add(a: Seq<Seq<char>>, b: Seq<Seq<char>>, domain: bool)
    ensures
        entries_of(a + b, domain) == entries_of(a, domain) + entries_of(b, domain),
    decreases b.len(),
{
    if b.len() == 0 {
        assert(a + b =~= a);
        assert(entries_of(a, domain) + entries_of(b, domain) =~= entries_of(a, domain));
    } else {
        assert((a + b).drop_last() =~= a + b.drop_last());
        lemma_entries_add(a, b.drop_last(), domain);
        assert(entries_of(a + b, domain) =~= entries_of(a, domain) + entries_of(b, domain));
    }
}

/// The entries of a list stand between line feeds, commas and semicolons. Each
/// is taken in lower case and without white space around it, a domain also
/// without the at signs before it; blank ones are left out.
pub proof fn law_lists_are_read_entry_by_entry(a: Seq<char>, mark: char, b: Seq<char>, domain: bool)
    ensures
        mark == '\n' || mark == ',' || mark == ';' ==> entries(a.push(mark) + b, domain) == entries(a, domain)
            + entries(b, domain),
        !a.contains('\n') && !a.contains(',') && !a.contains(';') ==> entries(a, domain) == (if lowered(
            trimmed(a),
        ).len() == 0 {
            Seq::<Seq<char>>::empty()
        } else if domain {
            seq![stripped_start(lowered(trimmed(a)), '@')]
        } else {
            seq![lowered(trimmed(a))]
        }),
{
    let marks = seq!['\n', ',', ';'];
    let kind = among(marks);
    assert(marks[0] == '\n' && marks[1] == ',' && marks[2] == ';');
    if mark == '\n' || mark == ',' || mark == ';' {
        assert(kind(mark));
        lemma_pieces_join(a, mark, b, kind);
        lemma_entries_add(pieces(a, kind), pieces(b, kind), domain);
    }
    if !a.contains('\n') && !a.contains(',') && !a.contains(';') {
        assert forall|i: int| 0 <= i < a.len() implies !kind(#[trigger] a[i]) by {
            assert(a.contains(a[i]));
        }
        lemma_pieces_whole(a, kind);
        let one = seq![a];
        assert(one.drop_last() =~= Seq::<Seq<char>>::empty());
        assert(entries_of(one.drop_last(), domain) =~= Seq::<Seq<char>>::empty());
        assert(one.last() == a);
        let value = lowered(trimmed(a));
        assert(Seq::<Seq<char>>::empty().push(value) =~= seq![value]);
        assert(Seq::<Seq<char>>::empty().push(stripped_start(value, '@')) =~= seq![stripped_start(value, '@')]);
    }
}

proof fn lemma_listed_prefix(items: Seq<Tree>, more: Tree, n: nat, domain: bool)
    requires
        n <= items.len(),
    ensures
        listed_first(items.push(more), n, domain) == listed_first(items, n, domain),
    decreases n,
{
    if n > 0 {
        lemma_listed_prefix(items, more, (n - 1) as nat, domain);
        assert(items.push(more)[n - 1] == items[n - 1]);
    }
}

/// A text lists its entries, an array lists those of all of its items, and
/// anything else lists none.
pub proof fn law_values_list_their_entries(s: Seq<char>, items: Seq<Tree>, more: Tree, on: bool, domain: bool)
    ensures
        listed(Tree::Text(s), domain) == entries(s, domain).to_set(),
        listed(Tree::Array(Seq::empty()), domain) == Set::<Seq<char>>::empty(),
        listed(Tree::Array(items.push(more)), domain) == listed(Tree::Array(items), domain).union(
            listed(more, domain),
        ),
        listed(Tree::Null, domain) == Set::<Seq<char>>::empty(),
        listed(Tree::Bool(on), domain) == Set::<Seq<char>>::empty(),
{
    lemma_listed_prefix(items, more, items.len(), domain);
    assert(items.push(more)[items.len() as int] == more);
    assert(items.push(more).len() == items.len() + 1);
    assert(listed_first(items.push(more), items.len() + 1, domain) == listed_first(
        items.push(more),
        items.len(),
        domain,
    ).union(listed(more, domain)));
}

/// A text comes before another if it is smaller at the first character where
/// they differ, or if it ends there.
pub proof fn law_texts_are_ordered_by_their_characters(
    front: Seq<char>,
    a: char,
    x: Seq<char>,
    b: char,
    y: Seq<char>,
)
    ensures
        a < b ==> before(front.push(a) + x, front.push(b) + y),
        a < b ==> !before(front.push(b) + y, front.push(a) + x),
        before(front, front.push(a) + x),
        !before(front.push(a) + x, front),
        !before(front, front),
    decreases front.len(),
{
    let p = front.push(a) + x;
    let q = front.push(b) + y;
    if front.len() > 0 {
        let rest = front.skip(1);
        law_texts_are_ordered_by_their_characters(rest, a, x, b, y);
        assert(p.skip(1) =~= rest.push(a) + x);
        assert(q.skip(1) =~= rest.push(b) + y);
        assert(p[0] == front[0] && q[0] == front[0]);
    } else {
        assert(p[0] == a && q[0] == b);
    }
}

// ---------------------------------------------------------------------------
// The policy of a state
// ---------------------------------------------------------------------------

/// A state without a policy has the one that holds at first: it looks for spam
/// and moves it, from five signs on, and knows words and extensions of spam.
pub proof fn law_first_policy_looks_for_spam(data: Tree)
    requires
        data.get("spamPolicy"@) is None,
    ensures
        ({
            let policy = policy_of(data);
            &&& policy.at("enabled"@) == Tree::Bool(true)
            &&& policy.at("autoMove"@) == Tree::Bool(true)
            &&& policy.at("threshold"@) == count(5)
            &&& policy.at("maxLinks"@) == count(10)
            &&& policy.at("blocklist"@).items().len() == 0
            &&& policy.at("allowlist"@).items().len() == 0
            &&& policy.at("domainBlocklist"@).items().len() == 0
            &&& policy.at("subjectKeywords"@) == text_array(
                seq!["crypto"@, "lottery"@, "winner"@, "urgent payment"@, "gift card"@, "wire transfer"@],
            )
            &&& policy.at("attachmentExtensions"@) == text_array(
                seq!["exe"@, "scr"@, "bat"@, "cmd"@, "js"@, "vbs"@, "ps1"@, "jar"@],
            )
            &&& policy.at("stats"@).at("scanned"@) == count(0)
            &&& policy.at("stats"@).at("moved"@) == count(0)
            &&& policy.at("stats"@).at("lastScan"@) == count(0)
        }),
{
    lemma_fields();
    reveal_strlit("scanned");
    reveal_strlit("moved");
    reveal_strlit("lastScan");
    assert("scanned"@.len() == 7 && "moved"@.len() == 5 && "lastScan"@.len() == 8);
    let d = policy_default();
    assert(policy_of(data) == d) by {
        crate::json::lemma_filled_self(d);
    }
}

/// A state with a policy keeps what the policy says, and has what the policy
/// leaves open from the one that holds at first; the same holds inside the
/// counts of the policy.
pub proof fn law_policy_of_a_state_is_kept(data: Tree, policy: Tree, stats: Tree, key: Seq<char>, value: Tree)
    requires
        data.get("spamPolicy"@) == Some(policy),
        policy is Object,
    ensures
        policy.get(key) == Some(value) && !(value is Object) ==> policy_of(data).at(key) == value,
        policy.get(key) is None ==> policy_of(data).at(key) == policy_default().at(key),
        policy.get("stats"@) == Some(stats) && stats.get(key) == Some(value) && !(value is Object) ==> policy_of(
            data,
        ).at("stats"@).at(key) == value,
        policy.get("stats"@) == Some(stats) && stats is Object && stats.get(key) is None ==> policy_of(data).at(
            "stats"@,
        ).at(key) == policy_default().at("stats"@).at(key),
{
    let d = policy_default();
    crate::json::law_filled_keeps_members(policy, d, key);
    if policy.get("stats"@) == Some(stats) && stats is Object {
        assert(policy_of(data).at("stats"@) == filled(stats, d.at("stats"@)));
        crate::json::law_filled_keeps_members(stats, d.at("stats"@), key);
    }
}

/// Of the events of a state, as many are kept as may be: all of them and the new
/// one, unless there are too many.
pub proof fn law_events_are_kept(data: Tree, key: Seq<char>, at: u64, message: Seq<char>, keep: int)
    requires
        keep > 0,
    ensures
        ({
            let held = data.as_object().at(key).items();
            let rows = with_event(data, key, at, message, keep).at(key).items();
            let event = rows[0];
            &&& held.len() < keep ==> rows.len() == held.len() + 1
            &&& held.len() >= keep ==> rows.len() == keep
            &&& rows.skip(1) == held.take(rows.len() - 1)
            &&& event.at("at"@) == Tree::Number(Number::Unsigned(at))
            &&& event.at("text"@) == Tree::Text(message)
        }),
{
    reveal_strlit("at");
    reveal_strlit("text");
    assert("at"@.len() == 2 && "text"@.len() == 4);
    let held = data.as_object().at(key).items();
    let rows = with_event(data, key, at, message, keep).at(key).items();
    let other = key.push('.');
    assert(other.len() != key.len());
    crate::json::law_event_is_first(data, key, at, message, keep, other);
    assert(rows.skip(1) =~= held.take(rows.len() - 1));
}

/// Forty events of the platform are kept, and a hundred records of actions in
/// webmail.
pub proof fn law_last_events_are_kept(data: Tree, at: u64, message: Seq<char>)
    ensures
        ({
            let events = data.as_object().at("events"@).items();
            let audit = data.as_object().at("audit"@).items();
            let now = with_event(data, "events"@, at, message, EVENTS_KEPT as int).at("events"@).items();
            let records = with_event(data, "audit"@, at, message, AUDIT_KEPT as int).at("audit"@).items();
            &&& events.len() >= 40 ==> now.len() == 40
            &&& events.len() < 40 ==> now.len() == events.len() + 1
            &&& audit.len() >= 100 ==> records.len() == 100
            &&& audit.len() < 100 ==> records.len() == audit.len() + 1
        }),
{
    law_events_are_kept(data, "events"@, at, message, EVENTS_KEPT as int);
    law_events_are_kept(data, "audit"@, at, message, AUDIT_KEPT as int);
}

// ---------------------------------------------------------------------------
// Scans
// ---------------------------------------------------------------------------

/// A scan looks at the mailbox that is named, or at all of them.
pub proof fn law_scan_looks_at_mailboxes(email: Seq<char>, users: Seq<UserTree>, i: int)
    ensures
        targets_of(Some(email), users) == seq![email],
        targets_of(None, users).len() == users.len(),
        0 <= i < users.len() ==> targets_of(None, users)[i] == users[i].email,
{
}

/// What scans looked at, what they moved and what spam folders hold adds up over
/// all mailboxes.
pub proof fn law_scans_of_all_mailboxes_add_up(
    rows: Seq<MailboxScan>,
    row: MailboxScan,
    counts: Seq<SpamCount>,
    c: SpamCount,
)
    ensures
        all_scanned(Seq::empty()) == 0,
        all_moved(Seq::empty()) == 0,
        total_spam(Seq::empty()) == 0,
        all_scanned(rows.push(row)) == all_scanned(rows) + row.scanned,
        all_moved(rows.push(row)) == all_moved(rows) + row.moved,
        total_spam(counts.push(c)) == total_spam(counts) + c.spam,
{
    assert(rows.push(row).drop_last() =~= rows);
    assert(counts.push(c).drop_last() =~= counts);
}

proof fn lemma_summary_keys()
    ensures
        "email"@.len() == 5,
        "scanned"@.len() == 7,
        "moved"@.len() == 5 && "moved"@[0] == 'm' && "email"@[0] == 'e',
        "spam"@.len() == 4,
        "policy"@.len() == 6,
        "mailboxes"@.len() == 9 && "mailboxes"@[0] == 'm',
        "totalSpam"@.len() == 9 && "totalSpam"@[0] == 't',
{
    reveal_strlit("email");
    reveal_strlit("scanned");
    reveal_strlit("moved");
    reveal_strlit("spam");
    reveal_strlit("policy");
    reveal_strlit("mailboxes");
    reveal_strlit("totalSpam");
}

/// The summary holds the policy, what each spam folder holds, and the sum; the
/// report on a scan names each mailbox with what was looked at and moved there.
pub proof fn law_summary_of_spam(data: Tree, counts: Seq<SpamCount>, i: int, row: MailboxScan)
    requires
        0 <= i < counts.len(),
        total_spam(counts) <= u64::MAX,
    ensures
        ({
            let summary = spam_summary_of(data, counts);
            &&& summary.at("policy"@) == policy_of(data)
            &&& summary.at("totalSpam"@).unsigned_or(0) == total_spam(counts)
            &&& summary.at("mailboxes"@).items().len() == counts.len()
            &&& summary.at("mailboxes"@).items()[i].at("email"@) == Tree::Text(counts[i].email@)
            &&& summary.at("mailboxes"@).items()[i].at("spam"@) == count(counts[i].spam)
            &&& scan_row(row).at("email"@) == Tree::Text(row.email@)
            &&& scan_row(row).at("scanned"@) == count(row.scanned)
            &&& scan_row(row).at("moved"@) == count(row.moved)
        }),
{
    lemma_summary_keys();
}

/// The newest event after a scan tells how many messages were moved, of how
/// many.
pub proof fn law_scan_is_told(data: Tree, rows: Seq<MailboxScan>, at: u64)
    ensures
        scanned_state(data, rows, at).at("events"@).items().len() > 0,
        scanned_state(data, rows, at).at("events"@).items()[0].at("text"@) == Tree::Text(
            "Anti-spam scan moved "@ + decimal(all_moved(rows)) + " of "@ + decimal(all_scanned(rows))
                + " message(s)"@,
        ),
        scanned_state(data, rows, at).at("events"@).items()[0].at("at"@) == count(at),
{
    let state = crate::antispam::recorded(data, all_scanned(rows), all_moved(rows), at);
    let text = "Anti-spam scan moved "@ + decimal(all_moved(rows)) + " of "@ + decimal(all_scanned(rows))
        + " message(s)"@;
    law_events_are_kept(state, "events"@, at, text, 40);
}

/// A sender is blocked by putting the address at the end of the list of blocked
/// senders, unless it is there; the newest event tells of it.
pub proof fn law_sender_is_blocked_once(data: Tree, sender: Seq<char>, at: u64)
    requires
        policy_of(data).settable(),
    ensures
        is_new_sender(data, sender) == (sender.len() > 0 && !policy_texts(policy_of(data), "blocklist"@).contains(
            sender,
        )),
        policy_texts(policy_of(with_blocked(data, sender, at)), "blocklist"@) == policy_texts(
            policy_of(data),
            "blocklist"@,
        ).push(sender),
        with_blocked(data, sender, at).at("events"@).items().len() > 0,
        with_blocked(data, sender, at).at("events"@).items()[0].at("text"@) == Tree::Text(
            "Spam sender blocked: "@ + sender,
        ),
{
    let policy = policy_of(data);
    let list = policy_texts(policy, "blocklist"@).push(sender);
    let now = policy.with("blocklist"@, text_array(list));
    reveal_strlit("events");
    reveal_strlit("spamPolicy");
    assert("events"@[0] == 'e' && "spamPolicy"@[0] == 's');
    let state = with_blocked(data, sender, at);
    assert(state.as_object().get("spamPolicy"@) == Some(now));
    crate::json::law_filled_keeps_members(now, policy_default(), "blocklist"@);
    crate::json::lemma_text_items(list);
    let base = crate::spam::with_policy(data).with("spamPolicy"@, now);
    law_events_are_kept(base, "events"@, at, "Spam sender blocked: "@ + sender, 40);
}

} // verus!
