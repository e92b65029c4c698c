//! Changing the anti-spam policy of a state, and recording scans in it.
use crate::address::{email_in, normalized_email};
use crate::json::{prepend_event, text_array, trees, with_event, Json, Tree};
use crate::mail::{message_of, parse_message};
use crate::score::{moved_in, or_empty, policy_texts, scan_totals, scanned_in, Scan};
use crate::spam::{count, policy_of, spam_policy, update_policy_list, with_list, with_policy};
use crate::state::EVENTS_KEPT;
use crate::text::{decimal, decimal_of, holds, opt_text, same, texts};
use crate::users::{user_trees, MailUser, UserTree};
use vstd::prelude::*;

verus! {

/// How many messages the spam folder of a mailbox holds.
#[derive(Debug, PartialEq, Eq)]
pub struct SpamCount {
    pub email: String,
    pub spam: u64,
}

/// The messages in all spam folders.
pub open spec fn total_spam(counts: Seq<SpamCount>) -> nat
    decreases counts.len(),
{
    if counts.len() == 0 {
        0
    } else {
        total_spam(counts.drop_last()) + counts.last().spam as nat
    }
}

/// The row of a mailbox in the summary.
pub open spec fn spam_row(c: SpamCount) -> Tree {
    Tree::object().with("email"@, Tree::Text(c.email@)).with("spam"@, count(c.spam))
}

/// The summary of the policy and of what the spam folders hold.
pub open spec fn spam_summary_of(data: Tree, counts: Seq<SpamCount>) -> Tree {
    Tree::object().with("policy"@, policy_of(data)).with(
        "mailboxes"@,
        Tree::Array(counts.map_values(|c: SpamCount| spam_row(c))),
    ).with("totalSpam"@, count(total_spam(counts) as u64))
}

/// Adds up the messages in all spam folders, if the sum fits.
pub fn spam_total(counts: &Vec<SpamCount>) -> (r: Option<u64>)
    ensures
        match r {
            Some(n) => n == total_spam(counts@),
            None => total_spam(counts@) > u64::MAX,
        },
{
    let ghost all = counts@;
    let mut total: u64 = 0;
    let mut i: usize = 0;
    while i < counts.len()
        invariant
            i <= counts@.len(),
            all == counts@,
            total == total_spam(all.take(i as int)),
        decreases counts@.len() - i,
    {
        proof {
            assert(all.take(i + 1).drop_last() =~= all.take(i as int));
            assert(all.take(i + 1).last() == counts@[i as int]);
        }
        if total > u64::MAX - counts[i].spam {
            proof {
                lemma_total_grows(all, i + 1);
            }
            return None;
        }
        total += counts[i].spam;
        i += 1;
    }
    proof {
        assert(all.take(all.len() as int) =~= all);
    }
    Some(total)
}

proof fn lemma_total_grows(counts: Seq<SpamCount>, n: int)
    requires
        0 <= n <= counts.len(),
    ensures
        total_spam(counts.take(n)) <= total_spam(counts),
    decreases counts.len() - n,
{
    if n < counts.len() {
        assert(counts.take(n + 1).drop_last() =~= counts.take(n));
        lemma_total_grows(counts, n + 1);
    } else {
        assert(counts.take(n) =~= counts);
    }
}

/// Summarises the policy of a state and what the spam folders hold, and fills
/// in what the policy leaves open.
pub fn spam_summary(data: &mut Json, counts: &Vec<SpamCount>) -> (r: Json)
    requires
        total_spam(counts@) <= u64::MAX,
    ensures
        r@ == spam_summary_of(old(data)@, counts@),
        final(data)@ == with_policy(old(data)@),
{
    let policy = spam_policy(data);
    let mut rows: Vec<Json> = Vec::new();
    let mut i: usize = 0;
    while i < counts.len()
        invariant
            i <= counts@.len(),
            rows@.len() == i,
            forall|j: int| 0 <= j < i ==> (#[trigger] rows@[j])@ == spam_row(counts@[j]),
        decreases counts@.len() - i,
    {
        let row = Json::object()
            .with("email", Json::text(counts[i].email.as_str()))
            .with("spam", Json::unsigned(counts[i].spam));
        rows.push(row);
        i += 1;
    }
    proof {
        assert(trees(rows@) =~= counts@.map_values(|c: SpamCount| spam_row(c)));
    }
    let total: u64 = match spam_total(counts) {
        Some(n) => n,
        None => 0,
    };
    Json::object()
        .with("policy", policy)
        .with("mailboxes", Json::array(rows))
        .with("totalSpam", Json::unsigned(total))
}

// ---------------------------------------------------------------------------
// Changing the policy
// ---------------------------------------------------------------------------

/// The lists of a policy that can be changed.
pub open spec fn list_fields() -> Seq<Seq<char>> {
    seq![
        "blocklist"@,
        "allowlist"@,
        "domainBlocklist"@,
        "subjectKeywords"@,
        "attachmentExtensions"@,
    ]
}

fn field_names() -> (r: Vec<String>)
    ensures
        texts(r@) == list_fields(),
{
    let r = vec![
        "blocklist".to_owned(),
        "allowlist".to_owned(),
        "domainBlocklist".to_owned(),
        "subjectKeywords".to_owned(),
        "attachmentExtensions".to_owned(),
    ];
    proof {
        assert(texts(r@) =~= list_fields());
    }
    r
}

/// A number, or the end of a range that it lies beyond.
pub open spec fn clamped(n: i64, low: i64, high: i64) -> i64 {
    if n < low {
        low
    } else if n > high {
        high
    } else {
        n
    }
}

/// A policy after a request to switch something on or off.
pub open spec fn with_switch(policy: Tree, payload: Tree, key: Seq<char>) -> Tree {
    match payload.at(key) {
        Tree::Bool(b) => policy.with(key, Tree::Bool(b)),
        _ => policy,
    }
}

/// A policy after a request to set a number, which is kept in a range.
pub open spec fn with_number(policy: Tree, payload: Tree, key: Seq<char>, low: i64, high: i64) -> Tree {
    match payload.at(key).signed() {
        Some(n) => policy.with(key, count(clamped(n, low, high) as u64)),
        None => policy,
    }
}

/// The entries that a request names.
pub open spec fn request_values(payload: Tree) -> Tree {
    match payload.get("values"@) {
        Some(v) => v,
        None => payload.at("value"@),
    }
}

/// A policy after a request to change a list.
pub open spec fn with_request(policy: Tree, payload: Tree) -> Tree {
    match payload.at("field"@) {
        Tree::Text(f) => if list_fields().contains(f) {
            with_list(policy, f, payload.at("mode"@).text_or("add"@), request_values(payload))
        } else {
            policy
        },
        _ => policy,
    }
}

/// A policy after a request.
pub open spec fn configured(policy: Tree, payload: Tree) -> Tree {
    with_request(
        with_number(
            with_number(
                with_switch(with_switch(policy, payload, "enabled"@), payload, "autoMove"@),
                payload,
                "threshold"@,
                1,
                20,
            ),
            payload,
            "maxLinks"@,
            0,
            100,
        ),
        payload,
    )
}

/// Whether a request changes anything.
pub open spec fn asks_change(payload: Tree) -> bool {
    ||| payload.at("enabled"@) is Bool
    ||| payload.at("autoMove"@) is Bool
    ||| payload.at("threshold"@).signed() is Some
    ||| payload.at("maxLinks"@).signed() is Some
    ||| (payload.at("field"@) matches Tree::Text(f) && list_fields().contains(f))
}

fn set_switch(policy: &mut Json, payload: &Json, key: &str)
    requires
        payload@.at(key@) is Bool ==> old(policy)@.settable(),
    ensures
        final(policy)@ == with_switch(old(policy)@, payload@, key@),
{
    let value = payload.copy_at(key);
    if let Some(b) = value.as_bool() {
        policy.set(key, Json::Bool(b));
    }
}

fn set_number(policy: &mut Json, payload: &Json, key: &str, low: i64, high: i64)
    requires
        payload@.at(key@).signed() is Some ==> old(policy)@.settable(),
        0 <= low <= high,
    ensures
        final(policy)@ == with_number(old(policy)@, payload@, key@, low, high),
{
    let value = payload.copy_at(key);
    if let Some(n) = value.as_signed() {
        let kept: i64 = if n < low {
            low
        } else if n > high {
            high
        } else {
            n
        };
        policy.set(key, Json::unsigned(kept as u64));
    }
}

fn set_list(policy: &mut Json, payload: &Json)
    requires
        (payload@.at("field"@) matches Tree::Text(f) && list_fields().contains(f)) ==> old(policy)@.settable(),
    ensures
        final(policy)@ == with_request(old(policy)@, payload@),
{
    if let Some(field) = payload.opt_text_at("field") {
        if holds(&field_names(), field.as_str()) {
            let mode = payload.text_at("mode", "add");
            let values = match payload.get("values") {
                Some(v) => v.copy(),
                None => payload.copy_at("value"),
            };
            update_policy_list(policy, field.as_str(), mode.as_str(), &values);
        }
    }
}

/// A state after a request to change its policy, before it is summarised.
pub open spec fn configured_state(data: Tree, payload: Tree, at: u64) -> Tree {
    with_event(
        with_policy(data).with("spamPolicy"@, configured(policy_of(data), payload)),
        "events"@,
        at,
        "Anti-spam policy updated"@,
        EVENTS_KEPT as int,
    )
}

/// Whether the policy of a state can be changed as a request asks: there is a
/// place for what changes.
pub fn can_configure(data: &Json, payload: &Json) -> (r: bool)
    ensures
        r == (asks_change(payload@) ==> policy_of(data@).settable()),
{
    let mut whole = data.copy();
    if spam_policy(&mut whole).is_settable() {
        return true;
    }
    let names_list = match payload.opt_text_at("field") {
        Some(field) => holds(&field_names(), field.as_str()),
        None => false,
    };
    let changes = payload.copy_at("enabled").as_bool().is_some() || payload.copy_at(
        "autoMove",
    ).as_bool().is_some() || payload.copy_at("threshold").as_signed().is_some() || payload.copy_at(
        "maxLinks",
    ).as_signed().is_some() || names_list;
    !changes
}

/// Changes the policy of a state as a request asks, and answers with the
/// summary.
pub fn anti_spam_config(data: &mut Json, payload: &Json, at: u64, counts: &Vec<SpamCount>) -> (r: Json)
    requires
        asks_change(payload@) ==> policy_of(old(data)@).settable(),
        total_spam(counts@) <= u64::MAX,
    ensures
        final(data)@ == with_policy(configured_state(old(data)@, payload@, at)),
        r@ == Tree::object().with("ok"@, Tree::Bool(true)).with(
            "antiSpam"@,
            spam_summary_of(configured_state(old(data)@, payload@, at), counts@),
        ),
{
    let mut policy = spam_policy(data);
    set_switch(&mut policy, payload, "enabled");
    set_switch(&mut policy, payload, "autoMove");
    set_number(&mut policy, payload, "threshold", 1, 20);
    set_number(&mut policy, payload, "maxLinks", 0, 100);
    set_list(&mut policy, payload);
    data.set("spamPolicy", policy);
    prepend_event(data, "events", at, "Anti-spam policy updated", EVENTS_KEPT);
    let summary = spam_summary(data, counts);
    Json::object().with("ok", Json::Bool(true)).with("antiSpam", summary)
}

// ---------------------------------------------------------------------------
// Recording scans
// ---------------------------------------------------------------------------

/// Whether a scan can be recorded in a state: there is a place for its counts,
/// and they do not grow too large.
pub open spec fn can_record(data: Tree, scanned: nat, moved: nat) -> bool {
    let policy = policy_of(data);
    let stats = policy.at("stats"@);
    &&& policy.settable()
    &&& stats.settable()
    &&& stats.at("scanned"@).unsigned_or(0) + scanned <= u64::MAX
    &&& stats.at("moved"@).unsigned_or(0) + moved <= u64::MAX
}

/// A state in which a scan is recorded.
pub open spec fn recorded(data: Tree, scanned: nat, moved: nat, at: u64) -> Tree {
    let policy = policy_of(data);
    let stats = policy.at("stats"@);
    with_policy(data).with(
        "spamPolicy"@,
        policy.with(
            "stats"@,
            stats.with("scanned"@, count((stats.at("scanned"@).unsigned_or(0) + scanned) as u64)).with(
                "moved"@,
                count((stats.at("moved"@).unsigned_or(0) + moved) as u64),
            ).with("lastScan"@, count(at)),
        ),
    )
}

/// Whether a scan can be recorded in a state.
pub fn can_record_scan(data: &Json, scanned: u64, moved: u64) -> (r: bool)
    ensures
        r == can_record(data@, scanned as nat, moved as nat),
{
    let mut whole = data.copy();
    let policy = spam_policy(&mut whole);
    let stats = policy.copy_at("stats");
    policy.is_settable() && stats.is_settable() && stats.unsigned_at("scanned", 0) <= u64::MAX - scanned
        && stats.unsigned_at("moved", 0) <= u64::MAX - moved
}

/// Records a scan in a state.
pub fn record_scan(data: &mut Json, scanned: u64, moved: u64, at: u64)
    requires
        can_record(old(data)@, scanned as nat, moved as nat),
    ensures
        final(data)@ == recorded(old(data)@, scanned as nat, moved as nat, at),
{
    let mut policy = spam_policy(data);
    let mut stats = policy.copy_at("stats");
    let all_scanned: u64 = stats.unsigned_at("scanned", 0) + scanned;
    let all_moved: u64 = stats.unsigned_at("moved", 0) + moved;
    proof {
        reveal_strlit("scanned");
        reveal_strlit("moved");
        assert("scanned"@.len() != "moved"@.len());
    }
    stats.set("scanned", Json::unsigned(all_scanned));
    stats.set("moved", Json::unsigned(all_moved));
    stats.set("lastScan", Json::unsigned(at));
    policy.set("stats", stats);
    data.set("spamPolicy", policy);
}

/// Whether incoming mail of a folder is scanned when the folder is opened.
pub fn scans_folder(folder: &str) -> (r: bool)
    ensures
        r == (folder@ == "Inbox"@),
{
    same(folder, "Inbox")
}

/// Records what became of incoming mail, unless there was none; says whether
/// the state changed.
pub fn process_incoming(state: &mut Json, steps: &Vec<Scan>, at: u64) -> (r: bool)
    requires
        scanned_in(steps@) > 0 ==> can_record(old(state)@, scanned_in(steps@), moved_in(steps@)),
    ensures
        r == (scanned_in(steps@) > 0),
        final(state)@ == (if scanned_in(steps@) > 0 {
            recorded(old(state)@, scanned_in(steps@), moved_in(steps@), at)
        } else {
            old(state)@
        }),
{
    let (scanned, moved) = scan_totals(steps);
    if scanned > 0 {
        record_scan(state, scanned, moved, at);
        true
    } else {
        false
    }
}

/// The mailboxes that a scan looks at: the one that is named, or all of them.
pub open spec fn targets_of(email: Option<Seq<char>>, users: Seq<UserTree>) -> Seq<Seq<char>> {
    match email {
        Some(e) => seq![e],
        None => users.map_values(|u: UserTree| u.email),
    }
}

/// Lists the mailboxes that a scan looks at.
pub fn scan_targets(email: &Option<String>, users: &Vec<MailUser>) -> (r: Vec<String>)
    ensures
        texts(r@) == targets_of(opt_text(*email), user_trees(users@)),
{
    if let Some(e) = email {
        let one = vec![e.clone()];
        proof {
            assert(texts(one@) =~= seq![e@]);
        }
        return one;
    }
    let mut out: Vec<String> = Vec::new();
    let mut i: usize = 0;
    while i < users.len()
        invariant
            i <= users@.len(),
            out@.len() == i,
            forall|j: int| 0 <= j < i ==> (#[trigger] out@[j])@ == users@[j].email@,
        decreases users@.len() - i,
    {
        out.push(users[i].email.clone());
        i += 1;
    }
    proof {
        assert(texts(out@) =~= user_trees(users@).map_values(|u: UserTree| u.email));
    }
    out
}

/// What a scan of a mailbox did.
#[derive(Debug, PartialEq, Eq)]
pub struct MailboxScan {
    pub email: String,
    pub scanned: u64,
    pub moved: u64,
}

/// The row of a mailbox in the report on a scan.
pub open spec fn scan_row(s: MailboxScan) -> Tree {
    Tree::object().with("email"@, Tree::Text(s.email@)).with("scanned"@, count(s.scanned)).with(
        "moved"@,
        count(s.moved),
    )
}

/// Reports on the scan of a mailbox.
pub fn scan_mailbox_for_spam(address: &str, steps: &Vec<Scan>) -> (r: MailboxScan)
    ensures
        r.email@ == address@,
        r.scanned == scanned_in(steps@),
        r.moved == moved_in(steps@),
{
    let (scanned, moved) = scan_totals(steps);
    MailboxScan { email: address.to_owned(), scanned, moved }
}

/// The messages that scans looked at.
pub open spec fn all_scanned(rows: Seq<MailboxScan>) -> nat
    decreases rows.len(),
{
    if rows.len() == 0 {
        0
    } else {
        all_scanned(rows.drop_last()) + rows.last().scanned as nat
    }
}

/// The messages that scans moved.
pub open spec fn all_moved(rows: Seq<MailboxScan>) -> nat
    decreases rows.len(),
{
    if rows.len() == 0 {
        0
    } else {
        all_moved(rows.drop_last()) + rows.last().moved as nat
    }
}

/// Adds up what scans did, if the sums fit.
pub fn scan_sums(rows: &Vec<MailboxScan>) -> (r: Option<(u64, u64)>)
    ensures
        match r {
            Some((s, m)) => s == all_scanned(rows@) && m == all_moved(rows@),
            None => all_scanned(rows@) > u64::MAX || all_moved(rows@) > u64::MAX,
        },
{
    let ghost all = rows@;
    let mut scanned: u64 = 0;
    let mut moved: u64 = 0;
    let mut i: usize = 0;
    while i < rows.len()
        invariant
            i <= rows@.len(),
            all == rows@,
            scanned == all_scanned(all.take(i as int)),
            moved == all_moved(all.take(i as int)),
        decreases rows@.len() - i,
    {
        proof {
            assert(all.take(i + 1).drop_last() =~= all.take(i as int));
            assert(all.take(i + 1).last() == rows@[i as int]);
            lemma_sums_grow(all, i + 1);
        }
        if scanned > u64::MAX - rows[i].scanned || moved > u64::MAX - rows[i].moved {
            return None;
        }
        scanned += rows[i].scanned;
        moved += rows[i].moved;
        i += 1;
    }
    proof {
        assert(all.take(all.len() as int) =~= all);
    }
    Some((scanned, moved))
}

proof fn lemma_sums_grow(rows: Seq<MailboxScan>, n: int)
    requires
        0 <= n <= rows.len(),
    ensures
        all_scanned(rows.take(n)) <= all_scanned(rows),
        all_moved(rows.take(n)) <= all_moved(rows),
    decreases rows.len() - n,
{
    if n < rows.len() {
        assert(rows.take(n + 1).drop_last() =~= rows.take(n));
        lemma_sums_grow(rows, n + 1);
    } else {
        assert(rows.take(n) =~= rows);
    }
}

/// The event that records a scan.
pub open spec fn scan_event(scanned: nat, moved: nat) -> Seq<char> {
    "Anti-spam scan moved "@ + decimal(moved) + " of "@ + decimal(scanned) + " message(s)"@
}

/// A state after a scan, before it is summarised.
pub open spec fn scanned_state(data: Tree, rows: Seq<MailboxScan>, at: u64) -> Tree {
    with_event(
        recorded(data, all_scanned(rows), all_moved(rows), at),
        "events"@,
        at,
        scan_event(all_scanned(rows), all_moved(rows)),
        EVENTS_KEPT as int,
    )
}

/// Records a scan of mailboxes in a state, and answers with the report.
pub fn anti_spam_scan(data: &mut Json, rows: &Vec<MailboxScan>, at: u64, counts: &Vec<SpamCount>) -> (r: Json)
    requires
        all_scanned(rows@) <= u64::MAX,
        all_moved(rows@) <= u64::MAX,
        can_record(old(data)@, all_scanned(rows@), all_moved(rows@)),
        total_spam(counts@) <= u64::MAX,
    ensures
        final(data)@ == with_policy(scanned_state(old(data)@, rows@, at)),
        r@ == Tree::object().with("ok"@, Tree::Bool(true)).with(
            "scanned"@,
            count(all_scanned(rows@) as u64),
        ).with("moved"@, count(all_moved(rows@) as u64)).with(
            "results"@,
            Tree::Array(rows@.map_values(|s: MailboxScan| scan_row(s))),
        ).with("antiSpam"@, spam_summary_of(scanned_state(old(data)@, rows@, at), counts@)),
{
    let (scanned, moved) = match scan_sums(rows) {
        Some(sums) => sums,
        None => (0, 0),
    };
    record_scan(data, scanned, moved, at);
    let mut event = "Anti-spam scan moved ".to_owned();
    event.append(decimal_of(moved).as_str());
    event.append(" of ");
    event.append(decimal_of(scanned).as_str());
    event.append(" message(s)");
    prepend_event(data, "events", at, event.as_str(), EVENTS_KEPT);
    let summary = spam_summary(data, counts);
    let mut results: Vec<Json> = Vec::new();
    let mut i: usize = 0;
    while i < rows.len()
        invariant
            i <= rows@.len(),
            results@.len() == i,
            forall|j: int| 0 <= j < i ==> (#[trigger] results@[j])@ == scan_row(rows@[j]),
        decreases rows@.len() - i,
    {
        let row = Json::object()
            .with("email", Json::text(rows[i].email.as_str()))
            .with("scanned", Json::unsigned(rows[i].scanned))
            .with("moved", Json::unsigned(rows[i].moved));
        results.push(row);
        i += 1;
    }
    proof {
        assert(trees(results@) =~= rows@.map_values(|s: MailboxScan| scan_row(s)));
    }
    Json::object()
        .with("ok", Json::Bool(true))
        .with("scanned", Json::unsigned(scanned))
        .with("moved", Json::unsigned(moved))
        .with("results", Json::array(results))
        .with("antiSpam", summary)
}

// ---------------------------------------------------------------------------
// Blocking a sender
// ---------------------------------------------------------------------------

/// Finds the address of the sender of a message, if the bytes spell one.
pub fn sender_of(raw: &[u8]) -> (r: Option<String>)
    ensures
        crate::text::opt_text(r) == (match message_of(raw@) {
            Ok(m) => Some(email_in(or_empty(m.from))),
            Err(_) => None,
        }),
{
    match parse_message(raw) {
        Ok(m) => {
            let from = match &m.from {
                Some(s) => s.clone(),
                None => String::new(),
            };
            Some(normalized_email(from.as_str()))
        },
        Err(_) => None,
    }
}

/// Whether a sender is to be put on the list of blocked senders.
pub open spec fn is_new_sender(data: Tree, sender: Seq<char>) -> bool {
    sender.len() > 0 && !policy_texts(policy_of(data), "blocklist"@).contains(sender)
}

/// A state in which a sender is blocked.
pub open spec fn with_blocked(data: Tree, sender: Seq<char>, at: u64) -> Tree {
    let policy = policy_of(data);
    with_event(
        with_policy(data).with(
            "spamPolicy"@,
            policy.with("blocklist"@, text_array(policy_texts(policy, "blocklist"@).push(sender))),
        ),
        "events"@,
        at,
        "Spam sender blocked: "@ + sender,
        EVENTS_KEPT as int,
    )
}

/// Whether a sender can be blocked in a state: there is a place for its list, or
/// nothing is to be put there.
pub fn can_block(state: &Json, sender: &str) -> (r: bool)
    ensures
        r == (is_new_sender(state@, sender@) ==> policy_of(state@).settable()),
{
    let mut whole = state.copy();
    let policy = spam_policy(&mut whole);
    policy.is_settable() || sender.is_empty() || holds(
        &crate::json::string_array(&policy.copy_at("blocklist")),
        sender,
    )
}

/// Blocks a sender, unless there is none or it is blocked; says whether the
/// state is to be saved.
pub fn block_sender(state: &mut Json, sender: &str, at: u64) -> (r: bool)
    requires
        is_new_sender(old(state)@, sender@) ==> policy_of(old(state)@).settable(),
    ensures
        r == is_new_sender(old(state)@, sender@),
        final(state)@ == (if r {
            with_blocked(old(state)@, sender@, at)
        } else {
            with_policy(old(state)@)
        }),
{
    let mut policy = spam_policy(state);
    let mut blocklist = crate::json::string_array(&policy.copy_at("blocklist"));
    let ghost held = texts(blocklist@);
    if sender.is_empty() || holds(&blocklist, sender) {
        return false;
    }
    blocklist.push(sender.to_owned());
    proof {
        assert(texts(blocklist@) =~= held.push(sender@));
    }
    policy.set("blocklist", Json::texts(&blocklist));
    state.set("spamPolicy", policy);
    let mut event = "Spam sender blocked: ".to_owned();
    event.append(sender);
    prepend_event(state, "events", at, event.as_str(), EVENTS_KEPT);
    true
}

} // verus!
