//! What holds of the lists that webmail shows and keeps.
use crate::address::cleaned;
use crate::antispam::{configured, list_fields, with_blocked};
use crate::json::{lemma_text_items, Tree};
use crate::mail::{name_of, walk};
use crate::maildir::{base_of, flagged_name, flags_of, seen_name_of};
use crate::maildir_laws::{law_flag_changes_only_itself, law_read_message_is_seen};
use crate::messages::{
    answering, answers_query, attachment_of, attachment_row, attachment_rows, is_starred, is_unread,
    shown_rows, times_of, MESSAGES_MAX,
};
use crate::order::{
    before, goes_first, is_order, lemma_before_total, lemma_order_exists, order_of, sorted_by, Newest, Ranked,
    TextKey,
};
use crate::outside::{base64_text, PartTree};
use crate::score::policy_texts;
use crate::spam::{count, policy_default, policy_of};
use crate::text::{decimal, has_text, law_decimal_reads_back};
use crate::mailbox_laws::lemma_alias_row;
use crate::users::{alias_keys, alias_rows, aliases_in, aliases_of, user_keys, users_in, users_of, UserTree};
use crate::webmail::{
    contact_keys, contact_of, contacts_with, imported, is_moved, other_contact, place_after, rule_moves,
    rules_with, settings_after, target_for, target_of, ActionTree, RULES_MAX,
};
use vstd::prelude::*;

verus! {

/// The items of a sorted list are those of the list, and none goes before the
/// one it follows.
proof fn lemma_sorted<K: Ranked, T>(items: Seq<T>, keys: Seq<K::V>)
    requires
        items.len() == keys.len(),
    ensures
        sorted_by::<K, T>(items, keys).len() == items.len(),
        is_order::<K>(keys, order_of::<K>(keys)),
        forall|i: int|
            0 <= i < items.len() ==> 0 <= #[trigger] order_of::<K>(keys)[i] < items.len() && sorted_by::<K, T>(
                items,
                keys,
            )[i] == items[order_of::<K>(keys)[i]],
{
    lemma_order_exists::<K>(keys);
}

/// Mailboxes are listed in the order of their addresses.
pub proof fn law_mailboxes_are_sorted(text: Seq<char>, i: int, j: int)
    requires
        0 <= i < j < users_of(text).len(),
    ensures
        !before(users_of(text)[j].email, users_of(text)[i].email),
{
    let found = users_in(crate::text::lines_of(text));
    let keys = user_keys(found);
    lemma_sorted::<TextKey, UserTree>(found, keys);
    let o = order_of::<TextKey>(keys);
    assert(goes_first::<TextKey>(keys, o[i], o[j]));
    assert(keys[o[i]] == Some(users_of(text)[i].email));
    assert(keys[o[j]] == Some(users_of(text)[j].email));
    lemma_before_total(users_of(text)[i].email, users_of(text)[j].email);
}

/// Aliases are shown in their order.
pub proof fn law_aliases_are_sorted(text: Seq<char>, i: int, j: int)
    requires
        0 <= i < j < aliases_of(text).len(),
    ensures
        !before(
            aliases_of(text)[j].at("alias"@).text_or(""@),
            aliases_of(text)[i].at("alias"@).text_or(""@),
        ),
{
    let found = aliases_in(crate::text::lines_of(text));
    let keys = alias_keys(found);
    lemma_sorted::<TextKey, Tree>(alias_rows(found), keys);
    let o = order_of::<TextKey>(keys);
    assert(goes_first::<TextKey>(keys, o[i], o[j]));
    lemma_alias_row(found[o[i]]);
    lemma_alias_row(found[o[j]]);
    lemma_before_total(found[o[i]].0, found[o[j]].0);
}

/// The state of a folder shows messages of the folder that answer the query,
/// the newest first, and no more than there is room for.
pub proof fn law_newest_messages_come_first(rows: Seq<Tree>, query: Seq<char>, i: int, j: int)
    requires
        0 <= i <= j < shown_rows(rows, query).len(),
    ensures
        shown_rows(rows, query).len() <= MESSAGES_MAX,
        rows.contains(shown_rows(rows, query)[i]),
        answers_query(shown_rows(rows, query)[i], query),
        !Newest::precedes(
            shown_rows(rows, query)[j].at("timestamp"@).unsigned(),
            shown_rows(rows, query)[i].at("timestamp"@).unsigned(),
        ),
{
    let found = rows.filter(answering(query));
    let keys = times_of(found);
    lemma_sorted::<Newest, Tree>(found, keys);
    let o = order_of::<Newest>(keys);
    let shown = shown_rows(rows, query);
    assert(0 <= o[i] < found.len() && 0 <= o[j] < found.len());
    assert(shown[i] == found[o[i]]);
    assert(shown[j] == found[o[j]]);
    rows.lemma_filter_pred(answering(query), o[i]);
    lemma_filtered_from(rows, answering(query), o[i]);
    if i < j {
        assert(goes_first::<Newest>(keys, o[i], o[j]));
    }
}

/// A message of a folder that answers the query is left out only where there is
/// no room for it, and then none that is shown is older.
pub proof fn law_only_older_messages_are_left_out(rows: Seq<Tree>, query: Seq<char>, item: Tree, i: int)
    requires
        rows.contains(item),
        answers_query(item, query),
        !shown_rows(rows, query).contains(item),
        0 <= i < shown_rows(rows, query).len(),
    ensures
        shown_rows(rows, query).len() == MESSAGES_MAX,
        !Newest::precedes(
            item.at("timestamp"@).unsigned(),
            shown_rows(rows, query)[i].at("timestamp"@).unsigned(),
        ),
{
    let found = rows.filter(answering(query));
    let keys = times_of(found);
    lemma_sorted::<Newest, Tree>(found, keys);
    let o = order_of::<Newest>(keys);
    let sorted = sorted_by::<Newest, Tree>(found, keys);
    let shown = shown_rows(rows, query);
    lemma_filter_keeps(rows, answering(query), item);
    let p = choose|p: int| 0 <= p < found.len() && found[p] == item;
    crate::order::lemma_order_complete::<Newest>(keys, o, p);
    let q = choose|q: int| 0 <= q < o.len() && o[q] == p;
    assert(sorted[q] == item);
    if q < shown.len() {
        assert(shown[q] == item);
    }
    assert(0 <= o[i] < found.len());
    assert(shown[i] == found[o[i]]);
    assert(goes_first::<Newest>(keys, o[i], o[q]));
}

/// What a filter wants and the list holds is kept.
proof fn lemma_filter_keeps(rows: Seq<Tree>, kind: spec_fn(Tree) -> bool, item: Tree)
    requires
        rows.contains(item),
        kind(item),
    ensures
        rows.filter(kind).contains(item),
    decreases rows.len(),
{
    reveal(Seq::filter);
    let init = rows.drop_last();
    let all = rows.filter(kind);
    let m = choose|m: int| 0 <= m < rows.len() && rows[m] == item;
    if m < rows.len() - 1 {
        assert(init[m] == item);
        lemma_filter_keeps(init, kind, item);
        let k = choose|k: int| 0 <= k < init.filter(kind).len() && init.filter(kind)[k] == item;
        assert(all[k] == item);
    } else {
        assert(all[all.len() - 1] == item);
    }
}

proof fn lemma_filtered_from(rows: Seq<Tree>, kind: spec_fn(Tree) -> bool, k: int)
    requires
        0 <= k < rows.filter(kind).len(),
    ensures
        rows.contains(rows.filter(kind)[k]),
    decreases rows.len(),
{
    reveal(Seq::filter);
    if rows.len() > 0 {
        let init = rows.drop_last();
        if k < init.filter(kind).len() {
            lemma_filtered_from(init, kind, k);
            let c = rows.filter(kind)[k];
            let m = choose|m: int| 0 <= m < init.len() && init[m] == c;
            assert(rows[m] == c);
        } else {
            assert(rows[rows.len() - 1] == rows.filter(kind)[k]);
        }
    }
}

/// The contacts after one was put are those with other addresses, and the one
/// that was put, if it has an address.
pub proof fn lemma_contacts(list: Seq<Tree>, name: Seq<char>, email: Seq<char>)
    ensures
        forall|c: Tree| #[trigger]
            contacts_with(list, name, email).contains(c) == (list.filter(other_contact(email)).contains(c) || (
            email.len() > 0 && c == contact_of(name, email))),
{
    let kept = list.filter(other_contact(email));
    let contact = contact_of(name, email);
    let all = if email.len() > 0 {
        kept.push(contact)
    } else {
        kept
    };
    let keys = contact_keys(all);
    let now = contacts_with(list, name, email);
    lemma_sorted::<TextKey, Tree>(all, keys);
    let o = order_of::<TextKey>(keys);
    assert forall|c: Tree| #[trigger] now.contains(c) == (kept.contains(c) || (email.len() > 0 && c == contact)) by {
        if now.contains(c) {
            let i = choose|i: int| 0 <= i < now.len() && now[i] == c;
            assert(0 <= o[i] < all.len());
            assert(all[o[i]] == c);
            if o[i] < kept.len() {
                assert(kept[o[i]] == c);
            }
        }
        if kept.contains(c) || (email.len() > 0 && c == contact) {
            let k = if kept.contains(c) {
                choose|k: int| 0 <= k < kept.len() && kept[k] == c
            } else {
                kept.len() as int
            };
            assert(all[k] == c);
            crate::order::lemma_order_complete::<TextKey>(keys, o, k);
            let q = choose|q: int| 0 <= q < o.len() && o[q] == k;
            assert(now[q] == c);
        }
    }
}

/// A contact that was put is in the list, as the only one of its address, and
/// the list is in the order of addresses.
pub proof fn law_contact_is_kept_once(list: Seq<Tree>, name: Seq<char>, email: Seq<char>, i: int)
    requires
        email.len() > 0,
        0 <= i < contacts_with(list, name, email).len(),
    ensures
        contacts_with(list, name, email).contains(contact_of(name, email)),
        contacts_with(list, name, email)[i].at("email"@) == Tree::Text(email) ==> contacts_with(
            list,
            name,
            email,
        )[i] == contact_of(name, email),
        i > 0 ==> !TextKey::precedes(
            contacts_with(list, name, email)[i].at("email"@).text(),
            contacts_with(list, name, email)[i - 1].at("email"@).text(),
        ),
{
    let kept = list.filter(other_contact(email));
    let contact = contact_of(name, email);
    let all = kept.push(contact);
    let keys = contact_keys(all);
    let now = contacts_with(list, name, email);
    lemma_sorted::<TextKey, Tree>(all, keys);
    let o = order_of::<TextKey>(keys);
    crate::order::lemma_order_complete::<TextKey>(keys, o, kept.len() as int);
    let q = choose|q: int| 0 <= q < o.len() && o[q] == kept.len();
    assert(0 <= o[q] < all.len());
    assert(now[q] == contact);
    assert(0 <= o[i] < all.len());
    assert(now[i] == all[o[i]]);
    if o[i] < kept.len() {
        list.lemma_filter_pred(other_contact(email), o[i]);
    }
    if i > 0 {
        assert(0 <= o[i - 1] < all.len());
        assert(goes_first::<TextKey>(keys, o[i - 1], o[i]));
        TextKey::lemma_transitive(keys[o[i]], keys[o[i - 1]], keys[o[i]]);
        TextKey::lemma_irreflexive(keys[o[i]]);
    }
}

/// A rule that was added is the last of the rules, of which no more are kept
/// than there is room for.
pub proof fn law_new_rule_is_last(rules: Seq<Tree>, rule: Tree)
    ensures
        0 < rules_with(rules, rule).len() <= RULES_MAX,
        rules_with(rules, rule).last() == rule,
{
}

/// A message goes where the first rule that moves it says, and stays where no
/// rule moves it.
pub proof fn law_first_matching_rule_decides(rules: Seq<Tree>, item: Tree, folder: Seq<char>)
    ensures
        target_of(rules, item, folder) is None <==> forall|i: int|
            0 <= i < rules.len() ==> !rule_moves(#[trigger] rules[i], item, folder),
        forall|i: int|
            0 <= i < rules.len() && rule_moves(#[trigger] rules[i], item, folder) && (forall|j: int|
                0 <= j < i ==> !rule_moves(#[trigger] rules[j], item, folder)) ==> target_of(
                rules,
                item,
                folder,
            ) == Some(rules[i].at("action"@).text_or("Archive"@)),
    decreases rules.len(),
{
    if rules.len() > 0 && !rule_moves(rules[0], item, folder) {
        let rest = rules.skip(1);
        law_first_matching_rule_decides(rest, item, folder);
        assert forall|i: int| 0 <= i < rules.len() && rule_moves(#[trigger] rules[i], item, folder) implies i > 0
            && rule_moves(rest[i - 1], item, folder) by {
            assert(rest[i - 1] == rules[i]);
        }
        assert forall|i: int|
            0 <= i < rules.len() && rule_moves(#[trigger] rules[i], item, folder) && (forall|j: int|
                0 <= j < i ==> !rule_moves(#[trigger] rules[j], item, folder)) implies target_of(
            rules,
            item,
            folder,
        ) == Some(rules[i].at("action"@).text_or("Archive"@)) by {
            assert(rest[i - 1] == rules[i]);
            assert forall|j: int| 0 <= j < i - 1 implies !rule_moves(#[trigger] rest[j], item, folder) by {
                assert(rest[j] == rules[j + 1]);
            }
        }
        if target_of(rules, item, folder) is None {
            assert forall|i: int| 0 <= i < rules.len() implies !rule_moves(
                #[trigger] rules[i],
                item,
                folder,
            ) by {
                if i > 0 {
                    assert(rest[i - 1] == rules[i]);
                }
            }
        } else {
            let k = choose|k: int| 0 <= k < rest.len() && rule_moves(#[trigger] rest[k], item, folder);
            assert(rules[k + 1] == rest[k]);
        }
    }
}

/// The kind of messages that some rule moves.
pub open spec fn moved_by(rules: Seq<Tree>, folder: Seq<char>) -> spec_fn(Tree) -> bool {
    |item: Tree|
        exists|i: int| 0 <= i < rules.len() && rule_moves(#[trigger] rules[i], item, folder)
}

/// The number of messages that are moved is the number of those that some rule
/// moves: each is moved once, however many rules move it.
pub proof fn law_each_match_counts_once(rules: Seq<Tree>, items: Seq<Tree>, folder: Seq<char>)
    ensures
        items.map_values(target_for(rules, folder)).filter(is_moved()).len() == items.filter(
            moved_by(rules, folder),
        ).len(),
    decreases items.len(),
{
    reveal(Seq::filter);
    let named = target_for(rules, folder);
    let targets = items.map_values(named);
    if items.len() > 0 {
        let init = items.drop_last();
        law_each_match_counts_once(rules, init, folder);
        assert(targets.drop_last() =~= init.map_values(named));
        law_first_matching_rule_decides(rules, items.last(), folder);
        assert(is_moved()(targets.last()) == moved_by(rules, folder)(items.last()));
    }
}

/// Importing exported settings brings them back, whatever the settings were
/// before.
pub proof fn law_import_restores_export(before: Tree, exported: Tree)
    requires
        before.settable(),
        exported.get("contacts"@) is Some,
        exported.get("signatures"@) is Some,
        exported.get("vacation"@) is Some,
        exported.get("rules"@) is Some,
        exported.get("preferences"@) is Some,
    ensures
        imported(before, exported).get("contacts"@) == exported.get("contacts"@),
        imported(before, exported).get("signatures"@) == exported.get("signatures"@),
        imported(before, exported).get("vacation"@) == exported.get("vacation"@),
        imported(before, exported).get("rules"@) == exported.get("rules"@),
        imported(before, exported).get("preferences"@) == exported.get("preferences"@),
{
    reveal_strlit("contacts");
    reveal_strlit("signatures");
    reveal_strlit("vacation");
    reveal_strlit("rules");
    reveal_strlit("preferences");
    assert("contacts"@[0] == 'c' && "signatures"@[0] == 's' && "vacation"@[0] == 'v' && "rules"@[0] == 'r'
        && "preferences"@[0] == 'p');
}

/// The numbers of a policy that a request sets are kept in their ranges.
pub proof fn law_policy_numbers_stay_in_range(policy: Tree, payload: Tree)
    ensures
        payload.at("threshold"@).signed() is Some ==> (configured(policy, payload).at("threshold"@).unsigned() matches Some(
            n,
        ) && 1 <= n <= 20),
        payload.at("maxLinks"@).signed() is Some ==> (configured(policy, payload).at("maxLinks"@).unsigned() matches Some(
            n,
        ) && n <= 100),
{
    reveal_strlit("threshold");
    reveal_strlit("maxLinks");
    reveal_strlit("blocklist");
    reveal_strlit("allowlist");
    reveal_strlit("domainBlocklist");
    reveal_strlit("subjectKeywords");
    reveal_strlit("attachmentExtensions");
    assert("threshold"@[0] == 't' && "maxLinks"@[0] == 'm' && "blocklist"@[0] == 'b' && "allowlist"@[0] == 'a'
        && "domainBlocklist"@[0] == 'd' && "subjectKeywords"@[0] == 's' && "attachmentExtensions"@[0] == 'a');
    assert(!list_fields().contains("threshold"@)) by {
        if list_fields().contains("threshold"@) {
            let k = choose|k: int| 0 <= k < list_fields().len() && list_fields()[k] == "threshold"@;
            assert(list_fields()[k][0] == 't');
        }
    }
    assert(!list_fields().contains("maxLinks"@)) by {
        if list_fields().contains("maxLinks"@) {
            let k = choose|k: int| 0 <= k < list_fields().len() && list_fields()[k] == "maxLinks"@;
            assert(list_fields()[k][0] == 'm');
        }
    }
}

/// A sender that was blocked is on the list of blocked senders from then on.
pub proof fn law_blocked_sender_is_listed(data: Tree, sender: Seq<char>, at: u64)
    requires
        policy_of(data).settable(),
    ensures
        policy_texts(policy_of(with_blocked(data, sender, at)), "blocklist"@).contains(sender),
{
    let policy = policy_of(data);
    let list = policy_texts(policy, "blocklist"@).push(sender);
    let changed = policy.with("blocklist"@, crate::json::text_array(list));
    reveal_strlit("events");
    reveal_strlit("spamPolicy");
    assert("events"@[0] == 'e' && "spamPolicy"@[0] == 's');
    let now = with_blocked(data, sender, at);
    assert(now.as_object().get("spamPolicy"@) == Some(changed));
    crate::json::law_filled_keeps_members(changed, policy_default(), "blocklist"@);
    assert(policy_of(now).at("blocklist"@) == crate::json::text_array(list));
    lemma_text_items(list);
    assert(list[list.len() - 1] == sender);
}

/// The rows of attachments name places in the walk through all parts.
proof fn lemma_attachment_rows(parts: Seq<PartTree>, k: int)
    requires
        0 <= k < attachment_rows(parts).len(),
    ensures
        exists|n: int|
            0 <= n < parts.len() && name_of(#[trigger] parts[n]) is Some && attachment_rows(parts)[k]
                == attachment_row(n, name_of(parts[n])->0, parts[n]),
    decreases parts.len(),
{
    let init = parts.drop_last();
    if k < attachment_rows(init).len() {
        lemma_attachment_rows(init, k);
        let n = choose|n: int|
            0 <= n < init.len() && name_of(#[trigger] init[n]) is Some && attachment_rows(init)[k]
                == attachment_row(n, name_of(init[n])->0, init[n]);
        assert(parts[n] == init[n]);
    } else {
        let n = parts.len() - 1;
        assert(parts[n] == parts.last());
    }
}

/// An attachment that is listed is found under the place it is listed with: the
/// answer has its name and media type, and its data if that can be decoded.
pub proof fn law_listed_attachment_is_found(p: PartTree, k: int)
    requires
        0 <= k < attachment_rows(walk(p)).len(),
        walk(p).len() <= usize::MAX,
    ensures
        ({
            let row = attachment_rows(walk(p))[k];
            exists|n: u64|
                n < walk(p).len() && row.at("index"@) == count(n) && (match #[trigger] attachment_of(
                    p,
                    decimal(n as nat),
                ) {
                    Ok(found) => {
                        &&& found.at("filename"@) == row.at("filename"@)
                        &&& found.at("contentType"@) == row.at("contentType"@)
                        &&& walk(p)[n as int].raw matches Ok(data) && found.at("data"@) == Tree::Text(
                            base64_text(data),
                        )
                    },
                    Err(e) => walk(p)[n as int].raw matches Err(why) && e == "read attachment: "@ + why,
                })
        }),
{
    let parts = walk(p);
    lemma_attachment_rows(parts, k);
    let i = choose|i: int|
        0 <= i < parts.len() && name_of(#[trigger] parts[i]) is Some && attachment_rows(parts)[k]
            == attachment_row(i, name_of(parts[i])->0, parts[i]);
    let n = i as u64;
    law_decimal_reads_back(n as nat, usize::MAX as nat);
    reveal_strlit("index");
    reveal_strlit("filename");
    reveal_strlit("contentType");
    reveal_strlit("size");
    reveal_strlit("ok");
    reveal_strlit("data");
    assert("index"@[0] == 'i' && "filename"@[0] == 'f' && "contentType"@[0] == 'c' && "size"@[0] == 's'
        && "ok"@[0] == 'o' && "data"@[0] == 'd');
    let row = attachment_rows(parts)[k];
    assert(row.at("index"@) == count(n));
    let found = attachment_of(p, decimal(n as nat));
    assert(parts[n as int] == parts[i]);
}

/// Marking a message as unread has it shown as unread, and keeps its star. A
/// star is shown once it is given and not once it is taken, and does not change
/// whether the message is shown as unread. A new message that carries no flags
/// yet is not shown as unread once it is marked as read.
pub proof fn law_actions_are_shown(subdir: Seq<char>, name: Seq<char>, on: bool)
    ensures
        place_after(ActionTree::MarkUnread, subdir, name) matches Some((d, n)) && is_unread(d, n) && is_starred(n)
            == is_starred(name),
        place_after(ActionTree::Star(on), subdir, name) matches Some((d, n)) && is_starred(n) == on && is_unread(d, n)
            == is_unread(subdir, name),
        subdir == "new"@ && !has_text(name, ":2,"@) ==> (place_after(ActionTree::MarkRead, subdir, name) matches Some(
            (d, n),
        ) && !is_unread(d, n)),
{
    law_flag_changes_only_itself(name, 'S', false, 'F');
    law_flag_changes_only_itself(name, 'F', on, 'S');
    if subdir == "new"@ && !has_text(name, ":2,"@) {
        law_read_message_is_seen(name);
        assert(seq!['S'][0] == 'S');
        reveal_strlit("new");
        reveal_strlit("cur");
        assert("new"@[0] != "cur"@[0]);
    }
}

/// Marking a message as unread undoes marking it as read: a new message without
/// flags is new again, with a name that carries none.
pub proof fn law_unread_undoes_read(name: Seq<char>)
    requires
        !has_text(name, ":2,"@),
    ensures
        place_after(ActionTree::MarkRead, "new"@, name) matches Some((d, n)) && (place_after(
            ActionTree::MarkUnread,
            d,
            n,
        ) matches Some((e, m)) && e == "new"@ && base_of(m) == name && flags_of(m).len() == 0),
{
    law_read_message_is_seen(name);
    let n = seen_name_of(name);
    let m = flagged_name(n, 'S', false);
    law_flag_changes_only_itself(n, 'S', false, 'F');
    if flags_of(m).len() > 0 {
        let c = flags_of(m)[0];
        assert(flags_of(m).contains(c));
        if c != 'S' {
            law_flag_changes_only_itself(n, 'S', false, c);
            assert(!seq!['S'].contains(c));
        }
    }
}

/// The member of the settings that a request changes.
pub open spec fn member_of(kind: Seq<char>) -> Seq<char> {
    if kind == "contact"@ {
        "contacts"@
    } else if kind == "signature"@ {
        "signatures"@
    } else if kind == "vacation"@ {
        "vacation"@
    } else if kind == "rule"@ {
        "rules"@
    } else {
        "preferences"@
    }
}

/// A request to change the settings changes one member of them, and no other.
pub proof fn law_setting_changes_only_itself(
    data: Tree,
    email: Seq<char>,
    kind: Seq<char>,
    payload: Tree,
    id: Seq<char>,
    other: Seq<char>,
)
    requires
        data.settable(),
        other != member_of(kind),
    ensures
        settings_after(data, email, kind, payload, id) matches Ok(now) ==> now.get(other) == data.get(other),
{
}

/// A signature that was set is that of its mailbox, and those of other mailboxes
/// stay.
pub proof fn law_signature_is_kept(
    data: Tree,
    email: Seq<char>,
    payload: Tree,
    id: Seq<char>,
    other: Seq<char>,
)
    requires
        other != cleaned(payload.at("email"@).text_or(email)),
    ensures
        settings_after(data, email, "signature"@, payload, id) matches Ok(now) ==> {
            &&& now.at("signatures"@).at(cleaned(payload.at("email"@).text_or(email))) == Tree::Text(
                payload.at("signature"@).text_or(""@),
            )
            &&& now.at("signatures"@).get(other) == data.at("signatures"@).get(other)
        },
{
    reveal_strlit("signature");
    reveal_strlit("contact");
    assert("signature"@.len() != "contact"@.len());
}

} // verus!
