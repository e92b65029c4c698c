//! What rules, settings and actions of webmail do.
use crate::address::cleaned;
use crate::json::Tree;
use crate::outside::{hex_text, sha1_digest};
use crate::text::{first_chars, has_text, lowered};
use crate::webmail::{
    action_of, active_of, contacts_with, imported, rule_id_of, rule_moves, rule_of, rules_with,
    sender_of_request, settings_after, settings_reply, target_of, vacation_of, ActionTree, FAILURE_SHOWN,
};
use vstd::prelude::*;

verus! {

/// The text of a member; empty where it has none.
pub open spec fn text_of_member(t: Tree, key: Seq<char>) -> Seq<char> {
    match t.get(key) {
        Some(Tree::Text(s)) => s,
        _ => Seq::empty(),
    }
}

/// The member of a summary that a rule looks at: the one it names, or the
/// sender.
pub open spec fn looked_at(rule: Tree) -> Seq<char> {
    match rule.get("field"@) {
        Some(Tree::Text(f)) => f,
        _ => "from"@,
    }
}

/// The folder that a rule moves messages to: the one it names, or the archive.
pub open spec fn moved_to(rule: Tree) -> Seq<char> {
    match rule.get("action"@) {
        Some(Tree::Text(f)) => f,
        _ => "Archive"@,
    }
}

/// The names of the folders that there are.
pub open spec fn is_folder(name: Seq<char>) -> bool {
    name == "Inbox"@ || name == "Sent"@ || name == "Drafts"@ || name == "Archive"@ || name == "Spam"@ || name
        == "Trash"@
}

/// A rule that looks for a text and names a known folder other than the one the
/// message is in moves the message exactly if the member of its summary that the
/// rule names holds that text, whatever the case. All other rules move nothing.
pub proof fn law_rule_looks_at_the_member_it_names(rule: Tree, item: Tree, folder: Seq<char>)
    ensures
        lowered(text_of_member(rule, "contains"@)).len() > 0 && is_folder(moved_to(rule)) && moved_to(rule)
            != folder ==> rule_moves(rule, item, folder) == has_text(
            lowered(text_of_member(item, looked_at(rule))),
            lowered(text_of_member(rule, "contains"@)),
        ),
        lowered(text_of_member(rule, "contains"@)).len() == 0 ==> !rule_moves(rule, item, folder),
        !is_folder(moved_to(rule)) ==> !rule_moves(rule, item, folder),
        moved_to(rule) == folder ==> !rule_moves(rule, item, folder),
{
    reveal_strlit("");
    assert(""@ =~= Seq::<char>::empty());
    let target = moved_to(rule);
    assert(rule.at("action"@).text_or("Archive"@) == target);
    assert(rule.at("field"@).text_or("from"@) == looked_at(rule));
    assert(rule.at("contains"@).text_or(""@) == text_of_member(rule, "contains"@));
    assert(item.at(looked_at(rule)).text_or(""@) == text_of_member(item, looked_at(rule)));
}

/// Whether a rule moves a message depends on the member it names only: changing
/// another member of the summary changes nothing.
pub proof fn law_rule_ignores_other_members(
    rule: Tree,
    item: Tree,
    folder: Seq<char>,
    key: Seq<char>,
    value: Tree,
)
    requires
        item is Object,
        key != looked_at(rule),
    ensures
        rule_moves(rule, item.with(key, value), folder) == rule_moves(rule, item, folder),
{
    law_rule_looks_at_the_member_it_names(rule, item, folder);
    law_rule_looks_at_the_member_it_names(rule, item.with(key, value), folder);
    assert(text_of_member(item.with(key, value), looked_at(rule)) == text_of_member(item, looked_at(rule)));
    assert(rule_moves(rule, item.with(key, value), folder) == rule_moves(rule, item, folder));
}

/// A message goes to the folder that the first rule that moves it names; rules
/// before that move nothing, and rules after it do not count.
pub proof fn law_first_rule_takes_the_message(
    before: Seq<Tree>,
    rule: Tree,
    after: Seq<Tree>,
    item: Tree,
    folder: Seq<char>,
)
    requires
        forall|i: int| 0 <= i < before.len() ==> !rule_moves(#[trigger] before[i], item, folder),
    ensures
        rule_moves(rule, item, folder) ==> target_of(before.push(rule) + after, item, folder) == Some(
            moved_to(rule),
        ),
        target_of(before, item, folder) is None,
    decreases before.len(),
{
    if before.len() == 0 {
        assert((before.push(rule) + after)[0] == rule);
    } else {
        let rest = before.skip(1);
        assert forall|i: int| 0 <= i < rest.len() implies !rule_moves(#[trigger] rest[i], item, folder) by {
            assert(rest[i] == before[i + 1]);
        }
        law_first_rule_takes_the_message(rest, rule, after, item, folder);
        assert((before.push(rule) + after).skip(1) =~= rest.push(rule) + after);
        assert((before.push(rule) + after)[0] == before[0]);
        assert(!rule_moves(before[0], item, folder));
    }
}

/// Rules are applied in their order, unless they are switched off.
pub proof fn law_only_rules_switched_off_are_skipped(data: Tree, rules: Seq<Tree>, more: Tree)
    requires
        data is Object,
    ensures
        ({
            let now = active_of(data.with("rules"@, Tree::Array(rules.push(more))));
            let before = active_of(data.with("rules"@, Tree::Array(rules)));
            &&& more.get("enabled"@) == Some(Tree::Bool(false)) ==> now == before
            &&& more.get("enabled"@) != Some(Tree::Bool(false)) ==> now == before.push(more)
        }),
        active_of(data.with("rules"@, Tree::Array(Seq::empty()))) == Seq::<Tree>::empty(),
{
    reveal(Seq::filter);
    assert(rules.push(more).drop_last() =~= rules);
    assert(data.with("rules"@, Tree::Array(rules.push(more))).at("rules"@).items() == rules.push(more));
    assert(data.with("rules"@, Tree::Array(rules)).at("rules"@).items() == rules);
}

// ---------------------------------------------------------------------------
// Settings
// ---------------------------------------------------------------------------

proof fn lemma_kinds()
    ensures
        "contact"@ != "signature"@,
        "contact"@ != "vacation"@,
        "contact"@ != "rule"@,
        "contact"@ != "preferences"@,
        "signature"@ != "vacation"@,
        "signature"@ != "rule"@,
        "signature"@ != "preferences"@,
        "vacation"@ != "rule"@,
        "vacation"@ != "preferences"@,
        "rule"@ != "preferences"@,
{
    reveal_strlit("contact");
    reveal_strlit("signature");
    reveal_strlit("vacation");
    reveal_strlit("rule");
    reveal_strlit("preferences");
    assert("contact"@.len() == 7 && "signature"@.len() == 9 && "vacation"@.len() == 8 && "rule"@.len() == 4
        && "preferences"@.len() == 11);
}

/// A new rule has the field, text, folder and switch of the request, and an
/// identifier; it is looked at by the sender, moves to the archive and is on
/// where the request says nothing.
pub proof fn law_new_rule_is_what_was_asked(
    data: Tree,
    email: Seq<char>,
    payload: Tree,
    id: Seq<char>,
)
    ensures
        settings_after(data, email, "rule"@, payload, id) matches Ok(now) && {
            let rules = now.at("rules"@).items();
            let rule = rules.last();
            &&& rules.len() > 0
            &&& rule.at("id"@) == Tree::Text(id)
            &&& rule.at("field"@) == Tree::Text(looked_at(payload))
            &&& rule.at("contains"@) == Tree::Text(text_of_member(payload, "contains"@))
            &&& rule.at("action"@) == Tree::Text(moved_to(payload))
            &&& rule.at("enabled"@) == Tree::Bool(payload.get("enabled"@) != Some(Tree::Bool(false)))
            &&& looked_at(rule) == looked_at(payload)
            &&& moved_to(rule) == moved_to(payload)
        },
{
    lemma_kinds();
    reveal_strlit("");
    assert(""@ =~= Seq::<char>::empty());
    reveal_strlit("id");
    reveal_strlit("field");
    reveal_strlit("contains");
    reveal_strlit("action");
    reveal_strlit("enabled");
    assert("id"@.len() == 2 && "field"@.len() == 5 && "contains"@.len() == 8 && "action"@.len() == 6
        && "enabled"@.len() == 7);
    let rule = rule_of(id, payload);
    assert(payload.at("field"@).text_or("from"@) == looked_at(payload));
    assert(payload.at("action"@).text_or("Archive"@) == moved_to(payload));
    assert(payload.at("contains"@).text_or(""@) == text_of_member(payload, "contains"@));
    let rules = rules_with(data.at("rules"@).items(), rule);
    assert(rules.last() == rule);
    assert(rule.at("id"@) == Tree::Text(id));
    assert(rule.at("field"@) == Tree::Text(looked_at(payload)));
    assert(rule.at("contains"@) == Tree::Text(text_of_member(payload, "contains"@)));
    assert(rule.at("action"@) == Tree::Text(moved_to(payload)));
    assert(settings_after(data, email, "rule"@, payload, id) == Ok::<Tree, Seq<char>>(
        data.with("rules"@, Tree::Array(rules)),
    ));
}

/// Rules stay in their order when one is added; of more than fifty the oldest
/// are dropped.
pub proof fn law_newest_rules_stay(rules: Seq<Tree>, rule: Tree, i: int)
    requires
        0 <= i < rules_with(rules, rule).len(),
    ensures
        rules.len() < 50 ==> rules_with(rules, rule) == rules.push(rule),
        rules.len() >= 50 ==> rules_with(rules, rule).len() == 50 && rules_with(rules, rule)[i] == rules.push(
            rule,
        )[rules.len() - 49 + i],
{
}

/// The identifier of a rule is the start of the digest of its request: twelve
/// hexadecimal digits, or all there are.
pub proof fn law_rule_identifier_is_a_digest(request: Seq<u8>)
    ensures
        rule_id_of(request).len() <= 12,
        rule_id_of(request) == hex_text(sha1_digest(request)).subrange(0, rule_id_of(request).len() as int),
        rule_id_of(request).len() < 12 ==> rule_id_of(request) == hex_text(sha1_digest(request)),
{
    let h = hex_text(sha1_digest(request));
    if h.len() <= 12 {
        assert(h.subrange(0, h.len() as int) =~= h);
    }
}

/// The note for while someone is away is switched on only if the request says
/// so, and has the subject, on one line, and the text of the request.
pub proof fn law_vacation_note_is_what_was_asked(data: Tree, email: Seq<char>, payload: Tree, id: Seq<char>)
    ensures
        settings_after(data, email, "vacation"@, payload, id) matches Ok(now) && {
            let note = now.at("vacation"@);
            &&& note.at("enabled"@) == Tree::Bool(payload.get("enabled"@) == Some(Tree::Bool(true)))
            &&& note.at("subject"@) == Tree::Text(cleaned(text_of_member(payload, "subject"@)))
            &&& note.at("body"@) == Tree::Text(text_of_member(payload, "body"@))
        },
{
    lemma_kinds();
    reveal_strlit("");
    assert(""@ =~= Seq::<char>::empty());
    reveal_strlit("enabled");
    reveal_strlit("subject");
    reveal_strlit("body");
    assert("enabled"@[0] == 'e' && "subject"@[0] == 's' && "body"@[0] == 'b');
    let note = vacation_of(payload);
    assert(payload.at("subject"@).text_or(""@) == text_of_member(payload, "subject"@));
    assert(payload.at("body"@).text_or(""@) == text_of_member(payload, "body"@));
    assert(note.at("subject"@) == Tree::Text(cleaned(text_of_member(payload, "subject"@))));
    assert(settings_after(data, email, "vacation"@, payload, id) == Ok::<Tree, Seq<char>>(
        data.with("vacation"@, note),
    ));
}

/// A contact is kept with the name and address of the request, both on one line;
/// contacts with other addresses stay, and without an address none is added.
pub proof fn law_contact_is_what_was_asked(
    data: Tree,
    email: Seq<char>,
    payload: Tree,
    id: Seq<char>,
    other: Tree,
)
    ensures
        settings_after(data, email, "contact"@, payload, id) matches Ok(now) && {
            let contacts = now.at("contacts"@).items();
            let address = cleaned(text_of_member(payload, "email"@));
            &&& address.len() > 0 ==> contacts.contains(
                Tree::object().with("name"@, Tree::Text(cleaned(text_of_member(payload, "name"@)))).with(
                    "email"@,
                    Tree::Text(address),
                ),
            )
            &&& other.at("email"@) != Tree::Text(address) ==> contacts.contains(other) == data.at(
                "contacts"@,
            ).items().contains(other)
            &&& forall|i: int|
                0 <= i < contacts.len() && (#[trigger] contacts[i]).at("email"@) == Tree::Text(address)
                    ==> address.len() > 0
        },
{
    lemma_kinds();
    reveal_strlit("");
    assert(""@ =~= Seq::<char>::empty());
    assert(payload.at("email"@).text_or(""@) == text_of_member(payload, "email"@));
    assert(payload.at("name"@).text_or(""@) == text_of_member(payload, "name"@));
    let list = data.at("contacts"@).items();
    let address = cleaned(text_of_member(payload, "email"@));
    let name = cleaned(text_of_member(payload, "name"@));
    crate::webmail_laws::lemma_contacts(list, name, address);
    let kind = crate::webmail::other_contact(address);
    let now = contacts_with(list, name, address);
    let contact = crate::webmail::contact_of(name, address);
    assert(contact.at("email"@) == Tree::Text(address));
    if other.at("email"@) != Tree::Text(address) {
        assert(now.contains(other) == (list.filter(kind).contains(other) || (address.len() > 0 && other == contact)));
        if list.contains(other) {
            let k = choose|k: int| 0 <= k < list.len() && list[k] == other;
            assert(kind(list[k]));
            list.lemma_filter_contains(kind, k);
        }
        if list.filter(kind).contains(other) {
            list.lemma_filter_contains_rev(kind, other);
        }
    }
    assert(settings_after(data, email, "contact"@, payload, id) == Ok::<Tree, Seq<char>>(
        data.with("contacts"@, Tree::Array(now)),
    ));
    assert forall|i: int| 0 <= i < now.len() && (#[trigger] now[i]).at("email"@) == Tree::Text(address) implies address.len()
        > 0 by {
        if address.len() == 0 {
            assert(now.contains(now[i]));
            list.lemma_filter_contains_rev(kind, now[i]);
            let f = list.filter(kind);
            assert(f.contains(now[i]));
            let m = choose|m: int| 0 <= m < f.len() && f[m] == now[i];
            list.lemma_filter_pred(kind, m);
        }
    }
}

/// Preferences that a request names are set to its values, and the others stay.
pub proof fn law_preferences_are_what_was_asked(
    data: Tree,
    email: Seq<char>,
    payload: Tree,
    id: Seq<char>,
    key: Seq<char>,
)
    requires
        data.at("preferences"@) is Object,
    ensures
        settings_after(data, email, "preferences"@, payload, id) matches Ok(now) && {
            &&& payload.get(key) matches Some(v) ==> now.at("preferences"@).get(key) == Some(v)
            &&& payload.get(key) is None ==> now.at("preferences"@).get(key) == data.at("preferences"@).get(key)
        },
{
    lemma_kinds();
}

/// A signature goes to the mailbox that the request names, or else to the one it
/// comes from.
pub proof fn law_signature_goes_to_its_mailbox(data: Tree, email: Seq<char>, payload: Tree, id: Seq<char>)
    requires
        data.at("signatures"@) is Object,
    ensures
        settings_after(data, email, "signature"@, payload, id) matches Ok(now) && now.at("signatures"@).at(
            cleaned(
                match payload.get("email"@) {
                    Some(Tree::Text(e)) => e,
                    _ => email,
                },
            ),
        ) == Tree::Text(text_of_member(payload, "signature"@)),
{
    lemma_kinds();
    reveal_strlit("");
    assert(""@ =~= Seq::<char>::empty());
    assert(payload.at("signature"@).text_or(""@) == text_of_member(payload, "signature"@));
}

/// Requests for anything else than contacts, signatures, the vacation note,
/// rules and preferences are refused; so are signatures and preferences where
/// there is no place for them.
pub proof fn law_other_settings_are_refused(
    data: Tree,
    email: Seq<char>,
    kind: Seq<char>,
    payload: Tree,
    id: Seq<char>,
)
    ensures
        !(kind == "contact"@ || kind == "signature"@ || kind == "vacation"@ || kind == "rule"@ || kind
            == "preferences"@) ==> settings_after(data, email, kind, payload, id) == Err::<Tree, Seq<char>>(
            "unknown config kind"@,
        ),
        !(data.at("signatures"@) is Object) ==> settings_after(data, email, "signature"@, payload, id) == Err::<
            Tree,
            Seq<char>,
        >("invalid signatures state"@),
        !(data.at("preferences"@) is Object) ==> settings_after(data, email, "preferences"@, payload, id)
            == Err::<Tree, Seq<char>>("invalid preferences state"@),
        settings_reply(data).at("ok"@) == Tree::Bool(true),
        settings_reply(data).at("webmail"@) == data,
{
    lemma_kinds();
    reveal_strlit("ok");
    reveal_strlit("webmail");
    assert("ok"@.len() != "webmail"@.len());
}

/// An import takes over the five settings that it brings, and leaves those it
/// does not bring, and everything else, as they are.
pub proof fn law_import_takes_what_it_brings(data: Tree, payload: Tree, key: Seq<char>)
    requires
        data is Object,
    ensures
        ({
            let known = key == "contacts"@ || key == "signatures"@ || key == "vacation"@ || key == "rules"@ || key
                == "preferences"@;
            &&& known && payload.get(key) is Some ==> imported(data, payload).get(key) == payload.get(key)
            &&& !(known && payload.get(key) is Some) ==> imported(data, payload).get(key) == data.get(key)
        }),
{
    reveal_strlit("contacts");
    reveal_strlit("signatures");
    reveal_strlit("vacation");
    reveal_strlit("rules");
    reveal_strlit("preferences");
    assert("contacts"@[0] == 'c' && "signatures"@[0] == 's' && "vacation"@[0] == 'v' && "rules"@[0] == 'r'
        && "preferences"@[0] == 'p');
}

// ---------------------------------------------------------------------------
// Actions
// ---------------------------------------------------------------------------

/// Deleting moves a message to the trash, archiving to the archive, moving to
/// the folder that is named; spam is moved with its sender blocked; reading,
/// unreading and stars change flags. Nothing else can be done.
pub proof fn law_actions_do_what_they_are_called(target: Seq<char>, other: Seq<char>)
    requires
        other != "delete"@ && other != "archive"@ && other != "spam"@ && other != "move"@ && other != "read"@
            && other != "unread"@ && other != "star"@ && other != "unstar"@,
    ensures
        action_of("delete"@, target) == Some(ActionTree::MoveTo("Trash"@)),
        action_of("archive"@, target) == Some(ActionTree::MoveTo("Archive"@)),
        action_of("spam"@, target) == Some(ActionTree::Spam),
        action_of("move"@, target) == Some(ActionTree::MoveTo(target)),
        action_of("read"@, target) == Some(ActionTree::MarkRead),
        action_of("unread"@, target) == Some(ActionTree::MarkUnread),
        action_of("star"@, target) == Some(ActionTree::Star(true)),
        action_of("unstar"@, target) == Some(ActionTree::Star(false)),
        action_of(other, target) is None,
{
    reveal_strlit("delete");
    reveal_strlit("archive");
    reveal_strlit("spam");
    reveal_strlit("move");
    reveal_strlit("read");
    reveal_strlit("unread");
    reveal_strlit("star");
    reveal_strlit("unstar");
    assert("delete"@.len() == 6 && "delete"@[0] == 'd');
    assert("archive"@.len() == 7);
    assert("spam"@.len() == 4 && "spam"@[0] == 's' && "spam"@[1] == 'p');
    assert("move"@.len() == 4 && "move"@[0] == 'm');
    assert("read"@.len() == 4 && "read"@[0] == 'r');
    assert("unread"@.len() == 6 && "unread"@[0] == 'u' && "unread"@[2] == 'r');
    assert("star"@.len() == 4 && "star"@[0] == 's' && "star"@[1] == 't');
    assert("unstar"@.len() == 6 && "unstar"@[0] == 'u' && "unstar"@[2] == 's');
}

/// A message is sent by whom the request names, or else by the mailbox that the
/// request comes from.
pub proof fn law_sender_is_named_or_the_mailbox(email: Seq<char>, payload: Tree)
    ensures
        sender_of_request(email, payload) == cleaned(
            match payload.get("from"@) {
                Some(Tree::Text(f)) => f,
                _ => email,
            },
        ),
{
}

/// What the mail program says of a failure is shown up to four hundred
/// characters.
pub proof fn law_failures_are_cut(text: Seq<char>)
    ensures
        text.len() <= 400 ==> first_chars(text, FAILURE_SHOWN as int) == text,
        text.len() > 400 ==> first_chars(text, FAILURE_SHOWN as int) == text.take(400),
{
}

} // verus!
