//! The settings of webmail, its rules, and what can be done with messages.
use crate::address::{clean_addr, cleaned};
use crate::compose::{build_message, message_text, recipients_of};
use crate::json::{prepend_event, text_array, trees, with_event, Json, Tree};
use crate::maildir::{flagged_name, folder_suffix, seen_name_of, set_seen, suffix_of, update_flag};
use crate::order::{keys_of, sorted_by, TextKey};
use crate::outside::{hex_encode, hex_text, sha1, sha1_digest};
use crate::spam::count;
use crate::state::AUDIT_KEPT;
use crate::text::{
    contains, first_chars, has_text, lowered, opt_text, pair_texts, same, take_chars, texts, to_lower,
};
use crate::users::{arrange_rows, has_user, is_user, user_trees, MailUser};
use vstd::prelude::*;
use vstd::utf8::encode_utf8;

verus! {

/// The answer that shows the settings.
pub open spec fn settings_reply(data: Tree) -> Tree {
    Tree::object().with("ok"@, Tree::Bool(true)).with("webmail"@, data)
}

/// Answers with the settings.
pub fn webmail_export(data: &Json) -> (r: Json)
    ensures
        r@ == settings_reply(data@),
{
    Json::object().with("ok", Json::Bool(true)).with("webmail", data.copy())
}

// ---------------------------------------------------------------------------
// Contacts
// ---------------------------------------------------------------------------

/// The kind of contacts with another address.
pub open spec fn other_contact(email: Seq<char>) -> spec_fn(Tree) -> bool {
    |c: Tree| c.at("email"@) != Tree::Text(email)
}

/// A contact.
pub open spec fn contact_of(name: Seq<char>, email: Seq<char>) -> Tree {
    Tree::object().with("name"@, Tree::Text(name)).with("email"@, Tree::Text(email))
}

/// The keys by which contacts are sorted.
pub open spec fn contact_keys(list: Seq<Tree>) -> Seq<Option<Seq<char>>> {
    list.map_values(|c: Tree| c.at("email"@).text())
}

/// The contacts with one put in the place of those of its address, sorted by
/// address; without an address there is none to put.
pub open spec fn contacts_with(list: Seq<Tree>, name: Seq<char>, email: Seq<char>) -> Seq<Tree> {
    let kept = list.filter(other_contact(email));
    let all = if email.len() > 0 {
        kept.push(contact_of(name, email))
    } else {
        kept
    };
    sorted_by::<TextKey, Tree>(all, contact_keys(all))
}

fn contacts_without(list: &Vec<Json>, email: &str) -> (r: Vec<Json>)
    ensures
        trees(r@) == trees(list@).filter(other_contact(email@)),
{
    let ghost all = trees(list@);
    let ghost kind = other_contact(email@);
    let mut out: Vec<Json> = Vec::new();
    let mut i: usize = 0;
    proof {
        reveal(Seq::filter);
        assert(trees(out@) =~= all.take(0).filter(kind));
    }
    while i < list.len()
        invariant
            i <= list@.len(),
            all == trees(list@),
            kind == other_contact(email@),
            trees(out@) == all.take(i as int).filter(kind),
        decreases list@.len() - i,
    {
        let ghost out0 = out@;
        proof {
            reveal(Seq::filter);
            assert(all.take(i + 1).drop_last() =~= all.take(i as int));
            assert(all.take(i + 1).last() == list@[i as int]@);
        }
        let other = match list[i].opt_text_at("email") {
            Some(e) => !same(e.as_str(), email),
            None => true,
        };
        if other {
            out.push(list[i].copy());
            proof {
                assert(trees(out@) =~= trees(out0).push(list@[i as int]@));
            }
        }
        i += 1;
    }
    proof {
        assert(all.take(all.len() as int) =~= all);
    }
    out
}

/// Puts a contact in the place of those of its address.
pub fn put_contact(list: &Vec<Json>, name: &str, email: &str) -> (r: Vec<Json>)
    ensures
        trees(r@) == contacts_with(trees(list@), name@, email@),
{
    let mut all = contacts_without(list, email);
    let ghost kept = trees(all@);
    if !email.is_empty() {
        let contact = Json::object().with("name", Json::text(name)).with("email", Json::text(email));
        all.push(contact);
        proof {
            assert(trees(all@) =~= kept.push(contact_of(name@, email@)));
        }
    }
    let mut keys: Vec<TextKey> = Vec::new();
    let mut i: usize = 0;
    while i < all.len()
        invariant
            i <= all@.len(),
            keys@.len() == i,
            forall|j: int| 0 <= j < i ==> (#[trigger] keys@[j])@ == all@[j]@.at("email"@).text(),
        decreases all@.len() - i,
    {
        keys.push(TextKey(all[i].opt_text_at("email")));
        i += 1;
    }
    proof {
        assert(keys_of(keys@) =~= contact_keys(trees(all@)));
    }
    arrange_rows(&all, &keys)
}

// ---------------------------------------------------------------------------
// Settings
// ---------------------------------------------------------------------------

/// The most rules that are kept.
pub const RULES_MAX: usize = 50;

/// The length of the identifier of a rule.
pub const RULE_ID_LENGTH: usize = 12;

/// The identifier of a rule: the start of the digest of the request for it.
pub open spec fn rule_id_of(request: Seq<u8>) -> Seq<char> {
    first_chars(hex_text(sha1_digest(request)), RULE_ID_LENGTH as int)
}

/// Makes the identifier of a rule.
pub fn rule_id(request: &[u8]) -> (r: String)
    ensures
        r@ == rule_id_of(request@),
{
    take_chars(hex_encode(sha1(request).as_slice()).as_str(), RULE_ID_LENGTH)
}

/// A rule.
pub open spec fn rule_of(id: Seq<char>, payload: Tree) -> Tree {
    Tree::object().with("id"@, Tree::Text(id)).with(
        "field"@,
        Tree::Text(payload.at("field"@).text_or("from"@)),
    ).with("contains"@, Tree::Text(payload.at("contains"@).text_or(""@))).with(
        "action"@,
        Tree::Text(payload.at("action"@).text_or("Archive"@)),
    ).with("enabled"@, Tree::Bool(payload.at("enabled"@).bool_or(true)))
}

/// The rules with one more, the newest that there is room for.
pub open spec fn rules_with(rules: Seq<Tree>, rule: Tree) -> Seq<Tree> {
    let all = rules.push(rule);
    if all.len() > RULES_MAX {
        all.skip(all.len() - RULES_MAX)
    } else {
        all
    }
}

/// The note that is sent while someone is away.
pub open spec fn vacation_of(payload: Tree) -> Tree {
    Tree::object().with("enabled"@, Tree::Bool(payload.at("enabled"@).bool_or(false))).with(
        "subject"@,
        Tree::Text(cleaned(payload.at("subject"@).text_or(""@))),
    ).with("body"@, Tree::Text(payload.at("body"@).text_or(""@)))
}

/// An object with the members of another put into it, if that is an object.
pub open spec fn members_put(base: Tree, more: Tree) -> Tree {
    match (base, more) {
        (Tree::Object(b), Tree::Object(m)) => Tree::Object(b.union_prefer_right(m)),
        _ => base,
    }
}

/// The settings after a request, or why it fails. The identifier is that of the
/// rule that the request would make.
pub open spec fn settings_after(
    data: Tree,
    email: Seq<char>,
    kind: Seq<char>,
    payload: Tree,
    id: Seq<char>,
) -> Result<Tree, Seq<char>> {
    if kind == "contact"@ {
        Ok(
            data.with(
                "contacts"@,
                Tree::Array(
                    contacts_with(
                        data.at("contacts"@).items(),
                        cleaned(payload.at("name"@).text_or(""@)),
                        cleaned(payload.at("email"@).text_or(""@)),
                    ),
                ),
            ),
        )
    } else if kind == "signature"@ {
        if data.at("signatures"@) is Object {
            Ok(
                data.with(
                    "signatures"@,
                    data.at("signatures"@).with(
                        cleaned(payload.at("email"@).text_or(email)),
                        Tree::Text(payload.at("signature"@).text_or(""@)),
                    ),
                ),
            )
        } else {
            Err("invalid signatures state"@)
        }
    } else if kind == "vacation"@ {
        Ok(data.with("vacation"@, vacation_of(payload)))
    } else if kind == "rule"@ {
        Ok(
            data.with(
                "rules"@,
                Tree::Array(rules_with(data.at("rules"@).items(), rule_of(id, payload))),
            ),
        )
    } else if kind == "preferences"@ {
        if data.at("preferences"@) is Object {
            Ok(data.with("preferences"@, members_put(data.at("preferences"@), payload)))
        } else {
            Err("invalid preferences state"@)
        }
    } else {
        Err("unknown config kind"@)
    }
}

/// Whether a request is for something that can be set.
pub open spec fn is_setting(kind: Seq<char>) -> bool {
    kind == "contact"@ || kind == "signature"@ || kind == "vacation"@ || kind == "rule"@ || kind
        == "preferences"@
}

/// Whether a setting can be changed in settings: there is a place for it.
pub fn can_set(data: &Json, kind: &str) -> (r: bool)
    ensures
        r == (is_setting(kind@) ==> data@.settable()),
{
    data.is_settable() || !(same(kind, "contact") || same(kind, "signature") || same(kind, "vacation") || same(
        kind,
        "rule",
    ) || same(kind, "preferences"))
}

/// Adds a rule with an identifier to the rules.
pub fn put_rule(rules: Vec<Json>, id: &str, payload: &Json) -> (r: Vec<Json>)
    ensures
        trees(r@) == rules_with(trees(rules@), rule_of(id@, payload@)),
{
    let rule = Json::object()
        .with("id", Json::text(id))
        .with("field", Json::text(payload.text_at("field", "from").as_str()))
        .with("contains", Json::text(payload.text_at("contains", "").as_str()))
        .with("action", Json::text(payload.text_at("action", "Archive").as_str()))
        .with("enabled", Json::Bool(payload.bool_at("enabled", true)));
    let ghost before = trees(rules@);
    let mut all = rules;
    all.push(rule);
    let ghost longer = trees(all@);
    proof {
        assert(longer =~= before.push(rule_of(id@, payload@)));
        assert(longer.len() == all@.len());
    }
    if all.len() <= RULES_MAX {
        return all;
    }
    let start: usize = all.len() - RULES_MAX;
    let mut out: Vec<Json> = Vec::new();
    let mut i: usize = start;
    while i < all.len()
        invariant
            start <= i <= all@.len(),
            out@.len() == i - start,
            forall|j: int| 0 <= j < out@.len() ==> (#[trigger] out@[j])@ == all@[start + j]@,
        decreases all@.len() - i,
    {
        out.push(all[i].copy());
        i += 1;
    }
    proof {
        assert(trees(out@) =~= longer.skip(start as int));
    }
    out
}

/// Puts the members of one object into another.
fn put_members(base: &mut Json, more: &Json)
    requires
        old(base)@ is Object,
    ensures
        final(base)@ == members_put(old(base)@, more@),
{
    let ghost b = base@->Object_0;
    if let Json::Object(list) = more {
        let mut i: usize = 0;
        proof {
            assert(b.union_prefer_right(crate::json::members(list@, 0)) =~= b);
        }
        while i < list.len()
            invariant
                i <= list@.len(),
                base@ == Tree::Object(b.union_prefer_right(crate::json::members(list@, i as nat))),
            decreases list@.len() - i,
        {
            base.set(list[i].0.as_str(), list[i].1.copy());
            proof {
                let before = crate::json::members(list@, i as nat);
                let now = crate::json::members(list@, (i + 1) as nat);
                assert(now == before.insert(list@[i as int].0@, list@[i as int].1@));
                assert(b.union_prefer_right(before).insert(list@[i as int].0@, list@[i as int].1@)
                    =~= b.union_prefer_right(now));
            }
            i += 1;
        }
    }
}

/// Changes the settings as a request asks, and answers with them. The settings
/// stay as they are where the request fails. The last argument is the payload as
/// JSON text, which gives a new rule its identifier; that these bytes spell the
/// payload is up to the caller, since a payload can hold floating-point numbers.
pub fn webmail_config(data: &mut Json, email: &str, kind: &str, payload: &Json, request: &[u8]) -> (r: Result<
    Json,
    String,
>)
    requires
        is_setting(kind@) ==> old(data)@.settable(),
    ensures
        match r {
            Ok(reply) => {
                &&& settings_after(old(data)@, email@, kind@, payload@, rule_id_of(request@)) == Ok::<
                    Tree,
                    Seq<char>,
                >(final(data)@)
                &&& reply@ == settings_reply(final(data)@)
            },
            Err(e) => {
                &&& settings_after(old(data)@, email@, kind@, payload@, rule_id_of(request@)) == Err::<
                    Tree,
                    Seq<char>,
                >(e@)
                &&& final(data)@ == old(data)@
            },
        },
{
    if same(kind, "contact") {
        let address = clean_addr(payload.text_at("email", "").as_str());
        let name = clean_addr(payload.text_at("name", "").as_str());
        let list = data.items_at("contacts");
        data.set("contacts", Json::array(put_contact(&list, name.as_str(), address.as_str())));
    } else if same(kind, "signature") {
        let key = clean_addr(payload.text_at("email", email).as_str());
        let mut signatures = data.copy_at("signatures");
        if !signatures.is_object() {
            return Err("invalid signatures state".to_owned());
        }
        signatures.set(key.as_str(), Json::text(payload.text_at("signature", "").as_str()));
        data.set("signatures", signatures);
    } else if same(kind, "vacation") {
        let note = Json::object()
            .with("enabled", Json::Bool(payload.bool_at("enabled", false)))
            .with("subject", Json::text(clean_addr(payload.text_at("subject", "").as_str()).as_str()))
            .with("body", Json::text(payload.text_at("body", "").as_str()));
        data.set("vacation", note);
    } else if same(kind, "rule") {
        let id = rule_id(request);
        let rules = data.items_at("rules");
        data.set("rules", Json::array(put_rule(rules, id.as_str(), payload)));
    } else if same(kind, "preferences") {
        let mut preferences = data.copy_at("preferences");
        if !preferences.is_object() {
            return Err("invalid preferences state".to_owned());
        }
        put_members(&mut preferences, payload);
        data.set("preferences", preferences);
    } else {
        return Err("unknown config kind".to_owned());
    }
    Ok(webmail_export(data))
}

/// Settings with a member taken from an import, if that has it.
pub open spec fn with_import(data: Tree, payload: Tree, key: Seq<char>) -> Tree {
    match payload.get(key) {
        Some(v) => data.with(key, v),
        None => data,
    }
}

/// Settings after an import.
pub open spec fn imported(data: Tree, payload: Tree) -> Tree {
    with_import(
        with_import(
            with_import(
                with_import(with_import(data, payload, "contacts"@), payload, "signatures"@),
                payload,
                "vacation"@,
            ),
            payload,
            "rules"@,
        ),
        payload,
        "preferences"@,
    )
}

/// Whether an import brings anything.
pub open spec fn brings_any(payload: Tree) -> bool {
    payload.get("contacts"@) is Some || payload.get("signatures"@) is Some || payload.get("vacation"@) is Some
        || payload.get("rules"@) is Some || payload.get("preferences"@) is Some
}

fn import_member(data: &mut Json, payload: &Json, key: &str)
    requires
        payload@.get(key@) is Some ==> old(data)@.settable(),
    ensures
        final(data)@ == with_import(old(data)@, payload@, key@),
{
    if let Some(v) = payload.get(key) {
        data.set(key, v.copy());
    }
}

/// Whether settings can be taken from an import: there is a place for what it
/// brings.
pub fn can_import(data: &Json, payload: &Json) -> (r: bool)
    ensures
        r == (brings_any(payload@) ==> data@.settable()),
{
    data.is_settable() || !(payload.get("contacts").is_some() || payload.get("signatures").is_some()
        || payload.get("vacation").is_some() || payload.get("rules").is_some() || payload.get(
        "preferences",
    ).is_some())
}

/// Takes settings from an import, records it, and answers with the settings.
pub fn webmail_import(data: &mut Json, payload: &Json, at: u64) -> (r: Json)
    requires
        brings_any(payload@) ==> old(data)@.settable(),
    ensures
        final(data)@ == with_event(
            imported(old(data)@, payload@),
            "audit"@,
            at,
            "Settings imported"@,
            AUDIT_KEPT as int,
        ),
        r@ == settings_reply(final(data)@),
{
    import_member(data, payload, "contacts");
    import_member(data, payload, "signatures");
    import_member(data, payload, "vacation");
    import_member(data, payload, "rules");
    import_member(data, payload, "preferences");
    prepend_event(data, "audit", at, "Settings imported", AUDIT_KEPT);
    webmail_export(data)
}

// ---------------------------------------------------------------------------
// Rules
// ---------------------------------------------------------------------------

/// The kind of rules that are switched on.
pub open spec fn switched_on() -> spec_fn(Tree) -> bool {
    |rule: Tree| rule.at("enabled"@).bool_or(true)
}

/// The rules that are switched on.
pub open spec fn active_of(data: Tree) -> Seq<Tree> {
    data.at("rules"@).items().filter(switched_on())
}

/// Lists the rules that are switched on.
pub fn active_rules(data: &Json) -> (r: Vec<Json>)
    ensures
        trees(r@) == active_of(data@),
{
    let rules = data.items_at("rules");
    let ghost all = data@.at("rules"@).items();
    let ghost kind = switched_on();
    let mut out: Vec<Json> = Vec::new();
    let mut i: usize = 0;
    proof {
        reveal(Seq::filter);
        assert(trees(out@) =~= all.take(0).filter(kind));
    }
    while i < rules.len()
        invariant
            i <= rules@.len(),
            all == trees(rules@),
            kind == switched_on(),
            trees(out@) == all.take(i as int).filter(kind),
        decreases rules@.len() - i,
    {
        let ghost out0 = out@;
        proof {
            reveal(Seq::filter);
            assert(all.take(i + 1).drop_last() =~= all.take(i as int));
            assert(all.take(i + 1).last() == rules@[i as int]@);
        }
        if rules[i].bool_at("enabled", true) {
            out.push(rules[i].copy());
            proof {
                assert(trees(out@) =~= trees(out0).push(rules@[i as int]@));
            }
        }
        i += 1;
    }
    proof {
        assert(all.take(all.len() as int) =~= all);
    }
    out
}

/// Whether a rule moves a message out of a folder: the text it looks for stands
/// in the field it looks at, whatever the case, and it names another folder.
pub open spec fn rule_moves(rule: Tree, item: Tree, folder: Seq<char>) -> bool {
    let wanted = lowered(rule.at("contains"@).text_or(""@));
    let target = rule.at("action"@).text_or("Archive"@);
    wanted.len() > 0 && has_text(
        lowered(item.at(rule.at("field"@).text_or("from"@)).text_or(""@)),
        wanted,
    ) && suffix_of(target) is Some && target != folder
}

/// The folder that the first rule that moves a message names.
pub open spec fn target_of(rules: Seq<Tree>, item: Tree, folder: Seq<char>) -> Option<Seq<char>>
    decreases rules.len(),
{
    if rules.len() == 0 {
        None
    } else if rule_moves(rules[0], item, folder) {
        Some(rules[0].at("action"@).text_or("Archive"@))
    } else {
        target_of(rules.skip(1), item, folder)
    }
}

/// Finds the folder that the rules move a message to, given its summary.
pub fn rule_target(rules: &Vec<Json>, item: &Json, folder: &str) -> (r: Option<String>)
    ensures
        opt_text(r) == target_of(trees(rules@), item@, folder@),
{
    let ghost all = trees(rules@);
    let mut i: usize = 0;
    proof {
        assert(all.skip(0) =~= all);
    }
    while i < rules.len()
        invariant
            i <= rules@.len(),
            all == trees(rules@),
            target_of(all, item@, folder@) == target_of(all.skip(i as int), item@, folder@),
        decreases rules@.len() - i,
    {
        proof {
            assert(all.skip(i as int)[0] == rules@[i as int]@);
            assert(all.skip(i as int).skip(1) =~= all.skip(i + 1));
        }
        let field = rules[i].text_at("field", "from");
        let wanted = to_lower(rules[i].text_at("contains", "").as_str());
        let target = rules[i].text_at("action", "Archive");
        let held = to_lower(item.text_at(field.as_str(), "").as_str());
        let known = match folder_suffix(target.as_str()) {
            Ok(_) => true,
            Err(_) => false,
        };
        if !wanted.as_str().is_empty() && contains(held.as_str(), wanted.as_str()) && known && !same(
            target.as_str(),
            folder,
        ) {
            return Some(target);
        }
        i += 1;
    }
    None
}

/// The folders that optional strings name.
pub open spec fn opt_texts(v: Seq<Option<String>>) -> Seq<Option<Seq<char>>> {
    v.map_values(|s: Option<String>| opt_text(s))
}

/// The folder that rules move a message to.
pub open spec fn target_for(rules: Seq<Tree>, folder: Seq<char>) -> spec_fn(Tree) -> Option<Seq<char>> {
    |item: Tree| target_of(rules, item, folder)
}

/// Finds for each message of a folder where the rules move it to, given their
/// summaries.
pub fn rule_targets(rules: &Vec<Json>, items: &Vec<Json>, folder: &str) -> (r: Vec<Option<String>>)
    ensures
        opt_texts(r@) == trees(items@).map_values(target_for(trees(rules@), folder@)),
{
    let ghost all = trees(items@);
    let ghost named = target_for(trees(rules@), folder@);
    let mut out: Vec<Option<String>> = Vec::new();
    let mut i: usize = 0;
    while i < items.len()
        invariant
            i <= items@.len(),
            all == trees(items@),
            named == target_for(trees(rules@), folder@),
            out@.len() == i,
            forall|j: int| 0 <= j < i ==> opt_text(#[trigger] out@[j]) == named(all[j]),
        decreases items@.len() - i,
    {
        proof {
            assert(all[i as int] == items@[i as int]@);
        }
        out.push(rule_target(rules, &items[i], folder));
        i += 1;
    }
    proof {
        assert(opt_texts(out@) =~= all.map_values(named));
    }
    out
}

/// The kind of targets of messages that are moved.
pub open spec fn is_moved() -> spec_fn(Option<Seq<char>>) -> bool {
    |t: Option<Seq<char>>| t is Some
}

/// Answers how many messages the rules move, given where each of them goes.
pub fn webmail_apply_rules(targets: &Vec<Option<String>>) -> (r: Json)
    ensures
        r@ == Tree::object().with("ok"@, Tree::Bool(true)).with(
            "moved"@,
            count(opt_texts(targets@).filter(is_moved()).len() as u64),
        ),
        opt_texts(targets@).filter(is_moved()).len() <= u64::MAX,
{
    let ghost all = opt_texts(targets@);
    let ghost kind = is_moved();
    let mut moved: usize = 0;
    let mut i: usize = 0;
    proof {
        reveal(Seq::filter);
    }
    while i < targets.len()
        invariant
            moved <= i <= targets@.len(),
            all == opt_texts(targets@),
            kind == is_moved(),
            moved == all.take(i as int).filter(kind).len(),
        decreases targets@.len() - i,
    {
        proof {
            reveal(Seq::filter);
            assert(all.take(i + 1).drop_last() =~= all.take(i as int));
            assert(all.take(i + 1).last() == opt_text(targets@[i as int]));
        }
        if targets[i].is_some() {
            moved += 1;
        }
        i += 1;
    }
    proof {
        assert(all.take(all.len() as int) =~= all);
    }
    Json::object().with("ok", Json::Bool(true)).with("moved", Json::unsigned(moved as u64))
}

// ---------------------------------------------------------------------------
// Actions on messages
// ---------------------------------------------------------------------------

/// What is done with a message.
#[derive(Debug, PartialEq, Eq)]
pub enum MessageAction {
    /// It goes to a folder.
    MoveTo(String),
    /// Its sender is blocked, and it goes to the spam folder.
    Spam,
    /// It is marked as read.
    MarkRead,
    /// It is marked as new.
    MarkUnread,
    /// It gets a star or loses it.
    Star(bool),
}

/// What is done with a message.
pub ghost enum ActionTree {
    MoveTo(Seq<char>),
    Spam,
    MarkRead,
    MarkUnread,
    Star(bool),
}

impl View for MessageAction {
    type V = ActionTree;

    open spec fn view(&self) -> ActionTree {
        match self {
            MessageAction::MoveTo(f) => ActionTree::MoveTo(f@),
            MessageAction::Spam => ActionTree::Spam,
            MessageAction::MarkRead => ActionTree::MarkRead,
            MessageAction::MarkUnread => ActionTree::MarkUnread,
            MessageAction::Star(b) => ActionTree::Star(*b),
        }
    }
}

/// What an action is called.
pub open spec fn action_of(action: Seq<char>, target: Seq<char>) -> Option<ActionTree> {
    if action == "delete"@ {
        Some(ActionTree::MoveTo("Trash"@))
    } else if action == "archive"@ {
        Some(ActionTree::MoveTo("Archive"@))
    } else if action == "spam"@ {
        Some(ActionTree::Spam)
    } else if action == "move"@ {
        Some(ActionTree::MoveTo(target))
    } else if action == "read"@ {
        Some(ActionTree::MarkRead)
    } else if action == "unread"@ {
        Some(ActionTree::MarkUnread)
    } else if action == "star"@ {
        Some(ActionTree::Star(true))
    } else if action == "unstar"@ {
        Some(ActionTree::Star(false))
    } else {
        None
    }
}

/// Finds what is to be done with a message.
pub fn webmail_action(action: &str, target: &str) -> (r: Result<MessageAction, String>)
    ensures
        match r {
            Ok(a) => action_of(action@, target@) == Some(a@),
            Err(e) => action_of(action@, target@) is None && e@ == "unknown message action"@,
        },
{
    if same(action, "delete") {
        Ok(MessageAction::MoveTo("Trash".to_owned()))
    } else if same(action, "archive") {
        Ok(MessageAction::MoveTo("Archive".to_owned()))
    } else if same(action, "spam") {
        Ok(MessageAction::Spam)
    } else if same(action, "move") {
        Ok(MessageAction::MoveTo(target.to_owned()))
    } else if same(action, "read") {
        Ok(MessageAction::MarkRead)
    } else if same(action, "unread") {
        Ok(MessageAction::MarkUnread)
    } else if same(action, "star") {
        Ok(MessageAction::Star(true))
    } else if same(action, "unstar") {
        Ok(MessageAction::Star(false))
    } else {
        Err("unknown message action".to_owned())
    }
}

/// The directory and file name that a message gets in its folder by an action,
/// if the action leaves it there and changes them.
pub open spec fn place_after(action: ActionTree, subdir: Seq<char>, name: Seq<char>) -> Option<
    (Seq<char>, Seq<char>),
> {
    match action {
        ActionTree::MarkRead => if subdir == "new"@ {
            Some(("cur"@, seen_name_of(name)))
        } else {
            None
        },
        ActionTree::MarkUnread => Some(("new"@, flagged_name(name, 'S', false))),
        ActionTree::Star(on) => Some((subdir, flagged_name(name, 'F', on))),
        _ => None,
    }
}

/// Finds the directory and file name that a message gets in its folder by an
/// action.
pub fn renamed(action: &MessageAction, subdir: &str, name: &str) -> (r: Option<(String, String)>)
    ensures
        pair_texts(r) == place_after(action@, subdir@, name@),
{
    match action {
        MessageAction::MarkRead => match set_seen(subdir, name) {
            Some(n) => Some(("cur".to_owned(), n)),
            None => None,
        },
        MessageAction::MarkUnread => Some(("new".to_owned(), update_flag(name, 'S', false))),
        MessageAction::Star(on) => Some((subdir.to_owned(), update_flag(name, 'F', *on))),
        _ => None,
    }
}

/// Answers that an action was done.
pub fn action_reply(action: &str) -> (r: Json)
    ensures
        r@ == Tree::object().with("ok"@, Tree::Bool(true)).with("action"@, Tree::Text(action@)),
{
    Json::object().with("ok", Json::Bool(true)).with("action", Json::text(action))
}

// ---------------------------------------------------------------------------
// Sending
// ---------------------------------------------------------------------------

/// A message that is ready to be sent or saved.
#[derive(Debug, PartialEq, Eq)]
pub struct Outgoing {
    pub sender: String,
    pub message: Vec<u8>,
    pub recipients: Vec<String>,
}

/// The sender that a request names, or else the mailbox it comes from.
pub open spec fn sender_of_request(email: Seq<char>, payload: Tree) -> Seq<char> {
    cleaned(payload.at("from"@).text_or(email))
}

/// Builds the message that a request asks to send; the sender must be a mailbox
/// of the platform.
pub fn webmail_send(
    users: &Vec<MailUser>,
    email: &str,
    payload: &Json,
    date: &str,
    at: u64,
    pid: u32,
) -> (r: Result<Outgoing, String>)
    ensures
        ({
            let sender = sender_of_request(email@, payload@);
            let text = message_text(sender, payload@, date@, at, pid);
            match r {
                Ok(o) => {
                    &&& has_user(user_trees(users@), sender)
                    &&& o.sender@ == sender
                    &&& text matches Ok(t)
                    &&& o.message@ == encode_utf8(t)
                    &&& texts(o.recipients@) == recipients_of(payload@)
                },
                Err(e) => if has_user(user_trees(users@), sender) {
                    text == Err::<Seq<char>, Seq<char>>(e@)
                } else {
                    e@ == "sender mailbox not found"@
                },
            }
        }),
{
    let sender = clean_addr(payload.text_at("from", email).as_str());
    if !is_user(users, sender.as_str()) {
        return Err("sender mailbox not found".to_owned());
    }
    match build_message(sender.as_str(), payload, date, at, pid) {
        Ok((message, recipients)) => Ok(Outgoing { sender, message, recipients }),
        Err(e) => Err(e),
    }
}

/// How much of what the mail program wrote of its failure is shown.
pub const FAILURE_SHOWN: usize = 400;

/// Shows what the mail program wrote of its failure.
pub fn send_failure(stderr: &str) -> (r: String)
    ensures
        r@ == first_chars(stderr@, FAILURE_SHOWN as int),
{
    take_chars(stderr, FAILURE_SHOWN)
}

/// Answers that a message was sent.
pub fn sent_reply(recipients: &Vec<String>) -> (r: Json)
    ensures
        r@ == Tree::object().with("ok"@, Tree::Bool(true)).with("sent"@, Tree::Bool(true)).with(
            "recipients"@,
            text_array(texts(recipients@)),
        ),
{
    Json::object()
        .with("ok", Json::Bool(true))
        .with("sent", Json::Bool(true))
        .with("recipients", Json::texts(recipients))
}

/// A member of a request, or a default.
pub open spec fn member_or(payload: Tree, key: Seq<char>, default: Tree) -> Tree {
    match payload.get(key) {
        Some(v) => v,
        None => default,
    }
}

/// The request for a message that a draft is.
pub open spec fn draft_of(payload: Tree) -> Tree {
    Tree::object().with("to"@, member_or(payload, "to"@, Tree::Text(""@))).with(
        "cc"@,
        member_or(payload, "cc"@, Tree::Text(""@)),
    ).with("bcc"@, member_or(payload, "bcc"@, Tree::Text(""@))).with(
        "subject"@,
        member_or(payload, "subject"@, Tree::Text("(draft)"@)),
    ).with("body"@, member_or(payload, "body"@, Tree::Text(""@))).with(
        "attachments"@,
        member_or(payload, "attachments"@, Tree::Array(Seq::empty())),
    )
}

fn copy_or(payload: &Json, key: &str, default: Json) -> (r: Json)
    ensures
        r@ == member_or(payload@, key@, default@),
{
    match payload.get(key) {
        Some(v) => v.copy(),
        None => default,
    }
}

/// Builds the message that a request asks to save as a draft.
pub fn webmail_draft(email: &str, payload: &Json, date: &str, at: u64, pid: u32) -> (r: Result<Vec<u8>, String>)
    ensures
        ({
            let sender = sender_of_request(email@, payload@);
            let text = message_text(sender, draft_of(payload@), date@, at, pid);
            match r {
                Ok(message) => text matches Ok(t) && message@ == encode_utf8(t),
                Err(e) => text == Err::<Seq<char>, Seq<char>>(e@),
            }
        }),
{
    let sender = clean_addr(payload.text_at("from", email).as_str());
    let draft = Json::object()
        .with("to", copy_or(payload, "to", Json::text("")))
        .with("cc", copy_or(payload, "cc", Json::text("")))
        .with("bcc", copy_or(payload, "bcc", Json::text("")))
        .with("subject", copy_or(payload, "subject", Json::text("(draft)")))
        .with("body", copy_or(payload, "body", Json::text("")))
        .with("attachments", copy_or(payload, "attachments", crate::state::empty_array()));
    match build_message(sender.as_str(), &draft, date, at, pid) {
        Ok((message, _)) => Ok(message),
        Err(e) => Err(e),
    }
}

/// Answers with the name under which a draft was saved.
pub fn draft_reply(name: &str) -> (r: Json)
    ensures
        r@ == Tree::object().with("ok"@, Tree::Bool(true)).with("draft"@, Tree::Text(name@)),
{
    Json::object().with("ok", Json::Bool(true)).with("draft", Json::text(name))
}

} // verus!
