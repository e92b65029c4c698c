//! The anti-spam policy and its lists.
use crate::json::{
    filled, lemma_text_items, merge_defaults, text_array, text_items, Json, Number, Tree,
};
use crate::order::{ascending, insert_ascending, lemma_ascending_unique};
use crate::text::{
    among, holds, lowered, pieces, same, split_any, strip_start, stripped_start, texts, to_lower,
    trim, trimmed,
};
use vstd::prelude::*;

verus! {

/// The subjects that count as spam at first.
pub open spec fn default_keywords() -> Seq<Seq<char>> {
    seq![
        "crypto"@,
        "lottery"@,
        "winner"@,
        "urgent payment"@,
        "gift card"@,
        "wire transfer"@,
    ]
}

/// The extensions of attachments that count as spam at first.
pub open spec fn default_extensions() -> Seq<Seq<char>> {
    seq!["exe"@, "scr"@, "bat"@, "cmd"@, "js"@, "vbs"@, "ps1"@, "jar"@]
}

/// A number as a JSON value.
pub open spec fn count(n: u64) -> Tree {
    Tree::Number(Number::Unsigned(n))
}

/// The policy that holds at first.
pub open spec fn policy_default() -> Tree {
    Tree::object()
        .with("enabled"@, Tree::Bool(true))
        .with("autoMove"@, Tree::Bool(true))
        .with("threshold"@, count(5))
        .with("blocklist"@, text_array(seq![]))
        .with("allowlist"@, text_array(seq![]))
        .with("domainBlocklist"@, text_array(seq![]))
        .with("subjectKeywords"@, text_array(default_keywords()))
        .with("attachmentExtensions"@, text_array(default_extensions()))
        .with("maxLinks"@, count(10))
        .with(
            "stats"@,
            Tree::object().with("scanned"@, count(0)).with("moved"@, count(0)).with("lastScan"@, count(0)),
        )
}

fn no_texts() -> (r: Json)
    ensures
        r@ == text_array(seq![]),
{
    let none: Vec<String> = Vec::new();
    proof {
        assert(texts(none@) =~= seq![]);
    }
    Json::texts(&none)
}

/// The policy that holds at first.
pub fn spam_policy_default() -> (r: Json)
    ensures
        r@ == policy_default(),
{
    let keywords = vec![
        "crypto".to_owned(),
        "lottery".to_owned(),
        "winner".to_owned(),
        "urgent payment".to_owned(),
        "gift card".to_owned(),
        "wire transfer".to_owned(),
    ];
    let extensions = vec![
        "exe".to_owned(),
        "scr".to_owned(),
        "bat".to_owned(),
        "cmd".to_owned(),
        "js".to_owned(),
        "vbs".to_owned(),
        "ps1".to_owned(),
        "jar".to_owned(),
    ];
    proof {
        assert(texts(keywords@) =~= default_keywords());
        assert(texts(extensions@) =~= default_extensions());
    }
    let stats = Json::object()
        .with("scanned", Json::unsigned(0))
        .with("moved", Json::unsigned(0))
        .with("lastScan", Json::unsigned(0));
    Json::object()
        .with("enabled", Json::Bool(true))
        .with("autoMove", Json::Bool(true))
        .with("threshold", Json::unsigned(5))
        .with("blocklist", no_texts())
        .with("allowlist", no_texts())
        .with("domainBlocklist", no_texts())
        .with("subjectKeywords", Json::texts(&keywords))
        .with("attachmentExtensions", Json::texts(&extensions))
        .with("maxLinks", Json::unsigned(10))
        .with("stats", stats)
}

/// The policy of a state, with what it leaves open filled in.
pub open spec fn policy_of(data: Tree) -> Tree {
    filled(
        match data.as_object().get("spamPolicy"@) {
            Some(p) => p,
            None => policy_default(),
        },
        policy_default(),
    )
}

/// A state whose policy is filled in.
pub open spec fn with_policy(data: Tree) -> Tree {
    data.as_object().with("spamPolicy"@, policy_of(data))
}

/// Reads the policy of a state, and fills in what it leaves open.
pub fn spam_policy(data: &mut Json) -> (r: Json)
    ensures
        r@ == policy_of(old(data)@),
        final(data)@ == with_policy(old(data)@),
{
    let defaults = spam_policy_default();
    data.make_object();
    let mut entry = match data.get("spamPolicy") {
        Some(p) => p.copy(),
        None => spam_policy_default(),
    };
    merge_defaults(&mut entry, &defaults);
    let out = entry.copy();
    data.set("spamPolicy", entry);
    out
}

// ---------------------------------------------------------------------------
// Lists
// ---------------------------------------------------------------------------

/// The entries that a text lists: between line feeds, commas and semicolons,
/// trimmed and in lower case, the empty ones left out; of domains, without at
/// signs before them.
pub open spec fn entries(s: Seq<char>, domain: bool) -> Seq<Seq<char>> {
    entries_of(pieces(s, among(seq!['\n', ',', ';'])), domain)
}

/// The entries that pieces of a text are.
pub open spec fn entries_of(parts: Seq<Seq<char>>, domain: bool) -> Seq<Seq<char>>
    decreases parts.len(),
{
    if parts.len() == 0 {
        Seq::empty()
    } else {
        let before = entries_of(parts.drop_last(), domain);
        let value = lowered(trimmed(parts.last()));
        if value.len() == 0 {
            before
        } else if domain {
            before.push(stripped_start(value, '@'))
        } else {
            before.push(value)
        }
    }
}

/// The entries that a value lists: those of a text, and those of all items of
/// an array.
pub open spec fn listed(values: Tree, domain: bool) -> Set<Seq<char>>
    decreases values, 0nat,
{
    match values {
        Tree::Text(s) => entries(s, domain).to_set(),
        Tree::Array(items) => listed_first(items, items.len(), domain),
        _ => Set::empty(),
    }
}

/// The entries that the first items of an array list.
pub open spec fn listed_first(items: Seq<Tree>, n: nat, domain: bool) -> Set<Seq<char>>
    decreases items, n,
{
    if n == 0 || n > items.len() {
        Set::empty()
    } else {
        listed_first(items, (n - 1) as nat, domain).union(listed(items[n - 1], domain))
    }
}

fn add_entries(s: &str, domain: bool, out: &mut Vec<String>)
    requires
        ascending(texts(old(out)@)),
    ensures
        ascending(texts(final(out)@)),
        texts(final(out)@).to_set() == texts(old(out)@).to_set().union(entries(s@, domain).to_set()),
{
    let marks = vec!['\n', ',', ';'];
    proof {
        assert(marks@ =~= seq!['\n', ',', ';']);
    }
    let parts = split_any(s, marks);
    let ghost all = texts(parts@);
    let ghost start = texts(out@).to_set();
    let mut i: usize = 0;
    proof {
        assert(entries_of(all.take(0), domain).to_set() =~= Set::empty());
        assert(start.union(Set::empty()) =~= start);
    }
    while i < parts.len()
        invariant
            i <= parts@.len(),
            all == texts(parts@),
            ascending(texts(out@)),
            texts(out@).to_set() == start.union(entries_of(all.take(i as int), domain).to_set()),
        decreases parts@.len() - i,
    {
        let ghost before = entries_of(all.take(i as int), domain);
        proof {
            assert(all.take(i + 1).drop_last() =~= all.take(i as int));
            assert(all.take(i + 1).last() == parts@[i as int]@);
        }
        let value = to_lower(trim(parts[i].as_str()).as_str());
        if !value.as_str().is_empty() {
            let item = if domain {
                strip_start(value.as_str(), '@')
            } else {
                value
            };
            let ghost t = item@;
            insert_ascending(out, item);
            proof {
                lemma_push_set(before, t);
                assert(texts(out@).to_set() =~= start.union(before.push(t).to_set()));
            }
        }
        i += 1;
    }
    proof {
        assert(all.take(all.len() as int) =~= all);
    }
}

proof fn lemma_push_set(list: Seq<Seq<char>>, item: Seq<char>)
    ensures
        list.push(item).to_set() == list.to_set().insert(item),
{
    let longer = list.push(item);
    assert forall|x: Seq<char>| longer.to_set().contains(x) == list.to_set().insert(item).contains(x) by {
        if list.contains(x) {
            let k = choose|k: int| 0 <= k < list.len() && list[k] == x;
            assert(longer[k] == x);
        }
        if longer.contains(x) && x != item {
            let k = choose|k: int| 0 <= k < longer.len() && longer[k] == x;
            assert(list[k] == x);
        }
        assert(longer[list.len() as int] == item);
    }
    assert(longer.to_set() =~= list.to_set().insert(item));
}

fn add_listed(values: &Json, domain: bool, out: &mut Vec<String>)
    requires
        ascending(texts(old(out)@)),
    ensures
        ascending(texts(final(out)@)),
        texts(final(out)@).to_set() == texts(old(out)@).to_set().union(listed(values@, domain)),
    decreases values,
{
    let ghost start = texts(out@).to_set();
    match values {
        Json::Text(s) => add_entries(s.as_str(), domain, out),
        Json::Array(items) => {
            let ghost all = values@->Array_0;
            let mut i: usize = 0;
            proof {
                assert(start.union(Set::empty()) =~= start);
            }
            while i < items.len()
                invariant
                    i <= items@.len(),
                    *values == Json::Array(*items),
                    all == values@->Array_0,
                    all.len() == items@.len(),
                    ascending(texts(out@)),
                    texts(out@).to_set() == start.union(listed_first(all, i as nat, domain)),
                decreases items@.len() - i,
            {
                proof {
                    crate::json::lemma_array_smaller(*values, i as int);
                    assert(all[i as int] == items@[i as int]@);
                }
                add_listed(&items[i], domain, out);
                proof {
                    assert(texts(out@).to_set() =~= start.union(listed_first(all, (i + 1) as nat, domain)));
                }
                i += 1;
            }
        },
        _ => {
            proof {
                assert(start.union(Set::empty()) =~= start);
            }
        },
    }
}

/// Lists the entries of a value in ascending order, each once.
pub fn clean_list(values: &Json, domain: bool) -> (r: Vec<String>)
    ensures
        ascending(texts(r@)),
        texts(r@).to_set() == listed(values@, domain),
{
    let mut out: Vec<String> = Vec::new();
    proof {
        assert(texts(out@).to_set() =~= Set::empty());
        assert(Set::empty().union(listed(values@, domain)) =~= listed(values@, domain));
    }
    add_listed(values, domain, &mut out);
    out
}

/// The entries that a list holds after a change: those of the change, those
/// that the change does not name, or those of both.
pub open spec fn changed(current: Set<Seq<char>>, mode: Seq<char>, incoming: Set<Seq<char>>) -> Set<Seq<char>> {
    if mode == "set"@ {
        incoming
    } else if mode == "remove"@ {
        current.difference(incoming)
    } else {
        current.union(incoming)
    }
}

/// The ascending list of the entries of a set.
pub open spec fn in_order(s: Set<Seq<char>>) -> Seq<Seq<char>> {
    choose|l: Seq<Seq<char>>| ascending(l) && l.to_set() == s
}

/// The longest list of a policy.
pub const LIST_MAX: usize = 200;

/// The first entries of a set, as many as a list holds.
pub open spec fn list_of(s: Set<Seq<char>>) -> Seq<Seq<char>> {
    if in_order(s).len() > LIST_MAX {
        in_order(s).take(LIST_MAX as int)
    } else {
        in_order(s)
    }
}

/// The entries that a value lists for one of the lists of a policy.
pub open spec fn listed_for(values: Tree, field: Seq<char>) -> Set<Seq<char>> {
    listed(values, field == "domainBlocklist"@)
}

/// A policy with one of its lists changed.
pub open spec fn with_list(policy: Tree, field: Seq<char>, mode: Seq<char>, values: Tree) -> Tree {
    policy.with(
        field,
        text_array(list_of(changed(listed_for(policy.at(field), field), mode, listed_for(values, field)))),
    )
}

proof fn lemma_in_order(l: Seq<Seq<char>>)
    requires
        ascending(l),
    ensures
        in_order(l.to_set()) == l,
{
    let s = l.to_set();
    assert(ascending(l) && l.to_set() == s);
    lemma_ascending_unique(in_order(s), l);
}

/// What remains of an ascending list without some entries.
fn without_entries(current: &Vec<String>, gone: &Vec<String>) -> (r: Vec<String>)
    requires
        ascending(texts(current@)),
    ensures
        ascending(texts(r@)),
        texts(r@).to_set() == texts(current@).to_set().difference(texts(gone@).to_set()),
{
    let ghost all = texts(current@);
    let ghost left = texts(gone@);
    let mut out: Vec<String> = Vec::new();
    let mut i: usize = 0;
    proof {
        assert(texts(out@).to_set() =~= all.take(0).to_set().difference(left.to_set()));
    }
    while i < current.len()
        invariant
            i <= current@.len(),
            all == texts(current@),
            left == texts(gone@),
            ascending(texts(out@)),
            texts(out@).to_set() == all.take(i as int).to_set().difference(left.to_set()),
        decreases current@.len() - i,
    {
        let ghost before = all.take(i as int);
        let ghost now = texts(out@).to_set();
        proof {
            assert(all.take(i + 1) =~= before.push(current@[i as int]@));
            lemma_push_set(before, current@[i as int]@);
        }
        if !holds(gone, current[i].as_str()) {
            insert_ascending(&mut out, current[i].clone());
            proof {
                assert(texts(out@).to_set() =~= all.take(i + 1).to_set().difference(left.to_set()));
            }
        } else {
            proof {
                assert(left.to_set().contains(current@[i as int]@));
                assert(now =~= all.take(i + 1).to_set().difference(left.to_set()));
            }
        }
        i += 1;
    }
    proof {
        assert(all.take(all.len() as int) =~= all);
    }
    out
}

/// Adds entries to an ascending list.
fn with_entries(current: &mut Vec<String>, incoming: &Vec<String>)
    requires
        ascending(texts(old(current)@)),
    ensures
        ascending(texts(final(current)@)),
        texts(final(current)@).to_set() == texts(old(current)@).to_set().union(texts(incoming@).to_set()),
{
    let ghost start = texts(current@).to_set();
    let ghost all = texts(incoming@);
    let mut i: usize = 0;
    proof {
        assert(start.union(all.take(0).to_set()) =~= start);
    }
    while i < incoming.len()
        invariant
            i <= incoming@.len(),
            all == texts(incoming@),
            ascending(texts(current@)),
            texts(current@).to_set() == start.union(all.take(i as int).to_set()),
        decreases incoming@.len() - i,
    {
        insert_ascending(current, incoming[i].clone());
        proof {
            let t = incoming@[i as int]@;
            assert(all.take(i + 1) =~= all.take(i as int).push(t));
            lemma_push_set(all.take(i as int), t);
            assert(texts(current@).to_set() =~= start.union(all.take(i + 1).to_set()));
        }
        i += 1;
    }
    proof {
        assert(all.take(all.len() as int) =~= all);
    }
}

/// Changes one of the lists of a policy: replaces it, removes entries from it
/// or adds entries to it. The list is in ascending order, repeats nothing, and
/// is not too long. What was removed is not on it, and what was added is, unless
/// the list is full.
pub fn update_policy_list(policy: &mut Json, field: &str, mode: &str, values: &Json)
    requires
        old(policy)@.settable(),
    ensures
        final(policy)@ == with_list(old(policy)@, field@, mode@, values@),
        ascending(text_items(final(policy)@.at(field@).items())),
        text_items(final(policy)@.at(field@).items()).len() <= LIST_MAX,
        mode@ == "remove"@ ==> forall|e: Seq<char>| #[trigger]
            text_items(final(policy)@.at(field@).items()).contains(e) ==> !listed_for(
                values@,
                field@,
            ).contains(e),
        mode@ != "remove"@ && text_items(final(policy)@.at(field@).items()).len() < LIST_MAX ==> forall|
            e: Seq<char>,
        | #[trigger]
            listed_for(values@, field@).contains(e) ==> text_items(
                final(policy)@.at(field@).items(),
            ).contains(e),
{
    let domain = same(field, "domainBlocklist");
    let held = policy.copy_at(field);
    let mut current = clean_list(&held, domain);
    let incoming = clean_list(values, domain);
    if same(mode, "set") {
        current = incoming;
    } else if same(mode, "remove") {
        current = without_entries(&current, &incoming);
    } else {
        with_entries(&mut current, &incoming);
    }
    let ghost whole = texts(current@);
    proof {
        lemma_in_order(whole);
    }
    if current.len() > LIST_MAX {
        current.truncate(LIST_MAX);
        proof {
            assert(texts(current@) =~= whole.take(LIST_MAX as int));
        }
    }
    proof {
        lemma_text_items(texts(current@));
        assert forall|i: int, j: int| 0 <= i < j < texts(current@).len() implies crate::order::before(
            #[trigger] texts(current@)[i],
            #[trigger] texts(current@)[j],
        ) by {
            assert(texts(current@)[i] == whole[i]);
            assert(texts(current@)[j] == whole[j]);
        }
        assert forall|e: Seq<char>| #[trigger] texts(current@).contains(e) implies whole.to_set().contains(e) by {
            let k = choose|k: int| 0 <= k < texts(current@).len() && texts(current@)[k] == e;
            assert(whole[k] == e);
        }
        reveal_strlit("set");
        reveal_strlit("remove");
        assert("set"@.len() != "remove"@.len());
    }
    policy.set(field, Json::texts(&current));
    proof {
        let kept = text_items(policy@.at(field@).items());
        assert(kept == texts(current@));
        let named = listed_for(values@, field@);
        assert(whole.to_set() == changed(listed_for(old(policy)@.at(field@), field@), mode@, named));
        assert forall|e: Seq<char>| mode@ == "remove"@ && #[trigger] kept.contains(e) implies !named.contains(e) by {
            assert(whole.to_set().contains(e));
        }
        assert forall|e: Seq<char>|
            mode@ != "remove"@ && kept.len() < LIST_MAX && #[trigger] named.contains(e) implies kept.contains(e) by {
            assert(kept == whole);
            assert(whole.to_set().contains(e));
        }
    }
}

} // verus!
