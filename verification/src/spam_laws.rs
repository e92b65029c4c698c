//! What a state says of the anti-spam policy after it was changed.
use crate::antispam::{
    can_record, configured, configured_state, recorded, with_number, with_request, with_switch,
};
use crate::json::{filled, law_filled_again, law_filled_keeps_members, text_array, Tree};
use crate::order::{ascending, lemma_ascending_unique};
use crate::spam::{count, entries, entries_of, listed, listed_first, policy_default, policy_of};
use crate::text::{
    among, ascii_lower, ascii_only, lemma_pieces_kind, lemma_pieces_whole, lemma_trimmed, lemma_trimmed_fixed,
    lowered, pieces, trimmed, white_space,
};
use vstd::prelude::*;

verus! {

/// A value with the defaults filled in stays so when a member is set to a value
/// that is no object.
proof fn lemma_filled_with(value: Tree, defaults: Tree, key: Seq<char>, member: Tree)
    requires
        value is Object,
        filled(value, defaults) == value,
        !(member is Object),
    ensures
        filled(value.with(key, member), defaults) == value.with(key, member),
{
    if let Tree::Object(d) = defaults {
        let m = value->Object_0;
        let now = value.with(key, member)->Object_0;
        let f = filled(value.with(key, member), defaults)->Object_0;
        let same = filled(value, defaults)->Object_0;
        assert(same == m);
        assert forall|k: Seq<char>| f.contains_key(k) == now.contains_key(k) && (now.contains_key(k)
            ==> #[trigger] f[k] == now[k]) by {
            assert(same.contains_key(k) == m.contains_key(k));
            if k == key {
                if d.contains_key(k) {
                    assert(filled(member, d[k]) == member);
                }
            } else if m.contains_key(k) {
                assert(same[k] == m[k]);
            }
        }
        assert(f =~= now);
    }
}

/// The policy of a state is filled in.
proof fn lemma_policy_filled(data: Tree)
    ensures
        filled(policy_of(data), policy_default()) == policy_of(data),
{
    let held = match data.as_object().get("spamPolicy"@) {
        Some(p) => p,
        None => policy_default(),
    };
    law_filled_again(held, policy_default());
}

/// The policy that a state holds after a change is read from then on as it was
/// set, with nothing filled in that the change left out; if the policy was an
/// object before.
pub proof fn law_configured_policy_is_read(data: Tree, payload: Tree, at: u64)
    requires
        policy_of(data) is Object,
    ensures
        policy_of(configured_state(data, payload, at)) == configured(policy_of(data), payload),
{
    let d = policy_default();
    let p = policy_of(data);
    lemma_policy_filled(data);
    let a = with_switch(p, payload, "enabled"@);
    if let Tree::Bool(b) = payload.at("enabled"@) {
        lemma_filled_with(p, d, "enabled"@, Tree::Bool(b));
    }
    let b = with_switch(a, payload, "autoMove"@);
    if let Tree::Bool(x) = payload.at("autoMove"@) {
        lemma_filled_with(a, d, "autoMove"@, Tree::Bool(x));
    }
    let c = with_number(b, payload, "threshold"@, 1, 20);
    if let Some(n) = payload.at("threshold"@).signed() {
        lemma_filled_with(b, d, "threshold"@, c.at("threshold"@));
    }
    let e = with_number(c, payload, "maxLinks"@, 0, 100);
    if let Some(n) = payload.at("maxLinks"@).signed() {
        lemma_filled_with(c, d, "maxLinks"@, e.at("maxLinks"@));
    }
    let f = with_request(e, payload);
    if let Tree::Text(field) = payload.at("field"@) {
        if crate::antispam::list_fields().contains(field) {
            lemma_filled_with(e, d, field, f.at(field));
        }
    }
    assert(f == configured(p, payload));
    assert(filled(f, d) == f);
    reveal_strlit("events");
    reveal_strlit("spamPolicy");
    assert("events"@[0] == 'e' && "spamPolicy"@[0] == 's');
    assert(configured_state(data, payload, at).as_object().get("spamPolicy"@) == Some(f));
}

/// A scan that was recorded is counted: the state says from then on that so many
/// more messages were scanned and moved, and when.
pub proof fn law_recorded_scan_is_counted(data: Tree, scanned: nat, moved: nat, at: u64)
    requires
        can_record(data, scanned, moved),
    ensures
        ({
            let before = policy_of(data).at("stats"@);
            let now = policy_of(recorded(data, scanned, moved, at)).at("stats"@);
            &&& now.at("scanned"@).unsigned_or(0) == before.at("scanned"@).unsigned_or(0) + scanned
            &&& now.at("moved"@).unsigned_or(0) == before.at("moved"@).unsigned_or(0) + moved
            &&& now.at("lastScan"@) == count(at)
        }),
{
    let d = policy_default();
    let state = recorded(data, scanned, moved, at);
    let policy = state.as_object().get("spamPolicy"@)->0;
    let stats = policy.at("stats"@);
    reveal_strlit("scanned");
    reveal_strlit("moved");
    reveal_strlit("lastScan");
    assert("scanned"@.len() == 7 && "moved"@.len() == 5 && "lastScan"@.len() == 8);
    assert(policy is Object && stats is Object);
    assert(d.get("stats"@) is Some && d.at("stats"@) is Object);
    assert(policy_of(state).at("stats"@) == filled(stats, d.at("stats"@)));
    law_filled_keeps_members(stats, d.at("stats"@), "scanned"@);
    law_filled_keeps_members(stats, d.at("stats"@), "moved"@);
    law_filled_keeps_members(stats, d.at("stats"@), "lastScan"@);
}

/// Whether all texts that a value lists are ASCII.
pub open spec fn lists_ascii(values: Tree) -> bool
    decreases values,
{
    match values {
        Tree::Text(s) => ascii_only(s),
        Tree::Array(items) => forall|i: int| 0 <= i < items.len() ==> lists_ascii(#[trigger] items[i]),
        _ => true,
    }
}

/// The kind of characters between entries.
pub open spec fn separator() -> spec_fn(char) -> bool {
    among(seq!['\n', ',', ';'])
}

/// Whether a text is an entry that cleaning does not change.
pub open spec fn is_clean(e: Seq<char>) -> bool {
    &&& e.len() > 0
    &&& trimmed(e) == e
    &&& lowered(e) == e
    &&& forall|i: int| 0 <= i < e.len() ==> !separator()(#[trigger] e[i])
}

/// A piece of ASCII text becomes an entry that cleaning does not change.
proof fn lemma_entry_is_clean(piece: Seq<char>)
    requires
        ascii_only(piece),
        forall|i: int| 0 <= i < piece.len() ==> !separator()(#[trigger] piece[i]),
        lowered(trimmed(piece)).len() > 0,
    ensures
        is_clean(lowered(trimmed(piece))),
{
    let t = trimmed(piece);
    lemma_trimmed(piece);
    let k = choose|k: int|
        0 <= k <= piece.len() - t.len() && t == #[trigger] piece.subrange(k, k + t.len());
    assert forall|i: int| 0 <= i < t.len() implies (#[trigger] t[i]) as u32 <= 127 && !separator()(t[i]) by {
        assert(t[i] == piece[k + i]);
    }
    assert(ascii_only(t));
    let e = lowered(t);
    assert(e.len() == t.len());
    assert forall|i: int| 0 <= i < e.len() implies (#[trigger] e[i]) == ascii_lower(t[i]) && (e[i] as u32) <= 127
        && ascii_lower(e[i]) == e[i] && !separator()(e[i]) && white_space(e[i]) == white_space(t[i]) by {
        assert(!separator()(t[i]));
        lemma_separator(t[i]);
        lemma_separator(e[i]);
    }
    assert(ascii_only(e));
    assert(lowered(e) =~= e);
    assert(e[0] == ascii_lower(t[0]));
    assert(e[e.len() - 1] == ascii_lower(t[t.len() - 1]));
    lemma_trimmed_fixed(e);
}

proof fn lemma_separator(c: char)
    ensures
        separator()(c) == (c == '\n' || c == ',' || c == ';'),
{
    let marks = seq!['\n', ',', ';'];
    assert(marks[0] == '\n' && marks[1] == ',' && marks[2] == ';');
}

/// The entries of pieces of ASCII text are not changed by cleaning.
proof fn lemma_entries_are_clean(parts: Seq<Seq<char>>)
    requires
        forall|i: int| 0 <= i < parts.len() ==> ascii_only(#[trigger] parts[i]),
        forall|i: int, j: int|
            0 <= i < parts.len() && 0 <= j < parts[i].len() ==> !separator()(#[trigger] parts[i][j]),
    ensures
        forall|k: int|
            0 <= k < entries_of(parts, false).len() ==> is_clean(#[trigger] entries_of(parts, false)[k]),
    decreases parts.len(),
{
    if parts.len() > 0 {
        let init = parts.drop_last();
        let last = parts[parts.len() - 1];
        assert forall|i: int| 0 <= i < init.len() implies ascii_only(#[trigger] init[i]) by {
            assert(init[i] == parts[i]);
        }
        assert forall|i: int, j: int| 0 <= i < init.len() && 0 <= j < init[i].len() implies !separator()(
            #[trigger] init[i][j],
        ) by {
            assert(init[i][j] == parts[i][j]);
        }
        lemma_entries_are_clean(init);
        assert(ascii_only(last));
        assert forall|j: int| 0 <= j < last.len() implies !separator()(#[trigger] last[j]) by {
            assert(last[j] == parts[parts.len() - 1][j]);
        }
        if lowered(trimmed(last)).len() > 0 {
            lemma_entry_is_clean(last);
        }
        let before = entries_of(init, false);
        let now = entries_of(parts, false);
        assert(parts.last() == last);
        assert forall|k: int| 0 <= k < now.len() implies is_clean(#[trigger] now[k]) by {
            if k < before.len() {
                assert(is_clean(before[k]));
            }
        }
    }
}

/// The entries that an ASCII value lists are not changed by cleaning.
proof fn lemma_listed_is_clean(values: Tree)
    requires
        lists_ascii(values),
    ensures
        forall|e: Seq<char>| #[trigger] listed(values, false).contains(e) ==> is_clean(e),
    decreases values, 0nat,
{
    match values {
        Tree::Text(s) => {
            let parts = pieces(s, separator());
            lemma_pieces_kind(s, separator());
            assert forall|i: int, j: int| 0 <= i < parts.len() && 0 <= j < parts[i].len() implies !separator()(
                #[trigger] parts[i][j],
            ) && (parts[i][j] as u32) <= 127 by {
                let c = parts[i][j];
                let k = choose|k: int| 0 <= k < s.len() && s[k] == c;
                assert(s[k] as u32 <= 127);
            }
            assert forall|i: int| 0 <= i < parts.len() implies ascii_only(#[trigger] parts[i]) by {
                assert forall|j: int| 0 <= j < parts[i].len() implies (#[trigger] parts[i][j]) as u32 <= 127 by {
                }
            }
            lemma_entries_are_clean(parts);
            let found = entries_of(parts, false);
            assert(listed(values, false) == found.to_set());
            assert forall|e: Seq<char>| #[trigger] listed(values, false).contains(e) implies is_clean(e) by {
                let k = choose|k: int| 0 <= k < found.len() && found[k] == e;
                assert(is_clean(found[k]));
            }
        },
        Tree::Array(items) => {
            lemma_first_are_clean(items, items.len());
            assert(listed(values, false) == listed_first(items, items.len(), false));
            assert forall|e: Seq<char>| #[trigger] listed(values, false).contains(e) implies is_clean(e) by {
                assert(listed_first(items, items.len(), false).contains(e));
            }
        },
        _ => {
            assert(listed(values, false) =~= Set::empty());
        },
    }
}

proof fn lemma_first_are_clean(items: Seq<Tree>, n: nat)
    requires
        n <= items.len(),
        forall|i: int| 0 <= i < items.len() ==> lists_ascii(#[trigger] items[i]),
    ensures
        forall|e: Seq<char>| #[trigger] listed_first(items, n, false).contains(e) ==> is_clean(e),
    decreases items, n,
{
    if n > 0 {
        lemma_first_are_clean(items, (n - 1) as nat);
        assert(lists_ascii(items[n - 1]));
        lemma_listed_is_clean(items[n - 1]);
        assert forall|e: Seq<char>| #[trigger] listed_first(items, n, false).contains(e) implies is_clean(e) by {
            assert(listed_first(items, (n - 1) as nat, false).contains(e) || listed(
                items[n - 1],
                false,
            ).contains(e));
        }
    }
}

/// A list of entries that cleaning does not change lists just them.
proof fn lemma_listed_again(list: Seq<Seq<char>>, n: nat)
    requires
        n <= list.len(),
        forall|i: int| 0 <= i < list.len() ==> is_clean(#[trigger] list[i]),
    ensures
        listed_first(text_array(list)->Array_0, n, false) == list.take(n as int).to_set(),
    decreases n,
{
    let items = text_array(list)->Array_0;
    if n == 0 {
        assert(list.take(0).to_set() =~= Set::empty());
    } else {
        lemma_listed_again(list, (n - 1) as nat);
        let e = list[n - 1];
        assert(is_clean(e));
        lemma_pieces_whole(e, separator());
        let one = seq![e];
        assert(one.drop_last() =~= Seq::empty());
        assert(entries_of(one.drop_last(), false) =~= Seq::empty());
        assert(one.last() == e);
        assert(entries(e, false) =~= seq![e]);
        assert(items[n - 1] == Tree::Text(e));
        assert(listed(items[n - 1], false) == seq![e].to_set());
        let before = list.take(n - 1);
        let now = list.take(n as int);
        assert(now =~= before.push(e));
        assert(now.to_set() =~= before.to_set().union(seq![e].to_set())) by {
            assert forall|x: Seq<char>| now.to_set().contains(x) == before.to_set().union(
                seq![e].to_set(),
            ).contains(x) by {
                if now.contains(x) {
                    let k = choose|k: int| 0 <= k < now.len() && now[k] == x;
                    if k < before.len() {
                        assert(before[k] == x);
                    } else {
                        assert(seq![e][0] == x);
                    }
                }
                if before.contains(x) {
                    let k = choose|k: int| 0 <= k < before.len() && before[k] == x;
                    assert(now[k] == x);
                }
                if seq![e].contains(x) {
                    assert(now[n - 1] == x);
                }
            }
        }
    }
}

/// Cleaning a cleaned list changes nothing, where cleaning does not change any
/// of its entries: `list` is what cleaning makes of a value, and `again` is what
/// cleaning makes of `list`.
pub proof fn law_cleaned_list_stays(values: Tree, list: Seq<Seq<char>>, again: Seq<Seq<char>>)
    requires
        ascending(list),
        list.to_set() == listed(values, false),
        ascending(again),
        again.to_set() == listed(text_array(list), false),
    ensures
        (forall|i: int| 0 <= i < list.len() ==> is_clean(#[trigger] list[i])) ==> again == list,
{
    if forall|i: int| 0 <= i < list.len() ==> is_clean(#[trigger] list[i]) {
        lemma_listed_again(list, list.len());
        assert(list.take(list.len() as int) =~= list);
        lemma_ascending_unique(again, list);
    }
}

/// Cleaning a cleaned list of ASCII texts changes nothing: none of its entries
/// is changed by cleaning.
pub proof fn law_cleaned_ascii_list_stays(values: Tree, list: Seq<Seq<char>>, again: Seq<Seq<char>>)
    requires
        lists_ascii(values),
        ascending(list),
        list.to_set() == listed(values, false),
        ascending(again),
        again.to_set() == listed(text_array(list), false),
    ensures
        again == list,
{
    lemma_listed_is_clean(values);
    assert forall|i: int| 0 <= i < list.len() implies is_clean(#[trigger] list[i]) by {
        assert(list.to_set().contains(list[i]));
    }
    law_cleaned_list_stays(values, list, again);
}

} // verus!
