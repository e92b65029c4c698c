//! What values hold, and how lists of them are sorted.
use crate::json::{members, text_array, text_items, trees, Json, Number, Tree};
use crate::order::{
    arranged, goes_first, lemma_order_complete, lemma_order_exists, order_of, sorted_by, Newest, Ranked,
    TextKey,
};
use vstd::prelude::*;

verus! {

/// A member that is set is found under its key, the others stay; a member that
/// is taken away is not found. What is no object becomes one when a member is
/// set.
pub proof fn law_members_are_set_and_taken_away(value: Tree, key: Seq<char>, member: Tree, other: Seq<char>)
    requires
        other != key,
    ensures
        value.with(key, member).get(key) == Some(member),
        value.with(key, member).at(key) == member,
        value is Object ==> value.with(key, member).get(other) == value.get(other),
        !(value is Object) ==> value.with(key, member).get(other) is None,
        value.without(key).get(key) is None,
        value is Object ==> value.without(key).get(other) == value.get(other),
        value.get(key) is None ==> value.at(key) == Tree::Null,
        value.get(key) == Some(member) ==> value.at(key) == member,
        !(value is Object) ==> value.get(key) is None,
        Tree::object().get(key) is None,
{
}

/// A value gives the text, truth value, number or items that it is; where it is
/// something else, the default comes out.
pub proof fn law_values_give_what_they_are(
    value: Tree,
    s: Seq<char>,
    on: bool,
    n: u64,
    m: i64,
    items: Seq<Tree>,
    default: Seq<char>,
    number: u64,
)
    ensures
        Tree::Text(s).text() == Some(s),
        Tree::Text(s).text_or(default) == s,
        !(value is Text) ==> value.text() is None && value.text_or(default) == default,
        Tree::Bool(on).bool_or(!on) == on,
        !(value is Bool) ==> value.bool_or(on) == on,
        Tree::Number(Number::Unsigned(n)).unsigned() == Some(n),
        Tree::Number(Number::Unsigned(n)).unsigned_or(number) == n,
        Tree::Number(Number::Negative(m)).unsigned() is None,
        !(value is Number) ==> value.unsigned() is None && value.unsigned_or(number) == number,
        n <= 0x7fff_ffff_ffff_ffff ==> Tree::Number(Number::Unsigned(n)).signed() == Some(n as i64),
        n > 0x7fff_ffff_ffff_ffff ==> Tree::Number(Number::Unsigned(n)).signed() is None,
        Tree::Number(Number::Negative(m)).signed() == Some(m),
        !(value is Number) ==> value.signed() is None,
        Tree::Array(items).items() == items,
        !(value is Array) ==> value.items().len() == 0,
        value is Object ==> value.as_object() == value,
        !(value is Object) ==> value.as_object() == Tree::Object(Map::empty()),
        value.settable() == (value is Object || value is Null),
{
}

/// An array of texts has the texts as its items, and they are read back.
pub proof fn law_texts_are_items(list: Seq<Seq<char>>, i: int)
    ensures
        text_array(list).items().len() == list.len(),
        0 <= i < list.len() ==> text_array(list).items()[i] == Tree::Text(list[i]),
        text_items(text_array(list).items()) == list,
{
    crate::json::lemma_text_items(list);
}

proof fn lemma_members_prefix(list: Seq<(String, Json)>, more: (String, Json), n: nat)
    requires
        n <= list.len(),
    ensures
        members(list.push(more), n) == members(list, n),
    decreases n,
{
    if n > 0 {
        lemma_members_prefix(list, more, (n - 1) as nat);
        assert(list.push(more)[n - 1] == list[n - 1]);
    }
}

/// An executable value holds what it is made of; of two members with the same
/// key the later one counts.
pub proof fn law_values_hold_what_they_are_made_of(
    s: String,
    on: bool,
    n: Number,
    v: Vec<Json>,
    i: int,
    list: Seq<(String, Json)>,
    more: (String, Json),
)
    ensures
        Json::Null@ == Tree::Null,
        Json::Bool(on)@ == Tree::Bool(on),
        Json::Number(n)@ == Tree::Number(n),
        Json::Text(s)@ == Tree::Text(s@),
        Json::Array(v)@ is Array,
        Json::Array(v)@.items().len() == v@.len(),
        0 <= i < v@.len() ==> Json::Array(v)@.items()[i] == v@[i]@,
        trees(v@).len() == v@.len(),
        0 <= i < v@.len() ==> trees(v@)[i] == v@[i]@,
        members(Seq::empty(), 0) == Map::<Seq<char>, Tree>::empty(),
        members(list.push(more), list.len() + 1) == members(list, list.len()).insert(more.0@, more.1@),
{
    lemma_members_prefix(list, more, list.len());
    assert(list.push(more)[list.len() as int] == more);
}

/// Sorting keeps every item, and moves none past another whose key is level.
pub proof fn law_sorting_keeps_every_item<K: Ranked, T>(list: Seq<T>, keys: Seq<K::V>, i: int, j: int)
    requires
        list.len() == keys.len(),
        0 <= i < j < list.len(),
        !K::precedes(keys[j], keys[i]),
    ensures
        sorted_by::<K, T>(list, keys).len() == list.len(),
        exists|a: int, b: int|
            0 <= a < b < list.len() && #[trigger] sorted_by::<K, T>(list, keys)[a] == list[i]
                && #[trigger] sorted_by::<K, T>(list, keys)[b] == list[j],
{
    lemma_order_exists::<K>(keys);
    let o = order_of::<K>(keys);
    lemma_order_complete::<K>(keys, o, i);
    lemma_order_complete::<K>(keys, o, j);
    let a = choose|a: int| 0 <= a < o.len() && o[a] == i;
    let b = choose|b: int| 0 <= b < o.len() && o[b] == j;
    let sorted = sorted_by::<K, T>(list, keys);
    assert(sorted == arranged(list, o));
    if b < a {
        assert(goes_first::<K>(keys, o[b], o[a]));
    }
    assert(a != b);
    assert(sorted[a] == list[i] && sorted[b] == list[j]);
}

/// Texts come in the order of their characters, and what has no text comes
/// first; newer times come before older ones, and what has no time comes last.
pub proof fn law_keys_are_ranked(a: Seq<char>, b: Seq<char>, x: u64, y: u64)
    ensures
        TextKey::precedes(Some(a), Some(b)) == crate::order::before(a, b),
        TextKey::precedes(None, Some(a)),
        !TextKey::precedes(Some(a), None),
        Newest::precedes(Some(x), Some(y)) == (x > y),
        Newest::precedes(Some(x), None),
        !Newest::precedes(None, Some(x)),
{
}

} // verus!
