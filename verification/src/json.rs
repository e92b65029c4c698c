//! JSON values: what they hold, looking things up, changing objects, and
//! filling in defaults.
use crate::text::{same, texts};
use vstd::prelude::*;

verus! {

/// A number of a JSON value: not negative, negative, or a floating-point number
/// given by its bits.
#[derive(Clone, Copy, Debug, PartialEq, Eq, Structural)]
pub enum Number {
    Unsigned(u64),
    Negative(i64),
    Float(u64),
}

/// A JSON value. Where an object lists a member more than once, the last one
/// counts.
#[derive(Debug, PartialEq, Eq)]
pub enum Json {
    Null,
    Bool(bool),
    Number(Number),
    Text(String),
    Array(Vec<Json>),
    Object(Vec<(String, Json)>),
}

/// What a JSON value holds.
pub ghost enum Tree {
    Null,
    Bool(bool),
    Number(Number),
    Text(Seq<char>),
    Array(Seq<Tree>),
    Object(Map<Seq<char>, Tree>),
}

/// What a JSON value holds.
pub open spec fn tree(j: Json) -> Tree
    decreases j, 0nat,
{
    match j {
        Json::Null => Tree::Null,
        Json::Bool(b) => Tree::Bool(b),
        Json::Number(n) => Tree::Number(n),
        Json::Text(s) => Tree::Text(s@),
        Json::Array(v) => Tree::Array(
            Seq::new(
                v@.len(),
                |i: int|
                    if 0 <= i < v@.len() {
                        tree(v@[i])
                    } else {
                        Tree::Null
                    },
            ),
        ),
        Json::Object(v) => Tree::Object(members(v@, v@.len())),
    }
}

/// What the first members of a list hold.
pub open spec fn members(v: Seq<(String, Json)>, n: nat) -> Map<Seq<char>, Tree>
    decreases v, n,
{
    if n == 0 || n > v.len() {
        Map::empty()
    } else {
        members(v, (n - 1) as nat).insert(v[n - 1].0@, tree(v[n - 1].1))
    }
}

impl View for Json {
    type V = Tree;

    open spec fn view(&self) -> Tree {
        tree(*self)
    }
}

/// What the values of a list hold.
pub open spec fn trees(v: Seq<Json>) -> Seq<Tree> {
    Seq::new(v.len(), |i: int| v[i]@)
}

/// What an optional value holds.
pub open spec fn opt_tree(j: Option<&Json>) -> Option<Tree> {
    match j {
        Some(x) => Some(x@),
        None => None,
    }
}

impl Tree {
    /// A member of an object.
    pub open spec fn get(self, key: Seq<char>) -> Option<Tree> {
        match self {
            Tree::Object(m) => if m.contains_key(key) {
                Some(m[key])
            } else {
                None
            },
            _ => None,
        }
    }

    /// A member of an object, or null.
    pub open spec fn at(self, key: Seq<char>) -> Tree {
        match self.get(key) {
            Some(t) => t,
            None => Tree::Null,
        }
    }

    /// The object with a member set; anything else counts as the empty object.
    pub open spec fn with(self, key: Seq<char>, value: Tree) -> Tree {
        match self {
            Tree::Object(m) => Tree::Object(m.insert(key, value)),
            _ => Tree::Object(Map::empty().insert(key, value)),
        }
    }

    /// The object without a member.
    pub open spec fn without(self, key: Seq<char>) -> Tree {
        match self {
            Tree::Object(m) => Tree::Object(m.remove(key)),
            _ => self,
        }
    }

    /// The empty object.
    pub open spec fn object() -> Tree {
        Tree::Object(Map::empty())
    }

    /// Whether members can be set: on an object, and on null, which becomes
    /// one.
    pub open spec fn settable(self) -> bool {
        self is Object || self is Null
    }

    /// The value as an object: itself, or the empty object.
    pub open spec fn as_object(self) -> Tree {
        if self is Object {
            self
        } else {
            Tree::object()
        }
    }

    /// The text that the value is.
    pub open spec fn text(self) -> Option<Seq<char>> {
        match self {
            Tree::Text(s) => Some(s),
            _ => None,
        }
    }

    /// The text that the value is, or another.
    pub open spec fn text_or(self, default: Seq<char>) -> Seq<char> {
        match self {
            Tree::Text(s) => s,
            _ => default,
        }
    }

    /// The truth value that the value is, or another.
    pub open spec fn bool_or(self, default: bool) -> bool {
        match self {
            Tree::Bool(b) => b,
            _ => default,
        }
    }

    /// The number that the value is, if it is a whole number that is not
    /// negative.
    pub open spec fn unsigned(self) -> Option<u64> {
        match self {
            Tree::Number(Number::Unsigned(n)) => Some(n),
            _ => None,
        }
    }

    /// The number that the value is, or another.
    pub open spec fn unsigned_or(self, default: u64) -> u64 {
        match self.unsigned() {
            Some(n) => n,
            None => default,
        }
    }

    /// The number that the value is, if it is a whole number that fits.
    pub open spec fn signed(self) -> Option<i64> {
        match self {
            Tree::Number(Number::Unsigned(n)) => if n <= i64::MAX {
                Some(n as i64)
            } else {
                None
            },
            Tree::Number(Number::Negative(n)) => Some(n),
            _ => None,
        }
    }

    /// The items of an array; none of anything else.
    pub open spec fn items(self) -> Seq<Tree> {
        match self {
            Tree::Array(s) => s,
            _ => Seq::empty(),
        }
    }
}

/// The texts among the items of an array.
pub open spec fn text_items(items: Seq<Tree>) -> Seq<Seq<char>>
    decreases items.len(),
{
    if items.len() == 0 {
        Seq::empty()
    } else {
        let before = text_items(items.drop_last());
        match items.last() {
            Tree::Text(s) => before.push(s),
            _ => before,
        }
    }
}

/// The array that lists texts.
pub open spec fn text_array(list: Seq<Seq<char>>) -> Tree {
    Tree::Array(list.map_values(|s: Seq<char>| Tree::Text(s)))
}

/// The last place of a member among the first `n`, or -1.
pub open spec fn last_place(v: Seq<(String, Json)>, key: Seq<char>, n: int) -> int
    decreases n,
{
    if n <= 0 {
        -1
    } else if v[n - 1].0@ == key {
        n - 1
    } else {
        last_place(v, key, n - 1)
    }
}

/// A member of an object is the last one of its name in the list.
proof fn lemma_members(v: Seq<(String, Json)>, key: Seq<char>, n: nat)
    requires
        n <= v.len(),
    ensures
        -1 <= last_place(v, key, n as int) < n,
        members(v, n).contains_key(key) == (last_place(v, key, n as int) >= 0),
        last_place(v, key, n as int) >= 0 ==> {
            &&& v[last_place(v, key, n as int)].0@ == key
            &&& members(v, n)[key] == v[last_place(v, key, n as int)].1@
            &&& forall|j: int| last_place(v, key, n as int) < j < n ==> (#[trigger] v[j]).0@ != key
        },
        last_place(v, key, n as int) < 0 ==> forall|j: int| 0 <= j < n ==> (#[trigger] v[j]).0@ != key,
    decreases n,
{
    if n > 0 {
        lemma_members(v, key, (n - 1) as nat);
    }
}

/// Members depend only on the places counted.
proof fn lemma_members_prefix(v: Seq<(String, Json)>, w: Seq<(String, Json)>, n: nat)
    requires
        n <= v.len(),
        n <= w.len(),
        forall|i: int| 0 <= i < n ==> v[i] == w[i],
    ensures
        members(v, n) == members(w, n),
    decreases n,
{
    if n > 0 {
        lemma_members_prefix(v, w, (n - 1) as nat);
    }
}

/// Replacing the last member of a name sets that member.
proof fn lemma_members_update(v: Seq<(String, Json)>, p: int, value: Json, key: Seq<char>, n: nat)
    requires
        n <= v.len(),
        p == last_place(v, key, n as int),
        p >= 0,
    ensures
        members(v.update(p, (v[p].0, value)), n) =~= members(v, n).insert(key, value@),
    decreases n,
{
    let w = v.update(p, (v[p].0, value));
    lemma_members(v, key, n);
    if p == n - 1 {
        lemma_members_prefix(v, w, (n - 1) as nat);
    } else {
        lemma_members_update(v, p, value, key, (n - 1) as nat);
    }
}

/// An item of an array is a smaller value.
pub proof fn lemma_array_smaller(j: Json, i: int)
    requires
        j is Array,
        0 <= i < j->Array_0@.len(),
    ensures
        decreases_to!(j => j->Array_0@[i]),
{
    assert(decreases_to!(j => j->Array_0));
    assert(decreases_to!(j->Array_0 => j->Array_0@));
    assert(decreases_to!(j->Array_0@ => j->Array_0@[i]));
}

/// A member of an object is a smaller value.
pub proof fn lemma_object_smaller(j: Json, i: int)
    requires
        j is Object,
        0 <= i < j->Object_0@.len(),
    ensures
        decreases_to!(j => j->Object_0@[i].1),
{
    assert(decreases_to!(j => j->Object_0));
    assert(decreases_to!(j->Object_0 => j->Object_0@));
    assert(decreases_to!(j->Object_0@ => j->Object_0@[i]));
    assert(decreases_to!(j->Object_0@[i] => j->Object_0@[i].1));
}

/// Finds the last member of a name.
fn find_member(v: &Vec<(String, Json)>, key: &str) -> (r: Option<usize>)
    ensures
        match r {
            Some(i) => i == last_place(v@, key@, v@.len() as int),
            None => last_place(v@, key@, v@.len() as int) == -1,
        },
{
    let mut n: usize = v.len();
    while n > 0
        invariant
            n <= v@.len(),
            last_place(v@, key@, v@.len() as int) == last_place(v@, key@, n as int),
        decreases n,
    {
        if same(v[n - 1].0.as_str(), key) {
            return Some(n - 1);
        }
        n -= 1;
    }
    None
}

impl Json {
    /// The empty object.
    pub fn object() -> (r: Json)
        ensures
            r@ == Tree::object(),
    {
        let v: Vec<(String, Json)> = Vec::new();
        let r = Json::Object(v);
        proof {
            assert(members(v@, 0) == Map::<Seq<char>, Tree>::empty());
        }
        r
    }

    /// A text.
    pub fn text(s: &str) -> (r: Json)
        ensures
            r@ == Tree::Text(s@),
    {
        Json::Text(s.to_owned())
    }

    /// A number that is not negative.
    pub fn unsigned(n: u64) -> (r: Json)
        ensures
            r@ == Tree::Number(Number::Unsigned(n)),
    {
        Json::Number(Number::Unsigned(n))
    }

    /// A whole number.
    pub fn signed(n: i64) -> (r: Json)
        ensures
            n >= 0 ==> r@ == Tree::Number(Number::Unsigned(n as u64)),
            n < 0 ==> r@ == Tree::Number(Number::Negative(n)),
    {
        if n >= 0 {
            Json::Number(Number::Unsigned(n as u64))
        } else {
            Json::Number(Number::Negative(n))
        }
    }

    /// The array of the items of a list.
    pub fn array(items: Vec<Json>) -> (r: Json)
        ensures
            r@ == Tree::Array(trees(items@)),
    {
        let r = Json::Array(items);
        proof {
            assert(r@->Array_0 =~= trees(items@));
        }
        r
    }

    /// The array of the texts of a list.
    pub fn texts(list: &Vec<String>) -> (r: Json)
        ensures
            r@ == text_array(texts(list@)),
    {
        let mut items: Vec<Json> = Vec::new();
        let mut i: usize = 0;
        while i < list.len()
            invariant
                i <= list@.len(),
                items@.len() == i,
                forall|j: int| 0 <= j < i ==> (#[trigger] items@[j])@ == Tree::Text(list@[j]@),
            decreases list@.len() - i,
        {
            items.push(Json::Text(list[i].clone()));
            i += 1;
        }
        proof {
            assert(trees(items@) =~= text_array(texts(list@))->Array_0);
        }
        Json::array(items)
    }

    /// Whether the value is an object.
    pub fn is_object(&self) -> (r: bool)
        ensures
            r == (self@ is Object),
    {
        match self {
            Json::Object(_) => true,
            _ => false,
        }
    }

    /// Whether members can be set on the value.
    pub fn is_settable(&self) -> (r: bool)
        ensures
            r == self@.settable(),
    {
        match self {
            Json::Object(_) => true,
            Json::Null => true,
            _ => false,
        }
    }

    /// A member of an object.
    pub fn get(&self, key: &str) -> (r: Option<&Json>)
        ensures
            opt_tree(r) == self@.get(key@),
    {
        match self {
            Json::Object(v) => {
                proof {
                    lemma_members(v@, key@, v@.len());
                }
                match find_member(v, key) {
                    Some(i) => Some(&v[i].1),
                    None => None,
                }
            },
            _ => None,
        }
    }

    /// The text that the value is.
    pub fn as_text(&self) -> (r: Option<&str>)
        ensures
            match r {
                Some(s) => self@ == Tree::Text(s@),
                None => !(self@ is Text),
            },
    {
        match self {
            Json::Text(s) => Some(s.as_str()),
            _ => None,
        }
    }

    /// The truth value that the value is.
    pub fn as_bool(&self) -> (r: Option<bool>)
        ensures
            match r {
                Some(b) => self@ == Tree::Bool(b),
                None => !(self@ is Bool),
            },
    {
        match self {
            Json::Bool(b) => Some(*b),
            _ => None,
        }
    }

    /// The number that the value is, if it is whole and not negative.
    pub fn as_unsigned(&self) -> (r: Option<u64>)
        ensures
            r == self@.unsigned(),
    {
        match self {
            Json::Number(Number::Unsigned(n)) => Some(*n),
            _ => None,
        }
    }

    /// The number that the value is, if it is whole and fits.
    pub fn as_signed(&self) -> (r: Option<i64>)
        ensures
            r == self@.signed(),
    {
        match self {
            Json::Number(Number::Unsigned(n)) => if *n <= i64::MAX as u64 {
                Some(*n as i64)
            } else {
                None
            },
            Json::Number(Number::Negative(n)) => Some(*n),
            _ => None,
        }
    }

    /// The text of a member, or another.
    pub fn text_at(&self, key: &str, default: &str) -> (r: String)
        ensures
            r@ == self@.at(key@).text_or(default@),
    {
        match self.get(key) {
            Some(v) => match v.as_text() {
                Some(s) => s.to_owned(),
                None => default.to_owned(),
            },
            None => default.to_owned(),
        }
    }

    /// The text of a member.
    pub fn opt_text_at(&self, key: &str) -> (r: Option<String>)
        ensures
            crate::text::opt_text(r) == self@.at(key@).text(),
    {
        match self.get(key) {
            Some(v) => match v.as_text() {
                Some(s) => Some(s.to_owned()),
                None => None,
            },
            None => None,
        }
    }

    /// The truth value of a member, or another.
    pub fn bool_at(&self, key: &str, default: bool) -> (r: bool)
        ensures
            r == self@.at(key@).bool_or(default),
    {
        match self.get(key) {
            Some(v) => match v.as_bool() {
                Some(b) => b,
                None => default,
            },
            None => default,
        }
    }

    /// The number of a member, or another.
    pub fn unsigned_at(&self, key: &str, default: u64) -> (r: u64)
        ensures
            r == self@.at(key@).unsigned_or(default),
    {
        match self.get(key) {
            Some(v) => match v.as_unsigned() {
                Some(n) => n,
                None => default,
            },
            None => default,
        }
    }

    /// A copy of the value.
    pub fn copy(&self) -> (r: Json)
        ensures
            r@ == self@,
        decreases self,
    {
        match self {
            Json::Null => Json::Null,
            Json::Bool(b) => Json::Bool(*b),
            Json::Number(n) => Json::Number(*n),
            Json::Text(s) => Json::Text(s.clone()),
            Json::Array(v) => {
                let mut out: Vec<Json> = Vec::new();
                let mut i: usize = 0;
                while i < v.len()
                    invariant
                        i <= v@.len(),
                        *self == Json::Array(*v),
                        out@.len() == i,
                        forall|j: int| 0 <= j < i ==> (#[trigger] out@[j])@ == v@[j]@,
                    decreases v@.len() - i,
                {
                    proof {
                        lemma_array_smaller(*self, i as int);
                    }
                    let item = v[i].copy();
                    out.push(item);
                    i += 1;
                }
                let r = Json::Array(out);
                proof {
                    assert(r@->Array_0 =~= self@->Array_0);
                }
                r
            },
            Json::Object(v) => {
                let mut out: Vec<(String, Json)> = Vec::new();
                let mut i: usize = 0;
                while i < v.len()
                    invariant
                        i <= v@.len(),
                        *self == Json::Object(*v),
                        out@.len() == i,
                        members(out@, i as nat) == members(v@, i as nat),
                    decreases v@.len() - i,
                {
                    let ghost out0 = out@;
                    proof {
                        lemma_object_smaller(*self, i as int);
                    }
                    let item = v[i].1.copy();
                    out.push((v[i].0.clone(), item));
                    proof {
                        lemma_members_prefix(out0, out@, i as nat);
                    }
                    i += 1;
                }
                Json::Object(out)
            },
        }
    }

    /// The items of an array; none of anything else.
    pub fn items(&self) -> (r: Vec<Json>)
        ensures
            trees(r@) == self@.items(),
    {
        let mut out: Vec<Json> = Vec::new();
        match self {
            Json::Array(v) => {
                let mut i: usize = 0;
                while i < v.len()
                    invariant
                        i <= v@.len(),
                        out@.len() == i,
                        forall|j: int| 0 <= j < i ==> (#[trigger] out@[j])@ == v@[j]@,
                    decreases v@.len() - i,
                {
                    let item = v[i].copy();
                    out.push(item);
                    i += 1;
                }
                proof {
                    assert(trees(out@) =~= self@.items());
                }
            },
            _ => {
                proof {
                    assert(trees(out@) =~= self@.items());
                }
            },
        }
        out
    }

    /// The items of a member that is an array; none of anything else.
    pub fn items_at(&self, key: &str) -> (r: Vec<Json>)
        ensures
            trees(r@) == self@.at(key@).items(),
    {
        match self.get(key) {
            Some(v) => v.items(),
            None => {
                let out: Vec<Json> = Vec::new();
                proof {
                    assert(trees(out@) =~= Seq::<Tree>::empty());
                }
                out
            },
        }
    }

    /// A copy of a member, or null.
    pub fn copy_at(&self, key: &str) -> (r: Json)
        ensures
            r@ == self@.at(key@),
    {
        match self.get(key) {
            Some(v) => v.copy(),
            None => Json::Null,
        }
    }

    /// Sets a member of an object; null becomes an object first.
    pub fn set(&mut self, key: &str, value: Json)
        requires
            old(self)@.settable(),
        ensures
            final(self)@ == old(self)@.with(key@, value@),
    {
        let mut list = self.take_members();
        let ghost list0 = list@;
        proof {
            lemma_members(list0, key@, list0.len());
        }
        match find_member(&list, key) {
            Some(i) => {
                let name = list[i].0.clone();
                list.set(i, (name, value));
                proof {
                    lemma_members_update(list0, i as int, value, key@, list0.len());
                    assert(list@ =~= list0.update(i as int, (list0[i as int].0, value)));
                    assert(members(list@, list@.len()) =~= members(list0, list0.len()).insert(key@, value@));
                }
            },
            None => {
                list.push((key.to_owned(), value));
                proof {
                    lemma_members_prefix(list0, list@, list0.len());
                    assert(members(list@, list@.len()) =~= members(list0, list0.len()).insert(key@, value@));
                }
            },
        }
        *self = Json::Object(list);
        proof {
            assert(self@->Object_0 =~= old(self)@.with(key@, value@)->Object_0);
        }
    }

    /// Takes the members out of an object; other values have none.
    fn take_members(&mut self) -> (r: Vec<(String, Json)>)
        ensures
            Tree::Object(members(r@, r@.len())) == old(self)@.as_object(),
    {
        let mut whole = Json::Null;
        std::mem::swap(&mut whole, self);
        match whole {
            Json::Object(v) => v,
            _ => {
                let v: Vec<(String, Json)> = Vec::new();
                proof {
                    assert(members(v@, 0) == Map::<Seq<char>, Tree>::empty());
                }
                v
            },
        }
    }

    /// The object with a member set.
    pub fn with(self, key: &str, value: Json) -> (r: Json)
        requires
            self@.settable(),
        ensures
            r@ == self@.with(key@, value@),
    {
        let mut out = self;
        out.set(key, value);
        out
    }

    /// Removes a member of an object.
    pub fn remove(&mut self, key: &str)
        ensures
            final(self)@ == old(self)@.without(key@),
    {
        if !self.is_object() {
            return;
        }
        let list = self.take_members();
        let mut out: Vec<(String, Json)> = Vec::new();
        let mut rest = list;
        proof {
            assert(members(out@, 0) =~= members(rest@, 0).remove(key@));
        }
        let mut i: usize = 0;
        while i < rest.len()
            invariant
                i <= rest@.len(),
                members(out@, out@.len()) =~= members(rest@, i as nat).remove(key@),
            decreases rest@.len() - i,
        {
            let ghost out0 = out@;
            if !same(rest[i].0.as_str(), key) {
                let item = rest[i].1.copy();
                out.push((rest[i].0.clone(), item));
                proof {
                    lemma_members_prefix(out0, out@, out0.len());
                }
            }
            i += 1;
        }
        *self = Json::Object(out);
        proof {
            assert(self@->Object_0 =~= old(self)@->Object_0.remove(key@));
        }
    }

    /// Turns anything but an object into the empty object.
    pub fn make_object(&mut self)
        ensures
            final(self)@ == old(self)@.as_object(),
    {
        if !self.is_object() {
            *self = Json::object();
        }
    }
}

/// The texts among the items of an array; none of anything else.
pub fn string_array(value: &Json) -> (r: Vec<String>)
    ensures
        texts(r@) == text_items(value@.items()),
{
    let mut out: Vec<String> = Vec::new();
    match value {
        Json::Array(v) => {
            let ghost all = value@.items();
            let mut i: usize = 0;
            proof {
                assert(texts(out@) =~= text_items(all.take(0)));
            }
            while i < v.len()
                invariant
                    i <= v@.len(),
                    *value == Json::Array(*v),
                    all == value@.items(),
                    texts(out@) == text_items(all.take(i as int)),
                decreases v@.len() - i,
            {
                let ghost out0 = out@;
                proof {
                    assert(all.take(i + 1).drop_last() =~= all.take(i as int));
                    assert(all.take(i + 1).last() == v@[i as int]@);
                }
                if let Json::Text(s) = &v[i] {
                    out.push(s.clone());
                    proof {
                        assert(texts(out@) =~= texts(out0).push(s@));
                    }
                }
                i += 1;
            }
            proof {
                assert(all.take(all.len() as int) =~= all);
            }
        },
        _ => {
            proof {
                assert(texts(out@) =~= text_items(value@.items()));
            }
        },
    }
    out
}

/// A value with the defaults filled in: an object gets the members it lacks,
/// and where it and the defaults both hold an object, that one is filled in the
/// same way. Anything else stays as it is.
pub open spec fn filled(value: Tree, defaults: Tree) -> Tree
    decreases defaults,
{
    match (value, defaults) {
        (Tree::Object(m), Tree::Object(d)) => Tree::Object(
            Map::new(
                |k: Seq<char>| m.contains_key(k) || d.contains_key(k),
                |k: Seq<char>|
                    if !m.contains_key(k) {
                        d[k]
                    } else if d.contains_key(k) {
                        filled(m[k], d[k])
                    } else {
                        m[k]
                    },
            ),
        ),
        _ => value,
    }
}

/// Fills the defaults into a value.
pub fn merge_defaults(value: &mut Json, defaults: &Json)
    ensures
        final(value)@ == filled(old(value)@, defaults@),
    decreases defaults,
{
    if !value.is_object() {
        return;
    }
    if let Json::Object(list) = defaults {
        let ghost m = value@->Object_0;
        let ghost d = defaults@->Object_0;
        proof {
            assert forall|k: Seq<char>| d.contains_key(k) implies last_place(list@, k, list@.len() as int) >= 0 by {
                lemma_members(list@, k, list@.len());
            }
        }
        let mut i: usize = 0;
        while i < list.len()
            invariant
                i <= list@.len(),
                *defaults == Json::Object(*list),
                d == members(list@, list@.len()),
                value@ is Object,
                forall|k: Seq<char>|
                    #![trigger value@->Object_0.contains_key(k)]
                    value@->Object_0.contains_key(k) == (m.contains_key(k) || (d.contains_key(k) && last_place(
                        list@,
                        k,
                        list@.len() as int,
                    ) < i)),
                forall|k: Seq<char>|
                    #![trigger value@->Object_0[k]]
                    value@->Object_0.contains_key(k) ==> value@->Object_0[k] == (if !m.contains_key(k) {
                        d[k]
                    } else if d.contains_key(k) && last_place(list@, k, list@.len() as int) < i {
                        filled(m[k], d[k])
                    } else {
                        m[k]
                    }),
            decreases list@.len() - i,
        {
            let ghost key = list@[i as int].0@;
            let ghost now = value@->Object_0;
            proof {
                lemma_members(list@, key, list@.len());
            }
            let place = find_member(list, list[i].0.as_str());
            if place == Some(i) {
                let there = value.get(list[i].0.as_str());
                match there {
                    Some(old_value) => {
                        proof {
                            lemma_object_smaller(*defaults, i as int);
                        }
                        let mut inner = old_value.copy();
                        merge_defaults(&mut inner, &list[i].1);
                        value.set(list[i].0.as_str(), inner);
                    },
                    None => {
                        let fresh = list[i].1.copy();
                        value.set(list[i].0.as_str(), fresh);
                    },
                }
                proof {
                    assert(last_place(list@, key, list@.len() as int) == i);
                    assert forall|k: Seq<char>| k != key implies last_place(list@, k, list@.len() as int) != i by {
                        lemma_members(list@, k, list@.len());
                    }
                }
            } else {
                proof {
                    assert(last_place(list@, key, list@.len() as int) != i);
                    assert forall|k: Seq<char>| last_place(list@, k, list@.len() as int) != i by {
                        lemma_members(list@, k, list@.len());
                    }
                }
            }
            i += 1;
        }
        proof {
            assert forall|k: Seq<char>| d.contains_key(k) implies last_place(list@, k, list@.len() as int) < i by {
                lemma_members(list@, k, list@.len());
            }
            assert(value@->Object_0 =~= filled(old(value)@, defaults@)->Object_0);
        }
    }
}

/// What a list of events becomes when an event is put in front of it and only
/// the first `keep` are kept.
pub open spec fn event_rows(rows: Seq<Tree>, at: u64, message: Seq<char>, keep: int) -> Seq<Tree> {
    let all = seq![
        Tree::object().with("at"@, Tree::Number(Number::Unsigned(at))).with("text"@, Tree::Text(message)),
    ] + rows;
    if all.len() <= keep {
        all
    } else {
        all.take(keep)
    }
}

/// A state with an event put in front of a list of events.
pub open spec fn with_event(data: Tree, key: Seq<char>, at: u64, message: Seq<char>, keep: int) -> Tree {
    let base = data.as_object();
    base.with(key, Tree::Array(event_rows(base.at(key).items(), at, message, keep)))
}

/// Puts an event in front of a list of events in a state.
pub fn prepend_event(data: &mut Json, key: &str, at: u64, message: &str, keep: usize)
    ensures
        final(data)@ == with_event(old(data)@, key@, at, message@, keep as int),
{
    data.make_object();
    let mut rows = data.items_at(key);
    let event = Json::object().with("at", Json::unsigned(at)).with("text", Json::text(message));
    let ghost rows0 = trees(rows@);
    rows.insert(0, event);
    proof {
        assert(trees(rows@) =~= seq![event@] + rows0);
    }
    let ghost all = trees(rows@);
    if rows.len() > keep {
        rows.truncate(keep);
        proof {
            assert(trees(rows@) =~= all.take(keep as int));
        }
    }
    data.set(key, Json::array(rows));
}

/// The texts of an array that lists texts are those texts.
pub proof fn lemma_text_items(list: Seq<Seq<char>>)
    ensures
        text_items(text_array(list).items()) == list,
    decreases list.len(),
{
    let items = text_array(list).items();
    if list.len() == 0 {
        assert(text_items(items) =~= list);
    } else {
        let init = list.drop_last();
        lemma_text_items(init);
        assert(items.drop_last() =~= text_array(init).items());
        assert(items.last() == Tree::Text(list.last()));
        assert(init.push(list.last()) =~= list);
    }
}

/// Filling in defaults a second time changes nothing.
pub proof fn law_filled_again(value: Tree, defaults: Tree)
    ensures
        filled(filled(value, defaults), defaults) == filled(value, defaults),
    decreases defaults,
{
    if let Tree::Object(m) = value {
        if let Tree::Object(d) = defaults {
            let once = filled(value, defaults)->Object_0;
            let twice = filled(Tree::Object(once), defaults)->Object_0;
            assert forall|k: Seq<char>| twice.contains_key(k) == once.contains_key(k) && (once.contains_key(k)
                ==> #[trigger] twice[k] == once[k]) by {
                if d.contains_key(k) {
                    lemma_filled_self(d[k]);
                    if m.contains_key(k) {
                        law_filled_again(m[k], d[k]);
                    }
                }
            }
            assert(twice =~= once);
        }
    }
}

/// Defaults filled into themselves are themselves.
pub proof fn lemma_filled_self(defaults: Tree)
    ensures
        filled(defaults, defaults) == defaults,
    decreases defaults,
{
    if let Tree::Object(d) = defaults {
        let f = filled(defaults, defaults)->Object_0;
        assert forall|k: Seq<char>| f.contains_key(k) == d.contains_key(k) && (d.contains_key(k)
            ==> #[trigger] f[k] == d[k]) by {
            if d.contains_key(k) {
                lemma_filled_self(d[k]);
            }
        }
        assert(f =~= d);
    }
}

/// Filling in defaults keeps every member, unless it and the default are both
/// objects, and adds those that are missing.
pub proof fn law_filled_keeps_members(value: Tree, defaults: Tree, key: Seq<char>)
    requires
        value is Object,
    ensures
        value.get(key) matches Some(v) ==> !(v is Object && defaults.at(key) is Object) ==> filled(
            value,
            defaults,
        ).get(key) == Some(v),
        value.get(key) is None ==> filled(value, defaults).get(key) == defaults.get(key),
{
    if let Some(v) = value.get(key) {
        if let Some(d) = defaults.get(key) {
            if !(v is Object && d is Object) {
                assert(filled(v, d) == v);
            }
        }
    }
}

/// An event that is recorded is the first of its list, which holds no more
/// events than are kept, and nothing else of the state changes.
pub proof fn law_event_is_first(
    data: Tree,
    key: Seq<char>,
    at: u64,
    message: Seq<char>,
    keep: int,
    other: Seq<char>,
)
    requires
        keep > 0,
        other != key,
    ensures
        ({
            let rows = with_event(data, key, at, message, keep).at(key).items();
            &&& 0 < rows.len() <= keep
            &&& rows[0] == Tree::object().with("at"@, Tree::Number(Number::Unsigned(at))).with(
                "text"@,
                Tree::Text(message),
            )
            &&& forall|i: int|
                0 < i < rows.len() ==> #[trigger] rows[i] == data.as_object().at(key).items()[i - 1]
        }),
        with_event(data, key, at, message, keep).get(other) == data.as_object().get(other),
{
    let rows = with_event(data, key, at, message, keep).at(key).items();
    let held = data.as_object().at(key).items();
    assert(rows == event_rows(held, at, message, keep));
}

} // verus!
