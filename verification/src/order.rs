//! The order of texts, sorted lists without repetition, and stable sorting.
use crate::text::{chars_of, same, texts};
use vstd::prelude::*;

verus! {

/// Whether a text comes before another: where they first differ it has the
/// smaller character, or it is the shorter one and the other continues it.
pub open spec fn before(a: Seq<char>, b: Seq<char>) -> bool
    decreases a.len(),
{
    if b.len() == 0 {
        false
    } else if a.len() == 0 {
        true
    } else if a[0] != b[0] {
        a[0] < b[0]
    } else {
        before(a.skip(1), b.skip(1))
    }
}

/// Of two different texts exactly one comes before the other.
pub proof fn lemma_before_total(a: Seq<char>, b: Seq<char>)
    ensures
        a == b ==> !before(a, b),
        a != b ==> before(a, b) != before(b, a),
    decreases a.len(),
{
    if a.len() == 0 || b.len() == 0 {
        if a.len() == 0 && b.len() == 0 {
            assert(a =~= b);
        }
    } else if a[0] == b[0] {
        lemma_before_total(a.skip(1), b.skip(1));
        if a.skip(1) == b.skip(1) {
            assert(a =~= seq![a[0]] + a.skip(1));
            assert(b =~= seq![b[0]] + b.skip(1));
        }
    }
}

/// The order of texts is transitive.
pub proof fn lemma_before_trans(a: Seq<char>, b: Seq<char>, c: Seq<char>)
    requires
        before(a, b),
        before(b, c),
    ensures
        before(a, c),
    decreases a.len(),
{
    if a.len() > 0 && a[0] == b[0] && b[0] == c[0] {
        lemma_before_trans(a.skip(1), b.skip(1), c.skip(1));
    }
}

/// Whether a text comes before another.
pub fn is_before(a: &str, b: &str) -> (r: bool)
    ensures
        r == before(a@, b@),
{
    let x = chars_of(a);
    let y = chars_of(b);
    let mut i: usize = 0;
    proof {
        assert(a@.skip(0) =~= a@);
        assert(b@.skip(0) =~= b@);
    }
    while i < x.len() && i < y.len()
        invariant
            x@ == a@,
            y@ == b@,
            i <= x@.len(),
            i <= y@.len(),
            before(a@, b@) == before(a@.skip(i as int), b@.skip(i as int)),
        decreases x@.len() - i,
    {
        if x[i] != y[i] {
            return x[i] < y[i];
        }
        proof {
            assert(a@.skip(i as int).skip(1) =~= a@.skip(i + 1));
            assert(b@.skip(i as int).skip(1) =~= b@.skip(i + 1));
        }
        i += 1;
    }
    i < y.len()
}

/// Whether each text of a list comes before all that follow it. Such a list
/// repeats nothing.
pub open spec fn ascending(list: Seq<Seq<char>>) -> bool {
    forall|i: int, j: int| 0 <= i < j < list.len() ==> before(#[trigger] list[i], #[trigger] list[j])
}

/// An ascending list is fixed by the texts in it.
pub proof fn lemma_ascending_unique(a: Seq<Seq<char>>, b: Seq<Seq<char>>)
    requires
        ascending(a),
        ascending(b),
        a.to_set() == b.to_set(),
    ensures
        a == b,
    decreases a.len(),
{
    if a.len() == 0 {
        if b.len() > 0 {
            assert(b.to_set().contains(b[0]));
            assert(a.to_set().contains(b[0]));
        }
        assert(a =~= b);
    } else {
        assert(a.to_set().contains(a[0]));
        assert(b.to_set().contains(a[0]));
        let k = choose|k: int| 0 <= k < b.len() && b[k] == a[0];
        assert(b.to_set().contains(b[0]));
        assert(a.to_set().contains(b[0]));
        let m = choose|m: int| 0 <= m < a.len() && a[m] == b[0];
        if k > 0 {
            assert(before(b[0], b[k]));
            lemma_before_total(a[0], b[0]);
            if m > 0 {
                assert(before(a[0], a[m]));
            }
        }
        assert(a[0] == b[0]);
        let x = a.skip(1);
        let y = b.skip(1);
        assert forall|t: Seq<char>| x.to_set().contains(t) == y.to_set().contains(t) by {
            if x.contains(t) {
                let i = choose|i: int| 0 <= i < x.len() && x[i] == t;
                assert(a[i + 1] == t);
                assert(a.to_set().contains(t));
                let j = choose|j: int| 0 <= j < b.len() && b[j] == t;
                assert(before(a[0], a[i + 1]));
                lemma_before_total(a[0], t);
                assert(j > 0);
                assert(y[j - 1] == t);
            }
            if y.contains(t) {
                let i = choose|i: int| 0 <= i < y.len() && y[i] == t;
                assert(b[i + 1] == t);
                assert(b.to_set().contains(t));
                assert(a.to_set().contains(t));
                let j = choose|j: int| 0 <= j < a.len() && a[j] == t;
                assert(before(b[0], b[i + 1]));
                lemma_before_total(b[0], t);
                assert(j > 0);
                assert(x[j - 1] == t);
            }
        }
        assert(x.to_set() =~= y.to_set());
        assert(ascending(x)) by {
            assert forall|i: int, j: int| 0 <= i < j < x.len() implies before(#[trigger] x[i], #[trigger] x[j]) by {
                assert(before(a[i + 1], a[j + 1]));
            }
        }
        assert(ascending(y)) by {
            assert forall|i: int, j: int| 0 <= i < j < y.len() implies before(#[trigger] y[i], #[trigger] y[j]) by {
                assert(before(b[i + 1], b[j + 1]));
            }
        }
        lemma_ascending_unique(x, y);
        assert(a =~= seq![a[0]] + x);
        assert(b =~= seq![b[0]] + y);
    }
}

/// Puts a text into an ascending list, unless it is there.
pub fn insert_ascending(list: &mut Vec<String>, item: String)
    requires
        ascending(texts(old(list)@)),
    ensures
        ascending(texts(final(list)@)),
        texts(final(list)@).to_set() == texts(old(list)@).to_set().insert(item@),
{
    let ghost all = texts(list@);
    let ghost list0 = list@;
    let ghost t = item@;
    let mut i: usize = 0;
    while i < list.len() && is_before(list[i].as_str(), item.as_str())
        invariant
            i <= list@.len(),
            list@ == list0,
            all == texts(list0),
            t == item@,
            forall|j: int| 0 <= j < i ==> before(#[trigger] all[j], t),
        decreases list@.len() - i,
    {
        proof {
            assert(all[i as int] == list@[i as int]@);
        }
        i += 1;
    }
    proof {
        if i < all.len() {
            assert(all[i as int] == list@[i as int]@);
        }
    }
    if i < list.len() && same(list[i].as_str(), item.as_str()) {
        proof {
            assert(all.contains(t));
            assert(texts(list@).to_set() =~= all.to_set().insert(t));
        }
        return;
    }
    list.insert(i, item);
    proof {
        let now = texts(list@);
        assert(now =~= all.insert(i as int, t));
        assert forall|a: int, b: int| 0 <= a < b < now.len() implies before(#[trigger] now[a], #[trigger] now[b]) by {
            if b == i {
                assert(now[a] == all[a]);
            } else if a == i {
                assert(now[b] == all[b - 1]);
                lemma_before_total(all[i as int], t);
                if b - 1 > i {
                    assert(before(all[i as int], all[b - 1]));
                    lemma_before_trans(t, all[i as int], all[b - 1]);
                }
            } else {
                let a0 = if a < i { a } else { a - 1 };
                let b0 = if b < i { b } else { b - 1 };
                assert(now[a] == all[a0]);
                assert(now[b] == all[b0]);
            }
        }
        assert forall|x: Seq<char>| now.to_set().contains(x) == all.to_set().insert(t).contains(x) by {
            if now.contains(x) {
                let k = choose|k: int| 0 <= k < now.len() && now[k] == x;
                if k != i {
                    let k0 = if k < i { k } else { k - 1 };
                    assert(all[k0] == x);
                }
            }
            if all.contains(x) {
                let k = choose|k: int| 0 <= k < all.len() && all[k] == x;
                let k1 = if k < i { k } else { k + 1 };
                assert(now[k1] == x);
            }
            assert(now[i as int] == t);
        }
        assert(now.to_set() =~= all.to_set().insert(t));
    }
}

/// Values by which a list can be sorted.
pub trait Ranked: View + Sized {
    /// Whether a value is to stand before another.
    spec fn precedes(a: Self::V, b: Self::V) -> bool;

    /// Whether this value is to stand before another.
    fn ranks_before(&self, other: &Self) -> (r: bool)
        ensures
            r == Self::precedes(self@, other@),
    ;

    /// No value precedes itself.
    proof fn lemma_irreflexive(a: Self::V)
        ensures
            !Self::precedes(a, a),
    ;

    /// The order is transitive.
    proof fn lemma_transitive(a: Self::V, b: Self::V, c: Self::V)
        ensures
            Self::precedes(a, b) && Self::precedes(b, c) ==> Self::precedes(a, c),
            !Self::precedes(a, b) && !Self::precedes(b, c) ==> !Self::precedes(a, c),
    ;
}

/// Sorts by a text; a missing text stands first.
pub struct TextKey(pub Option<String>);

impl View for TextKey {
    type V = Option<Seq<char>>;

    open spec fn view(&self) -> Option<Seq<char>> {
        crate::text::opt_text(self.0)
    }
}

impl Ranked for TextKey {
    open spec fn precedes(a: Option<Seq<char>>, b: Option<Seq<char>>) -> bool {
        match (a, b) {
            (None, Some(_)) => true,
            (Some(x), Some(y)) => before(x, y),
            _ => false,
        }
    }

    fn ranks_before(&self, other: &Self) -> (r: bool) {
        match (&self.0, &other.0) {
            (None, Some(_)) => true,
            (Some(x), Some(y)) => is_before(x.as_str(), y.as_str()),
            _ => false,
        }
    }

    proof fn lemma_irreflexive(a: Option<Seq<char>>) {
        if let Some(x) = a {
            lemma_before_total(x, x);
        }
    }

    proof fn lemma_transitive(a: Option<Seq<char>>, b: Option<Seq<char>>, c: Option<Seq<char>>) {
        if let Some(x) = a {
            if let Some(y) = b {
                if let Some(z) = c {
                    lemma_before_total(x, y);
                    lemma_before_total(y, z);
                    lemma_before_total(x, z);
                    if before(x, y) && before(y, z) {
                        lemma_before_trans(x, y, z);
                    }
                    if before(x, z) && before(z, y) {
                        lemma_before_trans(x, z, y);
                    }
                    if before(y, x) && before(x, z) {
                        lemma_before_trans(y, x, z);
                    }
                }
            }
        }
    }
}

/// Sorts by a number, the greatest first; a missing number stands last.
pub struct Newest(pub Option<u64>);

impl View for Newest {
    type V = Option<u64>;

    open spec fn view(&self) -> Option<u64> {
        self.0
    }
}

impl Ranked for Newest {
    open spec fn precedes(a: Option<u64>, b: Option<u64>) -> bool {
        match (a, b) {
            (Some(_), None) => true,
            (Some(x), Some(y)) => y < x,
            _ => false,
        }
    }

    fn ranks_before(&self, other: &Self) -> (r: bool) {
        match (self.0, other.0) {
            (Some(_), None) => true,
            (Some(x), Some(y)) => y < x,
            _ => false,
        }
    }

    proof fn lemma_irreflexive(a: Option<u64>) {
    }

    proof fn lemma_transitive(a: Option<u64>, b: Option<u64>, c: Option<u64>) {
    }
}

/// The keys of a list.
pub open spec fn keys_of<K: Ranked>(keys: Seq<K>) -> Seq<K::V> {
    keys.map_values(|k: K| k@)
}

/// Whether the item at one position goes before the item at another: by their
/// keys, and by their positions where neither key precedes the other.
pub open spec fn goes_first<K: Ranked>(keys: Seq<K::V>, x: int, y: int) -> bool {
    K::precedes(keys[x], keys[y]) || (!K::precedes(keys[y], keys[x]) && x < y)
}

/// Whether a list of positions puts all items of a list into the order of
/// their keys, and items whose keys are level into the order they had.
pub open spec fn is_order<K: Ranked>(keys: Seq<K::V>, order: Seq<int>) -> bool {
    &&& order.len() == keys.len()
    &&& forall|i: int| 0 <= i < order.len() ==> 0 <= #[trigger] order[i] < keys.len()
    &&& forall|i: int, j: int|
        0 <= i < j < order.len() ==> goes_first::<K>(keys, #[trigger] order[i], #[trigger] order[j])
}

/// The positions of a list in the order of its keys.
pub open spec fn order_of<K: Ranked>(keys: Seq<K::V>) -> Seq<int> {
    choose|o: Seq<int>| is_order::<K>(keys, o)
}

/// The positions that a list of machine numbers holds.
pub open spec fn positions(order: Seq<usize>) -> Seq<int> {
    order.map_values(|i: usize| i as int)
}

proof fn lemma_goes_first_trans<K: Ranked>(keys: Seq<K::V>, x: int, y: int, z: int)
    requires
        goes_first::<K>(keys, x, y),
        goes_first::<K>(keys, y, z),
    ensures
        goes_first::<K>(keys, x, z),
{
    K::lemma_transitive(keys[x], keys[y], keys[z]);
    K::lemma_transitive(keys[z], keys[y], keys[x]);
    K::lemma_transitive(keys[y], keys[z], keys[x]);
    K::lemma_transitive(keys[z], keys[x], keys[y]);
    K::lemma_transitive(keys[x], keys[z], keys[y]);
    K::lemma_transitive(keys[y], keys[x], keys[z]);
}

/// Putting one more item behind all that its key does not precede keeps the
/// order.
proof fn lemma_order_insert<K: Ranked>(keys: Seq<K::V>, done: Seq<int>, p: int)
    requires
        keys.len() > 0,
        is_order::<K>(keys.take(keys.len() - 1), done),
        0 <= p <= done.len(),
        forall|j: int| p <= j < done.len() ==> K::precedes(keys.last(), keys[#[trigger] done[j]]),
        p > 0 ==> !K::precedes(keys.last(), keys[done[p - 1]]),
    ensures
        is_order::<K>(keys, done.insert(p, keys.len() - 1)),
{
    let n = keys.len() - 1;
    let first = keys.take(n);
    let now = done.insert(p, n);
    assert forall|i: int| 0 <= i < now.len() implies 0 <= #[trigger] now[i] < keys.len() by {
        if i != p {
            let i0 = if i < p { i } else { i - 1 };
            assert(now[i] == done[i0]);
        }
    }
    assert forall|i: int, j: int| 0 <= i < j < now.len() implies goes_first::<K>(
        keys,
        #[trigger] now[i],
        #[trigger] now[j],
    ) by {
        if i != p && j != p {
            let i0 = if i < p { i } else { i - 1 };
            let j0 = if j < p { j } else { j - 1 };
            assert(now[i] == done[i0]);
            assert(now[j] == done[j0]);
            assert(goes_first::<K>(first, done[i0], done[j0]));
            assert(first[done[i0]] == keys[done[i0]]);
            assert(first[done[j0]] == keys[done[j0]]);
        } else if i == p {
            assert(now[j] == done[j - 1]);
        } else {
            assert(now[i] == done[i]);
            let a = done[i];
            let b = done[p - 1];
            assert(0 <= b < n);
            assert(goes_first::<K>(keys, b, n));
            if i < p - 1 {
                assert(goes_first::<K>(first, a, b));
                assert(first[a] == keys[a]);
                assert(first[b] == keys[b]);
                lemma_goes_first_trans::<K>(keys, a, b, n);
            }
        }
    }
}

/// Where the last item belongs among the others, looking from the end.
spec fn place_from<K: Ranked>(keys: Seq<K::V>, done: Seq<int>, p: int) -> int
    decreases p,
{
    if p > 0 && K::precedes(keys.last(), keys[done[p - 1]]) {
        place_from::<K>(keys, done, p - 1)
    } else {
        p
    }
}

proof fn lemma_place_from<K: Ranked>(keys: Seq<K::V>, done: Seq<int>, p: int)
    requires
        0 <= p <= done.len(),
        forall|j: int| p <= j < done.len() ==> K::precedes(keys.last(), keys[#[trigger] done[j]]),
    ensures
        0 <= place_from::<K>(keys, done, p) <= p,
        forall|j: int|
            place_from::<K>(keys, done, p) <= j < done.len() ==> K::precedes(
                keys.last(),
                keys[#[trigger] done[j]],
            ),
        place_from::<K>(keys, done, p) > 0 ==> !K::precedes(
            keys.last(),
            keys[done[place_from::<K>(keys, done, p) - 1]],
        ),
    decreases p,
{
    if p > 0 && K::precedes(keys.last(), keys[done[p - 1]]) {
        lemma_place_from::<K>(keys, done, p - 1);
    }
}

/// Every list has an order by its keys.
pub proof fn lemma_order_exists<K: Ranked>(keys: Seq<K::V>)
    ensures
        is_order::<K>(keys, order_of::<K>(keys)),
    decreases keys.len(),
{
    if keys.len() == 0 {
        assert(is_order::<K>(keys, Seq::<int>::empty()));
    } else {
        let first = keys.take(keys.len() - 1);
        lemma_order_exists::<K>(first);
        let done = order_of::<K>(first);
        let p = place_from::<K>(keys, done, done.len() as int);
        lemma_place_from::<K>(keys, done, done.len() as int);
        lemma_order_insert::<K>(keys, done, p);
        assert(is_order::<K>(keys, done.insert(p, keys.len() - 1)));
    }
}

/// Finds the order of a list by its keys.
pub fn stable_order<K: Ranked>(keys: &Vec<K>) -> (r: Vec<usize>)
    ensures
        is_order::<K>(keys_of(keys@), positions(r@)),
{
    let ghost ks = keys_of(keys@);
    let mut out: Vec<usize> = Vec::new();
    let mut n: usize = 0;
    proof {
        assert(positions(out@).len() == 0);
    }
    while n < keys.len()
        invariant
            n <= keys@.len(),
            ks == keys_of(keys@),
            is_order::<K>(ks.take(n as int), positions(out@)),
        decreases keys@.len() - n,
    {
        let ghost done = positions(out@);
        let ghost out0 = out@;
        let ghost first = ks.take(n as int);
        let mut p: usize = out.len();
        while p > 0 && keys[n].ranks_before(&keys[out[p - 1]])
            invariant
                p <= out@.len(),
                n < keys@.len(),
                out@ == out0,
                done == positions(out0),
                ks == keys_of(keys@),
                first == ks.take(n as int),
                is_order::<K>(first, done),
                forall|i: int| 0 <= i < out@.len() ==> (#[trigger] out@[i]) as int == done[i] && 0 <= done[i] < n,
                forall|j: int| p <= j < done.len() ==> K::precedes(ks[n as int], ks[#[trigger] done[j]]),
            decreases p,
        {
            proof {
                assert(out@[p - 1] as int == done[p - 1]);
                assert(ks[done[p - 1]] == keys@[done[p - 1]]@);
            }
            p -= 1;
        }
        proof {
            assert(out.len() == n);
            if p > 0 {
                assert(out@[p - 1] as int == done[p - 1]);
                assert(!K::precedes(ks[n as int], ks[done[p - 1]]));
            }
        }
        out.insert(p, n);
        proof {
            assert(positions(out@) =~= done.insert(p as int, n as int));
            assert(ks.take(n + 1).take(n as int) =~= first);
            lemma_order_insert::<K>(ks.take(n + 1), done, p as int);
        }
        n += 1;
    }
    proof {
        assert(ks.take(ks.len() as int) =~= ks);
    }
    out
}

/// An order visits every item once.
pub proof fn lemma_order_distinct<K: Ranked>(keys: Seq<K::V>, order: Seq<int>)
    requires
        is_order::<K>(keys, order),
    ensures
        order.no_duplicates(),
{
    assert forall|i: int, j: int| 0 <= i < order.len() && 0 <= j < order.len() && i != j implies order[i]
        != order[j] by {
        let a = if i < j { i } else { j };
        let b = if i < j { j } else { i };
        assert(goes_first::<K>(keys, order[a], order[b]));
        K::lemma_irreflexive(keys[order[a]]);
    }
}

/// An order visits every position.
pub proof fn lemma_order_complete<K: Ranked>(keys: Seq<K::V>, order: Seq<int>, p: int)
    requires
        is_order::<K>(keys, order),
        0 <= p < keys.len(),
    ensures
        order.contains(p),
{
    lemma_order_distinct::<K>(keys, order);
    order.unique_seq_to_set();
    let n = keys.len() as int;
    vstd::set_lib::lemma_int_range(0, n);
    let all = vstd::set_lib::set_int_range(0, n);
    assert forall|x: int| order.to_set().contains(x) implies all.contains(x) by {
        let i = choose|i: int| 0 <= i < order.len() && order[i] == x;
        assert(0 <= order[i] < keys.len());
    }
    assert(order.to_set().subset_of(all));
    vstd::seq_lib::seq_to_set_is_finite(order);
    vstd::set_lib::lemma_subset_equality(order.to_set(), all);
    assert(all.contains(p));
    assert(order.to_set().contains(p));
}

proof fn lemma_order_agrees<K: Ranked>(keys: Seq<K::V>, a: Seq<int>, b: Seq<int>, n: int)
    requires
        is_order::<K>(keys, a),
        is_order::<K>(keys, b),
        0 <= n <= keys.len(),
    ensures
        forall|i: int| 0 <= i < n ==> a[i] == b[i],
    decreases n,
{
    if n > 0 {
        lemma_order_agrees::<K>(keys, a, b, n - 1);
        let i = n - 1;
        let x = a[i];
        let y = b[i];
        if x != y {
            lemma_order_complete::<K>(keys, b, x);
            lemma_order_complete::<K>(keys, a, y);
            lemma_order_distinct::<K>(keys, a);
            lemma_order_distinct::<K>(keys, b);
            let j = choose|j: int| 0 <= j < b.len() && b[j] == x;
            let k = choose|k: int| 0 <= k < a.len() && a[k] == y;
            assert(j > i);
            assert(k > i);
            assert(goes_first::<K>(keys, b[i], b[j]));
            assert(goes_first::<K>(keys, a[i], a[k]));
            lemma_goes_first_trans::<K>(keys, x, y, x);
            K::lemma_irreflexive(keys[x]);
            assert(false);
        }
    }
}

/// There is only one order of a list by its keys.
pub proof fn lemma_order_unique<K: Ranked>(keys: Seq<K::V>, order: Seq<int>)
    requires
        is_order::<K>(keys, order),
    ensures
        order == order_of::<K>(keys),
{
    let o = order_of::<K>(keys);
    lemma_order_agrees::<K>(keys, order, o, keys.len() as int);
    assert(order =~= o);
}

/// The items of a list at the positions of another.
pub open spec fn arranged<T>(items: Seq<T>, order: Seq<int>) -> Seq<T> {
    Seq::new(order.len(), |i: int| items[order[i]])
}

/// The items of a list, sorted by keys.
pub open spec fn sorted_by<K: Ranked, T>(items: Seq<T>, keys: Seq<K::V>) -> Seq<T> {
    arranged(items, order_of::<K>(keys))
}

} // verus!
