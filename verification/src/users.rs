//! Mailboxes and aliases, as the files of the mail servers describe them.
use crate::json::{trees, Json, Number, Tree};
use crate::order::{
    arranged, keys_of, lemma_order_unique, positions, sorted_by, stable_order, TextKey,
};
use crate::outside::text_result;
use crate::spam::count;
use crate::text::{
    blank, has_char, lines, lines_of, parted, same, split_at, split_on, split_once_blank, starts_with,
    texts, trim, trimmed,
};
use vstd::prelude::*;

verus! {

/// A mailbox and the directory it lies in.
#[derive(Debug, PartialEq, Eq)]
pub struct MailUser {
    pub email: String,
    pub home: String,
}

/// A mailbox and the directory it lies in.
pub ghost struct UserTree {
    pub email: Seq<char>,
    pub home: Seq<char>,
}

impl View for MailUser {
    type V = UserTree;

    open spec fn view(&self) -> UserTree {
        UserTree { email: self.email@, home: self.home@ }
    }
}

/// The mailboxes of a list.
pub open spec fn user_trees(users: Seq<MailUser>) -> Seq<UserTree> {
    users.map_values(|u: MailUser| u@)
}

/// The mailbox that a line of the file describes, if it describes one: fields
/// with colons between, the address in the first and the directory in the
/// sixth.
pub open spec fn user_in_line(line: Seq<char>) -> Option<UserTree> {
    let fields = split_at(line, ':');
    let email = trimmed(fields[0]);
    let home = if fields.len() > 5 {
        trimmed(fields[5])
    } else {
        Seq::empty()
    };
    if trimmed(line).len() == 0 || "#"@.is_prefix_of(line) || !line.contains(':') {
        None
    } else if !email.contains('@') || home.len() == 0 {
        None
    } else {
        Some(UserTree { email, home })
    }
}

/// The mailboxes that lines of the file describe.
pub open spec fn users_in(list: Seq<Seq<char>>) -> Seq<UserTree>
    decreases list.len(),
{
    if list.len() == 0 {
        Seq::empty()
    } else {
        match user_in_line(list.last()) {
            Some(u) => users_in(list.drop_last()).push(u),
            None => users_in(list.drop_last()),
        }
    }
}

/// The key by which mailboxes are sorted.
pub open spec fn user_keys(users: Seq<UserTree>) -> Seq<Option<Seq<char>>> {
    users.map_values(|u: UserTree| Some(u.email))
}

/// The mailboxes that the file describes, sorted by their addresses.
pub open spec fn users_of(text: Seq<char>) -> Seq<UserTree> {
    let found = users_in(lines_of(text));
    sorted_by::<TextKey, UserTree>(found, user_keys(found))
}

fn read_user(line: &str) -> (r: Option<MailUser>)
    ensures
        match r {
            Some(u) => user_in_line(line@) == Some(u@),
            None => user_in_line(line@) is None,
        },
{
    if trim(line).as_str().is_empty() || starts_with(line, "#") || !has_char(line, ':') {
        return None;
    }
    let fields = split_on(line, ':');
    proof {
        crate::text::lemma_pieces_some(line@, crate::text::among(seq![':']));
        assert(texts(fields@)[0] == fields@[0]@);
    }
    let email = trim(fields[0].as_str());
    if !has_char(email.as_str(), '@') {
        return None;
    }
    let home = if fields.len() > 5 {
        proof {
            assert(texts(fields@)[5] == fields@[5]@);
        }
        trim(fields[5].as_str())
    } else {
        String::new()
    };
    if home.as_str().is_empty() {
        return None;
    }
    Some(MailUser { email, home })
}

/// Reads the mailboxes from the file, sorted by their addresses.
pub fn dovecot_user_rows(text: &str) -> (r: Vec<MailUser>)
    ensures
        user_trees(r@) == users_of(text@),
{
    let list = lines(text);
    let ghost all = texts(list@);
    let mut found: Vec<MailUser> = Vec::new();
    let mut keys: Vec<TextKey> = Vec::new();
    let mut i: usize = 0;
    proof {
        assert(user_trees(found@) =~= users_in(all.take(0)));
        assert(keys_of(keys@) =~= user_keys(user_trees(found@)));
    }
    while i < list.len()
        invariant
            i <= list@.len(),
            all == texts(list@),
            user_trees(found@) == users_in(all.take(i as int)),
            keys_of(keys@) == user_keys(user_trees(found@)),
        decreases list@.len() - i,
    {
        proof {
            assert(all.take(i + 1).drop_last() =~= all.take(i as int));
            assert(all.take(i + 1).last() == list@[i as int]@);
        }
        let ghost found0 = found@;
        let ghost keys0 = keys@;
        if let Some(u) = read_user(list[i].as_str()) {
            let key = TextKey(Some(u.email.clone()));
            keys.push(key);
            found.push(u);
            proof {
                assert(user_trees(found@) =~= user_trees(found0).push(u@));
                assert(keys_of(keys@) =~= keys_of(keys0).push(key@));
                assert(user_keys(user_trees(found@)) =~= user_keys(user_trees(found0)).push(Some(u.email@)));
            }
        }
        i += 1;
    }
    proof {
        assert(all.take(all.len() as int) =~= all);
    }
    let order = stable_order(&keys);
    let ghost rows = user_trees(found@);
    let ghost ks = user_keys(rows);
    proof {
        lemma_order_unique::<TextKey>(ks, positions(order@));
    }
    let mut out: Vec<MailUser> = Vec::new();
    let mut n: usize = 0;
    while n < order.len()
        invariant
            n <= order@.len(),
            rows == user_trees(found@),
            ks.len() == rows.len(),
            crate::order::is_order::<TextKey>(ks, positions(order@)),
            out@.len() == n,
            forall|j: int| 0 <= j < n ==> (#[trigger] out@[j])@ == rows[order@[j] as int],
        decreases order@.len() - n,
    {
        proof {
            assert(positions(order@)[n as int] == order@[n as int]);
            assert(rows[order@[n as int] as int] == found@[order@[n as int] as int]@);
        }
        let u = &found[order[n]];
        out.push(MailUser { email: u.email.clone(), home: u.home.clone() });
        n += 1;
    }
    proof {
        assert(user_trees(out@) =~= arranged(rows, positions(order@)));
    }
    out
}

/// The directory of the first mailbox of an address.
pub open spec fn home_of(users: Seq<UserTree>, address: Seq<char>) -> Option<Seq<char>>
    decreases users.len(),
{
    if users.len() == 0 {
        None
    } else if users[0].email == address {
        Some(users[0].home)
    } else {
        home_of(users.skip(1), address)
    }
}

/// Finds the directory of a mailbox.
pub fn user_home(users: &Vec<MailUser>, address: &str) -> (r: Result<String, String>)
    ensures
        text_result(r) == (match home_of(user_trees(users@), address@) {
            Some(h) => Ok::<Seq<char>, Seq<char>>(h),
            None => Err("mailbox not found"@),
        }),
{
    let ghost all = user_trees(users@);
    let mut i: usize = 0;
    proof {
        assert(all.skip(0) =~= all);
    }
    while i < users.len()
        invariant
            i <= users@.len(),
            all == user_trees(users@),
            home_of(all, address@) == home_of(all.skip(i as int), address@),
        decreases users@.len() - i,
    {
        proof {
            assert(all.skip(i as int)[0] == users@[i as int]@);
            assert(all.skip(i as int).skip(1) =~= all.skip(i + 1));
        }
        if same(users[i].email.as_str(), address) {
            return Ok(users[i].home.clone());
        }
        i += 1;
    }
    Err("mailbox not found".to_owned())
}

/// Whether there is a mailbox of an address.
pub open spec fn has_user(users: Seq<UserTree>, address: Seq<char>) -> bool {
    exists|i: int| 0 <= i < users.len() && (#[trigger] users[i]).email == address
}

/// Whether there is a mailbox of an address.
pub fn is_user(users: &Vec<MailUser>, address: &str) -> (r: bool)
    ensures
        r == has_user(user_trees(users@), address@),
{
    let ghost all = user_trees(users@);
    let mut i: usize = 0;
    while i < users.len()
        invariant
            i <= users@.len(),
            all == user_trees(users@),
            forall|j: int| 0 <= j < i ==> (#[trigger] all[j]).email != address@,
        decreases users@.len() - i,
    {
        proof {
            assert(all[i as int] == users@[i as int]@);
        }
        if same(users[i].email.as_str(), address) {
            return true;
        }
        i += 1;
    }
    false
}

/// The row that shows a mailbox.
pub open spec fn user_row_of(user: UserTree, size: u64, size_mb: Number, last: u64) -> Tree {
    Tree::object().with("email"@, Tree::Text(user.email)).with("createdAt"@, count(0)).with(
        "status"@,
        Tree::Text("active"@),
    ).with("home"@, Tree::Text(user.home)).with("hasPassword"@, Tree::Bool(true)).with(
        "quotaUsed"@,
        count(size),
    ).with("quotaUsedMb"@, Tree::Number(size_mb)).with("lastDelivery"@, count(last))
}

/// Writes the row that shows a mailbox: with its size in bytes and megabytes,
/// and the time of the last delivery.
pub fn user_row(user: &MailUser, size: u64, size_mb: Number, last: u64) -> (r: Json)
    ensures
        r@ == user_row_of(user@, size, size_mb, last),
{
    Json::object()
        .with("email", Json::text(user.email.as_str()))
        .with("createdAt", Json::unsigned(0))
        .with("status", Json::text("active"))
        .with("home", Json::text(user.home.as_str()))
        .with("hasPassword", Json::Bool(true))
        .with("quotaUsed", Json::unsigned(size))
        .with("quotaUsedMb", Json::Number(size_mb))
        .with("lastDelivery", Json::unsigned(last))
}

/// The sum of sizes.
pub open spec fn sum_of(sizes: Seq<u64>) -> nat
    decreases sizes.len(),
{
    if sizes.len() == 0 {
        0
    } else {
        sum_of(sizes.drop_last()) + sizes.last() as nat
    }
}

proof fn lemma_sum_grows(sizes: Seq<u64>, n: int)
    requires
        0 <= n <= sizes.len(),
    ensures
        sum_of(sizes.take(n)) <= sum_of(sizes),
    decreases sizes.len() - n,
{
    if n < sizes.len() {
        assert(sizes.take(n + 1).drop_last() =~= sizes.take(n));
        lemma_sum_grows(sizes, n + 1);
    } else {
        assert(sizes.take(n) =~= sizes);
    }
}

/// The size of a mailbox: what its files add up to, if that fits.
pub fn mailbox_size(sizes: &Vec<u64>) -> (r: Option<u64>)
    ensures
        match r {
            Some(n) => n == sum_of(sizes@),
            None => sum_of(sizes@) > u64::MAX,
        },
{
    let ghost all = sizes@;
    let mut total: u64 = 0;
    let mut i: usize = 0;
    while i < sizes.len()
        invariant
            i <= sizes@.len(),
            all == sizes@,
            total == sum_of(all.take(i as int)),
        decreases sizes@.len() - i,
    {
        proof {
            assert(all.take(i + 1).drop_last() =~= all.take(i as int));
            assert(all.take(i + 1).last() == sizes@[i as int]);
            lemma_sum_grows(all, i + 1);
        }
        if total > u64::MAX - sizes[i] {
            return None;
        }
        total += sizes[i];
        i += 1;
    }
    proof {
        assert(all.take(all.len() as int) =~= all);
    }
    Some(total)
}

/// The latest of the times of deliveries; zero where there are none.
pub fn mailbox_last_delivery(times: &Vec<u64>) -> (r: u64)
    ensures
        forall|i: int| 0 <= i < times@.len() ==> #[trigger] times@[i] <= r,
        times@.len() > 0 ==> times@.contains(r),
        times@.len() == 0 ==> r == 0,
{
    let mut latest: u64 = 0;
    let mut i: usize = 0;
    while i < times.len()
        invariant
            i <= times@.len(),
            forall|j: int| 0 <= j < i ==> #[trigger] times@[j] <= latest,
            i > 0 ==> times@.contains(latest),
            i == 0 ==> latest == 0,
        decreases times@.len() - i,
    {
        if i == 0 || times[i] > latest {
            latest = times[i];
        }
        i += 1;
    }
    latest
}

// ---------------------------------------------------------------------------
// Aliases
// ---------------------------------------------------------------------------

/// The alias that a line of the file describes, if it describes one: the alias
/// and the target with white space between.
pub open spec fn alias_in_line(line: Seq<char>) -> Option<(Seq<char>, Seq<char>)> {
    let l = trimmed(line);
    if l.len() == 0 || "#"@.is_prefix_of(l) {
        None
    } else {
        match parted(l, blank()) {
            Some((alias, target)) => Some((alias, trimmed(target))),
            None => None,
        }
    }
}

/// The aliases that lines of the file describe.
pub open spec fn aliases_in(list: Seq<Seq<char>>) -> Seq<(Seq<char>, Seq<char>)>
    decreases list.len(),
{
    if list.len() == 0 {
        Seq::empty()
    } else {
        match alias_in_line(list.last()) {
            Some(a) => aliases_in(list.drop_last()).push(a),
            None => aliases_in(list.drop_last()),
        }
    }
}

/// The row that shows an alias.
pub open spec fn alias_row_of(a: (Seq<char>, Seq<char>)) -> Tree {
    Tree::object().with("alias"@, Tree::Text(a.0)).with("target"@, Tree::Text(a.1)).with(
        "createdAt"@,
        count(0),
    ).with("status"@, Tree::Text("active"@))
}

/// The keys by which aliases are sorted.
pub open spec fn alias_keys(list: Seq<(Seq<char>, Seq<char>)>) -> Seq<Option<Seq<char>>> {
    list.map_values(|a: (Seq<char>, Seq<char>)| Some(a.0))
}

/// The rows that show the aliases of a list.
pub open spec fn alias_rows(list: Seq<(Seq<char>, Seq<char>)>) -> Seq<Tree> {
    list.map_values(|a: (Seq<char>, Seq<char>)| alias_row_of(a))
}

fn read_alias(line: &str) -> (r: Option<(String, String)>)
    ensures
        crate::text::pair_texts(r) == alias_in_line(line@),
{
    let l = trim(line);
    if l.as_str().is_empty() || starts_with(l.as_str(), "#") {
        return None;
    }
    match split_once_blank(l.as_str()) {
        Some((alias, target)) => Some((alias, trim(target.as_str()))),
        None => None,
    }
}

/// The rows that show the aliases that the file describes, sorted by the alias.
pub open spec fn aliases_of(text: Seq<char>) -> Seq<Tree> {
    let found = aliases_in(lines_of(text));
    sorted_by::<TextKey, Tree>(alias_rows(found), alias_keys(found))
}

/// Puts rows into an order.
pub fn arrange_rows(rows: &Vec<Json>, keys: &Vec<TextKey>) -> (r: Vec<Json>)
    requires
        rows@.len() == keys@.len(),
    ensures
        trees(r@) == sorted_by::<TextKey, Tree>(trees(rows@), keys_of(keys@)),
{
    let order = stable_order(keys);
    let ghost ks = keys_of(keys@);
    proof {
        lemma_order_unique::<TextKey>(ks, positions(order@));
    }
    let mut out: Vec<Json> = Vec::new();
    let mut n: usize = 0;
    while n < order.len()
        invariant
            n <= order@.len(),
            ks.len() == rows@.len(),
            crate::order::is_order::<TextKey>(ks, positions(order@)),
            out@.len() == n,
            forall|j: int| 0 <= j < n ==> (#[trigger] out@[j])@ == rows@[order@[j] as int]@,
        decreases order@.len() - n,
    {
        proof {
            assert(positions(order@)[n as int] == order@[n as int]);
        }
        out.push(rows[order[n]].copy());
        n += 1;
    }
    proof {
        assert forall|j: int| 0 <= j < order@.len() implies 0 <= #[trigger] order@[j] < rows@.len() by {
            assert(positions(order@)[j] == order@[j]);
        }
        assert(trees(out@) =~= arranged(trees(rows@), positions(order@)));
    }
    out
}

/// Reads the aliases from the file: rows sorted by the alias.
pub fn aliases(text: &str) -> (r: Json)
    ensures
        r@ == Tree::Array(aliases_of(text@)),
{
    let list = lines(text);
    let ghost all = texts(list@);
    let mut rows: Vec<Json> = Vec::new();
    let mut keys: Vec<TextKey> = Vec::new();
    let mut i: usize = 0;
    proof {
        assert(trees(rows@) =~= alias_rows(aliases_in(all.take(0))));
        assert(keys_of(keys@) =~= alias_keys(aliases_in(all.take(0))));
    }
    while i < list.len()
        invariant
            i <= list@.len(),
            all == texts(list@),
            trees(rows@) == alias_rows(aliases_in(all.take(i as int))),
            keys_of(keys@) == alias_keys(aliases_in(all.take(i as int))),
        decreases list@.len() - i,
    {
        let ghost before = aliases_in(all.take(i as int));
        let ghost rows0 = rows@;
        let ghost keys0 = keys@;
        proof {
            assert(all.take(i + 1).drop_last() =~= all.take(i as int));
            assert(all.take(i + 1).last() == list@[i as int]@);
        }
        if let Some((alias, target)) = read_alias(list[i].as_str()) {
            let row = Json::object()
                .with("alias", Json::text(alias.as_str()))
                .with("target", Json::text(target.as_str()))
                .with("createdAt", Json::unsigned(0))
                .with("status", Json::text("active"));
            let ghost a = (alias@, target@);
            let key = TextKey(Some(alias));
            rows.push(row);
            keys.push(key);
            proof {
                assert(trees(rows@) =~= trees(rows0).push(alias_row_of(a)));
                assert(alias_rows(before.push(a)) =~= alias_rows(before).push(alias_row_of(a)));
                assert(keys_of(keys@) =~= keys_of(keys0).push(key@));
                assert(alias_keys(before.push(a)) =~= alias_keys(before).push(Some(a.0)));
            }
        }
        i += 1;
    }
    proof {
        assert(all.take(all.len() as int) =~= all);
        assert(trees(rows@).len() == rows@.len());
        assert(keys_of(keys@).len() == keys@.len());
    }
    Json::array(arrange_rows(&rows, &keys))
}

} // verus!
