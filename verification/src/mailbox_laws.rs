//! What making a mailbox or an alias means for reading them back.
use crate::mailboxes::{alias_line, other_line, other_lines, user_line, with_alias, with_line, with_user};
use crate::order::{arranged, goes_first, lemma_order_exists, order_of, sorted_by, TextKey};
use crate::steps::law_file_lines;
use crate::text::{
    among, blank, first_at, lemma_first_at, lemma_pieces_append, lemma_pieces_kind, lemma_pieces_mark,
    lemma_pieces_prefix, lemma_pieces_some, lemma_pieces_whole, lemma_run_end, lemma_trimmed_fixed,
    lemma_trimmed_push, lines_of, parted, pieces, split_at, trimmed, white_space, without_return,
};
use crate::json::Tree;
use crate::users::{
    alias_in_line, alias_keys, alias_row_of, alias_rows, aliases_in, aliases_of, home_of, user_in_line,
    user_keys, users_in, users_of, UserTree,
};
use vstd::prelude::*;

verus! {

/// A text without line feeds.
pub open spec fn one_line(s: Seq<char>) -> bool {
    !s.contains('\n')
}

/// What a line that describes a mailbox can hold so that it reads back: an
/// address with an at sign that does not look like a comment, and no colons
/// or line feeds.
pub open spec fn reads_back(email: Seq<char>, hash: Seq<char>, root: Seq<char>) -> bool {
    &&& email.contains('@') && email[0] != '#' && trimmed(email) == email
    &&& !email.contains(':') && one_line(email)
    &&& !hash.contains(':') && one_line(hash)
    &&& root.len() > 0 && trimmed(root) == root
    &&& !root.contains(':') && one_line(root)
}

/// Whether a line describes a mailbox of an address only if it starts with the
/// address and a colon.
pub open spec fn starts_plainly(line: Seq<char>, email: Seq<char>) -> bool {
    (user_in_line(line) matches Some(u) && u.email == email) ==> (email + ":"@).is_prefix_of(line)
}

proof fn lemma_home_push(users: Seq<UserTree>, u: UserTree, address: Seq<char>)
    ensures
        home_of(users.push(u), address) == (match home_of(users, address) {
            Some(h) => Some(h),
            None => if u.email == address {
                Some(u.home)
            } else {
                None
            },
        }),
    decreases users.len(),
{
    if users.len() == 0 {
        let rest = users.push(u).skip(1);
        assert(rest.len() == 0);
        assert(home_of(rest, address) is None);
    } else {
        assert(users.push(u).skip(1) =~= users.skip(1).push(u));
        lemma_home_push(users.skip(1), u, address);
    }
}

proof fn lemma_home_first(users: Seq<UserTree>, address: Seq<char>, i: int)
    requires
        0 <= i < users.len(),
        users[i].email == address,
        forall|j: int| 0 <= j < i ==> (#[trigger] users[j]).email != address,
    ensures
        home_of(users, address) == Some(users[i].home),
    decreases users.len(),
{
    if i > 0 {
        let rest = users.skip(1);
        assert(users[0].email != address);
        assert forall|j: int| 0 <= j < i - 1 implies (#[trigger] rest[j]).email != address by {
            assert(rest[j] == users[j + 1]);
        }
        lemma_home_first(rest, address, i - 1);
    }
}

proof fn lemma_home_none(users: Seq<UserTree>, address: Seq<char>)
    requires
        forall|j: int| 0 <= j < users.len() ==> (#[trigger] users[j]).email != address,
    ensures
        home_of(users, address) is None,
    decreases users.len(),
{
    if users.len() > 0 {
        let rest = users.skip(1);
        assert(users[0].email != address);
        assert forall|j: int| 0 <= j < rest.len() implies (#[trigger] rest[j]).email != address by {
            assert(rest[j] == users[j + 1]);
        }
        lemma_home_none(rest, address);
    }
}

/// The first position of an address from a position on, or the length.
spec fn first_user(users: Seq<UserTree>, address: Seq<char>, i: int) -> int
    decreases users.len() - i,
{
    if i >= users.len() || users[i].email == address {
        i
    } else {
        first_user(users, address, i + 1)
    }
}

proof fn lemma_first_user(users: Seq<UserTree>, address: Seq<char>, i: int)
    requires
        0 <= i <= users.len(),
    ensures
        i <= first_user(users, address, i) <= users.len(),
        first_user(users, address, i) < users.len() ==> users[first_user(users, address, i)].email
            == address,
        forall|j: int| i <= j < first_user(users, address, i) ==> (#[trigger] users[j]).email != address,
    decreases users.len() - i,
{
    if i < users.len() && users[i].email != address {
        lemma_first_user(users, address, i + 1);
    }
}

/// Sorting by address does not change which mailbox of an address comes first.
proof fn lemma_sorted_home(users: Seq<UserTree>, address: Seq<char>)
    ensures
        home_of(sorted_by::<TextKey, UserTree>(users, user_keys(users)), address) == home_of(users, address),
{
    let keys = user_keys(users);
    lemma_order_exists::<TextKey>(keys);
    let o = order_of::<TextKey>(keys);
    let sorted = arranged(users, o);
    let p = first_user(sorted, address, 0);
    let i = first_user(users, address, 0);
    lemma_first_user(sorted, address, 0);
    lemma_first_user(users, address, 0);
    if i < users.len() {
        lemma_home_first(users, address, i);
        crate::order::lemma_order_complete::<TextKey>(keys, o, i);
        let q = choose|q: int| 0 <= q < o.len() && o[q] == i;
        assert(sorted[q] == users[i]);
        assert(p <= q);
        assert(sorted[p] == users[o[p]]);
        if o[p] != i {
            assert(p < q);
            assert(goes_first::<TextKey>(keys, o[p], o[q]));
            assert(keys[o[p]] == Some(address));
            assert(keys[i] == Some(address));
            crate::order::lemma_before_total(address, address);
            assert(o[p] < i);
            assert(users[o[p]].email != address);
        }
        lemma_home_first(sorted, address, p);
    } else {
        lemma_home_none(users, address);
        assert forall|j: int| 0 <= j < sorted.len() implies (#[trigger] sorted[j]).email != address by {
            assert(0 <= o[j] < keys.len());
            assert(sorted[j] == users[o[j]]);
        }
        lemma_home_none(sorted, address);
    }
}

/// A text starts with a hash sign if that is its first character.
proof fn lemma_hash(s: Seq<char>)
    requires
        s.len() > 0,
    ensures
        "#"@.is_prefix_of(s) == (s[0] == '#'),
{
    reveal_strlit("#");
    if s[0] == '#' {
        assert("#"@ =~= s.subrange(0, 1));
    } else {
        assert(s.subrange(0, 1)[0] == s[0]);
    }
}

/// Texts on one line make a text on one line.
pub proof fn lemma_one_line(a: Seq<char>, b: Seq<char>)
    requires
        one_line(a),
        one_line(b),
    ensures
        one_line(a + b),
{
    let s = a + b;
    if s.contains('\n') {
        let k = choose|k: int| 0 <= k < s.len() && s[k] == '\n';
        if k < a.len() {
            assert(a[k] == '\n');
        } else {
            assert(b[k - a.len()] == '\n');
        }
    }
}

/// A carriage return at the end of a line does not change which mailbox it
/// describes.
proof fn lemma_user_without_return(l: Seq<char>)
    ensures
        user_in_line(without_return(l)) == user_in_line(l),
{
    if l.len() > 0 && l.last() == '\r' {
        let w = l.drop_last();
        let kind = among(seq![':']);
        assert(w.push('\r') =~= l);
        lemma_trimmed_push(w, '\r');
        lemma_pieces_some(w, kind);
        let before = split_at(w, ':');
        let after = split_at(l, ':');
        assert(!seq![':'].contains('\r'));
        assert(!kind('\r'));
        assert(after == before.drop_last().push(before.last().push('\r')));
        lemma_trimmed_push(before.last(), '\r');
        if w.len() > 0 {
            lemma_hash(w);
            lemma_hash(l);
            assert(w.contains(':') == l.contains(':')) by {
                if w.contains(':') {
                    let k = choose|k: int| 0 <= k < w.len() && w[k] == ':';
                    assert(l[k] == ':');
                }
                if l.contains(':') {
                    let k = choose|k: int| 0 <= k < l.len() && l[k] == ':';
                    assert(w[k] == ':');
                }
            }
        } else {
            lemma_trimmed_fixed(w);
        }
    }
}

/// No line of a text holds a line feed.
pub proof fn lemma_lines_have_no_feed(text: Seq<char>)
    ensures
        forall|i: int| 0 <= i < lines_of(text).len() ==> one_line(#[trigger] lines_of(text)[i]),
{
    let kind = among(seq!['\n']);
    let p = split_at(text, '\n');
    lemma_pieces_kind(text, kind);
    lemma_pieces_some(text, kind);
    let l = lines_of(text);
    assert forall|i: int| 0 <= i < l.len() implies one_line(#[trigger] l[i]) by {
        if l[i].contains('\n') {
            let j = choose|j: int| 0 <= j < l[i].len() && l[i][j] == '\n';
            assert(p[i][j] == '\n');
            assert(seq!['\n'][0] == '\n');
            assert(kind(p[i][j]));
        }
    }
}

/// The lines of a file in which one line took the place of others.
proof fn lemma_with_line(text: Seq<char>, prefix: Seq<char>, line: Seq<char>)
    requires
        one_line(line),
    ensures
        lines_of(with_line(text, prefix, line)) == other_lines(text, prefix).map_values(
            |l: Seq<char>| without_return(l),
        ).push(without_return(line)),
{
    let kept = other_lines(text, prefix);
    let all = lines_of(text);
    let list = kept.push(line);
    lemma_lines_have_no_feed(text);
    lemma_filter_from(all, other_line(prefix));
    assert forall|i: int, j: int| 0 <= i < list.len() && 0 <= j < list[i].len() implies (#[trigger] list[i][j])
        != '\n' by {
        if i < kept.len() {
            assert(all.contains(kept[i]));
            let k = choose|k: int| 0 <= k < all.len() && all[k] == kept[i];
            assert(one_line(all[k]));
            assert(all[k].contains(all[k][j]));
        } else {
            assert(line.contains(line[j]));
        }
    }
    law_file_lines(list);
    assert(list.map_values(|l: Seq<char>| without_return(l)) =~= kept.map_values(
        |l: Seq<char>| without_return(l),
    ).push(without_return(line)));
}

/// What a filter keeps was in the list.
pub proof fn lemma_filter_from(list: Seq<Seq<char>>, kind: spec_fn(Seq<char>) -> bool)
    ensures
        forall|i: int| 0 <= i < list.filter(kind).len() ==> list.contains(#[trigger] list.filter(kind)[i]),
    decreases list.len(),
{
    reveal(Seq::filter);
    if list.len() > 0 {
        let init = list.drop_last();
        lemma_filter_from(init, kind);
        let f = list.filter(kind);
        let g = init.filter(kind);
        assert forall|i: int| 0 <= i < f.len() implies list.contains(#[trigger] f[i]) by {
            if i < g.len() {
                assert(f[i] == g[i]);
                assert(init.contains(g[i]));
                let k = choose|k: int| 0 <= k < init.len() && init[k] == g[i];
                assert(list[k] == f[i]);
            } else {
                assert(list[list.len() - 1] == f[i]);
            }
        }
    }
}

/// A line that starts with an address and a colon describes that mailbox or
/// none.
proof fn lemma_prefix_email(line: Seq<char>, email: Seq<char>)
    requires
        !email.contains(':'),
        (email + ":"@).is_prefix_of(line),
        trimmed(email) == email,
    ensures
        user_in_line(line) matches Some(u) ==> u.email == email,
{
    reveal_strlit(":");
    let kind = among(seq![':']);
    let start = email.push(':');
    assert(email + ":"@ =~= start);
    let rest = line.skip(start.len() as int);
    assert(start + rest =~= line);
    assert forall|j: int| 0 <= j < email.len() implies !kind(#[trigger] email[j]) by {
        assert(email.contains(email[j]));
    }
    lemma_pieces_whole(email, kind);
    assert(seq![':'][0] == ':');
    lemma_pieces_mark(email, ':', kind);
    lemma_pieces_prefix(start, rest, kind);
    assert(pieces(start, kind)[0] == email);
}

/// Which mailbox of another address comes first is not changed by leaving out
/// the lines of one address.
proof fn lemma_others_stay(all: Seq<Seq<char>>, email: Seq<char>, address: Seq<char>)
    requires
        !email.contains(':'),
        trimmed(email) == email,
        address != email,
    ensures
        home_of(
            users_in(all.filter(other_line(email + ":"@)).map_values(|l: Seq<char>| without_return(l))),
            address,
        ) == home_of(users_in(all), address),
    decreases all.len(),
{
    reveal(Seq::filter);
    let kind = other_line(email + ":"@);
    let cut = |l: Seq<char>| without_return(l);
    if all.len() == 0 {
        assert(all.filter(kind).map_values(cut) =~= Seq::empty());
    } else {
        let init = all.drop_last();
        let x = all.last();
        lemma_others_stay(init, email, address);
        let before = init.filter(kind).map_values(cut);
        let now = all.filter(kind).map_values(cut);
        if let Some(u) = user_in_line(x) {
            lemma_home_push(users_in(init), u, address);
        }
        if kind(x) {
            assert(now =~= before.push(cut(x)));
            assert(now.drop_last() =~= before);
            lemma_user_without_return(x);
            if let Some(u) = user_in_line(x) {
                lemma_home_push(users_in(before), u, address);
            }
        } else {
            assert(now =~= before);
            if (email + ":"@).is_prefix_of(x) {
                lemma_prefix_email(x, email);
            }
        }
    }
}

/// Leaving out the lines of an address leaves no mailbox of it, where only
/// those lines describe one.
proof fn lemma_none_left(all: Seq<Seq<char>>, email: Seq<char>)
    requires
        forall|i: int| 0 <= i < all.len() ==> starts_plainly(#[trigger] all[i], email),
    ensures
        home_of(
            users_in(all.filter(other_line(email + ":"@)).map_values(|l: Seq<char>| without_return(l))),
            email,
        ) is None,
    decreases all.len(),
{
    reveal(Seq::filter);
    let kind = other_line(email + ":"@);
    let cut = |l: Seq<char>| without_return(l);
    if all.len() == 0 {
        assert(all.filter(kind).map_values(cut) =~= Seq::empty());
    } else {
        let init = all.drop_last();
        let x = all.last();
        assert(starts_plainly(all[all.len() - 1], email));
        assert forall|i: int| 0 <= i < init.len() implies starts_plainly(#[trigger] init[i], email) by {
            assert(init[i] == all[i]);
        }
        lemma_none_left(init, email);
        let before = init.filter(kind).map_values(cut);
        let now = all.filter(kind).map_values(cut);
        if kind(x) {
            assert(now =~= before.push(cut(x)));
            assert(now.drop_last() =~= before);
            lemma_user_without_return(x);
            if let Some(u) = user_in_line(x) {
                lemma_home_push(users_in(before), u, email);
            }
        } else {
            assert(now =~= before);
        }
    }
}

/// The fields of the line that is written for a mailbox.
proof fn lemma_user_fields(email: Seq<char>, hash: Seq<char>, root: Seq<char>)
    requires
        !email.contains(':'),
        !hash.contains(':'),
        !root.contains(':'),
    ensures
        split_at(user_line(email, hash, root), ':').len() > 5,
        split_at(user_line(email, hash, root), ':')[0] == email,
        split_at(user_line(email, hash, root), ':')[5] == root,
{
    let line = user_line(email, hash, root);
    let kind = among(seq![':']);
    reveal_strlit(":");
    reveal_strlit(":5000:8::");
    reveal_strlit("::userdb_mail=maildir:");
    assert(seq![':'][0] == ':');
    assert(kind(':'));
    assert(!kind('5') && !kind('0') && !kind('8')) by {
        assert(!seq![':'].contains('5'));
        assert(!seq![':'].contains('0'));
        assert(!seq![':'].contains('8'));
    }
    assert forall|j: int| 0 <= j < email.len() implies !kind(#[trigger] email[j]) by {
        assert(email.contains(email[j]));
    }
    assert forall|j: int| 0 <= j < hash.len() implies !kind(#[trigger] hash[j]) by {
        assert(hash.contains(hash[j]));
    }
    assert forall|j: int| 0 <= j < root.len() implies !kind(#[trigger] root[j]) by {
        assert(root.contains(root[j]));
    }
    let none = Seq::<char>::empty();
    lemma_pieces_whole(email, kind);
    let a = email.push(':');
    lemma_pieces_mark(email, ':', kind);
    let b = a + hash;
    lemma_pieces_append(a, hash, kind);
    let c = b.push(':');
    lemma_pieces_mark(b, ':', kind);
    let five = seq!['5', '0', '0', '0'];
    let d = c + five;
    lemma_pieces_append(c, five, kind);
    let e = d.push(':');
    lemma_pieces_mark(d, ':', kind);
    let f = e + seq!['8'];
    lemma_pieces_append(e, seq!['8'], kind);
    let g = f.push(':');
    lemma_pieces_mark(f, ':', kind);
    let h = g.push(':');
    lemma_pieces_mark(g, ':', kind);
    let i = h + root;
    lemma_pieces_append(h, root, kind);
    assert(none + root =~= root);
    let j = i.push(':');
    lemma_pieces_mark(i, ':', kind);
    assert(pieces(j, kind).len() == 7);
    let rest = line.skip(j.len() as int);
    assert(email + ":"@ + hash + ":5000:8::"@ + root =~= i);
    assert(line =~= i + ("::userdb_mail=maildir:"@ + root + "/Maildir"@));
    assert(j + rest =~= line);
    lemma_pieces_prefix(j, rest, kind);
    assert(pieces(j, kind)[0] == email);
    assert(pieces(j, kind)[5] == root);
}

/// The line that is written for a mailbox describes it.
proof fn lemma_user_line(email: Seq<char>, hash: Seq<char>, root: Seq<char>)
    requires
        reads_back(email, hash, root),
    ensures
        user_in_line(user_line(email, hash, root)) == Some(UserTree { email, home: root }),
        one_line(user_line(email, hash, root)),
        without_return(user_line(email, hash, root)) == user_line(email, hash, root),
{
    let line = user_line(email, hash, root);
    lemma_user_fields(email, hash, root);
    assert(line.contains(':')) by {
        reveal_strlit(":");
        assert(line[email.len() as int] == ':');
    }
    let at = choose|k: int| 0 <= k < email.len() && email[k] == '@';
    assert(line[at] == '@');
    assert(!white_space('@'));
    lemma_has_text(line, at);
    assert(line[0] == email[0]);
    lemma_hash(line);
    assert(one_line(":"@)) by {
        reveal_strlit(":");
    }
    assert(one_line(":5000:8::"@)) by {
        reveal_strlit(":5000:8::");
    }
    assert(one_line("::userdb_mail=maildir:"@)) by {
        reveal_strlit("::userdb_mail=maildir:");
    }
    assert(one_line("/Maildir"@)) by {
        reveal_strlit("/Maildir");
    }
    lemma_one_line(email, ":"@);
    lemma_one_line(email + ":"@, hash);
    lemma_one_line(email + ":"@ + hash, ":5000:8::"@);
    lemma_one_line(email + ":"@ + hash + ":5000:8::"@, root);
    lemma_one_line(email + ":"@ + hash + ":5000:8::"@ + root, "::userdb_mail=maildir:"@);
    lemma_one_line(email + ":"@ + hash + ":5000:8::"@ + root + "::userdb_mail=maildir:"@, root);
    lemma_one_line(email + ":"@ + hash + ":5000:8::"@ + root + "::userdb_mail=maildir:"@ + root, "/Maildir"@);
    assert(line.last() == 'r') by {
        reveal_strlit("/Maildir");
        assert("/Maildir"@.last() == 'r');
    }
}

/// A text that holds something else than white space is not empty when
/// trimmed.
proof fn lemma_has_text(s: Seq<char>, k: int)
    requires
        0 <= k < s.len(),
        !white_space(s[k]),
    ensures
        trimmed(s).len() > 0,
{
    let kind = blank();
    let a = crate::text::run_end(s, kind, 0);
    lemma_run_end(s, kind, 0);
    if a > k {
        assert(kind(s[k]));
    }
    let t = s.skip(a);
    let n = t.len() as int;
    crate::text::lemma_run_start(t, kind, n);
    let b = crate::text::run_start(t, kind, n);
    if b == 0 {
        assert(kind(t[k - a]));
        assert(t[k - a] == s[k]);
    }
}

/// A mailbox that is written to the file of mailboxes is found in it, with its
/// directory, unless a line that does not start with the address and a colon
/// describes a mailbox of that address too.
pub proof fn law_new_mailbox_is_found(text: Seq<char>, email: Seq<char>, hash: Seq<char>, root: Seq<char>)
    requires
        reads_back(email, hash, root),
        forall|i: int| 0 <= i < lines_of(text).len() ==> starts_plainly(#[trigger] lines_of(text)[i], email),
    ensures
        home_of(users_of(with_user(text, email, hash, root)), email) == Some(root),
{
    let line = user_line(email, hash, root);
    lemma_user_line(email, hash, root);
    lemma_with_line(text, email + ":"@, line);
    lemma_none_left(lines_of(text), email);
    let kept = other_lines(text, email + ":"@).map_values(|l: Seq<char>| without_return(l));
    let now = kept.push(line);
    assert(now.drop_last() =~= kept);
    lemma_home_push(users_in(kept), UserTree { email, home: root }, email);
    lemma_sorted_home(users_in(now), email);
}

/// Writing a mailbox to the file of mailboxes does not change where the
/// mailboxes of other addresses are found.
pub proof fn law_other_mailboxes_stay(
    text: Seq<char>,
    email: Seq<char>,
    hash: Seq<char>,
    root: Seq<char>,
    address: Seq<char>,
)
    requires
        reads_back(email, hash, root),
        address != email,
    ensures
        home_of(users_of(with_user(text, email, hash, root)), address) == home_of(users_of(text), address),
{
    let line = user_line(email, hash, root);
    lemma_user_line(email, hash, root);
    lemma_with_line(text, email + ":"@, line);
    lemma_others_stay(lines_of(text), email, address);
    let kept = other_lines(text, email + ":"@).map_values(|l: Seq<char>| without_return(l));
    let now = kept.push(line);
    assert(now.drop_last() =~= kept);
    lemma_home_push(users_in(kept), UserTree { email, home: root }, address);
    lemma_sorted_home(users_in(now), address);
    lemma_sorted_home(users_in(lines_of(text)), address);
}

/// What an alias can be so that it reads back: a word that does not look like a
/// comment.
pub open spec fn is_word(alias: Seq<char>) -> bool {
    &&& alias.len() > 0 && alias[0] != '#'
    &&& forall|i: int| 0 <= i < alias.len() ==> !white_space(#[trigger] alias[i])
}

/// What the target of an alias can be so that it reads back: trimmed, on one
/// line and not empty.
pub open spec fn is_target(target: Seq<char>) -> bool {
    target.len() > 0 && trimmed(target) == target && one_line(target)
}

/// An alias that is written to the file of aliases is among those that are
/// shown.
pub proof fn law_new_alias_is_read(text: Seq<char>, alias: Seq<char>, target: Seq<char>)
    requires
        is_word(alias),
        is_target(target),
    ensures
        aliases_of(with_alias(text, alias, target)).contains(alias_row_of((alias, target))),
{
    let found = aliases_in(lines_of(with_alias(text, alias, target)));
    let line = alias_line(alias, target);
    lemma_alias_line(alias, target);
    lemma_with_line(text, alias + " "@, line);
    let kept = other_lines(text, alias + " "@).map_values(|l: Seq<char>| without_return(l));
    assert(kept.push(line).drop_last() =~= kept);
    assert(found.last() == (alias, target));
    assert(alias_rows(found)[found.len() - 1] == alias_row_of((alias, target)));
    lemma_sorted_rows(found, alias_row_of((alias, target)));
}

/// Writing an alias to the file of aliases does not change which targets are
/// shown for other aliases.
pub proof fn law_other_aliases_stay(
    text: Seq<char>,
    alias: Seq<char>,
    target: Seq<char>,
    other: (Seq<char>, Seq<char>),
)
    requires
        is_word(alias),
        is_target(target),
        other.0 != alias,
    ensures
        aliases_of(with_alias(text, alias, target)).contains(alias_row_of(other)) == aliases_of(text).contains(
            alias_row_of(other),
        ),
{
    let row = alias_row_of(other);
    let old = aliases_in(lines_of(text));
    let found = aliases_in(lines_of(with_alias(text, alias, target)));
    let line = alias_line(alias, target);
    lemma_alias_line(alias, target);
    lemma_with_line(text, alias + " "@, line);
    let kept = other_lines(text, alias + " "@).map_values(|l: Seq<char>| without_return(l));
    assert(kept.push(line).drop_last() =~= kept);
    assert(found == aliases_in(kept).push((alias, target)));
    lemma_sorted_rows(found, row);
    lemma_sorted_rows(old, row);
    lemma_alias_row(other);
    if alias_rows(found).contains(row) {
        let i = choose|i: int| 0 <= i < alias_rows(found).len() && alias_rows(found)[i] == row;
        lemma_alias_row(found[i]);
        assert(found[i].0 == other.0);
        assert(aliases_in(kept)[i] == found[i]);
        lemma_aliases_kept(lines_of(text), alias, found[i]);
        let k = choose|k: int| 0 <= k < old.len() && old[k] == found[i];
        assert(alias_rows(old)[k] == row);
    }
    if alias_rows(old).contains(row) {
        let i = choose|i: int| 0 <= i < alias_rows(old).len() && alias_rows(old)[i] == row;
        lemma_alias_row(old[i]);
        assert(old[i].0 == other.0);
        assert(old.contains(old[i]));
        lemma_aliases_kept(lines_of(text), alias, old[i]);
        let k = choose|k: int| 0 <= k < aliases_in(kept).len() && aliases_in(kept)[k] == old[i];
        assert(found[k] == old[i]);
        assert(alias_rows(found)[k] == row);
    }
}

/// The row that shows an alias names it.
pub proof fn lemma_alias_row(a: (Seq<char>, Seq<char>))
    ensures
        alias_row_of(a).at("alias"@) == Tree::Text(a.0),
{
    reveal_strlit("alias");
    reveal_strlit("target");
    reveal_strlit("createdAt");
    reveal_strlit("status");
    assert("alias"@.len() == 5 && "target"@.len() == 6 && "createdAt"@.len() == 9 && "status"@.len() == 6);
}

/// Sorting keeps the rows that show aliases.
proof fn lemma_sorted_rows(found: Seq<(Seq<char>, Seq<char>)>, row: Tree)
    ensures
        sorted_by::<TextKey, Tree>(alias_rows(found), alias_keys(found)).contains(row) == alias_rows(
            found,
        ).contains(row),
{
    let rows = alias_rows(found);
    let keys = alias_keys(found);
    lemma_order_exists::<TextKey>(keys);
    let o = order_of::<TextKey>(keys);
    let sorted = arranged(rows, o);
    if rows.contains(row) {
        let i = choose|i: int| 0 <= i < rows.len() && rows[i] == row;
        crate::order::lemma_order_complete::<TextKey>(keys, o, i);
        let q = choose|q: int| 0 <= q < o.len() && o[q] == i;
        assert(sorted[q] == row);
    }
    if sorted.contains(row) {
        let q = choose|q: int| 0 <= q < sorted.len() && sorted[q] == row;
        assert(0 <= o[q] < keys.len());
        assert(rows[o[q]] == row);
    }
}

/// A carriage return at the end of a line does not change which alias it
/// describes.
proof fn lemma_alias_without_return(l: Seq<char>)
    ensures
        alias_in_line(without_return(l)) == alias_in_line(l),
{
    if l.len() > 0 && l.last() == '\r' {
        assert(l.drop_last().push('\r') =~= l);
        lemma_trimmed_push(l.drop_last(), '\r');
    }
}

/// A line that starts with a word and a blank describes the alias of that word
/// or none.
proof fn lemma_prefix_alias(line: Seq<char>, alias: Seq<char>)
    requires
        is_word(alias),
        (alias + " "@).is_prefix_of(line),
    ensures
        alias_in_line(line) matches Some(a) ==> a.0 == alias,
{
    reveal_strlit(" ");
    let kind = blank();
    let n = alias.len() as int;
    let start = alias + seq![' '];
    assert(alias + " "@ =~= start);
    assert forall|j: int| 0 <= j < n implies line[j] == alias[j] by {
        assert(line.subrange(0, start.len() as int)[j] == start[j]);
    }
    assert(line[n] == ' ') by {
        assert(line.subrange(0, start.len() as int)[n] == start[n]);
    }
    lemma_run_end(line, kind, 0);
    assert(!kind(line[0]));
    let t = line.skip(0);
    assert(t =~= line);
    let b = crate::text::run_start(line, kind, line.len() as int);
    crate::text::lemma_run_start(line, kind, line.len() as int);
    if b < n {
        assert(kind(line[b]));
        assert(!white_space(alias[b]));
    }
    let l = trimmed(line);
    assert(l =~= line.take(b));
    if b == n {
        assert(l =~= alias);
        lemma_first_at(l, kind, 0);
        let i = first_at(l, kind, 0);
        if i < l.len() {
            assert(kind(l[i]));
        }
    } else {
        let rest = l.skip(n + 1);
        assert(l =~= alias + seq![' '] + rest);
        lemma_first_word(alias, rest);
    }
}

/// Which targets other aliases have is not changed by leaving out the lines of
/// one alias.
proof fn lemma_aliases_kept(all: Seq<Seq<char>>, alias: Seq<char>, other: (Seq<char>, Seq<char>))
    requires
        is_word(alias),
        other.0 != alias,
    ensures
        aliases_in(
            all.filter(other_line(alias + " "@)).map_values(|l: Seq<char>| without_return(l)),
        ).contains(other) == aliases_in(all).contains(other),
    decreases all.len(),
{
    reveal(Seq::filter);
    let kind = other_line(alias + " "@);
    let cut = |l: Seq<char>| without_return(l);
    if all.len() == 0 {
        assert(all.filter(kind).map_values(cut) =~= Seq::empty());
    } else {
        let init = all.drop_last();
        let x = all.last();
        lemma_aliases_kept(init, alias, other);
        let before = init.filter(kind).map_values(cut);
        let now = all.filter(kind).map_values(cut);
        if let Some(a) = alias_in_line(x) {
            lemma_push_contains(aliases_in(init), a, other);
            lemma_push_contains(aliases_in(before), a, other);
        }
        if kind(x) {
            assert(now =~= before.push(cut(x)));
            assert(now.drop_last() =~= before);
            lemma_alias_without_return(x);
        } else {
            assert(now =~= before);
            if (alias + " "@).is_prefix_of(x) {
                lemma_prefix_alias(x, alias);
            }
        }
    }
}

/// A list with one more item holds that and what it held before.
proof fn lemma_push_contains<T>(list: Seq<T>, item: T, wanted: T)
    ensures
        list.push(item).contains(wanted) == (list.contains(wanted) || item == wanted),
{
    let more = list.push(item);
    if more.contains(wanted) {
        let k = choose|k: int| 0 <= k < more.len() && more[k] == wanted;
        if k < list.len() {
            assert(list[k] == wanted);
        }
    }
    if list.contains(wanted) {
        let k = choose|k: int| 0 <= k < list.len() && list[k] == wanted;
        assert(more[k] == wanted);
    }
    if item == wanted {
        assert(more[list.len() as int] == wanted);
    }
}

/// The line that is written for an alias describes it.
proof fn lemma_alias_line(alias: Seq<char>, target: Seq<char>)
    requires
        is_word(alias),
        is_target(target),
    ensures
        alias_in_line(alias_line(alias, target)) == Some((alias, target)),
        one_line(alias_line(alias, target)),
        without_return(alias_line(alias, target)) == alias_line(alias, target),
{
    let line = alias_line(alias, target);
    assert(" "@ == seq![' ']) by {
        reveal_strlit(" ");
    }
    assert(line.last() == target.last());
    assert(!white_space(target.last())) by {
        crate::text::lemma_trimmed(target);
    }
    assert(line[0] == alias[0]);
    assert(trimmed(line) == line) by {
        lemma_trimmed_fixed(line);
    }
    assert("#"@.is_prefix_of(line) == (line[0] == '#')) by {
        lemma_hash(line);
    }
    assert(one_line(line)) by {
        if alias.contains('\n') {
            let k = choose|k: int| 0 <= k < alias.len() && alias[k] == '\n';
            assert(!white_space(alias[k]));
        }
        lemma_one_line(alias, " "@);
        lemma_one_line(alias + " "@, target);
    }
    assert(white_space('\r'));
    lemma_first_word(alias, target);
}

/// A word and what follows a blank come apart at that blank.
proof fn lemma_first_word(word: Seq<char>, rest: Seq<char>)
    requires
        forall|i: int| 0 <= i < word.len() ==> !white_space(#[trigger] word[i]),
    ensures
        parted(word + seq![' '] + rest, blank()) == Some((word, rest)),
{
    let kind = blank();
    let line = word + seq![' '] + rest;
    let n = word.len() as int;
    let i = first_at(line, kind, 0);
    lemma_first_at(line, kind, 0);
    assert(line[n] == ' ');
    assert(kind(line[n]));
    if i < n {
        assert(kind(line[i]));
        assert(line[i] == word[i]);
    }
    assert(i == n);
    assert(line.take(n) =~= word);
    assert(line.skip(n + 1) =~= rest);
}

} // verus!
