//! What flags in file names mean for reading them back, and where folders lie.
use crate::maildir::{
    base_of, candidate_of, changed_flags, char_leq, flagged_name, flags_of, folders_of, found_suffix,
    lemma_char_order, other_than, root_of, seen_name_of, suffix_of,
};
use crate::steps::below;
use crate::text::{decimal, find_from, has_text, lemma_decimal_differs, lemma_find_from, parted_at, stands_at};
use crate::users::{home_of, UserTree};
use vstd::prelude::*;

verus! {

/// The first mark of the flags in a file name is the one that was written,
/// where there was none before.
proof fn lemma_mark_place(base: Seq<char>, flags: Seq<char>)
    requires
        !has_text(base, ":2,"@),
    ensures
        parted_at(base + ":2,"@ + flags, ":2,"@) == Some((base, flags)),
{
    reveal_strlit(":2,");
    let mark = ":2,"@;
    let s = base + mark + flags;
    let n = base.len() as int;
    assert(s.subrange(n, n + 3) =~= mark);
    assert(stands_at(s, mark, n));
    lemma_find_from(s, mark, 0);
    let i = find_from(s, mark, 0);
    if i < n {
        assert(stands_at(s, mark, i));
        let part = s.subrange(i, i + 3);
        assert(part[0] == s[i] && part[1] == s[i + 1] && part[2] == s[i + 2]);
        if i + 3 <= n {
            assert(base.subrange(i, i + 3) =~= part);
            assert(stands_at(base, mark, i));
        } else if i + 2 == n {
            assert(s[n] == ':');
        } else {
            assert(s[n] == ':');
        }
        assert(false);
    }
    if i > n {
        assert(!stands_at(s, mark, n));
    }
    assert(i == n);
    assert(s.take(n) =~= base);
    assert(s.skip(n + 3) =~= flags);
}

/// What stands before the mark of the flags holds no such mark.
proof fn lemma_base_is_bare(name: Seq<char>)
    ensures
        !has_text(base_of(name), ":2,"@),
{
    reveal_strlit(":2,");
    let mark = ":2,"@;
    let i = find_from(name, mark, 0);
    lemma_find_from(name, mark, 0);
    let base = base_of(name);
    if has_text(base, mark) {
        let j = choose|j: int| stands_at(base, mark, j);
        if i >= 0 {
            assert(base == name.take(i));
            assert(name.subrange(j, j + 3) =~= base.subrange(j, j + 3));
        }
        assert(stands_at(name, mark, j));
    }
}

/// The flags of a file name in which a flag was set or cleared.
proof fn lemma_flagged(name: Seq<char>, flag: char, enabled: bool)
    ensures
        flags_of(flagged_name(name, flag, enabled)) == changed_flags(flags_of(name), flag, enabled).sort_by(
            char_leq(),
        ),
        base_of(flagged_name(name, flag, enabled)) == base_of(name),
{
    lemma_base_is_bare(name);
    lemma_mark_place(
        base_of(name),
        changed_flags(flags_of(name), flag, enabled).sort_by(char_leq()),
    );
}

/// Sorting keeps which flags there are.
proof fn lemma_sorted_holds(s: Seq<char>, c: char)
    ensures
        s.sort_by(char_leq()).contains(c) == s.contains(c),
{
    lemma_char_order();
    s.lemma_sort_by_ensures(char_leq());
    s.to_multiset_ensures();
    s.sort_by(char_leq()).to_multiset_ensures();
    assert(s.contains(c) <==> s.to_multiset().count(c) > 0);
    assert(s.sort_by(char_leq()).contains(c) <==> s.sort_by(char_leq()).to_multiset().count(c) > 0);
}

/// Which flags are left when one is set or cleared.
proof fn lemma_changed_holds(flags: Seq<char>, flag: char, enabled: bool, c: char)
    ensures
        changed_flags(flags, flag, enabled).contains(c) == (if c == flag {
            enabled
        } else {
            flags.contains(c)
        }),
{
    let now = changed_flags(flags, flag, enabled);
    if enabled {
        if !flags.contains(flag) {
            assert(now[flags.len() as int] == flag);
            if flags.contains(c) {
                let k = choose|k: int| 0 <= k < flags.len() && flags[k] == c;
                assert(now[k] == c);
            }
            if now.contains(c) && c != flag {
                let k = choose|k: int| 0 <= k < now.len() && now[k] == c;
                assert(flags[k] == c);
            }
        }
    } else {
        let kind = other_than(flag);
        if now.contains(c) {
            let k = choose|k: int| 0 <= k < now.len() && now[k] == c;
            flags.lemma_filter_pred(kind, k);
            lemma_filter_from(flags, kind, k);
        }
        if flags.contains(c) && c != flag {
            let k = choose|k: int| 0 <= k < flags.len() && flags[k] == c;
            flags.lemma_filter_contains(kind, k);
        }
    }
}

proof fn lemma_filter_from(s: Seq<char>, kind: spec_fn(char) -> bool, k: int)
    requires
        0 <= k < s.filter(kind).len(),
    ensures
        s.contains(s.filter(kind)[k]),
    decreases s.len(),
{
    reveal(Seq::filter);
    if s.len() > 0 {
        let init = s.drop_last();
        if k < init.filter(kind).len() {
            lemma_filter_from(init, kind, k);
            let c = s.filter(kind)[k];
            let m = choose|m: int| 0 <= m < init.len() && init[m] == c;
            assert(s[m] == c);
        } else {
            assert(s[s.len() - 1] == s.filter(kind)[k]);
        }
    }
}

/// Setting or clearing a flag does just that: the other flags and the rest of
/// the file name stay.
pub proof fn law_flag_changes_only_itself(name: Seq<char>, flag: char, enabled: bool, other: char)
    requires
        other != flag,
    ensures
        flags_of(flagged_name(name, flag, enabled)).contains(flag) == enabled,
        flags_of(flagged_name(name, flag, enabled)).contains(other) == flags_of(name).contains(other),
        base_of(flagged_name(name, flag, enabled)) == base_of(name),
{
    lemma_flagged(name, flag, enabled);
    let now = changed_flags(flags_of(name), flag, enabled);
    lemma_sorted_holds(now, flag);
    lemma_sorted_holds(now, other);
    lemma_changed_holds(flags_of(name), flag, enabled, flag);
    lemma_changed_holds(flags_of(name), flag, enabled, other);
}

/// What a filter keeps of a multiset.
proof fn lemma_filter_multiset(s: Seq<char>, kind: spec_fn(char) -> bool)
    ensures
        s.filter(kind).to_multiset() == s.to_multiset().filter(kind),
    decreases s.len(),
{
    reveal(Seq::filter);
    broadcast use vstd::multiset::group_multiset_axioms;

    if s.len() == 0 {
        s.to_multiset_ensures();
        s.filter(kind).to_multiset_ensures();
        assert(s.filter(kind).to_multiset() =~= s.to_multiset().filter(kind));
    } else {
        let init = s.drop_last();
        lemma_filter_multiset(init, kind);
        init.to_multiset_ensures();
        init.filter(kind).to_multiset_ensures();
        assert(init.push(s.last()) =~= s);
        assert(s.to_multiset() =~= init.to_multiset().insert(s.last()));
        assert(s.filter(kind).to_multiset() =~= s.to_multiset().filter(kind));
    }
}

/// Sequences with the same members, repetitions counted, sort the same.
proof fn lemma_same_sorted(a: Seq<char>, b: Seq<char>)
    requires
        a.to_multiset() == b.to_multiset(),
    ensures
        a.sort_by(char_leq()) == b.sort_by(char_leq()),
{
    lemma_char_order();
    a.lemma_sort_by_ensures(char_leq());
    b.lemma_sort_by_ensures(char_leq());
    vstd::seq_lib::lemma_sorted_unique(a.sort_by(char_leq()), b.sort_by(char_leq()), char_leq());
}

/// Clearing a flag gives the same name whether it was set before or not.
pub proof fn law_clearing_undoes_setting(name: Seq<char>, flag: char)
    ensures
        flagged_name(flagged_name(name, flag, true), flag, false) == flagged_name(name, flag, false),
{
    let leq = char_leq();
    let kind = other_than(flag);
    let held = flags_of(name);
    let set = changed_flags(held, flag, true);
    lemma_flagged(name, flag, true);
    lemma_char_order();
    set.lemma_sort_by_ensures(leq);
    lemma_filter_multiset(set.sort_by(leq), kind);
    lemma_filter_multiset(set, kind);
    assert(set.filter(kind) == held.filter(kind)) by {
        if !held.contains(flag) {
            reveal(Seq::filter);
            assert(set.drop_last() =~= held);
        }
    }
    lemma_same_sorted(set.sort_by(leq).filter(kind), held.filter(kind));
}

/// Setting or clearing a flag a second time changes nothing.
pub proof fn law_flag_again(name: Seq<char>, flag: char, enabled: bool)
    ensures
        flagged_name(flagged_name(name, flag, enabled), flag, enabled) == flagged_name(name, flag, enabled),
{
    let leq = char_leq();
    let once = changed_flags(flags_of(name), flag, enabled);
    lemma_flagged(name, flag, enabled);
    lemma_char_order();
    once.lemma_sort_by_ensures(leq);
    let sorted = once.sort_by(leq);
    lemma_sorted_holds(once, flag);
    lemma_changed_holds(flags_of(name), flag, enabled, flag);
    if enabled {
        assert(changed_flags(sorted, flag, enabled) == sorted);
    } else {
        lemma_keep_all(sorted, other_than(flag));
        assert(changed_flags(sorted, flag, enabled) == sorted);
    }
    lemma_same_sorted(sorted, once);
}

proof fn lemma_keep_all(s: Seq<char>, kind: spec_fn(char) -> bool)
    requires
        forall|c: char| #[trigger] s.contains(c) ==> kind(c),
    ensures
        s.filter(kind) == s,
    decreases s.len(),
{
    reveal(Seq::filter);
    if s.len() > 0 {
        let init = s.drop_last();
        assert forall|c: char| #[trigger] init.contains(c) implies kind(c) by {
            let k = choose|k: int| 0 <= k < init.len() && init[k] == c;
            assert(s[k] == c);
            assert(s.contains(c));
        }
        lemma_keep_all(init, kind);
        assert(s[s.len() - 1] == s.last());
        assert(s.contains(s.last()));
        assert(init.push(s.last()) =~= s);
    }
}

/// A message without flags that was read has the flag of a read message, and no
/// other.
pub proof fn law_read_message_is_seen(name: Seq<char>)
    requires
        !has_text(name, ":2,"@),
    ensures
        flags_of(seen_name_of(name)) == seq!['S'],
        base_of(seen_name_of(name)) == name,
{
    reveal_strlit(":2,");
    reveal_strlit(":2,S");
    lemma_mark_place(name, seq!['S']);
    assert(name + ":2,S"@ =~= name + ":2,"@ + seq!['S']);
}

/// The file names that a message can get in a folder are all different.
pub proof fn law_candidates_differ(name: Seq<char>, a: u64, b: u64)
    requires
        a != b,
    ensures
        candidate_of(name, a) != candidate_of(name, b),
{
    reveal_strlit(".");
    let x = candidate_of(name, a);
    let y = candidate_of(name, b);
    if a != 0 && b != 0 {
        lemma_decimal_differs(a as nat, b as nat);
        let n = name.len() as int + 1;
        assert(x.skip(n) =~= decimal(a as nat));
        assert(y.skip(n) =~= decimal(b as nat));
    } else if a == 0 {
        assert(x.len() < y.len());
    } else {
        assert(y.len() < x.len());
    }
}

/// The names of folders and of their directories, by their characters.
proof fn lemma_folder_names()
    ensures
        forall|i: int| 0 <= i < folders_of().len() ==> suffix_of(#[trigger] folders_of()[i]) is Some,
        forall|a: Seq<char>, b: Seq<char>|
            #![trigger suffix_of(a), suffix_of(b)]
            suffix_of(a) is Some && suffix_of(a) == suffix_of(b) ==> a == b,
        forall|a: Seq<char>| #[trigger]
            suffix_of(a) matches Some(s) ==> s.len() == 0 || s[0] == '.',
{
    reveal_strlit("");
    reveal_strlit(".Sent");
    reveal_strlit(".Drafts");
    reveal_strlit(".Archive");
    reveal_strlit(".Junk");
    reveal_strlit(".Trash");
    assert(".Sent"@[1] == 'S' && ".Drafts"@[1] == 'D' && ".Archive"@[1] == 'A' && ".Junk"@[1] == 'J' && ".Trash"@[1]
        == 'T');
    assert(""@.len() == 0);
    assert(".Sent"@.len() > 0 && ".Drafts"@.len() > 0 && ".Archive"@.len() > 0 && ".Junk"@.len() > 0
        && ".Trash"@.len() > 0);
    assert(".Sent"@[0] == '.' && ".Drafts"@[0] == '.' && ".Archive"@[0] == '.' && ".Junk"@[0] == '.' && ".Trash"@[0]
        == '.');
}

/// Every folder that is listed has a directory, and different folders of a
/// mailbox have different directories.
pub proof fn law_folders_lie_apart(users: Seq<UserTree>, address: Seq<char>, a: Seq<char>, b: Seq<char>)
    requires
        home_of(users, address) is Some,
    ensures
        forall|i: int|
            0 <= i < folders_of().len() ==> root_of(users, address, #[trigger] folders_of()[i]) is Ok,
        a != b && root_of(users, address, a) is Ok ==> root_of(users, address, a) != root_of(users, address, b),
{
    lemma_folder_names();
    let base = below(home_of(users, address)->0, "Maildir"@);
    assert(base.len() > 0 && base.last() == 'r') by {
        reveal_strlit("Maildir");
        assert("Maildir"@.last() == 'r');
        assert("Maildir"@[0] == 'M');
    }
    if a != b && root_of(users, address, a) is Ok && root_of(users, address, b) is Ok {
        let s = suffix_of(a)->0;
        let t = suffix_of(b)->0;
        assert(s != t);
        reveal_strlit("/");
        let front = base + "/"@;
        if s.len() > 0 && t.len() > 0 {
            if below(base, s) == below(base, t) {
                assert((front + s).skip(front.len() as int) =~= s);
                assert((front + t).skip(front.len() as int) =~= t);
            }
        } else if s.len() > 0 {
            assert(below(base, s).len() > base.len());
        } else if t.len() > 0 {
            assert(below(base, t).len() > base.len());
        } else {
            assert(s =~= t);
        }
    }
}

proof fn lemma_found_suffix(taken: Seq<bool>, suffix: nat, k: int)
    requires
        suffix <= k < taken.len(),
        !taken[k],
        forall|j: int| suffix <= j < k ==> #[trigger] taken[j],
    ensures
        found_suffix(taken, suffix) == Some(k as nat),
    decreases k - suffix,
{
    if suffix < k {
        assert(taken[suffix as int]);
        lemma_found_suffix(taken, suffix + 1, k);
    }
}

/// The search for a file name ends at the first candidate whose name is free,
/// so that no message takes the place of another.
pub proof fn law_first_free_name_is_used(taken: Seq<bool>, k: int)
    requires
        0 <= k < taken.len(),
        !taken[k],
        forall|j: int| 0 <= j < k ==> #[trigger] taken[j],
    ensures
        found_suffix(taken, 0) == Some(k as nat),
{
    lemma_found_suffix(taken, 0, k);
}

} // verus!
