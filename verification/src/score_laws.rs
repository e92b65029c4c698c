//! What the spam score of a message counts, and what a scan makes of it.
use crate::address::{domain_of, email_in};
use crate::json::{text_array, text_items, Tree};
use crate::mail::{body_in, message_of, names_in, walk, MessageTree};
use crate::outside::{regex_finds, regex_groups};
use crate::score::{
    allowlisted, if_hit, is_extension, is_moved, keyword_hits, moved_in, name_hit, name_hits, points,
    policy_texts, reasons, reasons_of, scan_of, scanned_in, score_of, searched, signal_hits, signals,
    signs_of, spam_hits, Hit, Scan,
};
use crate::text::{
    ascii_only, decimal, has_text, last_at, lemma_last_at, lowered, only, stripped_start, trimmed,
};
use crate::text_laws::{law_lowered_piecewise, law_text_stands_in_whole};
use vstd::prelude::*;

verus! {

/// The subject of a message; empty where it has none.
pub open spec fn subject_of(m: MessageTree) -> Seq<char> {
    match m.subject {
        Some(s) => s,
        None => Seq::empty(),
    }
}

/// The plain text of a message.
pub open spec fn plain_of(m: MessageTree) -> Seq<char> {
    body_in(walk(m.root), "text/plain"@)
}

/// Subject and plain text are searched together, whether or not there is a
/// subject: what stands in one of them, in lower case, stands in what is
/// searched.
pub proof fn law_subject_and_text_are_searched(m: MessageTree, needle: Seq<char>)
    requires
        ascii_only(subject_of(m)),
        ascii_only(plain_of(m)),
    ensures
        searched(m) == lowered(subject_of(m)) + seq!['\n'] + lowered(plain_of(m)),
        has_text(lowered(subject_of(m)), needle) ==> has_text(searched(m), needle),
        has_text(lowered(plain_of(m)), needle) ==> has_text(searched(m), needle),
        has_text(searched(m), lowered(plain_of(m))),
        has_text(searched(m), lowered(subject_of(m))),
{
    reveal_strlit("\n");
    let feed = "\n"@;
    assert(feed =~= seq!['\n']);
    assert(ascii_only(feed));
    assert(lowered(feed) =~= seq!['\n']);
    let a = subject_of(m);
    let b = plain_of(m);
    law_lowered_piecewise(a, feed);
    law_lowered_piecewise(a + feed, b);
    let none = Seq::<char>::empty();
    let whole = lowered(a) + seq!['\n'] + lowered(b);
    assert(searched(m) == whole);
    if has_text(lowered(a), needle) {
        law_text_stands_in_whole(none, lowered(a), seq!['\n'] + lowered(b), needle);
        assert(whole =~= none + lowered(a) + (seq!['\n'] + lowered(b)));
    }
    if has_text(lowered(b), needle) {
        law_text_stands_in_whole(lowered(a) + seq!['\n'], lowered(b), none, needle);
        assert(whole =~= lowered(a) + seq!['\n'] + lowered(b) + none);
    }
    crate::text_laws::law_text_stands_between(lowered(a) + seq!['\n'], lowered(b), none, none);
    assert(whole =~= lowered(a) + seq!['\n'] + lowered(b) + none);
    crate::text_laws::law_text_stands_between(none, lowered(a), seq!['\n'] + lowered(b), none);
    assert(whole =~= none + lowered(a) + (seq!['\n'] + lowered(b)));
}

proof fn lemma_points_add(a: Seq<Hit>, b: Seq<Hit>)
    ensures
        points(a + b) == points(a) + points(b),
    decreases b.len(),
{
    if b.len() == 0 {
        assert(a + b =~= a);
    } else {
        assert((a + b).drop_last() =~= a + b.drop_last());
        assert((a + b).last() == b.last());
        lemma_points_add(a, b.drop_last());
    }
}

proof fn lemma_points_one(there: bool, n: nat, reason: Seq<char>)
    ensures
        points(if_hit(there, n, reason)) == (if there {
            n
        } else {
            0
        }),
{
    let hits = if_hit(there, n, reason);
    if there {
        assert(hits.drop_last() =~= Seq::empty());
        assert(points(hits.drop_last()) == 0);
        assert(hits.last().points == n);
    }
}

/// What signs add up to is the sum of what each of them adds.
pub proof fn law_signs_add_up(hits: Seq<Hit>, more: Hit)
    ensures
        points(Seq::empty()) == 0,
        points(hits.push(more)) == points(hits) + more.points,
{
    assert(hits.push(more).drop_last() =~= hits);
}

/// The kind of keywords that stand in a text: they are trimmed and in lower
/// case, and blank ones stand in none.
pub open spec fn found_in(search: Seq<char>) -> spec_fn(Seq<char>) -> bool {
    |word: Seq<char>| lowered(trimmed(word)).len() > 0 && has_text(search, lowered(trimmed(word)))
}

proof fn lemma_keyword_points(words: Seq<Seq<char>>, search: Seq<char>)
    ensures
        points(keyword_hits(words, search)) == 2 * words.filter(found_in(search)).len(),
    decreases words.len(),
{
    reveal(Seq::filter);
    if words.len() > 0 {
        lemma_keyword_points(words.drop_last(), search);
        let word = lowered(trimmed(words.last()));
        let there = word.len() > 0 && has_text(search, word);
        lemma_points_add(
            keyword_hits(words.drop_last(), search),
            if_hit(there, 2, "keyword: "@ + word),
        );
        lemma_points_one(there, 2, "keyword: "@ + word);
    }
}

/// The kind of results of authentication that stand in a header.
pub open spec fn told_in(auth: Seq<char>) -> spec_fn(Seq<char>) -> bool {
    |signal: Seq<char>| has_text(auth, signal)
}

proof fn lemma_signal_points(list: Seq<Seq<char>>, auth: Seq<char>)
    ensures
        points(signal_hits(list, auth)) == 3 * list.filter(told_in(auth)).len(),
    decreases list.len(),
{
    reveal(Seq::filter);
    if list.len() > 0 {
        lemma_signal_points(list.drop_last(), auth);
        let there = has_text(auth, list.last());
        lemma_points_add(signal_hits(list.drop_last(), auth), if_hit(there, 3, list.last()));
        lemma_points_one(there, 3, list.last());
    }
}

/// The kind of file names whose extension is blocked: what follows the last dot,
/// in lower case, is an entry of the list without its leading dots.
pub open spec fn blocked_by(blocked: Seq<Seq<char>>) -> spec_fn(Seq<char>) -> bool {
    |name: Seq<char>|
        exists|i: int, k: int|
            0 <= i < name.len() && 0 <= k < blocked.len() && #[trigger] name[i] == '.' && !name.skip(
                i + 1,
            ).contains('.') && stripped_start(#[trigger] blocked[k], '.') == lowered(name.skip(i + 1))
}

proof fn lemma_name_hit(name: Seq<char>, blocked: Seq<Seq<char>>)
    ensures
        points(name_hit(name, blocked)) == (if blocked_by(blocked)(name) {
            6nat
        } else {
            0nat
        }),
{
    let n = name.len() as int;
    let p = last_at(name, only('.'), n);
    lemma_last_at(name, only('.'), n);
    if p >= 0 {
        let e = name.skip(p + 1);
        lemma_points_one(is_extension(blocked, lowered(e)), 6, "attachment: ."@ + lowered(e));
        assert(name[p] == '.') by {
            assert(only('.')(name[p]));
        }
        assert(!e.contains('.')) by {
            if e.contains('.') {
                let k = choose|k: int| 0 <= k < e.len() && e[k] == '.';
                assert(name[p + 1 + k] == '.');
                assert(only('.')(name[p + 1 + k]));
            }
        }
        if is_extension(blocked, lowered(e)) {
            let k = choose|k: int|
                0 <= k < blocked.len() && stripped_start(#[trigger] blocked[k], '.') == lowered(e);
            assert(name[p] == '.' && stripped_start(blocked[k], '.') == lowered(name.skip(p + 1)));
        }
        if blocked_by(blocked)(name) {
            let (i, k) = choose|i: int, k: int|
                0 <= i < name.len() && 0 <= k < blocked.len() && #[trigger] name[i] == '.' && !name.skip(
                    i + 1,
                ).contains('.') && stripped_start(#[trigger] blocked[k], '.') == lowered(name.skip(i + 1));
            assert(only('.')(name[i]));
            if i < p {
                assert(name.skip(i + 1)[p - i - 1] == '.');
            }
            assert(i == p);
        }
    } else {
        if blocked_by(blocked)(name) {
            let (i, k) = choose|i: int, k: int|
                0 <= i < name.len() && 0 <= k < blocked.len() && #[trigger] name[i] == '.' && !name.skip(
                    i + 1,
                ).contains('.') && stripped_start(#[trigger] blocked[k], '.') == lowered(name.skip(i + 1));
            assert(only('.')(name[i]));
        }
    }
}

proof fn lemma_name_points(names: Seq<Seq<char>>, blocked: Seq<Seq<char>>)
    ensures
        points(name_hits(names, blocked)) == 6 * names.filter(blocked_by(blocked)).len(),
    decreases names.len(),
{
    reveal(Seq::filter);
    if names.len() > 0 {
        lemma_name_points(names.drop_last(), blocked);
        lemma_points_add(name_hits(names.drop_last(), blocked), name_hit(names.last(), blocked));
        lemma_name_hit(names.last(), blocked);
    }
}

/// What is counted of the signs in what is known of a message: ten for a blocked
/// sender, eight for a blocked domain, two for each keyword, three for each
/// failed authentication, six for each attachment with a blocked extension, and
/// two for more links than are allowed.
pub proof fn law_signs_are_counted(
    sender: Seq<char>,
    search: Seq<char>,
    auth: Seq<char>,
    names: Seq<Seq<char>>,
    links: nat,
    policy: Tree,
)
    ensures
        points(signs_of(sender, search, auth, names, links, policy)) == (if policy_texts(
            policy,
            "blocklist"@,
        ).contains(sender) {
            10int
        } else {
            0int
        }) + (if policy_texts(policy, "domainBlocklist"@).contains(domain_of(sender)) {
            8int
        } else {
            0int
        }) + 2 * policy_texts(policy, "subjectKeywords"@).filter(found_in(search)).len() + 3 * seq![
            "spf=fail"@,
            "dkim=fail"@,
            "dmarc=fail"@,
            "spf=softfail"@,
        ].filter(told_in(auth)).len() + 6 * names.filter(
            blocked_by(policy_texts(policy, "attachmentExtensions"@)),
        ).len() + (if links > policy.at("maxLinks"@).unsigned_or(10) {
            2int
        } else {
            0int
        }),
{
    let there = policy_texts(policy, "blocklist"@).contains(sender);
    let a = if_hit(there, 10, "blocked sender"@);
    let known = policy_texts(policy, "domainBlocklist"@).contains(domain_of(sender));
    let b = if_hit(known, 8, "blocked domain"@);
    let c = keyword_hits(policy_texts(policy, "subjectKeywords"@), search);
    let d = signal_hits(signals(), auth);
    let e = name_hits(names, policy_texts(policy, "attachmentExtensions"@));
    let many = links > policy.at("maxLinks"@).unsigned_or(10);
    let f = if_hit(many, 2, "link count: "@ + decimal(links));
    lemma_points_one(there, 10, "blocked sender"@);
    lemma_points_one(known, 8, "blocked domain"@);
    lemma_points_one(many, 2, "link count: "@ + decimal(links));
    lemma_keyword_points(policy_texts(policy, "subjectKeywords"@), search);
    lemma_signal_points(signals(), auth);
    lemma_name_points(names, policy_texts(policy, "attachmentExtensions"@));
    lemma_points_add(a, b);
    lemma_points_add(a + b, c);
    lemma_points_add(a + b + c, d);
    lemma_points_add(a + b + c + d, e);
    lemma_points_add(a + b + c + d + e, f);
}

/// The signs come in the order of sender, domain, keywords, results of
/// authentication, attachments and links, each with the reason that names it.
pub proof fn law_signs_give_their_reasons(
    sender: Seq<char>,
    search: Seq<char>,
    auth: Seq<char>,
    names: Seq<Seq<char>>,
    links: nat,
    policy: Tree,
)
    ensures
        ({
            let signs = signs_of(sender, search, auth, names, links, policy);
            let words = keyword_hits(policy_texts(policy, "subjectKeywords"@), search);
            let told = signal_hits(seq!["spf=fail"@, "dkim=fail"@, "dmarc=fail"@, "spf=softfail"@], auth);
            let named = name_hits(names, policy_texts(policy, "attachmentExtensions"@));
            let sender_blocked = policy_texts(policy, "blocklist"@).contains(sender);
            let domain_blocked = policy_texts(policy, "domainBlocklist"@).contains(domain_of(sender));
            let many = links > policy.at("maxLinks"@).unsigned_or(10);
            signs == (if sender_blocked {
                seq![Hit { points: 10, reason: "blocked sender"@ }]
            } else {
                Seq::<Hit>::empty()
            }) + (if domain_blocked {
                seq![Hit { points: 8, reason: "blocked domain"@ }]
            } else {
                Seq::<Hit>::empty()
            }) + words + told + named + (if many {
                seq![Hit { points: 2, reason: "link count: "@ + decimal(links) }]
            } else {
                Seq::<Hit>::empty()
            })
        }),
{
}

/// Every keyword that stands in the text is a sign, and so is every result of
/// authentication that is told, and every attachment whose extension is on the
/// list; the list may write extensions with dots.
pub proof fn law_each_sign_names_itself(
    words: Seq<Seq<char>>,
    word: Seq<char>,
    search: Seq<char>,
    list: Seq<Seq<char>>,
    signal: Seq<char>,
    auth: Seq<char>,
    names: Seq<Seq<char>>,
    base: Seq<char>,
    ext: Seq<char>,
    blocked: Seq<Seq<char>>,
)
    requires
        !ext.contains('.'),
    ensures
        ({
            let w = lowered(trimmed(word));
            keyword_hits(words.push(word), search) == (if w.len() > 0 && has_text(search, w) {
                keyword_hits(words, search).push(Hit { points: 2, reason: "keyword: "@ + w })
            } else {
                keyword_hits(words, search)
            })
        }),
        signal_hits(list.push(signal), auth) == (if has_text(auth, signal) {
            signal_hits(list, auth).push(Hit { points: 3, reason: signal })
        } else {
            signal_hits(list, auth)
        }),
        name_hits(names.push(base.push('.') + ext), blocked) == (if exists|i: int|
            0 <= i < blocked.len() && stripped_start(#[trigger] blocked[i], '.') == lowered(ext) {
            name_hits(names, blocked).push(Hit { points: 6, reason: "attachment: ."@ + lowered(ext) })
        } else {
            name_hits(names, blocked)
        }),
        name_hits(names.push(ext), blocked) == name_hits(names, blocked),
        keyword_hits(Seq::empty(), search) == Seq::<Hit>::empty(),
        signal_hits(Seq::empty(), auth) == Seq::<Hit>::empty(),
        name_hits(Seq::empty(), blocked) == Seq::<Hit>::empty(),
{
    assert(words.push(word).drop_last() =~= words);
    assert(list.push(signal).drop_last() =~= list);
    let name = base.push('.') + ext;
    assert(names.push(name).drop_last() =~= names);
    assert(names.push(ext).drop_last() =~= names);
    crate::split_laws::law_parting_at_the_last(base, '.', ext);
    let none = Seq::<Hit>::empty();
    assert(keyword_hits(words, search) + none =~= keyword_hits(words, search));
    assert(signal_hits(list, auth) + none =~= signal_hits(list, auth));
    assert(name_hits(names, blocked) + none =~= name_hits(names, blocked));
    let w = lowered(trimmed(word));
    let a = Hit { points: 2, reason: "keyword: "@ + w };
    let b = Hit { points: 3, reason: signal };
    let c = Hit { points: 6, reason: "attachment: ."@ + lowered(ext) };
    assert(keyword_hits(words, search) + seq![a] =~= keyword_hits(words, search).push(a));
    assert(signal_hits(list, auth) + seq![b] =~= signal_hits(list, auth).push(b));
    assert(name_hits(names, blocked) + seq![c] =~= name_hits(names, blocked).push(c));
}

/// The score of a message that is not let through counts its sender, subject and
/// plain text, results of authentication, the names of its attachments and its
/// links; of one that is let through it is nothing.
pub proof fn law_message_is_scored_by_what_it_holds(m: MessageTree, policy: Tree)
    ensures
        ({
            let sender = email_in(
                match m.from {
                    Some(f) => f,
                    None => Seq::empty(),
                },
            );
            let search = lowered(subject_of(m) + "\n"@ + plain_of(m));
            let auth = lowered(
                match m.authentication {
                    Some(a) => a,
                    None => Seq::empty(),
                },
            );
            let list = policy_texts(policy, "allowlist"@);
            let signs = signs_of(
                sender,
                search,
                auth,
                names_in(walk(m.root)),
                regex_finds("(?i)https?://|www\\."@, search),
                policy,
            );
            &&& allowlisted(m, policy) == (list.contains(sender) || list.contains(domain_of(sender)))
            &&& allowlisted(m, policy) ==> score_of(m, policy) == 0 && reasons_of(m, policy) == seq![
                "allowlisted"@,
            ]
            &&& !allowlisted(m, policy) && points(signs) <= u64::MAX ==> score_of(m, policy) == points(signs)
            &&& !allowlisted(m, policy) && points(signs) > u64::MAX ==> score_of(m, policy) == u64::MAX
            &&& !allowlisted(m, policy) && signs.len() <= 8 ==> reasons_of(m, policy) == signs.map_values(
                |h: Hit| h.reason,
            )
            &&& !allowlisted(m, policy) && signs.len() > 8 ==> reasons_of(m, policy) == signs.take(
                8,
            ).map_values(|h: Hit| h.reason)
        }),
{
    let hits = spam_hits(m, policy);
    assert(reasons(hits) == hits.map_values(|h: Hit| h.reason));
    if hits.len() > 8 {
        assert(hits.take(8).map_values(|h: Hit| h.reason) =~= reasons(hits).take(8));
    }
}

proof fn lemma_keyword_hit(words: Seq<Seq<char>>, search: Seq<char>, k: int)
    requires
        0 <= k < words.len(),
        lowered(trimmed(words[k])).len() > 0,
        has_text(search, lowered(trimmed(words[k]))),
    ensures
        keyword_hits(words, search).contains(
            Hit { points: 2, reason: "keyword: "@ + lowered(trimmed(words[k])) },
        ),
    decreases words.len(),
{
    let h = Hit { points: 2, reason: "keyword: "@ + lowered(trimmed(words[k])) };
    let init = words.drop_last();
    let before = keyword_hits(init, search);
    let all = keyword_hits(words, search);
    if k < init.len() {
        assert(init[k] == words[k]);
        lemma_keyword_hit(init, search, k);
        let i = choose|i: int| 0 <= i < before.len() && before[i] == h;
        assert(all[i] == h);
    } else {
        assert(all[before.len() as int] == h);
    }
}

proof fn lemma_at_least(hits: Seq<Hit>, h: Hit)
    requires
        hits.contains(h),
    ensures
        points(hits) >= h.points,
    decreases hits.len(),
{
    let i = choose|i: int| 0 <= i < hits.len() && hits[i] == h;
    if i < hits.len() - 1 {
        let init = hits.drop_last();
        assert(init[i] == h);
        lemma_at_least(init, h);
    }
}

proof fn lemma_sign_is_there(
    a: Seq<Hit>,
    b: Seq<Hit>,
    c: Seq<Hit>,
    h: Hit,
)
    requires
        b.contains(h),
    ensures
        (a + b + c).contains(h),
{
    let i = choose|i: int| 0 <= i < b.len() && b[i] == h;
    assert((a + b + c)[a.len() + i] == h);
}

/// A keyword of the policy that stands in the subject or in the plain text of a
/// message, whatever the case, is a sign of spam that adds two, unless the
/// message is let through.
pub proof fn law_keyword_is_a_sign(m: MessageTree, policy: Tree, k: int)
    requires
        ascii_only(subject_of(m)),
        ascii_only(plain_of(m)),
        !allowlisted(m, policy),
        0 <= k < policy_texts(policy, "subjectKeywords"@).len(),
        ({
            let word = lowered(trimmed(policy_texts(policy, "subjectKeywords"@)[k]));
            word.len() > 0 && (has_text(lowered(subject_of(m)), word) || has_text(lowered(plain_of(m)), word))
        }),
    ensures
        ({
            let word = lowered(trimmed(policy_texts(policy, "subjectKeywords"@)[k]));
            &&& spam_hits(m, policy).contains(Hit { points: 2, reason: "keyword: "@ + word })
            &&& score_of(m, policy) >= 2
            &&& spam_hits(m, policy).len() <= 8 ==> reasons_of(m, policy).contains("keyword: "@ + word)
        }),
{
    let words = policy_texts(policy, "subjectKeywords"@);
    let word = lowered(trimmed(words[k]));
    law_subject_and_text_are_searched(m, word);
    lemma_keyword_hit(words, searched(m), k);
    let h = Hit { points: 2, reason: "keyword: "@ + word };
    let hits = spam_hits(m, policy);
    let sender = email_in(crate::score::or_empty(m.from));
    let a = if_hit(policy_texts(policy, "blocklist"@).contains(sender), 10, "blocked sender"@) + if_hit(
        policy_texts(policy, "domainBlocklist"@).contains(domain_of(sender)),
        8,
        "blocked domain"@,
    );
    let b = keyword_hits(words, searched(m));
    let links = regex_finds(crate::outside::LINK_PATTERN@, searched(m));
    let c = signal_hits(signals(), lowered(crate::score::or_empty(m.authentication))) + name_hits(
        names_in(walk(m.root)),
        policy_texts(policy, "attachmentExtensions"@),
    ) + if_hit(links > policy.at("maxLinks"@).unsigned_or(10), 2, "link count: "@ + decimal(links));
    lemma_sign_is_there(a, b, c, h);
    assert(hits =~= a + b + c);
    lemma_at_least(hits, h);
    if hits.len() <= 8 {
        let i = choose|i: int| 0 <= i < hits.len() && hits[i] == h;
        assert(reasons(hits)[i] == "keyword: "@ + word);
    }
}

/// A message is moved where the policy is switched on, moves mail, and the score
/// reaches its threshold; what the policy leaves open is on, on and five.
pub proof fn law_score_at_the_threshold_moves(score: nat, policy: Tree)
    ensures
        policy.at("enabled"@) == Tree::Bool(false) ==> !is_moved(score, policy),
        policy.at("autoMove"@) == Tree::Bool(false) ==> !is_moved(score, policy),
        policy.at("enabled"@) != Tree::Bool(false) && policy.at("autoMove"@) != Tree::Bool(false) ==> {
            &&& policy.at("threshold"@).unsigned() matches Some(n) ==> is_moved(score, policy) == (score >= n)
            &&& policy.at("threshold"@).unsigned() is None ==> is_moved(score, policy) == (score >= 5)
        },
{
}

/// A scan moves the messages that the policy moves, keeps the others, and skips
/// what is no message.
pub proof fn law_scan_moves_what_the_policy_moves(raw: Seq<u8>, policy: Tree)
    ensures
        message_of(raw) is Err ==> scan_of(raw, policy) == Scan::Skipped,
        message_of(raw) matches Ok(m) ==> {
            &&& is_moved(score_of(m, policy), policy) ==> scan_of(raw, policy) == Scan::Moved
            &&& !is_moved(score_of(m, policy), policy) ==> scan_of(raw, policy) == Scan::Kept
        },
{
}

/// A scan counts all messages, and those that it moves; what is no message is
/// not counted.
pub proof fn law_scans_are_counted(steps: Seq<Scan>, more: Scan)
    ensures
        scanned_in(Seq::empty()) == 0,
        moved_in(Seq::empty()) == 0,
        scanned_in(steps.push(more)) == scanned_in(steps) + (if more == Scan::Skipped {
            0nat
        } else {
            1nat
        }),
        moved_in(steps.push(more)) == moved_in(steps) + (if more == Scan::Moved {
            1nat
        } else {
            0nat
        }),
{
    reveal(Seq::filter);
    assert(steps.push(more).drop_last() =~= steps);
}

/// The texts of a list of a policy are all texts of the array, in their order.
pub proof fn law_policy_lists_hold_their_texts(policy: Tree, key: Seq<char>, list: Seq<Seq<char>>, items: Seq<Tree>, more: Tree)
    requires
        policy is Object,
    ensures
        policy_texts(policy.with(key, text_array(list)), key) == list,
        more matches Tree::Text(t) ==> text_items(items.push(more)) == text_items(items).push(t),
        !(more is Text) ==> text_items(items.push(more)) == text_items(items),
        !(policy.at(key) is Array) ==> policy_texts(policy, key) == Seq::<Seq<char>>::empty(),
{
    crate::json::lemma_text_items(list);
    assert(items.push(more).drop_last() =~= items);
}

/// The sender of a message is the first mail address in its header, in lower
/// case; its domain is what follows the first at sign.
pub proof fn law_sender_is_the_first_address(value: Seq<char>, local: Seq<char>, domain: Seq<char>)
    requires
        !local.contains('@'),
    ensures
        ({
            let found = regex_groups("(?i)([a-z0-9._%+\\-]+@[a-z0-9.\\-]+\\.[a-z]{2,})"@, value);
            &&& found.len() > 0 ==> email_in(value) == lowered(found[0])
            &&& found.len() == 0 ==> email_in(value) == Seq::<char>::empty()
        }),
        domain_of(local.push('@') + domain) == domain,
        domain_of(local) == Seq::<char>::empty(),
{
    crate::text_laws::law_parting_at_the_first(local, '@', domain);
}

} // verus!
