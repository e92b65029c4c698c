//! The spam score of a message, and what a scan of a mailbox does with it.
use crate::address::{address_domain, domain_of, email_in, normalized_email};
use crate::json::{string_array, text_items, Json, Tree};
use crate::mail::{
    attachment_names, body_in, first_body, message_links, message_of, names_in, parse_message, walk,
    Message, MessageTree,
};
use crate::outside::{regex_finds, LINK_PATTERN};
use crate::text::{
    contains, decimal, decimal_of, has_text, holds, lowered, parted_last, same, split_last,
    strip_start, stripped_start, texts, to_lower, trim, trimmed,
};
use vstd::prelude::*;

verus! {

/// A sign of spam: what it adds to the score, and the reason that is given.
pub ghost struct Hit {
    pub points: nat,
    pub reason: Seq<char>,
}

/// What signs of spam add up to.
pub open spec fn points(hits: Seq<Hit>) -> nat
    decreases hits.len(),
{
    if hits.len() == 0 {
        0
    } else {
        points(hits.drop_last()) + hits.last().points
    }
}

/// The reasons that signs of spam give.
pub open spec fn reasons(hits: Seq<Hit>) -> Seq<Seq<char>> {
    hits.map_values(|h: Hit| h.reason)
}

/// A number, or the largest one that a score can be.
pub open spec fn capped(n: nat) -> nat {
    if n > u64::MAX {
        u64::MAX as nat
    } else {
        n
    }
}

/// One sign, if it is there.
pub open spec fn if_hit(there: bool, points: nat, reason: Seq<char>) -> Seq<Hit> {
    if there {
        seq![Hit { points, reason }]
    } else {
        Seq::empty()
    }
}

/// An optional text, or the empty one.
pub open spec fn or_empty(s: Option<Seq<char>>) -> Seq<char> {
    match s {
        Some(t) => t,
        None => Seq::empty(),
    }
}

/// The texts of a list of a policy.
pub open spec fn policy_texts(policy: Tree, key: Seq<char>) -> Seq<Seq<char>> {
    text_items(policy.at(key).items())
}

/// The text of a message in which keywords and links are looked for: subject
/// and plain text in lower case.
pub open spec fn searched(m: MessageTree) -> Seq<char> {
    lowered(or_empty(m.subject) + "\n"@ + body_in(walk(m.root), "text/plain"@))
}

/// The signs that keywords are.
pub open spec fn keyword_hits(words: Seq<Seq<char>>, search: Seq<char>) -> Seq<Hit>
    decreases words.len(),
{
    if words.len() == 0 {
        Seq::empty()
    } else {
        let word = lowered(trimmed(words.last()));
        keyword_hits(words.drop_last(), search) + if_hit(
            word.len() > 0 && has_text(search, word),
            2,
            "keyword: "@ + word,
        )
    }
}

/// The results of authentication that are signs of spam.
pub open spec fn signals() -> Seq<Seq<char>> {
    seq!["spf=fail"@, "dkim=fail"@, "dmarc=fail"@, "spf=softfail"@]
}

/// The signs that results of authentication are.
pub open spec fn signal_hits(list: Seq<Seq<char>>, auth: Seq<char>) -> Seq<Hit>
    decreases list.len(),
{
    if list.len() == 0 {
        Seq::empty()
    } else {
        signal_hits(list.drop_last(), auth) + if_hit(has_text(auth, list.last()), 3, list.last())
    }
}

/// Whether an extension is on a list, whose entries may start with dots.
pub open spec fn is_extension(list: Seq<Seq<char>>, ext: Seq<char>) -> bool {
    exists|i: int| 0 <= i < list.len() && stripped_start(#[trigger] list[i], '.') == ext
}

/// The sign that the name of an attachment is.
pub open spec fn name_hit(name: Seq<char>, blocked: Seq<Seq<char>>) -> Seq<Hit> {
    match parted_last(name, '.') {
        Some((_, e)) => if_hit(
            is_extension(blocked, lowered(e)),
            6,
            "attachment: ."@ + lowered(e),
        ),
        None => Seq::empty(),
    }
}

/// The signs that names of attachments are.
pub open spec fn name_hits(names: Seq<Seq<char>>, blocked: Seq<Seq<char>>) -> Seq<Hit>
    decreases names.len(),
{
    if names.len() == 0 {
        Seq::empty()
    } else {
        name_hits(names.drop_last(), blocked) + name_hit(names.last(), blocked)
    }
}

/// The signs of spam in what is known of a message, in the order in which they
/// are looked for: its sender, the text that is searched, the results of
/// authentication, the names of attachments, and how many links there are.
pub open spec fn signs_of(
    sender: Seq<char>,
    search: Seq<char>,
    auth: Seq<char>,
    names: Seq<Seq<char>>,
    links: nat,
    policy: Tree,
) -> Seq<Hit> {
    if_hit(policy_texts(policy, "blocklist"@).contains(sender), 10, "blocked sender"@) + if_hit(
        policy_texts(policy, "domainBlocklist"@).contains(domain_of(sender)),
        8,
        "blocked domain"@,
    ) + keyword_hits(policy_texts(policy, "subjectKeywords"@), search) + signal_hits(signals(), auth)
        + name_hits(names, policy_texts(policy, "attachmentExtensions"@)) + if_hit(
        links > policy.at("maxLinks"@).unsigned_or(10),
        2,
        "link count: "@ + decimal(links),
    )
}

/// Whether a sender, or its domain, is on the list of those that are always let
/// through.
pub open spec fn is_let_through(sender: Seq<char>, policy: Tree) -> bool {
    let list = policy_texts(policy, "allowlist"@);
    list.contains(sender) || list.contains(domain_of(sender))
}

/// The signs of spam in a message.
pub open spec fn spam_hits(m: MessageTree, policy: Tree) -> Seq<Hit> {
    signs_of(
        email_in(or_empty(m.from)),
        searched(m),
        lowered(or_empty(m.authentication)),
        names_in(walk(m.root)),
        regex_finds(LINK_PATTERN@, searched(m)),
        policy,
    )
}

/// Whether the sender of a message, or its domain, is on the list of those that
/// are always let through.
pub open spec fn allowlisted(m: MessageTree, policy: Tree) -> bool {
    is_let_through(email_in(or_empty(m.from)), policy)
}

/// How many reasons are given.
pub const REASONS_MAX: usize = 8;

/// The score of a message.
pub open spec fn score_of(m: MessageTree, policy: Tree) -> nat {
    if allowlisted(m, policy) {
        0
    } else {
        capped(points(spam_hits(m, policy)))
    }
}

/// The reasons that are given for signs of spam: the first of them.
pub open spec fn given_reasons(hits: Seq<Hit>) -> Seq<Seq<char>> {
    let all = reasons(hits);
    if all.len() > REASONS_MAX {
        all.take(REASONS_MAX as int)
    } else {
        all
    }
}

/// The reasons that are given for the score of a message.
pub open spec fn reasons_of(m: MessageTree, policy: Tree) -> Seq<Seq<char>> {
    if allowlisted(m, policy) {
        seq!["allowlisted"@]
    } else {
        given_reasons(spam_hits(m, policy))
    }
}

struct Tally {
    score: u64,
    reasons: Vec<String>,
}

impl Tally {
    spec fn counts(self, hits: Seq<Hit>) -> bool {
        &&& self.score == capped(points(hits))
        &&& texts(self.reasons@) == reasons(hits)
    }

    fn add_if(&mut self, there: bool, amount: u64, reason: &str)
        ensures
            forall|hits: Seq<Hit>| #[trigger]
                old(self).counts(hits) ==> final(self).counts(
                    hits + if_hit(there, amount as nat, reason@),
                ),
    {
        let ghost before = *self;
        let ghost extra = if_hit(there, amount as nat, reason@);
        if there {
            self.score = if self.score > u64::MAX - amount {
                u64::MAX
            } else {
                self.score + amount
            };
            self.reasons.push(reason.to_owned());
        }
        proof {
            assert forall|hits: Seq<Hit>| #[trigger] before.counts(hits) implies self.counts(hits + extra) by {
                if there {
                    let longer = hits + extra;
                    assert(longer.drop_last() =~= hits);
                    assert(longer.last() == extra[0]);
                    assert(reasons(longer) =~= reasons(hits).push(reason@));
                    assert(texts(self.reasons@) =~= texts(before.reasons@).push(reason@));
                } else {
                    assert(hits + extra =~= hits);
                }
            }
        }
    }

    fn add_keywords(&mut self, words: &Vec<String>, search: &str)
        ensures
            forall|hits: Seq<Hit>| #[trigger]
                old(self).counts(hits) ==> final(self).counts(hits + keyword_hits(texts(words@), search@)),
    {
        let ghost before = *self;
        let ghost all = texts(words@);
        let mut i: usize = 0;
        proof {
            assert forall|hits: Seq<Hit>| #[trigger] before.counts(hits) implies self.counts(
                hits + keyword_hits(all.take(0), search@),
            ) by {
                assert(hits + keyword_hits(all.take(0), search@) =~= hits);
            }
        }
        while i < words.len()
            invariant
                i <= words@.len(),
                all == texts(words@),
                forall|hits: Seq<Hit>| #[trigger]
                    before.counts(hits) ==> self.counts(hits + keyword_hits(all.take(i as int), search@)),
            decreases words@.len() - i,
        {
            let ghost middle = *self;
            let word = to_lower(trim(words[i].as_str()).as_str());
            let there = !word.as_str().is_empty() && contains(search, word.as_str());
            let mut reason = "keyword: ".to_owned();
            reason.append(word.as_str());
            self.add_if(there, 2, reason.as_str());
            proof {
                assert(all.take(i + 1).drop_last() =~= all.take(i as int));
                assert(all.take(i + 1).last() == words@[i as int]@);
                let done = keyword_hits(all.take(i as int), search@);
                let extra = if_hit(there, 2, reason@);
                assert forall|hits: Seq<Hit>| #[trigger] before.counts(hits) implies self.counts(
                    hits + keyword_hits(all.take(i + 1), search@),
                ) by {
                    assert(middle.counts(hits + done));
                    assert(hits + done + extra =~= hits + keyword_hits(all.take(i + 1), search@));
                }
            }
            i += 1;
        }
        proof {
            assert(all.take(all.len() as int) =~= all);
        }
    }

    fn add_signals(&mut self, list: &Vec<String>, auth: &str)
        ensures
            forall|hits: Seq<Hit>| #[trigger]
                old(self).counts(hits) ==> final(self).counts(hits + signal_hits(texts(list@), auth@)),
    {
        let ghost before = *self;
        let ghost all = texts(list@);
        let mut i: usize = 0;
        proof {
            assert forall|hits: Seq<Hit>| #[trigger] before.counts(hits) implies self.counts(
                hits + signal_hits(all.take(0), auth@),
            ) by {
                assert(hits + signal_hits(all.take(0), auth@) =~= hits);
            }
        }
        while i < list.len()
            invariant
                i <= list@.len(),
                all == texts(list@),
                forall|hits: Seq<Hit>| #[trigger]
                    before.counts(hits) ==> self.counts(hits + signal_hits(all.take(i as int), auth@)),
            decreases list@.len() - i,
        {
            let ghost middle = *self;
            let there = contains(auth, list[i].as_str());
            self.add_if(there, 3, list[i].as_str());
            proof {
                assert(all.take(i + 1).drop_last() =~= all.take(i as int));
                assert(all.take(i + 1).last() == list@[i as int]@);
                let done = signal_hits(all.take(i as int), auth@);
                let extra = if_hit(there, 3, list@[i as int]@);
                assert forall|hits: Seq<Hit>| #[trigger] before.counts(hits) implies self.counts(
                    hits + signal_hits(all.take(i + 1), auth@),
                ) by {
                    assert(middle.counts(hits + done));
                    assert(hits + done + extra =~= hits + signal_hits(all.take(i + 1), auth@));
                }
            }
            i += 1;
        }
        proof {
            assert(all.take(all.len() as int) =~= all);
        }
    }

    fn add_name(&mut self, name: &str, blocked: &Vec<String>)
        ensures
            forall|hits: Seq<Hit>| #[trigger]
                old(self).counts(hits) ==> final(self).counts(hits + name_hit(name@, texts(blocked@))),
    {
        let ghost before = *self;
        match split_last(name, '.') {
            Some((_, e)) => {
                let ext = to_lower(e.as_str());
                let there = lists_extension(blocked, ext.as_str());
                let mut reason = "attachment: .".to_owned();
                reason.append(ext.as_str());
                self.add_if(there, 6, reason.as_str());
            },
            None => {
                proof {
                    assert forall|hits: Seq<Hit>| #[trigger] before.counts(hits) implies self.counts(
                        hits + name_hit(name@, texts(blocked@)),
                    ) by {
                        assert(hits + name_hit(name@, texts(blocked@)) =~= hits);
                    }
                }
            },
        }
    }

    fn add_names(&mut self, names: &Vec<String>, blocked: &Vec<String>)
        ensures
            forall|hits: Seq<Hit>| #[trigger]
                old(self).counts(hits) ==> final(self).counts(
                    hits + name_hits(texts(names@), texts(blocked@)),
                ),
    {
        let ghost before = *self;
        let ghost all = texts(names@);
        let ghost list = texts(blocked@);
        let mut i: usize = 0;
        proof {
            assert forall|hits: Seq<Hit>| #[trigger] before.counts(hits) implies self.counts(
                hits + name_hits(all.take(0), list),
            ) by {
                assert(hits + name_hits(all.take(0), list) =~= hits);
            }
        }
        while i < names.len()
            invariant
                i <= names@.len(),
                all == texts(names@),
                list == texts(blocked@),
                forall|hits: Seq<Hit>| #[trigger]
                    before.counts(hits) ==> self.counts(hits + name_hits(all.take(i as int), list)),
            decreases names@.len() - i,
        {
            let ghost middle = *self;
            self.add_name(names[i].as_str(), blocked);
            proof {
                assert(all.take(i + 1).drop_last() =~= all.take(i as int));
                assert(all.take(i + 1).last() == names@[i as int]@);
                let done = name_hits(all.take(i as int), list);
                let extra = name_hit(names@[i as int]@, list);
                assert forall|hits: Seq<Hit>| #[trigger] before.counts(hits) implies self.counts(
                    hits + name_hits(all.take(i + 1), list),
                ) by {
                    assert(middle.counts(hits + done));
                    assert(hits + done + extra =~= hits + name_hits(all.take(i + 1), list));
                }
            }
            i += 1;
        }
        proof {
            assert(all.take(all.len() as int) =~= all);
        }
    }
}

fn lists_extension(list: &Vec<String>, ext: &str) -> (r: bool)
    ensures
        r == is_extension(texts(list@), ext@),
{
    let ghost all = texts(list@);
    let mut i: usize = 0;
    while i < list.len()
        invariant
            i <= list@.len(),
            all == texts(list@),
            forall|j: int| 0 <= j < i ==> stripped_start(#[trigger] all[j], '.') != ext@,
        decreases list@.len() - i,
    {
        let bare = strip_start(list[i].as_str(), '.');
        proof {
            assert(all[i as int] == list@[i as int]@);
        }
        if same(bare.as_str(), ext) {
            return true;
        }
        i += 1;
    }
    false
}

fn policy_list(policy: &Json, key: &str) -> (r: Vec<String>)
    ensures
        texts(r@) == policy_texts(policy@, key@),
{
    string_array(&policy.copy_at(key))
}

fn text_or_empty(s: &Option<String>) -> (r: String)
    ensures
        r@ == or_empty(crate::text::opt_text(*s)),
{
    match s {
        Some(t) => t.clone(),
        None => String::new(),
    }
}

fn signal_list() -> (r: Vec<String>)
    ensures
        texts(r@) == signals(),
{
    let r = vec![
        "spf=fail".to_owned(),
        "dkim=fail".to_owned(),
        "dmarc=fail".to_owned(),
        "spf=softfail".to_owned(),
    ];
    proof {
        assert(texts(r@) =~= signals());
    }
    r
}

/// The text of a message in which keywords and links are looked for.
fn search_text(m: &Message) -> (r: String)
    ensures
        r@ == searched(m@),
{
    let mut s = text_or_empty(&m.subject);
    s.append("\n");
    s.append(first_body(&m.root, "text/plain").as_str());
    to_lower(s.as_str())
}

/// Scores what is known of a message: the score, and the first reasons for it.
pub fn score_signs(
    sender: &str,
    search: &str,
    auth: &str,
    names: &Vec<String>,
    links: u64,
    policy: &Json,
) -> (r: (u64, Vec<String>))
    ensures
        ({
            let hits = signs_of(sender@, search@, auth@, texts(names@), links as nat, policy@);
            if is_let_through(sender@, policy@) {
                r.0 == 0 && texts(r.1@) == seq!["allowlisted"@]
            } else {
                r.0 == capped(points(hits)) && texts(r.1@) == given_reasons(hits)
            }
        }),
{
    let domain = address_domain(sender);
    let allow = policy_list(policy, "allowlist");
    if holds(&allow, sender) || holds(&allow, domain.as_str()) {
        let given = vec!["allowlisted".to_owned()];
        proof {
            assert(texts(given@) =~= seq!["allowlisted"@]);
        }
        return (0, given);
    }
    let mut tally = Tally { score: 0, reasons: Vec::new() };
    proof {
        assert(texts(tally.reasons@) =~= reasons(Seq::<Hit>::empty()));
        assert(tally.counts(Seq::empty()));
    }
    let ghost none = Seq::<Hit>::empty();
    let blocked = policy_list(policy, "blocklist");
    tally.add_if(holds(&blocked, sender), 10, "blocked sender");
    let ghost a = none + if_hit(texts(blocked@).contains(sender@), 10, "blocked sender"@);
    let domains = policy_list(policy, "domainBlocklist");
    tally.add_if(holds(&domains, domain.as_str()), 8, "blocked domain");
    let ghost b = a + if_hit(texts(domains@).contains(domain@), 8, "blocked domain"@);
    let words = policy_list(policy, "subjectKeywords");
    tally.add_keywords(&words, search);
    let ghost c = b + keyword_hits(texts(words@), search@);
    tally.add_signals(&signal_list(), auth);
    let ghost d = c + signal_hits(signals(), auth@);
    let extensions = policy_list(policy, "attachmentExtensions");
    tally.add_names(names, &extensions);
    let ghost e = d + name_hits(texts(names@), texts(extensions@));
    let many = links > policy.unsigned_at("maxLinks", 10);
    let mut reason = "link count: ".to_owned();
    reason.append(decimal_of(links).as_str());
    tally.add_if(many, 2, reason.as_str());
    let ghost hits = signs_of(sender@, search@, auth@, texts(names@), links as nat, policy@);
    proof {
        let f = e + if_hit(many, 2, reason@);
        assert(tally.counts(f));
        assert(none + if_hit(texts(blocked@).contains(sender@), 10, "blocked sender"@) =~= if_hit(
            texts(blocked@).contains(sender@),
            10,
            "blocked sender"@,
        ));
        assert(f =~= hits);
    }
    let mut given = tally.reasons;
    let ghost whole = texts(given@);
    if given.len() > REASONS_MAX {
        given.truncate(REASONS_MAX);
        proof {
            assert(texts(given@) =~= whole.take(REASONS_MAX as int));
        }
    }
    (tally.score, given)
}

/// Scores a message: the score, and the first reasons for it.
pub fn spam_score(m: &Message, policy: &Json) -> (r: (u64, Vec<String>))
    ensures
        r.0 == score_of(m@, policy@),
        texts(r.1@) == reasons_of(m@, policy@),
{
    let sender = normalized_email(text_or_empty(&m.from).as_str());
    let search = search_text(m);
    let auth = to_lower(text_or_empty(&m.authentication).as_str());
    let names = attachment_names(&m.root);
    let links: usize = message_links(search.as_str());
    score_signs(sender.as_str(), search.as_str(), auth.as_str(), &names, links as u64, policy)
}

/// Whether the policy has a message of a score moved to the spam folder.
pub open spec fn is_moved(score: nat, policy: Tree) -> bool {
    policy.at("enabled"@).bool_or(true) && policy.at("autoMove"@).bool_or(true) && score >= policy.at(
        "threshold"@,
    ).unsigned_or(5)
}

/// What becomes of a file of a mailbox in a scan.
#[derive(Clone, Copy, Debug, PartialEq, Eq, Structural)]
pub enum Scan {
    /// It is no message.
    Skipped,
    /// It stays.
    Kept,
    /// It goes to the spam folder.
    Moved,
}

/// What becomes of a file with these bytes.
pub open spec fn scan_of(raw: Seq<u8>, policy: Tree) -> Scan {
    match message_of(raw) {
        Err(_) => Scan::Skipped,
        Ok(m) => if is_moved(score_of(m, policy), policy) {
            Scan::Moved
        } else {
            Scan::Kept
        },
    }
}

/// Whether the policy has a message of this score moved to the spam folder.
pub fn should_move(score: u64, policy: &Json) -> (r: bool)
    ensures
        r == is_moved(score as nat, policy@),
{
    policy.bool_at("enabled", true) && policy.bool_at("autoMove", true) && score
        >= policy.unsigned_at("threshold", 5)
}

/// Decides what becomes of a file of a mailbox.
pub fn scan_message(raw: &[u8], policy: &Json) -> (r: Scan)
    ensures
        r == scan_of(raw@, policy@),
{
    match parse_message(raw) {
        Err(_) => Scan::Skipped,
        Ok(m) => {
            let (score, _) = spam_score(&m, policy);
            if should_move(score, policy) {
                Scan::Moved
            } else {
                Scan::Kept
            }
        },
    }
}

/// How many of the files were messages.
pub open spec fn scanned_in(steps: Seq<Scan>) -> nat {
    steps.filter(|s: Scan| s != Scan::Skipped).len()
}

/// How many of the messages were moved.
pub open spec fn moved_in(steps: Seq<Scan>) -> nat {
    steps.filter(|s: Scan| s == Scan::Moved).len()
}

/// Counts the messages of a scan, and those that were moved.
pub fn scan_totals(steps: &Vec<Scan>) -> (r: (u64, u64))
    ensures
        r.0 == scanned_in(steps@),
        r.1 == moved_in(steps@),
{
    let ghost all = steps@;
    let ghost seen = |s: Scan| s != Scan::Skipped;
    let ghost gone = |s: Scan| s == Scan::Moved;
    let mut scanned: u64 = 0;
    let mut moved: u64 = 0;
    let mut i: usize = 0;
    proof {
        reveal(Seq::filter);
        assert(all.take(0).filter(seen).len() == 0);
        assert(all.take(0).filter(gone).len() == 0);
    }
    while i < steps.len()
        invariant
            i <= steps@.len(),
            all == steps@,
            seen == (|s: Scan| s != Scan::Skipped),
            gone == (|s: Scan| s == Scan::Moved),
            scanned == all.take(i as int).filter(seen).len(),
            moved == all.take(i as int).filter(gone).len(),
            scanned <= i,
            moved <= i,
        decreases steps@.len() - i,
    {
        proof {
            reveal(Seq::filter);
            assert(all.take(i + 1).drop_last() =~= all.take(i as int));
            assert(all.take(i + 1).last() == steps@[i as int]);
        }
        if steps[i] != Scan::Skipped {
            scanned += 1;
        }
        if steps[i] == Scan::Moved {
            moved += 1;
        }
        i += 1;
    }
    proof {
        assert(all.take(all.len() as int) =~= all);
    }
    (scanned, moved)
}

/// A sender on the list of those that are let through is never moved by the
/// score, unless the threshold is zero.
pub proof fn law_allowlisted_stays(m: MessageTree, policy: Tree)
    requires
        allowlisted(m, policy),
        policy.at("threshold"@).unsigned_or(5) > 0,
    ensures
        score_of(m, policy) == 0,
        !is_moved(score_of(m, policy), policy),
{
}

/// A blocked sender that is not let through is scored with at least ten, so it
/// is moved wherever the policy moves mail at a threshold of at most ten.
pub proof fn law_blocked_sender_is_moved(m: MessageTree, policy: Tree)
    requires
        !allowlisted(m, policy),
        policy_texts(policy, "blocklist"@).contains(email_in(or_empty(m.from))),
        policy.at("enabled"@).bool_or(true),
        policy.at("autoMove"@).bool_or(true),
        policy.at("threshold"@).unsigned_or(5) <= 10,
    ensures
        score_of(m, policy) >= 10,
        is_moved(score_of(m, policy), policy),
{
    let hits = spam_hits(m, policy);
    assert(hits[0] == Hit { points: 10, reason: "blocked sender"@ });
    lemma_points_at_least(hits, 0);
}

/// The signs add up to at least what each of them adds.
proof fn lemma_points_at_least(hits: Seq<Hit>, i: int)
    requires
        0 <= i < hits.len(),
    ensures
        points(hits) >= hits[i].points,
    decreases hits.len(),
{
    if i < hits.len() - 1 {
        lemma_points_at_least(hits.drop_last(), i);
    }
}

} // verus!
