//! What is shown of a message, in terms of what the message holds.
use crate::address::cleaned;
use crate::json::{text_array, Number, Tree};
use crate::mail::{
    body_in, escaped, html_of, name_of, names_in, same_but_case, sanitized, walk, walk_list, MessageTree,
};
use crate::messages::{
    answers_query, attachment_of, attachment_row, attachment_rows, haystack, shown_of, summary_of,
};
use crate::outside::{base64_text, regex_replaced, PartTree};
use crate::text::{
    ascii_lower, ascii_only, decimal, first_chars, has_text, joined, law_decimal_reads_back, lowered,
    replaced, words_of,
};
use crate::text_laws::{law_lowered_piecewise, law_text_stands_in_whole, law_text_stands_on_one_side};
use vstd::prelude::*;

verus! {

// ---------------------------------------------------------------------------
// Parts and bodies
// ---------------------------------------------------------------------------

proof fn lemma_walk_list(list: Seq<PartTree>, more: PartTree, n: nat)
    requires
        n <= list.len(),
    ensures
        walk_list(list.push(more), n) == walk_list(list, n),
    decreases n,
{
    if n > 0 {
        lemma_walk_list(list, more, (n - 1) as nat);
        assert(list.push(more)[n - 1] == list[n - 1]);
    }
}

/// The walk through a message starts with the message itself; a part that is
/// added to it is walked through last, with all that is inside it.
pub proof fn law_walk_visits_every_part(p: PartTree, more: PartTree)
    ensures
        walk(p).len() > 0,
        walk(p)[0] == p,
        p.subparts.len() == 0 ==> walk(p) == seq![p],
        walk(PartTree { subparts: p.subparts.push(more), ..p }).skip(1) == walk(p).skip(1) + walk(more),
{
    let list = p.subparts;
    let longer = PartTree { subparts: list.push(more), ..p };
    lemma_walk_list(list, more, list.len());
    assert(list.push(more)[list.len() as int] == more);
    assert(walk(p) == seq![p] + walk_list(list, list.len()));
    assert(walk(p).skip(1) =~= walk_list(list, list.len()));
    assert(longer.subparts == list.push(more));
    assert(walk(longer) == seq![longer] + walk_list(list.push(more), (list.len() + 1) as nat));
    assert(walk_list(list.push(more), (list.len() + 1) as nat) == walk_list(list.push(more), list.len())
        + walk(more));
    assert(walk(longer).skip(1) =~= walk_list(list, list.len()) + walk(more));
    if list.len() == 0 {
        assert(walk(p) =~= seq![p]);
    }
}

/// Whether two texts are the same but for the case of letters of ASCII.
pub open spec fn alike(a: Seq<char>, b: Seq<char>) -> bool {
    a.len() == b.len() && forall|i: int|
        0 <= i < a.len() ==> {
            ||| #[trigger] a[i] == b[i]
            ||| 'A' <= a[i] && a[i] <= 'Z' && b[i] as u32 == a[i] as u32 + 32
            ||| 'A' <= b[i] && b[i] <= 'Z' && a[i] as u32 == b[i] as u32 + 32
        }
}

proof fn lemma_alike(a: Seq<char>, b: Seq<char>)
    ensures
        alike(a, b) == same_but_case(a, b),
{
    let x = a.map_values(|c: char| ascii_lower(c));
    let y = b.map_values(|c: char| ascii_lower(c));
    if alike(a, b) {
        assert forall|i: int| 0 <= i < a.len() implies x[i] == y[i] by {
            assert(a[i] == a[i]);
        }
        assert(x =~= y);
    }
    if same_but_case(a, b) {
        assert(x.len() == y.len());
        assert forall|i: int| 0 <= i < a.len() implies {
            ||| #[trigger] a[i] == b[i]
            ||| 'A' <= a[i] && a[i] <= 'Z' && b[i] as u32 == a[i] as u32 + 32
            ||| 'A' <= b[i] && b[i] <= 'Z' && a[i] as u32 == b[i] as u32 + 32
        } by {
            assert(x[i] == y[i]);
            assert(ascii_lower(a[i]) == ascii_lower(b[i]));
        }
    }
}

/// Whether a part is text of a message in a media type: it is not attached under
/// a name, holds no parts, and is not empty.
pub open spec fn is_text_of(p: PartTree, mimetype: Seq<char>) -> bool {
    &&& p.subparts.len() == 0
    &&& p.disposition_name is None
    &&& p.content_name is None
    &&& p.body.len() > 0
    &&& alike(p.mimetype, mimetype)
}

proof fn lemma_body_in(parts: Seq<PartTree>, mimetype: Seq<char>, i: int)
    requires
        0 <= i < parts.len(),
        is_text_of(parts[i], mimetype),
        forall|j: int| 0 <= j < i ==> !is_text_of(#[trigger] parts[j], mimetype),
    ensures
        body_in(parts, mimetype) == parts[i].body,
    decreases i,
{
    lemma_alike(parts[0].mimetype, mimetype);
    if i > 0 {
        assert(!is_text_of(parts[0], mimetype));
        let rest = parts.skip(1);
        assert(rest[i - 1] == parts[i]);
        assert forall|j: int| 0 <= j < i - 1 implies !is_text_of(#[trigger] rest[j], mimetype) by {
            assert(rest[j] == parts[j + 1]);
        }
        lemma_body_in(rest, mimetype, i - 1);
    }
}

proof fn lemma_no_body_in(parts: Seq<PartTree>, mimetype: Seq<char>)
    requires
        forall|j: int| 0 <= j < parts.len() ==> !is_text_of(#[trigger] parts[j], mimetype),
    ensures
        body_in(parts, mimetype).len() == 0,
    decreases parts.len(),
{
    if parts.len() > 0 {
        lemma_alike(parts[0].mimetype, mimetype);
        assert(!is_text_of(parts[0], mimetype));
        let rest = parts.skip(1);
        assert forall|j: int| 0 <= j < rest.len() implies !is_text_of(#[trigger] rest[j], mimetype) by {
            assert(rest[j] == parts[j + 1]);
        }
        lemma_no_body_in(rest, mimetype);
    }
}

/// The text of a message in a media type is that of the first part that is not
/// attached, holds no parts and is not empty; without one it is empty.
pub proof fn law_first_text_is_taken(p: PartTree, mimetype: Seq<char>)
    ensures
        forall|i: int|
            0 <= i < walk(p).len() && is_text_of(#[trigger] walk(p)[i], mimetype) && (forall|j: int|
                0 <= j < i ==> !is_text_of(#[trigger] walk(p)[j], mimetype)) ==> body_in(walk(p), mimetype)
                == walk(p)[i].body,
        (forall|j: int| 0 <= j < walk(p).len() ==> !is_text_of(#[trigger] walk(p)[j], mimetype)) ==> body_in(
            walk(p),
            mimetype,
        ) == Seq::<char>::empty(),
{
    let parts = walk(p);
    assert forall|i: int|
        0 <= i < parts.len() && is_text_of(#[trigger] parts[i], mimetype) && (forall|j: int|
            0 <= j < i ==> !is_text_of(#[trigger] parts[j], mimetype)) implies body_in(parts, mimetype)
        == parts[i].body by {
        lemma_body_in(parts, mimetype, i);
    }
    if forall|j: int| 0 <= j < parts.len() ==> !is_text_of(#[trigger] parts[j], mimetype) {
        lemma_no_body_in(parts, mimetype);
        assert(body_in(parts, mimetype) =~= Seq::<char>::empty());
    }
}

// ---------------------------------------------------------------------------
// HTML
// ---------------------------------------------------------------------------

/// A message with HTML text is shown by that text without what could run in it,
/// whatever other parts the message has: only its first HTML text counts.
pub proof fn law_html_text_is_shown(p: PartTree, i: int)
    requires
        0 <= i < walk(p).len(),
        is_text_of(walk(p)[i], "text/html"@),
        forall|j: int| 0 <= j < i ==> !is_text_of(#[trigger] walk(p)[j], "text/html"@),
    ensures
        html_of(p) == sanitized(walk(p)[i].body),
{
    lemma_body_in(walk(p), "text/html"@, i);
}

/// Two messages with the same first HTML text are shown by the same HTML.
pub proof fn law_same_html_is_shown_the_same(p: PartTree, i: int, q: PartTree, k: int)
    requires
        0 <= i < walk(p).len(),
        0 <= k < walk(q).len(),
        is_text_of(walk(p)[i], "text/html"@),
        is_text_of(walk(q)[k], "text/html"@),
        forall|j: int| 0 <= j < i ==> !is_text_of(#[trigger] walk(p)[j], "text/html"@),
        forall|j: int| 0 <= j < k ==> !is_text_of(#[trigger] walk(q)[j], "text/html"@),
        walk(p)[i].body == walk(q)[k].body,
    ensures
        html_of(p) == html_of(q),
{
    law_html_text_is_shown(p, i);
    law_html_text_is_shown(q, k);
}

/// A message without HTML text is shown by its first plain text, escaped, with
/// line breaks for line feeds; by nothing where it has no plain text either.
pub proof fn law_plain_text_is_shown_without_html(p: PartTree)
    requires
        forall|j: int| 0 <= j < walk(p).len() ==> !is_text_of(#[trigger] walk(p)[j], "text/html"@),
    ensures
        forall|i: int|
            0 <= i < walk(p).len() && is_text_of(#[trigger] walk(p)[i], "text/plain"@) && (forall|j: int|
                0 <= j < i ==> !is_text_of(#[trigger] walk(p)[j], "text/plain"@)) ==> html_of(p) == replaced(
                escaped(walk(p)[i].body),
                '\n',
                "<br>"@,
            ),
        (forall|j: int| 0 <= j < walk(p).len() ==> !is_text_of(#[trigger] walk(p)[j], "text/plain"@))
            ==> html_of(p) == Seq::<char>::empty(),
{
    lemma_no_body_in(walk(p), "text/html"@);
    law_first_text_is_taken(p, "text/plain"@);
    if forall|j: int| 0 <= j < walk(p).len() ==> !is_text_of(#[trigger] walk(p)[j], "text/plain"@) {
        assert(escaped(Seq::empty()) =~= Seq::<char>::empty());
        assert(html_of(p) =~= Seq::<char>::empty());
    }
}

proof fn lemma_replaced_add(a: Seq<char>, b: Seq<char>, mark: char, with: Seq<char>)
    ensures
        replaced(a + b, mark, with) == replaced(a, mark, with) + replaced(b, mark, with),
    decreases b.len(),
{
    if b.len() == 0 {
        assert(a + b =~= a);
        assert(replaced(a, mark, with) + replaced(b, mark, with) =~= replaced(a, mark, with));
    } else {
        assert((a + b).drop_last() =~= a + b.drop_last());
        assert((a + b).last() == b.last());
        lemma_replaced_add(a, b.drop_last(), mark, with);
        assert(replaced(a + b, mark, with) =~= replaced(a, mark, with) + replaced(b, mark, with));
    }
}

proof fn lemma_replaced_other(s: Seq<char>, mark: char, with: Seq<char>)
    requires
        forall|i: int| 0 <= i < s.len() ==> #[trigger] s[i] != mark,
    ensures
        replaced(s, mark, with) == s,
    decreases s.len(),
{
    if s.len() > 0 {
        let init = s.drop_last();
        assert forall|i: int| 0 <= i < init.len() implies #[trigger] init[i] != mark by {
            assert(init[i] == s[i]);
        }
        lemma_replaced_other(init, mark, with);
        assert(s[s.len() - 1] != mark);
        assert(replaced(s, mark, with) =~= s);
    } else {
        assert(replaced(s, mark, with) =~= s);
    }
}

proof fn lemma_replaced_one(mark: char, with: Seq<char>)
    ensures
        replaced(seq![mark], mark, with) == with,
{
    let s = seq![mark];
    assert(s.drop_last() =~= Seq::<char>::empty());
    assert(replaced(s.drop_last(), mark, with) =~= Seq::<char>::empty());
    assert(s.last() == mark);
    assert(replaced(s, mark, with) =~= with);
}

/// What replaces a mark stands in its place, and everything else stays.
pub proof fn law_replacing_changes_the_mark_only(s: Seq<char>, c: char, mark: char, with: Seq<char>)
    ensures
        replaced(s.push(c), mark, with) == replaced(s, mark, with) + (if c == mark {
            with
        } else {
            seq![c]
        }),
        replaced(Seq::empty(), mark, with) == Seq::<char>::empty(),
{
    assert(s.push(c).drop_last() =~= s);
    assert(replaced(s.push(c), mark, with) =~= replaced(s, mark, with) + (if c == mark {
        with
    } else {
        seq![c]
    }));
}

/// Each character of a text is escaped by itself: the ampersand, the angle
/// brackets and the quotation mark become their names, and all others stay.
pub proof fn law_characters_are_escaped(s: Seq<char>, c: char)
    ensures
        escaped(s.push(c)) == escaped(s) + (if c == '&' {
            "&amp;"@
        } else if c == '<' {
            "&lt;"@
        } else if c == '>' {
            "&gt;"@
        } else if c == '"' {
            "&quot;"@
        } else {
            seq![c]
        }),
        escaped(Seq::empty()) == Seq::<char>::empty(),
{
    reveal_strlit("&amp;");
    reveal_strlit("&lt;");
    reveal_strlit("&gt;");
    reveal_strlit("&quot;");
    let one = seq![c];
    assert(s.push(c) =~= s + one);
    let a = replaced(s, '&', "&amp;"@);
    let b = replaced(a, '<', "&lt;"@);
    let d = replaced(b, '>', "&gt;"@);
    let x = replaced(one, '&', "&amp;"@);
    let y = replaced(x, '<', "&lt;"@);
    let z = replaced(y, '>', "&gt;"@);
    lemma_replaced_add(s, one, '&', "&amp;"@);
    lemma_replaced_add(a, x, '<', "&lt;"@);
    lemma_replaced_add(b, y, '>', "&gt;"@);
    lemma_replaced_add(d, z, '"', "&quot;"@);
    if c == '&' {
        lemma_replaced_one('&', "&amp;"@);
        lemma_replaced_other(x, '<', "&lt;"@);
        lemma_replaced_other(y, '>', "&gt;"@);
        lemma_replaced_other(z, '"', "&quot;"@);
    } else {
        lemma_replaced_other(one, '&', "&amp;"@);
        if c == '<' {
            lemma_replaced_one('<', "&lt;"@);
            lemma_replaced_other(y, '>', "&gt;"@);
            lemma_replaced_other(z, '"', "&quot;"@);
        } else {
            lemma_replaced_other(x, '<', "&lt;"@);
            if c == '>' {
                lemma_replaced_one('>', "&gt;"@);
                lemma_replaced_other(z, '"', "&quot;"@);
            } else {
                lemma_replaced_other(y, '>', "&gt;"@);
                if c == '"' {
                    lemma_replaced_one('"', "&quot;"@);
                } else {
                    lemma_replaced_other(z, '"', "&quot;"@);
                }
            }
        }
    }
    assert(escaped(Seq::empty()) =~= Seq::<char>::empty());
}

/// HTML is cleaned of four things, one after another: elements that can run or
/// load something, with all they hold; tags of such elements that stand alone;
/// attributes that handle events; and links that run a script, which then lead
/// nowhere.
pub proof fn law_html_is_cleaned_of_what_runs(s: Seq<char>)
    ensures
        ({
            let elements = regex_replaced(
                "(?is)<script[^>]*>.*?</script>|<style[^>]*>.*?</style>|<iframe[^>]*>.*?</iframe>|<object[^>]*>.*?</object>|<embed[^>]*>.*?</embed>|<link[^>]*>.*?</link>|<meta[^>]*>.*?</meta>|<base[^>]*>.*?</base>|<form[^>]*>.*?</form>"@,
                s,
                ""@,
            );
            let tags = regex_replaced(
                "(?is)<(script|style|iframe|object|embed|link|meta|base|form)[^>]*/?>"@,
                elements,
                ""@,
            );
            let handlers = regex_replaced("(?is)\\s+on[a-zA-Z]+\\s*=\\s*(?:'.*?'|\".*?\")"@, tags, ""@);
            sanitized(s) == regex_replaced(
                "(?is)\\s+(href|src)\\s*=\\s*(?:'\\s*javascript:.*?'|\"\\s*javascript:.*?\")"@,
                handlers,
                "$1=\"#\""@,
            )
        }),
{
}

// ---------------------------------------------------------------------------
// Searching
// ---------------------------------------------------------------------------

/// The text of a member of a summary.
pub open spec fn member_text(item: Tree, key: Seq<char>) -> Seq<char> {
    match item.get(key) {
        Some(Tree::Text(t)) => t,
        _ => Seq::empty(),
    }
}

/// The members in which a query is looked for.
pub open spec fn searched_members() -> Seq<Seq<char>> {
    seq!["from"@, "to"@, "subject"@, "preview"@]
}

proof fn lemma_haystack(item: Tree)
    requires
        forall|k: int| 0 <= k < 4 ==> ascii_only(member_text(item, #[trigger] searched_members()[k])),
    ensures
        ({
            let a = lowered(member_text(item, "from"@));
            let b = lowered(member_text(item, "to"@));
            let c = lowered(member_text(item, "subject"@));
            let d = lowered(member_text(item, "preview"@));
            haystack(item) == a.push(' ') + (b.push(' ') + (c.push(' ') + d))
        }),
{
    reveal_strlit("");
    reveal_strlit(" ");
    let keys = searched_members();
    assert(ascii_only(member_text(item, keys[0])) && ascii_only(member_text(item, keys[1])) && ascii_only(
        member_text(item, keys[2]),
    ) && ascii_only(member_text(item, keys[3])));
    assert(keys[0] == "from"@ && keys[1] == "to"@ && keys[2] == "subject"@ && keys[3] == "preview"@);
    assert(""@ =~= Seq::<char>::empty());
    assert(" "@ =~= seq![' ']);
    assert(ascii_only(" "@));
    assert(lowered(" "@) =~= seq![' ']);
    let a = member_text(item, "from"@);
    let b = member_text(item, "to"@);
    let c = member_text(item, "subject"@);
    let d = member_text(item, "preview"@);
    assert(item.at("from"@).text_or(""@) == a);
    assert(item.at("to"@).text_or(""@) == b);
    assert(item.at("subject"@).text_or(""@) == c);
    assert(item.at("preview"@).text_or(""@) == d);
    law_lowered_piecewise(a, " "@);
    law_lowered_piecewise(a + " "@, b);
    law_lowered_piecewise(a + " "@ + b, " "@);
    law_lowered_piecewise(a + " "@ + b + " "@, c);
    law_lowered_piecewise(a + " "@ + b + " "@ + c, " "@);
    law_lowered_piecewise(a + " "@ + b + " "@ + c + " "@, d);
    let x = lowered(a);
    let y = lowered(b);
    let z = lowered(c);
    let w = lowered(d);
    assert(haystack(item) =~= x.push(' ') + (y.push(' ') + (z.push(' ') + w)));
}

/// A query is answered by every message in whose sender, recipient, subject or
/// preview it stands, whatever the case; the empty query is answered by all.
pub proof fn law_every_searched_member_answers(item: Tree, query: Seq<char>)
    requires
        forall|k: int| 0 <= k < 4 ==> ascii_only(member_text(item, #[trigger] searched_members()[k])),
    ensures
        has_text(lowered(member_text(item, "from"@)), lowered(query)) ==> answers_query(item, query),
        has_text(lowered(member_text(item, "to"@)), lowered(query)) ==> answers_query(item, query),
        has_text(lowered(member_text(item, "subject"@)), lowered(query)) ==> answers_query(item, query),
        has_text(lowered(member_text(item, "preview"@)), lowered(query)) ==> answers_query(item, query),
        query.len() == 0 ==> answers_query(item, query),
{
    lemma_haystack(item);
    let q = lowered(query);
    let a = lowered(member_text(item, "from"@));
    let b = lowered(member_text(item, "to"@));
    let c = lowered(member_text(item, "subject"@));
    let d = lowered(member_text(item, "preview"@));
    let none = Seq::<char>::empty();
    let h = haystack(item);
    if has_text(a, q) {
        let after = seq![' '] + (b.push(' ') + (c.push(' ') + d));
        law_text_stands_in_whole(none, a, after, q);
        assert(h =~= none + a + after);
    }
    if has_text(b, q) {
        let after = seq![' '] + (c.push(' ') + d);
        law_text_stands_in_whole(a.push(' '), b, after, q);
        assert(h =~= a.push(' ') + b + after);
    }
    if has_text(c, q) {
        let before = a.push(' ') + b.push(' ');
        let after = seq![' '] + d;
        law_text_stands_in_whole(before, c, after, q);
        assert(h =~= before + c + after);
    }
    if has_text(d, q) {
        let before = a.push(' ') + b.push(' ') + c.push(' ');
        law_text_stands_in_whole(before, d, none, q);
        assert(h =~= before + d + none);
    }
    if query.len() == 0 {
        assert(ascii_only(query));
        assert(q.len() == 0);
    }
}

/// A summary answers a query exactly if the query is empty or stands, whatever
/// the case, in what its sender, its recipients, its subject and its preview are
/// when put side by side.
pub proof fn law_query_is_looked_for_in_four_members(item: Tree, query: Seq<char>)
    ensures
        answers_query(item, query) == (lowered(query).len() == 0 || has_text(
            lowered(
                member_text(item, "from"@) + seq![' '] + member_text(item, "to"@) + seq![' '] + member_text(
                    item,
                    "subject"@,
                ) + seq![' '] + member_text(item, "preview"@),
            ),
            lowered(query),
        )),
{
    reveal_strlit("");
    reveal_strlit(" ");
    assert(""@ =~= Seq::<char>::empty());
    assert(" "@ =~= seq![' ']);
}

/// A query of one word is answered only by messages in whose sender, recipient,
/// subject or preview it stands.
pub proof fn law_only_searched_members_answer(item: Tree, query: Seq<char>)
    requires
        forall|k: int| 0 <= k < 4 ==> ascii_only(member_text(item, #[trigger] searched_members()[k])),
        lowered(query).len() > 0,
        !lowered(query).contains(' '),
        answers_query(item, query),
    ensures
        has_text(lowered(member_text(item, "from"@)), lowered(query)) || has_text(
            lowered(member_text(item, "to"@)),
            lowered(query),
        ) || has_text(lowered(member_text(item, "subject"@)), lowered(query)) || has_text(
            lowered(member_text(item, "preview"@)),
            lowered(query),
        ),
{
    lemma_haystack(item);
    let q = lowered(query);
    let a = lowered(member_text(item, "from"@));
    let b = lowered(member_text(item, "to"@));
    let c = lowered(member_text(item, "subject"@));
    let d = lowered(member_text(item, "preview"@));
    law_text_stands_on_one_side(a, ' ', b.push(' ') + (c.push(' ') + d), q);
    if !has_text(a, q) {
        law_text_stands_on_one_side(b, ' ', c.push(' ') + d, q);
        if !has_text(b, q) {
            law_text_stands_on_one_side(c, ' ', d, q);
        }
    }
}

// ---------------------------------------------------------------------------
// Summaries and whole messages
// ---------------------------------------------------------------------------

proof fn lemma_summary_keys()
    ensures
        forall|a: int, b: int|
            0 <= a < 13 && 0 <= b < 13 && a != b ==> #[trigger] summary_keys()[a] != #[trigger] summary_keys()[b],
        forall|a: int|
            0 <= a < 13 ==> #[trigger] summary_keys()[a] != "bodyText"@ && summary_keys()[a] != "bodyHtml"@,
        "bodyText"@ != "bodyHtml"@,
{
    reveal_strlit("id");
    reveal_strlit("folder");
    reveal_strlit("from");
    reveal_strlit("to");
    reveal_strlit("subject");
    reveal_strlit("date");
    reveal_strlit("timestamp");
    reveal_strlit("preview");
    reveal_strlit("unread");
    reveal_strlit("flagged");
    reveal_strlit("attachments");
    reveal_strlit("spamScore");
    reveal_strlit("spamReasons");
    reveal_strlit("bodyText");
    reveal_strlit("bodyHtml");
    assert("id"@[0] == 'i' && "id"@.len() == 2);
    assert("folder"@.len() == 6 && "folder"@[1] == 'o');
    assert("from"@.len() == 4);
    assert("to"@.len() == 2 && "to"@[0] == 't');
    assert("subject"@.len() == 7 && "subject"@[0] == 's');
    assert("date"@.len() == 4 && "date"@[0] == 'd');
    assert("from"@[0] == 'f');
    assert("timestamp"@.len() == 9 && "timestamp"@[0] == 't');
    assert("preview"@.len() == 7 && "preview"@[0] == 'p');
    assert("unread"@.len() == 6 && "unread"@[1] == 'n');
    assert("flagged"@.len() == 7 && "flagged"@[0] == 'f');
    assert("attachments"@.len() == 11 && "attachments"@[0] == 'a');
    assert("spamScore"@.len() == 9 && "spamScore"@[0] == 's');
    assert("spamReasons"@.len() == 11 && "spamReasons"@[0] == 's');
    assert("bodyText"@.len() == 8 && "bodyText"@[4] == 'T');
    assert("bodyHtml"@.len() == 8 && "bodyHtml"@[4] == 'H');
}

/// The members of a summary.
pub open spec fn summary_keys() -> Seq<Seq<char>> {
    seq![
        "id"@,
        "folder"@,
        "from"@,
        "to"@,
        "subject"@,
        "date"@,
        "timestamp"@,
        "preview"@,
        "unread"@,
        "flagged"@,
        "attachments"@,
        "spamScore"@,
        "spamReasons"@,
    ]
}

/// A summary says who sent a message to whom, about what and when, how its plain
/// text begins, and what is attached: each from the header or part of that name.
pub proof fn law_summary_says_what_the_message_holds(
    folder: Seq<char>,
    subdir: Seq<char>,
    name: Seq<char>,
    m: MessageTree,
    timestamp: u64,
    policy: Tree,
)
    ensures
        ({
            let s = summary_of(folder, subdir, name, m, timestamp, policy);
            &&& s.at("folder"@) == Tree::Text(folder)
            &&& s.at("from"@) == Tree::Text(
                match m.from {
                    Some(t) => cleaned(t),
                    None => Seq::empty(),
                },
            )
            &&& s.at("to"@) == Tree::Text(
                match m.to {
                    Some(t) => cleaned(t),
                    None => Seq::empty(),
                },
            )
            &&& s.at("subject"@) == Tree::Text(
                match m.subject {
                    Some(t) => t,
                    None => "(no subject)"@,
                },
            )
            &&& s.at("date"@) == Tree::Text(
                match m.date {
                    Some(t) => t,
                    None => Seq::empty(),
                },
            )
            &&& s.at("timestamp"@) == Tree::Number(Number::Unsigned(timestamp))
            &&& s.at("preview"@) == Tree::Text(
                first_chars(joined(words_of(body_in(walk(m.root), "text/plain"@)), " "@), 180),
            )
            &&& s.at("attachments"@) == text_array(names_in(walk(m.root)))
        }),
{
    lemma_summary_keys();
    let k = summary_keys();
    assert(k[0] == "id"@ && k[1] == "folder"@ && k[2] == "from"@ && k[3] == "to"@ && k[4] == "subject"@ && k[5]
        == "date"@ && k[6] == "timestamp"@ && k[7] == "preview"@ && k[8] == "unread"@ && k[9] == "flagged"@
        && k[10] == "attachments"@ && k[11] == "spamScore"@ && k[12] == "spamReasons"@);
    assert(cleaned(Seq::empty()) =~= Seq::<char>::empty()) by {
        let flat = Seq::<char>::empty().map_values(|c: char| crate::address::unbroken(c));
        assert(flat =~= Seq::<char>::empty());
        crate::text::lemma_trimmed_fixed(flat);
    }
}

/// A message is shown as unread if it lies among the new ones or lacks the flag
/// for seen ones, and with a star if it has the flag for that; its score and the
/// reasons for it are those of the message under the policy.
pub proof fn law_summary_says_how_the_message_stands(
    folder: Seq<char>,
    subdir: Seq<char>,
    name: Seq<char>,
    m: MessageTree,
    timestamp: u64,
    policy: Tree,
)
    ensures
        ({
            let s = summary_of(folder, subdir, name, m, timestamp, policy);
            &&& s.at("unread"@) == Tree::Bool(
                subdir == "new"@ || !crate::maildir::flags_of(name).contains('S'),
            )
            &&& s.at("flagged"@) == Tree::Bool(crate::maildir::flags_of(name).contains('F'))
            &&& s.at("id"@) == Tree::Text(crate::maildir::id_of(folder, subdir, name))
            &&& s.at("spamScore"@) == Tree::Number(
                Number::Unsigned(crate::score::score_of(m, policy) as u64),
            )
            &&& s.at("spamReasons"@) == text_array(crate::score::reasons_of(m, policy))
        }),
{
    lemma_summary_keys();
    let k = summary_keys();
    assert(k[0] == "id"@ && k[1] == "folder"@ && k[2] == "from"@ && k[3] == "to"@ && k[4] == "subject"@ && k[5]
        == "date"@ && k[6] == "timestamp"@ && k[7] == "preview"@ && k[8] == "unread"@ && k[9] == "flagged"@
        && k[10] == "attachments"@ && k[11] == "spamScore"@ && k[12] == "spamReasons"@);
}

/// A message that is shown whole has all of its summary but the attachments,
/// its plain text, its HTML and the rows of its attachments.
pub proof fn law_whole_message_is_shown(summary: Tree, p: PartTree, other: Seq<char>)
    requires
        summary is Object,
        other != "bodyText"@,
        other != "bodyHtml"@,
        other != "attachments"@,
    ensures
        shown_of(summary, p).at("ok"@) == Tree::Bool(true),
        shown_of(summary, p).at("message"@).at("bodyText"@) == Tree::Text(body_in(walk(p), "text/plain"@)),
        shown_of(summary, p).at("message"@).at("bodyHtml"@) == Tree::Text(html_of(p)),
        shown_of(summary, p).at("message"@).at("attachments"@) == Tree::Array(attachment_rows(walk(p))),
        shown_of(summary, p).at("message"@).get(other) == summary.get(other),
{
    lemma_summary_keys();
    assert(summary_keys()[10] == "attachments"@);
    reveal_strlit("ok");
    reveal_strlit("message");
    assert("ok"@.len() != "message"@.len());
}

// ---------------------------------------------------------------------------
// Attachments
// ---------------------------------------------------------------------------

/// The name of a part is the file name of its disposition, or else the name of
/// its type; a part without either is not attached.
pub proof fn law_disposition_names_an_attachment(p: PartTree)
    ensures
        p.disposition_name is Some ==> name_of(p) == p.disposition_name,
        p.disposition_name is None ==> name_of(p) == p.content_name,
{
}

/// The names of the attachments are those of all parts that have one, in the
/// order of the walk.
pub proof fn law_all_attachments_are_named(parts: Seq<PartTree>, more: PartTree)
    ensures
        names_in(Seq::empty()) == Seq::<Seq<char>>::empty(),
        name_of(more) matches Some(n) ==> names_in(parts.push(more)) == names_in(parts).push(n),
        name_of(more) is None ==> names_in(parts.push(more)) == names_in(parts),
{
    assert(parts.push(more).drop_last() =~= parts);
    assert(parts.push(more).last() == more);
}

proof fn lemma_row_of(parts: Seq<PartTree>, i: int)
    requires
        0 <= i < parts.len(),
        name_of(parts[i]) is Some,
    ensures
        exists|k: int|
            0 <= k < attachment_rows(parts).len() && #[trigger] attachment_rows(parts)[k] == attachment_row(
                i,
                name_of(parts[i])->0,
                parts[i],
            ),
    decreases parts.len(),
{
    let init = parts.drop_last();
    let rows = attachment_rows(parts);
    let before = attachment_rows(init);
    if i < init.len() {
        lemma_row_of(init, i);
        let k = choose|k: int|
            0 <= k < before.len() && #[trigger] before[k] == attachment_row(i, name_of(init[i])->0, init[i]);
        assert(rows[k] == before[k]);
    } else {
        assert(rows[before.len() as int] == attachment_row(i, name_of(parts[i])->0, parts[i]));
    }
}

/// Every part that has a name is listed among the attachments, with its place in
/// the walk, its name, its media type and its size.
pub proof fn law_every_attachment_is_listed(p: PartTree, i: int)
    requires
        0 <= i < walk(p).len(),
        i <= u64::MAX,
        name_of(walk(p)[i]) is Some,
    ensures
        exists|k: int|
            0 <= k < attachment_rows(walk(p)).len() && {
                let row = #[trigger] attachment_rows(walk(p))[k];
                &&& row.at("index"@) == Tree::Number(Number::Unsigned(i as u64))
                &&& row.at("filename"@) == Tree::Text(name_of(walk(p)[i])->0)
                &&& row.at("contentType"@) == Tree::Text(walk(p)[i].mimetype)
                &&& walk(p)[i].raw matches Ok(data) ==> row.at("size"@) == Tree::Number(
                    Number::Unsigned(data.len() as u64),
                )
            },
{
    lemma_row_of(walk(p), i);
    let k = choose|k: int|
        0 <= k < attachment_rows(walk(p)).len() && #[trigger] attachment_rows(walk(p))[k] == attachment_row(
            i,
            name_of(walk(p)[i])->0,
            walk(p)[i],
        );
    reveal_strlit("index");
    reveal_strlit("filename");
    reveal_strlit("contentType");
    reveal_strlit("size");
    assert("index"@[0] == 'i' && "filename"@[0] == 'f' && "contentType"@[0] == 'c' && "size"@[0] == 's');
    let row = attachment_rows(walk(p))[k];
    assert(row.at("index"@) == Tree::Number(Number::Unsigned(i as u64)));
}

/// The attachment at a place of the walk is answered with its name, its media
/// type and its very bytes; a part without a name, a place beyond the walk, and
/// a text that is no number are refused.
pub proof fn law_attachment_is_answered_whole(p: PartTree, n: nat)
    requires
        n <= usize::MAX,
    ensures
        n < walk(p).len() ==> (walk(p)[n as int].raw matches Ok(data) ==> (name_of(walk(p)[n as int]) matches Some(
            name,
        ) ==> (attachment_of(p, decimal(n)) matches Ok(found) && found.at("ok"@) == Tree::Bool(true) && found.at(
            "filename"@,
        ) == Tree::Text(name) && found.at("contentType"@) == Tree::Text(walk(p)[n as int].mimetype) && found.at(
            "data"@,
        ) == Tree::Text(base64_text(data))))),
        n < walk(p).len() && name_of(walk(p)[n as int]) is None ==> attachment_of(p, decimal(n)) == Err::<
            Tree,
            Seq<char>,
        >("attachment not found"@),
        n >= walk(p).len() ==> attachment_of(p, decimal(n)) == Err::<Tree, Seq<char>>("attachment not found"@),
        attachment_of(p, ""@) == Err::<Tree, Seq<char>>("invalid attachment index"@),
{
    law_decimal_reads_back(n, usize::MAX as nat);
    reveal_strlit("");
    reveal_strlit("ok");
    reveal_strlit("filename");
    reveal_strlit("contentType");
    reveal_strlit("data");
    assert("ok"@[0] == 'o' && "filename"@[0] == 'f' && "contentType"@[0] == 'c' && "data"@[0] == 'd');
}

} // verus!
