//! Mail messages: their parts, bodies and attachments, and how they are shown.
use crate::outside::{
    bytes_result, mail_body, mail_body_raw, mail_content_name, mail_disposition_name,
    mail_first_header, mail_header, mail_mimetype, mail_parse, mail_subpart, mail_subpart_count,
    mail_tree, part_tree, regex_count, regex_finds, regex_replace_all, regex_replaced, PartTree,
    ELEMENT_PATTERN, HANDLER_PATTERN, LINK_PATTERN, SCRIPT_LINK_PATTERN, TAG_PATTERN,
};
use crate::text::{ascii_lower, chars_of, opt_text, replace, replaced, texts};
use vstd::prelude::*;

verus! {

/// A part of a mail message.
#[derive(Debug, PartialEq, Eq)]
pub struct MailPart {
    /// The media type, as in `text/plain`.
    pub mimetype: String,
    /// The parameter `filename` of the content disposition.
    pub disposition_name: Option<String>,
    /// The parameter `name` of the content type.
    pub content_name: Option<String>,
    /// The decoded text; empty where it cannot be decoded.
    pub body: String,
    /// The decoded bytes, or why they cannot be decoded.
    pub raw: Result<Vec<u8>, String>,
    /// The parts inside this one.
    pub subparts: Vec<MailPart>,
}

/// What a part holds.
pub open spec fn part_of(p: MailPart) -> PartTree
    decreases p,
{
    PartTree {
        mimetype: p.mimetype@,
        disposition_name: opt_text(p.disposition_name),
        content_name: opt_text(p.content_name),
        body: p.body@,
        raw: bytes_result(p.raw),
        subparts: Seq::new(
            p.subparts@.len(),
            |i: int|
                if 0 <= i < p.subparts@.len() {
                    part_of(p.subparts@[i])
                } else {
                    arbitrary()
                },
        ),
    }
}

impl View for MailPart {
    type V = PartTree;

    open spec fn view(&self) -> PartTree {
        part_of(*self)
    }
}

/// A mail message: the headers that matter here, and its parts.
#[derive(Debug, PartialEq, Eq)]
pub struct Message {
    pub from: Option<String>,
    pub to: Option<String>,
    pub subject: Option<String>,
    pub date: Option<String>,
    /// The header `Authentication-Results`.
    pub authentication: Option<String>,
    pub root: MailPart,
}

/// What a mail message holds.
pub ghost struct MessageTree {
    pub from: Option<Seq<char>>,
    pub to: Option<Seq<char>>,
    pub subject: Option<Seq<char>>,
    pub date: Option<Seq<char>>,
    pub authentication: Option<Seq<char>>,
    pub root: PartTree,
}

impl View for Message {
    type V = MessageTree;

    open spec fn view(&self) -> MessageTree {
        MessageTree {
            from: opt_text(self.from),
            to: opt_text(self.to),
            subject: opt_text(self.subject),
            date: opt_text(self.date),
            authentication: opt_text(self.authentication),
            root: self.root@,
        }
    }
}

/// The message that bytes spell, or why they spell none.
pub open spec fn message_of(raw: Seq<u8>) -> Result<MessageTree, Seq<char>> {
    match mail_tree(raw) {
        Err(e) => Err(e),
        Ok(root) => Ok(
            MessageTree {
                from: mail_header(raw, "From"@),
                to: mail_header(raw, "To"@),
                subject: mail_header(raw, "Subject"@),
                date: mail_header(raw, "Date"@),
                authentication: mail_header(raw, "Authentication-Results"@),
                root,
            },
        ),
    }
}

/// Reads a parsed part, with the parts inside it.
fn read_part(part: &mailparse::ParsedMail) -> (r: MailPart)
    ensures
        r@ == part_tree(*part),
    decreases part_tree(*part),
{
    let count: usize = mail_subpart_count(part);
    let mut subparts: Vec<MailPart> = Vec::new();
    let mut i: usize = 0;
    while i < count
        invariant
            i <= count,
            count == part_tree(*part).subparts.len(),
            subparts@.len() == i,
            forall|j: int| 0 <= j < i ==> (#[trigger] subparts@[j])@ == part_tree(*part).subparts[j],
        decreases count - i,
    {
        proof {
            let whole = part_tree(*part);
            assert(decreases_to!(whole => whole.subparts));
            assert(decreases_to!(whole.subparts => whole.subparts[i as int]));
        }
        let child = read_part(mail_subpart(part, i));
        subparts.push(child);
        i += 1;
    }
    let r = MailPart {
        mimetype: mail_mimetype(part),
        disposition_name: mail_disposition_name(part),
        content_name: mail_content_name(part),
        body: mail_body(part),
        raw: mail_body_raw(part),
        subparts,
    };
    proof {
        assert(r@.subparts =~= part_tree(*part).subparts);
    }
    r
}

/// Reads a mail message; a failure comes out as its message.
pub fn parse_message(raw: &[u8]) -> (r: Result<Message, String>)
    ensures
        match r {
            Ok(m) => message_of(raw@) == Ok::<MessageTree, Seq<char>>(m@),
            Err(e) => message_of(raw@) == Err::<MessageTree, Seq<char>>(e@),
        },
{
    match mail_parse(raw) {
        Err(e) => Err(e),
        Ok(part) => Ok(
            Message {
                from: mail_first_header(&part, "From"),
                to: mail_first_header(&part, "To"),
                subject: mail_first_header(&part, "Subject"),
                date: mail_first_header(&part, "Date"),
                authentication: mail_first_header(&part, "Authentication-Results"),
                root: read_part(&part),
            },
        ),
    }
}

/// The name under which a part is attached, if it is.
pub open spec fn name_of(p: PartTree) -> Option<Seq<char>> {
    match p.disposition_name {
        Some(n) => Some(n),
        None => p.content_name,
    }
}

/// The name under which a part is attached.
pub fn filename(part: &MailPart) -> (r: Option<String>)
    ensures
        opt_text(r) == name_of(part@),
{
    match &part.disposition_name {
        Some(n) => Some(n.clone()),
        None => match &part.content_name {
            Some(n) => Some(n.clone()),
            None => None,
        },
    }
}

/// A part and all parts inside it, each before those inside it.
pub open spec fn walk(p: PartTree) -> Seq<PartTree>
    decreases p, 0nat,
{
    seq![p] + walk_list(p.subparts, p.subparts.len())
}

/// The walks through the first parts of a list, one after another.
pub open spec fn walk_list(list: Seq<PartTree>, n: nat) -> Seq<PartTree>
    decreases list, n,
{
    if n == 0 || n > list.len() {
        Seq::empty()
    } else {
        walk_list(list, (n - 1) as nat) + walk(list[n - 1])
    }
}

/// What the parts of a list hold.
pub open spec fn parts_of(list: Seq<&MailPart>) -> Seq<PartTree> {
    list.map_values(|p: &MailPart| p@)
}

/// Adds a part and all parts inside it to a list.
fn walk_into<'a>(part: &'a MailPart, out: &mut Vec<&'a MailPart>)
    ensures
        parts_of(final(out)@) == parts_of(old(out)@) + walk(part@),
    decreases *part,
{
    let ghost start = parts_of(out@);
    let ghost list = part@.subparts;
    out.push(part);
    proof {
        assert(parts_of(out@) =~= start + seq![part@]);
        assert(walk_list(list, 0) =~= Seq::<PartTree>::empty());
        assert(start + seq![part@] + walk_list(list, 0) =~= start + seq![part@]);
    }
    let mut i: usize = 0;
    while i < part.subparts.len()
        invariant
            i <= part.subparts@.len(),
            list == part@.subparts,
            list.len() == part.subparts@.len(),
            parts_of(out@) == start + seq![part@] + walk_list(list, i as nat),
        decreases part.subparts@.len() - i,
    {
        proof {
            assert(decreases_to!(*part => part.subparts));
            assert(decreases_to!(part.subparts => part.subparts@));
            assert(decreases_to!(part.subparts@ => part.subparts@[i as int]));
            assert(list[i as int] == part.subparts@[i as int]@);
        }
        walk_into(&part.subparts[i], out);
        proof {
            assert(walk_list(list, (i + 1) as nat) == walk_list(list, i as nat) + walk(list[i as int]));
            assert(parts_of(out@) =~= start + seq![part@] + walk_list(list, (i + 1) as nat));
        }
        i += 1;
    }
    proof {
        assert(parts_of(out@) =~= start + walk(part@));
    }
}

/// Lists a part and all parts inside it.
pub fn all_parts<'a>(part: &'a MailPart) -> (r: Vec<&'a MailPart>)
    ensures
        parts_of(r@) == walk(part@),
{
    let mut out: Vec<&'a MailPart> = Vec::new();
    walk_into(part, &mut out);
    proof {
        assert(Seq::<PartTree>::empty() + walk(part@) =~= walk(part@));
    }
    out
}

/// Whether two texts are the same but for the case of letters of ASCII.
pub open spec fn same_but_case(a: Seq<char>, b: Seq<char>) -> bool {
    a.map_values(|c: char| ascii_lower(c)) == b.map_values(|c: char| ascii_lower(c))
}

fn ascii_lower_char(c: char) -> (r: char)
    ensures
        r == ascii_lower(c),
{
    if 'A' <= c && c <= 'Z' {
        ((c as u8) + 32) as char
    } else {
        c
    }
}

fn equal_but_case(a: &str, b: &str) -> (r: bool)
    ensures
        r == same_but_case(a@, b@),
{
    let x = chars_of(a);
    let y = chars_of(b);
    let ghost low = |c: char| ascii_lower(c);
    if x.len() != y.len() {
        proof {
            assert(a@.map_values(low).len() != b@.map_values(low).len());
        }
        return false;
    }
    let mut i: usize = 0;
    while i < x.len()
        invariant
            i <= x@.len(),
            x@.len() == y@.len(),
            x@ == a@,
            y@ == b@,
            low == (|c: char| ascii_lower(c)),
            forall|j: int| 0 <= j < i ==> ascii_lower(#[trigger] x@[j]) == ascii_lower(y@[j]),
        decreases x@.len() - i,
    {
        if ascii_lower_char(x[i]) != ascii_lower_char(y[i]) {
            proof {
                assert(a@.map_values(low)[i as int] != b@.map_values(low)[i as int]);
            }
            return false;
        }
        i += 1;
    }
    proof {
        assert(a@.map_values(low) =~= b@.map_values(low));
    }
    true
}

/// Whether a part is a body of a media type: it holds no parts, and is not
/// attached under a name.
pub open spec fn is_body(p: PartTree, mimetype: Seq<char>) -> bool {
    p.subparts.len() == 0 && same_but_case(p.mimetype, mimetype) && name_of(p) is None
}

/// The first body of a media type that is not empty, or the empty text.
pub open spec fn body_in(parts: Seq<PartTree>, mimetype: Seq<char>) -> Seq<char>
    decreases parts.len(),
{
    if parts.len() == 0 {
        Seq::empty()
    } else if is_body(parts[0], mimetype) && parts[0].body.len() > 0 {
        parts[0].body
    } else {
        body_in(parts.skip(1), mimetype)
    }
}

/// Finds the first body of a media type that is not empty.
pub fn first_body(part: &MailPart, mimetype: &str) -> (r: String)
    ensures
        r@ == body_in(walk(part@), mimetype@),
{
    let parts = all_parts(part);
    let ghost all = walk(part@);
    let mut i: usize = 0;
    proof {
        assert(all.skip(0) =~= all);
    }
    while i < parts.len()
        invariant
            i <= parts@.len(),
            all == parts_of(parts@),
            all == walk(part@),
            body_in(all, mimetype@) == body_in(all.skip(i as int), mimetype@),
        decreases parts@.len() - i,
    {
        let p = parts[i];
        proof {
            assert(all[i as int] == p@);
            assert(all.skip(i as int).skip(1) =~= all.skip(i + 1));
        }
        if p.subparts.len() == 0 && equal_but_case(p.mimetype.as_str(), mimetype) && filename(p).is_none()
            && !p.body.as_str().is_empty() {
            return p.body.clone();
        }
        i += 1;
    }
    String::new()
}

/// The names of the attached parts of a list.
pub open spec fn names_in(parts: Seq<PartTree>) -> Seq<Seq<char>>
    decreases parts.len(),
{
    if parts.len() == 0 {
        Seq::empty()
    } else {
        match name_of(parts.last()) {
            Some(n) => names_in(parts.drop_last()).push(n),
            None => names_in(parts.drop_last()),
        }
    }
}

/// Lists the names of the attachments.
pub fn attachment_names(part: &MailPart) -> (r: Vec<String>)
    ensures
        texts(r@) == names_in(walk(part@)),
{
    let parts = all_parts(part);
    let ghost all = walk(part@);
    let mut out: Vec<String> = Vec::new();
    let mut i: usize = 0;
    proof {
        assert(texts(out@) =~= names_in(all.take(0)));
    }
    while i < parts.len()
        invariant
            i <= parts@.len(),
            all == parts_of(parts@),
            texts(out@) == names_in(all.take(i as int)),
        decreases parts@.len() - i,
    {
        proof {
            assert(all.take(i + 1).drop_last() =~= all.take(i as int));
            assert(all.take(i + 1).last() == parts@[i as int]@);
        }
        let ghost out0 = out@;
        if let Some(name) = filename(parts[i]) {
            out.push(name);
            proof {
                assert(texts(out@) =~= texts(out0).push(name@));
            }
        }
        i += 1;
    }
    proof {
        assert(all.take(all.len() as int) =~= all);
    }
    out
}

/// Finds a part by its place in the walk through all parts.
pub fn part_by_index<'a>(part: &'a MailPart, target: usize) -> (r: Option<&'a MailPart>)
    ensures
        match r {
            Some(p) => target < walk(part@).len() && p@ == walk(part@)[target as int],
            None => target >= walk(part@).len(),
        },
{
    let parts = all_parts(part);
    proof {
        assert(parts_of(parts@).len() == parts@.len());
    }
    if target < parts.len() {
        proof {
            assert(parts_of(parts@)[target as int] == parts@[target as int]@);
        }
        Some(parts[target])
    } else {
        None
    }
}

/// Counts the links in a text.
pub fn message_links(text: &str) -> (r: usize)
    ensures
        r == regex_finds(LINK_PATTERN@, text@),
{
    regex_count(LINK_PATTERN, text)
}

/// A text as HTML shows it.
pub open spec fn escaped(s: Seq<char>) -> Seq<char> {
    replaced(
        replaced(replaced(replaced(s, '&', "&amp;"@), '<', "&lt;"@), '>', "&gt;"@),
        '"',
        "&quot;"@,
    )
}

/// Writes a text so that HTML shows it.
pub fn escape_html(value: &str) -> (r: String)
    ensures
        r@ == escaped(value@),
{
    let a = replace(value, '&', "&amp;");
    let b = replace(a.as_str(), '<', "&lt;");
    let c = replace(b.as_str(), '>', "&gt;");
    replace(c.as_str(), '"', "&quot;")
}

/// What is put in place of links that run a script: the attribute, which leads
/// nowhere.
pub const DEAD_LINK: &'static str = "$1=\"#\"";

/// An HTML text with what could run in it taken out: elements with all they
/// hold, tags of such elements that stand alone, attributes that handle events,
/// and links that run a script.
pub open spec fn sanitized(s: Seq<char>) -> Seq<char> {
    let elements = regex_replaced(ELEMENT_PATTERN@, s, ""@);
    let tags = regex_replaced(TAG_PATTERN@, elements, ""@);
    let handlers = regex_replaced(HANDLER_PATTERN@, tags, ""@);
    regex_replaced(SCRIPT_LINK_PATTERN@, handlers, DEAD_LINK@)
}

/// Takes out of an HTML text what could run in it.
pub fn sanitize_html(value: &str) -> (r: String)
    ensures
        r@ == sanitized(value@),
{
    let elements = regex_replace_all(ELEMENT_PATTERN, value, "");
    let tags = regex_replace_all(TAG_PATTERN, elements.as_str(), "");
    let handlers = regex_replace_all(HANDLER_PATTERN, tags.as_str(), "");
    regex_replace_all(SCRIPT_LINK_PATTERN, handlers.as_str(), DEAD_LINK)
}

/// The HTML that shows a message: its HTML body without what could run, or else
/// its plain text.
pub open spec fn html_of(p: PartTree) -> Seq<char> {
    let html = body_in(walk(p), "text/html"@);
    if html.len() > 0 {
        sanitized(html)
    } else {
        replaced(escaped(body_in(walk(p), "text/plain"@)), '\n', "<br>"@)
    }
}

/// The HTML that shows a message.
pub fn html_from_message(part: &MailPart) -> (r: String)
    ensures
        r@ == html_of(part@),
{
    let html = first_body(part, "text/html");
    if !html.as_str().is_empty() {
        return sanitize_html(html.as_str());
    }
    let plain = escape_html(first_body(part, "text/plain").as_str());
    replace(plain.as_str(), '\n', "<br>")
}

/// Replacing a character by a text without it leaves none of it, and brings in
/// no character that neither the text nor its replacement holds.
proof fn lemma_replaced(s: Seq<char>, mark: char, with: Seq<char>)
    requires
        !with.contains(mark),
    ensures
        !replaced(s, mark, with).contains(mark),
        forall|c: char| #[trigger] replaced(s, mark, with).contains(c) ==> s.contains(c) || with.contains(c),
    decreases s.len(),
{
    let r = replaced(s, mark, with);
    if s.len() > 0 {
        let init = s.drop_last();
        lemma_replaced(init, mark, with);
        let before = replaced(init, mark, with);
        assert forall|c: char| #[trigger] r.contains(c) implies c != mark && (s.contains(c) || with.contains(
            c,
        )) by {
            let k = choose|k: int| 0 <= k < r.len() && r[k] == c;
            if k < before.len() {
                assert(before[k] == c);
                assert(before.contains(c));
                if init.contains(c) {
                    let m = choose|m: int| 0 <= m < init.len() && init[m] == c;
                    assert(s[m] == c);
                }
            } else if s.last() == mark {
                assert(with[k - before.len()] == c);
                assert(with.contains(c));
            } else {
                assert(c == s.last());
                assert(s[s.len() - 1] == c);
            }
        }
        if r.contains(mark) {
            assert(false);
        }
    }
}

/// Escaped text holds no tag and ends no attribute: it has no angle bracket
/// and no quotation mark.
pub proof fn law_escaped_is_inert(s: Seq<char>)
    ensures
        !escaped(s).contains('<'),
        !escaped(s).contains('>'),
        !escaped(s).contains('"'),
{
    reveal_strlit("&amp;");
    reveal_strlit("&lt;");
    reveal_strlit("&gt;");
    reveal_strlit("&quot;");
    let a = replaced(s, '&', "&amp;"@);
    let b = replaced(a, '<', "&lt;"@);
    let c = replaced(b, '>', "&gt;"@);
    lemma_replaced(a, '<', "&lt;"@);
    lemma_replaced(b, '>', "&gt;"@);
    lemma_replaced(c, '"', "&quot;"@);
}

} // verus!
