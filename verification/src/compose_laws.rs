//! What the header lines of a message and its recipients can be.
use crate::address::{address_list, cleaned, law_cleaned_is_one_line, unbroken};
use crate::compose::{
    attachment_part, attachment_parts, header_line, message_head, message_text, recipients_of, wrapped,
    LINE_WIDTH,
};
use crate::json::Tree;
use crate::mailbox_laws::{lemma_one_line, one_line};
use crate::outside::{base64_bytes, base64_text};
use crate::site::DOMAIN;
use crate::text::{
    among, decimal, find_from, is_digit, lemma_decimal, lemma_find_from, lemma_pieces_append,
    lemma_pieces_join, lemma_pieces_kind, lemma_pieces_mark, lemma_pieces_some, lemma_pieces_whole,
    lemma_trimmed, lines_of, parted_at, pieces, split_at, stands_at, trimmed, trimmed_end, without_return,
};
use crate::text_laws::law_parting_at_the_first;
use crate::webmail::draft_of;
use vstd::prelude::*;

verus! {

/// The pieces of a wrapped text between line feeds.
proof fn lemma_wrapped_pieces(s: Seq<char>)
    requires
        one_line(s),
    ensures
        ({
            let p = split_at(wrapped(s), '\n');
            &&& p.len() > 0
            &&& p.last().len() <= LINE_WIDTH
            &&& forall|i: int|
                0 <= i < p.len() - 1 ==> (#[trigger] p[i]).len() == LINE_WIDTH + 1 && p[i].last() == '\r'
        }),
    decreases s.len(),
{
    let kind = among(seq!['\n']);
    assert(seq!['\n'][0] == '\n');
    assert(kind('\n'));
    assert forall|i: int| 0 <= i < s.len() implies !kind(#[trigger] s[i]) by {
        assert(s.contains(s[i]));
    }
    if s.len() <= LINE_WIDTH {
        lemma_pieces_whole(s, kind);
    } else {
        reveal_strlit("\r\n");
        let a = s.take(LINE_WIDTH as int).push('\r');
        let b = s.skip(LINE_WIDTH as int);
        assert(one_line(b)) by {
            if b.contains('\n') {
                let k = choose|k: int| 0 <= k < b.len() && b[k] == '\n';
                assert(s[k + LINE_WIDTH] == '\n');
            }
        }
        lemma_wrapped_pieces(b);
        assert(wrapped(s) =~= a.push('\n') + wrapped(b));
        assert forall|i: int| 0 <= i < a.len() implies !kind(#[trigger] a[i]) by {
            if i < LINE_WIDTH {
                assert(a[i] == s[i]);
            }
        }
        lemma_pieces_whole(a, kind);
        lemma_pieces_join(a, '\n', wrapped(b), kind);
        let p = split_at(wrapped(s), '\n');
        let q = split_at(wrapped(b), '\n');
        assert(p == seq![a] + q);
        assert(p.last() == q.last());
        assert forall|i: int| 0 <= i < p.len() - 1 implies (#[trigger] p[i]).len() == LINE_WIDTH + 1 && p[i].last()
            == '\r' by {
            if i > 0 {
                assert(p[i] == q[i - 1]);
            }
        }
    }
}

/// No line of a wrapped text is longer than a line may be.
pub proof fn law_wrapped_lines_fit(s: Seq<char>)
    requires
        one_line(s),
    ensures
        forall|i: int| 0 <= i < lines_of(wrapped(s)).len() ==> (#[trigger] lines_of(wrapped(s))[i]).len() <= LINE_WIDTH,
{
    lemma_wrapped_pieces(s);
    let p = split_at(wrapped(s), '\n');
    let l = lines_of(wrapped(s));
    assert forall|i: int| 0 <= i < l.len() implies (#[trigger] l[i]).len() <= LINE_WIDTH by {
        if i < p.len() - 1 {
            assert(l[i] == without_return(p[i]));
        } else {
            assert(l[i] == p.last());
        }
    }
}

/// A header line that is added to whole lines is one more line.
proof fn lemma_lines_add(a: Seq<char>, line: Seq<char>)
    requires
        a.len() == 0 || a.last() == '\n',
        one_line(line),
    ensures
        lines_of(a + line + "\r\n"@) == lines_of(a).push(line),
        (a + line + "\r\n"@).last() == '\n',
{
    reveal_strlit("\r\n");
    let kind = among(seq!['\n']);
    assert(seq!['\n'][0] == '\n');
    assert(kind('\n'));
    let more = line.push('\r');
    assert forall|i: int| 0 <= i < more.len() implies !kind(#[trigger] more[i]) by {
        if i < line.len() {
            assert(line.contains(line[i]));
        }
    }
    let p = pieces(a, kind);
    lemma_pieces_some(a, kind);
    assert(p.last() == Seq::<char>::empty()) by {
        if a.len() > 0 {
            assert(a.drop_last().push('\n') =~= a);
            lemma_pieces_mark(a.drop_last(), '\n', kind);
        }
    }
    lemma_pieces_append(a, more, kind);
    assert(Seq::<char>::empty() + more =~= more);
    lemma_pieces_mark(a + more, '\n', kind);
    let whole = a + line + "\r\n"@;
    assert(whole =~= (a + more).push('\n'));
    let q = split_at(whole, '\n');
    assert(q == p.drop_last().push(more).push(Seq::empty()));
    assert(without_return(more) == line) by {
        assert(more.drop_last() =~= line);
    }
    assert(q.drop_last() =~= p.drop_last().push(more));
    assert(lines_of(whole) =~= lines_of(a).push(line));
}

/// A header: its name and its value on one line.
pub open spec fn header_of(name: Seq<char>, value: Seq<char>) -> Seq<char> {
    name + ": "@ + value
}

/// The lines that the head of a message consists of.
pub open spec fn head_lines(
    sender: Seq<char>,
    payload: Tree,
    date: Seq<char>,
    at: u64,
    pid: u32,
) -> Seq<Seq<char>> {
    let cc = cleaned(payload.at("cc"@).text_or(""@));
    let subject = cleaned(payload.at("subject"@).text_or(""@));
    let first = seq![
        header_of("From"@, sender),
        header_of("To"@, cleaned(payload.at("to"@).text_or(""@))),
    ];
    (if cc.len() == 0 {
        first
    } else {
        first.push(header_of("Cc"@, cc))
    }).push(
        header_of(
            "Subject"@,
            if subject.len() == 0 {
                "(no subject)"@
            } else {
                subject
            },
        ),
    ).push(header_of("Date"@, trimmed(date))).push(
        header_of(
            "Message-ID"@,
            "<"@ + decimal(at as nat) + "."@ + decimal(pid as nat) + "@"@ + DOMAIN@ + ">"@,
        ),
    ).push(header_of("MIME-Version"@, "1.0"@))
}

proof fn lemma_header(a: Seq<char>, name: Seq<char>, value: Seq<char>)
    requires
        a.len() == 0 || a.last() == '\n',
        one_line(name),
        one_line(value),
    ensures
        lines_of(a + header_line(name, value)) == lines_of(a).push(header_of(name, value)),
        (a + header_line(name, value)).last() == '\n',
{
    assert(one_line(": "@)) by {
        reveal_strlit(": ");
    }
    lemma_one_line(name, ": "@);
    lemma_one_line(name + ": "@, value);
    lemma_lines_add(a, header_of(name, value));
    assert(a + header_line(name, value) =~= a + header_of(name, value) + "\r\n"@);
}

proof fn lemma_cleaned_line(s: Seq<char>)
    ensures
        one_line(cleaned(s)),
{
    law_cleaned_is_one_line(s);
}

proof fn lemma_number_line(n: nat)
    ensures
        one_line(decimal(n)),
{
    lemma_decimal(n);
    if decimal(n).contains('\n') {
        let k = choose|k: int| 0 <= k < decimal(n).len() && decimal(n)[k] == '\n';
        assert(is_digit(decimal(n)[k]));
    }
}

proof fn lemma_id_line(at: u64, pid: u32)
    ensures
        one_line("<"@ + decimal(at as nat) + "."@ + decimal(pid as nat) + "@"@ + DOMAIN@ + ">"@),
{
    assert(one_line("<"@) && one_line("."@) && one_line("@"@) && one_line(">"@)) by {
        reveal_strlit("<");
        reveal_strlit(".");
        reveal_strlit("@");
        reveal_strlit(">");
    }
    assert(one_line(DOMAIN@)) by {
        reveal_strlit("olibuijr.com");
    }
    lemma_number_line(at as nat);
    lemma_number_line(pid as nat);
    let a = "<"@ + decimal(at as nat);
    lemma_one_line("<"@, decimal(at as nat));
    lemma_one_line(a, "."@);
    lemma_one_line(a + "."@, decimal(pid as nat));
    lemma_one_line(a + "."@ + decimal(pid as nat), "@"@);
    lemma_one_line(a + "."@ + decimal(pid as nat) + "@"@, DOMAIN@);
    lemma_one_line(a + "."@ + decimal(pid as nat) + "@"@ + DOMAIN@, ">"@);
}

/// The head of a message consists of its headers, one line each: no value that
/// a request holds starts a line of its own.
pub proof fn law_head_is_its_headers(sender: Seq<char>, payload: Tree, date: Seq<char>, at: u64, pid: u32)
    requires
        one_line(sender),
        one_line(trimmed(date)),
    ensures
        lines_of(message_head(sender, payload, date, at, pid)) == head_lines(sender, payload, date, at, pid),
{
    let to = cleaned(payload.at("to"@).text_or(""@));
    let cc = cleaned(payload.at("cc"@).text_or(""@));
    let subject = cleaned(payload.at("subject"@).text_or(""@));
    let given = if subject.len() == 0 {
        "(no subject)"@
    } else {
        subject
    };
    let id = "<"@ + decimal(at as nat) + "."@ + decimal(pid as nat) + "@"@ + DOMAIN@ + ">"@;
    lemma_cleaned_line(payload.at("to"@).text_or(""@));
    lemma_cleaned_line(payload.at("cc"@).text_or(""@));
    lemma_cleaned_line(payload.at("subject"@).text_or(""@));
    lemma_id_line(at, pid);
    assert(one_line(given)) by {
        reveal_strlit("(no subject)");
    }
    assert(one_line("From"@) && one_line("To"@) && one_line("Cc"@) && one_line("Subject"@) && one_line("Date"@)
        && one_line("Message-ID"@) && one_line("MIME-Version"@) && one_line("1.0"@)) by {
        reveal_strlit("From");
        reveal_strlit("To");
        reveal_strlit("Cc");
        reveal_strlit("Subject");
        reveal_strlit("Date");
        reveal_strlit("Message-ID");
        reveal_strlit("MIME-Version");
        reveal_strlit("1.0");
    }
    let none = Seq::<char>::empty();
    let a = header_line("From"@, sender);
    lemma_header(none, "From"@, sender);
    assert(none + a =~= a);
    assert(lines_of(none) =~= Seq::<Seq<char>>::empty());
    let b = a + header_line("To"@, to);
    lemma_header(a, "To"@, to);
    let c = b + (if cc.len() == 0 {
        none
    } else {
        header_line("Cc"@, cc)
    });
    if cc.len() == 0 {
        assert(c =~= b);
    } else {
        lemma_header(b, "Cc"@, cc);
    }
    let d = c + header_line("Subject"@, given);
    lemma_header(c, "Subject"@, given);
    let e = d + header_line("Date"@, trimmed(date));
    lemma_header(d, "Date"@, trimmed(date));
    let f = e + header_line("Message-ID"@, id);
    lemma_header(e, "Message-ID"@, id);
    lemma_header(f, "MIME-Version"@, "1.0"@);
    assert(lines_of(b) =~= seq![header_of("From"@, sender), header_of("To"@, to)]);
}

/// Those who get blind copies leave no trace in the message: it is the same
/// whoever they are, as long as anyone gets it.
pub proof fn law_blind_copies_are_hidden(
    sender: Seq<char>,
    payload: Tree,
    blind: Tree,
    date: Seq<char>,
    at: u64,
    pid: u32,
)
    requires
        payload is Object,
        recipients_of(payload).len() > 0,
        recipients_of(payload.with("bcc"@, blind)).len() > 0,
    ensures
        message_text(sender, payload.with("bcc"@, blind), date, at, pid) == message_text(
            sender,
            payload,
            date,
            at,
            pid,
        ),
{
    let other = payload.with("bcc"@, blind);
    assert("bcc"@ != "to"@ && "bcc"@ != "cc"@ && "bcc"@ != "subject"@ && "bcc"@ != "body"@ && "bcc"@
        != "signature"@ && "bcc"@ != "attachments"@) by {
        reveal_strlit("bcc");
        reveal_strlit("to");
        reveal_strlit("cc");
        reveal_strlit("subject");
        reveal_strlit("body");
        reveal_strlit("signature");
        reveal_strlit("attachments");
        assert("bcc"@.len() == 3 && "to"@.len() == 2 && "cc"@.len() == 2 && "subject"@.len() == 7
            && "body"@.len() == 4 && "signature"@.len() == 9 && "attachments"@.len() == 11);
    }
    assert(other.at("to"@) == payload.at("to"@));
    assert(other.at("cc"@) == payload.at("cc"@));
    assert(other.at("subject"@) == payload.at("subject"@));
    assert(other.at("body"@) == payload.at("body"@));
    assert(other.at("signature"@) == payload.at("signature"@));
    assert(other.at("attachments"@) == payload.at("attachments"@));
}

/// Whether a text can be the address of a recipient: it is not empty, stands on
/// one line, and holds nothing that separates addresses.
pub open spec fn is_recipient(s: Seq<char>) -> bool {
    s.len() > 0 && one_line(s) && !s.contains('\r') && !s.contains(',') && !s.contains(';')
}

proof fn lemma_address_list(raw: Seq<char>)
    ensures
        forall|i: int| 0 <= i < address_list(raw).len() ==> is_recipient(#[trigger] address_list(raw)[i]),
{
    let marks = seq![',', ';'];
    let kind = among(marks);
    let p = pieces(raw, kind);
    let full = |s: Seq<char>| s.len() > 0;
    let clean = |s: Seq<char>| cleaned(s);
    let list = p.map_values(clean);
    lemma_pieces_kind(raw, kind);
    assert(marks[0] == ',' && marks[1] == ';');
    let out = address_list(raw);
    crate::mailbox_laws::lemma_filter_from(list, full);
    assert forall|i: int| 0 <= i < out.len() implies is_recipient(#[trigger] out[i]) by {
        list.lemma_filter_pred(full, i);
        assert(list.contains(out[i]));
        let k = choose|k: int| 0 <= k < list.len() && list[k] == out[i];
        assert(out[i] == cleaned(p[k]));
        law_cleaned_is_one_line(p[k]);
        lemma_cleaned_from(p[k], out[i], ',');
        lemma_cleaned_from(p[k], out[i], ';');
        assert(!p[k].contains(',')) by {
            if p[k].contains(',') {
                let m = choose|m: int| 0 <= m < p[k].len() && p[k][m] == ',';
                assert(!kind(p[k][m]));
            }
        }
        assert(!p[k].contains(';')) by {
            if p[k].contains(';') {
                let m = choose|m: int| 0 <= m < p[k].len() && p[k][m] == ';';
                assert(!kind(p[k][m]));
            }
        }
    }
}

/// A mark in a cleaned text was there before.
proof fn lemma_cleaned_from(s: Seq<char>, t: Seq<char>, mark: char)
    requires
        t == cleaned(s),
        mark != ' ',
    ensures
        t.contains(mark) ==> s.contains(mark),
{
    let flat = s.map_values(|c: char| unbroken(c));
    lemma_trimmed(flat);
    let i = choose|i: int| 0 <= i <= flat.len() - t.len() && t == #[trigger] flat.subrange(i, i + t.len());
    if t.contains(mark) {
        let k = choose|k: int| 0 <= k < t.len() && t[k] == mark;
        assert(flat[i + k] == mark);
        assert(unbroken(s[i + k]) == mark);
        assert(s[i + k] == mark);
    }
}

/// Every recipient of a request is an address that is not empty, on one line,
/// and without anything that separates addresses.
pub proof fn law_recipients_are_single_addresses(payload: Tree)
    ensures
        forall|i: int| 0 <= i < recipients_of(payload).len() ==> is_recipient(#[trigger] recipients_of(payload)[i]),
{
    let a = cleaned(payload.at("to"@).text_or(""@));
    let b = cleaned(payload.at("cc"@).text_or(""@));
    let c = cleaned(payload.at("bcc"@).text_or(""@));
    lemma_address_list(a);
    lemma_address_list(b);
    lemma_address_list(c);
    let all = recipients_of(payload);
    let x = address_list(a).len() as int;
    let y = x + address_list(b).len();
    assert forall|i: int| 0 <= i < all.len() implies is_recipient(#[trigger] all[i]) by {
        if i < x {
            assert(all[i] == address_list(a)[i]);
        } else if i < y {
            assert(all[i] == address_list(b)[i - x]);
        } else {
            assert(all[i] == address_list(c)[i - y]);
        }
    }
}

// ---------------------------------------------------------------------------
// Bodies and attachments
// ---------------------------------------------------------------------------

/// Whether no line of a text begins with a carriage return.
pub open spec fn no_blank_line(s: Seq<char>) -> bool {
    forall|i: int| 0 <= i < s.len() - 1 && #[trigger] s[i] == '\n' ==> s[i + 1] != '\r'
}

proof fn lemma_header_adds_no_blank(a: Seq<char>, name: Seq<char>, value: Seq<char>)
    requires
        no_blank_line(a),
        a.len() == 0 || a.last() == '\n',
        name.len() > 0,
        name[0] != '\r',
        one_line(name),
        one_line(value),
    ensures
        no_blank_line(a + header_line(name, value)),
        (a + header_line(name, value)).last() == '\n',
        (a + header_line(name, value)).len() > 0,
{
    reveal_strlit("\r\n");
    reveal_strlit(": ");
    let h = header_line(name, value);
    let body = name + ": "@ + value;
    assert(one_line(": "@));
    lemma_one_line(name, ": "@);
    lemma_one_line(name + ": "@, value);
    let whole = a + h;
    let n = a.len() as int;
    let m = body.len() as int;
    assert(h[m] == '\r' && h[m + 1] == '\n');
    assert forall|i: int| 0 <= i < whole.len() - 1 && #[trigger] whole[i] == '\n' implies whole[i + 1] != '\r' by {
        if i < n - 1 {
            assert(a[i] == '\n');
            assert(whole[i + 1] == a[i + 1]);
        } else if i == n - 1 {
            assert(whole[i + 1] == h[0]);
            assert(h[0] == name[0]);
        } else {
            let k = i - n;
            assert(h[k] == '\n');
            if k < m {
                assert(body[k] == '\n');
                assert(body.contains('\n'));
            }
        }
    }
}

proof fn lemma_head_has_no_blank_line(sender: Seq<char>, payload: Tree, date: Seq<char>, at: u64, pid: u32)
    requires
        one_line(sender),
        one_line(trimmed(date)),
    ensures
        ({
            let h = message_head(sender, payload, date, at, pid);
            no_blank_line(h) && h.len() > 0 && h.last() == '\n'
        }),
{
    let to = cleaned(payload.at("to"@).text_or(""@));
    let cc = cleaned(payload.at("cc"@).text_or(""@));
    let subject = cleaned(payload.at("subject"@).text_or(""@));
    let given = if subject.len() == 0 {
        "(no subject)"@
    } else {
        subject
    };
    let id = "<"@ + decimal(at as nat) + "."@ + decimal(pid as nat) + "@"@ + DOMAIN@ + ">"@;
    lemma_cleaned_line(payload.at("to"@).text_or(""@));
    lemma_cleaned_line(payload.at("cc"@).text_or(""@));
    lemma_cleaned_line(payload.at("subject"@).text_or(""@));
    lemma_id_line(at, pid);
    reveal_strlit("(no subject)");
    reveal_strlit("From");
    reveal_strlit("To");
    reveal_strlit("Cc");
    reveal_strlit("Subject");
    reveal_strlit("Date");
    reveal_strlit("Message-ID");
    reveal_strlit("MIME-Version");
    reveal_strlit("1.0");
    assert(one_line(given));
    let none = Seq::<char>::empty();
    let a = header_line("From"@, sender);
    lemma_header_adds_no_blank(none, "From"@, sender);
    assert(none + a =~= a);
    let b = a + header_line("To"@, to);
    lemma_header_adds_no_blank(a, "To"@, to);
    let c = b + (if cc.len() == 0 {
        none
    } else {
        header_line("Cc"@, cc)
    });
    if cc.len() == 0 {
        assert(c =~= b);
    } else {
        lemma_header_adds_no_blank(b, "Cc"@, cc);
    }
    let d = c + header_line("Subject"@, given);
    lemma_header_adds_no_blank(c, "Subject"@, given);
    let e = d + header_line("Date"@, trimmed(date));
    lemma_header_adds_no_blank(d, "Date"@, trimmed(date));
    let f = e + header_line("Message-ID"@, id);
    lemma_header_adds_no_blank(e, "Message-ID"@, id);
    lemma_header_adds_no_blank(f, "MIME-Version"@, "1.0"@);
}

/// After a head without blank lines and one more line, the first blank line is
/// the one that follows.
proof fn lemma_first_blank_line(head: Seq<char>, line: Seq<char>, rest: Seq<char>)
    requires
        no_blank_line(head),
        head.len() > 0,
        head.last() == '\n',
        one_line(line),
        line.len() > 0,
        line[0] != '\r',
    ensures
        parted_at(head + line + "\r\n\r\n"@ + rest, "\r\n\r\n"@) == Some((head + line, rest)),
{
    reveal_strlit("\r\n\r\n");
    let sep = "\r\n\r\n"@;
    assert(sep.len() == 4 && sep[0] == '\r' && sep[1] == '\n' && sep[2] == '\r' && sep[3] == '\n');
    let t = head + line + sep + rest;
    let n = head.len() as int;
    let k = n + line.len();
    assert(t.subrange(k, k + 4) =~= sep);
    assert(stands_at(t, sep, k));
    lemma_find_from(t, sep, 0);
    let f = find_from(t, sep, 0);
    assert(f >= 0 && f <= k) by {
        if f < 0 {
            assert(!stands_at(t, sep, k));
        }
        if f > k {
            assert(!stands_at(t, sep, k));
        }
    }
    if f < k {
        let w = t.subrange(f, f + 4);
        assert(w[1] == t[f + 1] && w[2] == t[f + 2]);
        assert(t[f + 1] == '\n' && t[f + 2] == '\r');
        if f + 1 < n - 1 {
            assert(head[f + 1] == '\n');
            assert(head[f + 2] == '\r');
        } else if f + 1 == n - 1 {
            assert(t[f + 2] == line[0]);
        } else if f + 1 < k {
            assert(line[f + 1 - n] == '\n');
            assert(line.contains('\n'));
        } else {
            assert(t[f + 1] == sep[0]);
        }
    }
    assert(t.take(k) =~= head + line);
    assert(t.skip(k + 4) =~= rest);
}

/// The text that a request asks to be sent.
pub open spec fn asked_body(payload: Tree) -> Seq<char> {
    match payload.get("body"@) {
        Some(Tree::Text(t)) => t,
        _ => Seq::empty(),
    }
}

/// The signature that a request asks to be put below the text.
pub open spec fn asked_signature(payload: Tree) -> Seq<char> {
    match payload.get("signature"@) {
        Some(Tree::Text(t)) => t,
        _ => Seq::empty(),
    }
}

/// The attachments that a request holds.
pub open spec fn asked_attachments(payload: Tree) -> Seq<Tree> {
    match payload.get("attachments"@) {
        Some(Tree::Array(items)) => items,
        _ => Seq::empty(),
    }
}

proof fn lemma_plain_line()
    ensures
        one_line("Content-Type: text/plain; charset=utf-8"@),
        "Content-Type: text/plain; charset=utf-8"@.len() > 0,
        "Content-Type: text/plain; charset=utf-8"@[0] != '\r',
        "Content-Type: text/plain; charset=utf-8\r\n\r\n"@ == "Content-Type: text/plain; charset=utf-8"@
            + "\r\n\r\n"@,
{
    reveal_strlit("Content-Type: text/plain; charset=utf-8");
    reveal_strlit("Content-Type: text/plain; charset=utf-8\r\n\r\n");
    reveal_strlit("\r\n\r\n");
    assert("Content-Type: text/plain; charset=utf-8\r\n\r\n"@ =~= "Content-Type: text/plain; charset=utf-8"@
        + "\r\n\r\n"@);
}

/// A message without attachments and without a signature is its head, the line
/// that says that it is plain text, a blank line, and just the text of the
/// request, with a line break at the end: what follows the first blank line is
/// what was written.
pub proof fn law_text_is_sent_as_it_is(sender: Seq<char>, payload: Tree, date: Seq<char>, at: u64, pid: u32)
    requires
        recipients_of(payload).len() > 0,
        asked_attachments(payload).len() == 0,
        trimmed(asked_signature(payload)).len() == 0,
    ensures
        message_text(sender, payload, date, at, pid) matches Ok(t) && {
            &&& t == message_head(sender, payload, date, at, pid) + "Content-Type: text/plain; charset=utf-8"@
                + "\r\n\r\n"@ + asked_body(payload) + "\r\n"@
            &&& one_line(sender) && one_line(trimmed(date)) ==> parted_at(t, "\r\n\r\n"@) == Some(
                (
                    message_head(sender, payload, date, at, pid) + "Content-Type: text/plain; charset=utf-8"@,
                    asked_body(payload) + "\r\n"@,
                ),
            )
        },
{
    reveal_strlit("");
    assert(""@ =~= Seq::<char>::empty());
    lemma_plain_line();
    let h = message_head(sender, payload, date, at, pid);
    let line = "Content-Type: text/plain; charset=utf-8"@;
    let rest = asked_body(payload) + "\r\n"@;
    if one_line(sender) && one_line(trimmed(date)) {
        lemma_head_has_no_blank_line(sender, payload, date, at, pid);
        lemma_first_blank_line(h, line, rest);
    }
    assert(payload.at("attachments"@).items().len() == 0);
    assert(payload.at("signature"@).text_or(""@) == asked_signature(payload));
    assert(payload.at("body"@).text_or(""@) == asked_body(payload));
    let t = h + "Content-Type: text/plain; charset=utf-8\r\n\r\n"@ + asked_body(payload) + "\r\n"@;
    assert(message_text(sender, payload, date, at, pid) == Ok::<Seq<char>, Seq<char>>(t));
    assert(t =~= h + line + "\r\n\r\n"@ + rest);
    assert(t =~= h + line + "\r\n\r\n"@ + asked_body(payload) + "\r\n"@);
}

/// A message without attachments and with a signature holds, after the first
/// blank line, the text of the request without white space at its end, an empty
/// line, and the trimmed signature.
pub proof fn law_signature_stands_below_the_text(
    sender: Seq<char>,
    payload: Tree,
    date: Seq<char>,
    at: u64,
    pid: u32,
)
    requires
        recipients_of(payload).len() > 0,
        asked_attachments(payload).len() == 0,
        trimmed(asked_signature(payload)).len() > 0,
    ensures
        message_text(sender, payload, date, at, pid) matches Ok(t) && {
            let body = trimmed_end(asked_body(payload)) + seq!['\n', '\n'] + trimmed(asked_signature(payload));
            &&& t == message_head(sender, payload, date, at, pid) + "Content-Type: text/plain; charset=utf-8"@
                + "\r\n\r\n"@ + body + "\r\n"@
            &&& one_line(sender) && one_line(trimmed(date)) ==> parted_at(t, "\r\n\r\n"@) == Some(
                (
                    message_head(sender, payload, date, at, pid) + "Content-Type: text/plain; charset=utf-8"@,
                    body + "\r\n"@,
                ),
            )
        },
{
    reveal_strlit("");
    reveal_strlit("\n\n");
    assert(""@ =~= Seq::<char>::empty());
    assert("\n\n"@ =~= seq!['\n', '\n']);
    lemma_plain_line();
    let h = message_head(sender, payload, date, at, pid);
    let line = "Content-Type: text/plain; charset=utf-8"@;
    let body = trimmed_end(asked_body(payload)) + seq!['\n', '\n'] + trimmed(asked_signature(payload));
    let rest = body + "\r\n"@;
    if one_line(sender) && one_line(trimmed(date)) {
        lemma_head_has_no_blank_line(sender, payload, date, at, pid);
        lemma_first_blank_line(h, line, rest);
    }
    assert(payload.at("attachments"@).items().len() == 0);
    assert(payload.at("signature"@).text_or(""@) == asked_signature(payload));
    assert(payload.at("body"@).text_or(""@) == asked_body(payload));
    let t = h + "Content-Type: text/plain; charset=utf-8\r\n\r\n"@ + body + "\r\n"@;
    assert(message_text(sender, payload, date, at, pid) == Ok::<Seq<char>, Seq<char>>(t));
    assert(t =~= h + line + "\r\n\r\n"@ + rest);
    assert(t =~= h + line + "\r\n\r\n"@ + body + "\r\n"@);
}

/// The text part of a message: what was written, with the signature below it if
/// there is one.
pub open spec fn text_with_signature(payload: Tree) -> Seq<char> {
    if trimmed(asked_signature(payload)).len() == 0 {
        asked_body(payload)
    } else {
        trimmed_end(asked_body(payload)) + seq!['\n', '\n'] + trimmed(asked_signature(payload))
    }
}

/// A message with attachments that can be sent holds the text as its first part
/// and the first five attachments as the others, all between lines that are
/// announced in the head; one that cannot be sent is refused for the reason of
/// that attachment.
pub proof fn law_text_is_sent_with_attachments(
    sender: Seq<char>,
    payload: Tree,
    date: Seq<char>,
    at: u64,
    pid: u32,
)
    requires
        recipients_of(payload).len() > 0,
        asked_attachments(payload).len() > 0,
    ensures
        ({
            let line = "akurai-"@ + decimal(at as nat) + "-"@ + decimal(pid as nat);
            let items = asked_attachments(payload);
            let sent = if items.len() > 5 {
                items.take(5)
            } else {
                items
            };
            match attachment_parts(sent, line) {
                Ok(parts) => message_text(sender, payload, date, at, pid) == Ok::<Seq<char>, Seq<char>>(
                    message_head(sender, payload, date, at, pid)
                        + "Content-Type: multipart/mixed; boundary=\""@ + line + "\"\r\n\r\n"@ + "--"@ + line
                        + "\r\nContent-Type: text/plain; charset=utf-8\r\n\r\n"@ + text_with_signature(payload)
                        + "\r\n"@ + parts + "--"@ + line + "--\r\n"@,
                ),
                Err(e) => message_text(sender, payload, date, at, pid) == Err::<Seq<char>, Seq<char>>(e),
            }
        }),
{
    reveal_strlit("");
    reveal_strlit("\n\n");
    assert(""@ =~= Seq::<char>::empty());
    assert("\n\n"@ =~= seq!['\n', '\n']);
    assert(payload.at("attachments"@).items() == asked_attachments(payload));
    assert(payload.at("signature"@).text_or(""@) == asked_signature(payload));
    assert(payload.at("body"@).text_or(""@) == asked_body(payload));
}

/// Attachments follow one another in their order; the first that cannot be sent
/// is the reason why none is.
pub proof fn law_attachments_follow_one_another(items: Seq<Tree>, more: Tree, line: Seq<char>)
    ensures
        attachment_parts(Seq::empty(), line) == Ok::<Seq<char>, Seq<char>>(Seq::empty()),
        attachment_parts(items, line) matches Err(e) ==> attachment_parts(items.push(more), line) == Err::<
            Seq<char>,
            Seq<char>,
        >(e),
        attachment_parts(items, line) matches Ok(before) ==> (attachment_part(more, line) matches Err(e)
            ==> attachment_parts(items.push(more), line) == Err::<Seq<char>, Seq<char>>(e)),
        attachment_parts(items, line) matches Ok(before) ==> (attachment_part(more, line) matches Ok(part)
            ==> attachment_parts(items.push(more), line) == Ok::<Seq<char>, Seq<char>>(before + part)),
{
    assert(items.push(more).drop_last() =~= items);
    assert(items.push(more).last() == more);
}

/// The part that an attachment becomes holds its name, its media type and its
/// very bytes: between the blank line and the last line break stands their
/// encoding in lines. A data URL counts from after its comma. Data that cannot
/// be decoded, or is longer than eight mebibytes, is refused.
pub proof fn law_attachment_carries_its_bytes(item: Tree, line: Seq<char>, encoded: Seq<char>)
    requires
        !encoded.contains(','),
    ensures
        ({
            let name = cleaned(
                match item.get("name"@) {
                    Some(Tree::Text(n)) => n,
                    _ => "attachment"@,
                },
            );
            let ctype = match item.get("type"@) {
                Some(Tree::Text(t)) => t,
                _ => "application/octet-stream"@,
            };
            let given = match item.get("data"@) {
                Some(Tree::Text(d)) => d,
                _ => Seq::empty(),
            };
            given == encoded || (exists|url: Seq<char>|
                !url.contains(',') && given == #[trigger] (url.push(',') + encoded)) ==> match base64_bytes(
                encoded,
            ) {
                Err(e) => attachment_part(item, line) == Err::<Seq<char>, Seq<char>>(
                    "invalid attachment: "@ + e,
                ),
                Ok(data) => if data.len() > 8 * 1024 * 1024 {
                    attachment_part(item, line) == Err::<Seq<char>, Seq<char>>(
                        "attachment too large: "@ + name,
                    )
                } else {
                    attachment_part(item, line) == Ok::<Seq<char>, Seq<char>>(
                        "--"@ + line + "\r\nContent-Type: "@ + ctype
                            + "\r\nContent-Disposition: attachment; filename=\""@ + name
                            + "\"\r\nContent-Transfer-Encoding: base64\r\n\r\n"@ + wrapped(base64_text(data))
                            + "\r\n"@,
                    )
                },
            }
        }),
{
    reveal_strlit("");
    assert(""@ =~= Seq::<char>::empty());
    let given = match item.get("data"@) {
        Some(Tree::Text(d)) => d,
        _ => Seq::empty(),
    };
    assert(item.at("data"@).text_or(""@) == given);
    law_parting_at_the_first(encoded, ',', encoded);
    if given != encoded && exists|url: Seq<char>|
        !url.contains(',') && given == #[trigger] (url.push(',') + encoded) {
        let url = choose|url: Seq<char>| !url.contains(',') && given == #[trigger] (url.push(',') + encoded);
        law_parting_at_the_first(url, ',', encoded);
    }
}

// ---------------------------------------------------------------------------
// Recipients
// ---------------------------------------------------------------------------

/// A line break in a header value becomes a blank, and white space around the
/// value goes; nothing else of it changes.
pub proof fn law_header_values_keep_their_text(a: Seq<char>, b: Seq<char>, s: Seq<char>)
    ensures
        cleaned(a.push('\n') + b) == cleaned(a.push(' ') + b),
        cleaned(a.push('\r') + b) == cleaned(a.push(' ') + b),
        !s.contains('\n') && !s.contains('\r') ==> cleaned(s) == trimmed(s),
{
    let flat = |c: char| unbroken(c);
    assert((a.push('\n') + b).map_values(flat) =~= (a.push(' ') + b).map_values(flat));
    assert((a.push('\r') + b).map_values(flat) =~= (a.push(' ') + b).map_values(flat));
    if !s.contains('\n') && !s.contains('\r') {
        assert forall|i: int| 0 <= i < s.len() implies flat(s[i]) == s[i] by {
            assert(s.contains(s[i]));
        }
        assert(s.map_values(flat) =~= s);
    }
}

/// Addresses with a comma or a semicolon between them are listed one after
/// another, each cleaned; empty ones are left out.
pub proof fn law_addresses_are_listed_one_by_one(a: Seq<char>, mark: char, b: Seq<char>, one: Seq<char>)
    requires
        mark == ',' || mark == ';',
        !one.contains(','),
        !one.contains(';'),
    ensures
        address_list(a.push(mark) + b) == address_list(a) + address_list(b),
        cleaned(one).len() > 0 ==> address_list(one) == seq![cleaned(one)],
        cleaned(one).len() == 0 ==> address_list(one) == Seq::<Seq<char>>::empty(),
{
    let marks = seq![',', ';'];
    let kind = among(marks);
    assert(marks[0] == ',' && marks[1] == ';');
    assert(kind(mark));
    let clean = |s: Seq<char>| cleaned(s);
    let full = |s: Seq<char>| s.len() > 0;
    lemma_pieces_join(a, mark, b, kind);
    let x = pieces(a, kind).map_values(clean);
    let y = pieces(b, kind).map_values(clean);
    assert((pieces(a, kind) + pieces(b, kind)).map_values(clean) =~= x + y);
    Seq::filter_distributes_over_add(x, y, full);
    assert forall|i: int| 0 <= i < one.len() implies !kind(#[trigger] one[i]) by {
        assert(one.contains(one[i]));
        if kind(one[i]) {
            let k = choose|k: int| 0 <= k < marks.len() && marks[k] == one[i];
            assert(false);
        }
    }
    lemma_pieces_whole(one, kind);
    let z = seq![one].map_values(clean);
    assert(z =~= seq![cleaned(one)]);
    reveal(Seq::filter);
    let c = seq![cleaned(one)];
    assert(c.drop_last() =~= Seq::<Seq<char>>::empty());
    assert(c.drop_last().filter(full) =~= Seq::<Seq<char>>::empty());
    assert(c.last() == cleaned(one));
    if cleaned(one).len() > 0 {
        assert(c.filter(full) =~= c);
    } else {
        assert(c.filter(full) =~= Seq::<Seq<char>>::empty());
    }
}

/// A message goes to everyone whom the request names: those it is to, those who
/// get a copy, and those who get a blind copy, in this order. Without any it is
/// refused.
pub proof fn law_everyone_named_gets_the_message(
    sender: Seq<char>,
    payload: Tree,
    date: Seq<char>,
    at: u64,
    pid: u32,
)
    ensures
        ({
            let named = |key: Seq<char>|
                address_list(
                    cleaned(
                        match payload.get(key) {
                            Some(Tree::Text(t)) => t,
                            _ => Seq::empty(),
                        },
                    ),
                );
            &&& recipients_of(payload) == named("to"@) + named("cc"@) + named("bcc"@)
            &&& named("to"@).len() == 0 && named("cc"@).len() == 0 && named("bcc"@).len() == 0 ==> message_text(
                sender,
                payload,
                date,
                at,
                pid,
            ) == Err::<Seq<char>, Seq<char>>("at least one recipient is required"@)
        }),
{
    reveal_strlit("");
    assert(""@ =~= Seq::<char>::empty());
}

/// A draft keeps what the request holds of recipients, subject, text and
/// attachments; only a missing subject is filled in, and the signature stays
/// out.
pub proof fn law_draft_keeps_what_was_written(payload: Tree)
    ensures
        payload.get("to"@) matches Some(v) ==> draft_of(payload).get("to"@) == Some(v),
        payload.get("cc"@) matches Some(v) ==> draft_of(payload).get("cc"@) == Some(v),
        payload.get("bcc"@) matches Some(v) ==> draft_of(payload).get("bcc"@) == Some(v),
        payload.get("subject"@) matches Some(v) ==> draft_of(payload).get("subject"@) == Some(v),
        payload.get("body"@) matches Some(v) ==> draft_of(payload).get("body"@) == Some(v),
        payload.get("attachments"@) matches Some(v) ==> draft_of(payload).get("attachments"@) == Some(v),
        payload.get("subject"@) is None ==> draft_of(payload).get("subject"@) == Some(Tree::Text("(draft)"@)),
        payload.get("body"@) is None ==> asked_body(draft_of(payload)) == Seq::<char>::empty(),
        payload.get("attachments"@) is None ==> asked_attachments(draft_of(payload)).len() == 0,
        asked_signature(draft_of(payload)) == Seq::<char>::empty(),
        recipients_of(draft_of(payload)) == recipients_of(payload),
{
    reveal_strlit("");
    reveal_strlit("to");
    reveal_strlit("cc");
    reveal_strlit("bcc");
    reveal_strlit("subject");
    reveal_strlit("body");
    reveal_strlit("attachments");
    reveal_strlit("signature");
    assert(""@ =~= Seq::<char>::empty());
    assert("to"@.len() == 2 && "to"@[0] == 't');
    assert("cc"@.len() == 2 && "cc"@[0] == 'c');
    assert("bcc"@.len() == 3);
    assert("subject"@.len() == 7);
    assert("body"@.len() == 4);
    assert("attachments"@.len() == 11);
    assert("signature"@.len() == 9);
}

/// The head of a message names the sender, who gets it, who gets a copy, what it
/// is about, its date and its identifier, in this order; who gets no copy is not
/// named, and what is about nothing says so.
pub proof fn law_head_names_everything(sender: Seq<char>, payload: Tree, date: Seq<char>, at: u64, pid: u32)
    ensures
        ({
            let asked = |key: Seq<char>|
                cleaned(
                    match payload.get(key) {
                        Some(Tree::Text(t)) => t,
                        _ => Seq::empty(),
                    },
                );
            message_head(sender, payload, date, at, pid) == "From: "@ + sender + "\r\n"@ + "To: "@ + asked("to"@)
                + "\r\n"@ + (if asked("cc"@).len() == 0 {
                Seq::<char>::empty()
            } else {
                "Cc: "@ + asked("cc"@) + "\r\n"@
            }) + "Subject: "@ + (if asked("subject"@).len() == 0 {
                "(no subject)"@
            } else {
                asked("subject"@)
            }) + "\r\n"@ + "Date: "@ + trimmed(date) + "\r\n"@ + "Message-ID: <"@ + decimal(at as nat) + "."@
                + decimal(pid as nat) + "@olibuijr.com>\r\n"@ + "MIME-Version: 1.0\r\n"@
        }),
{
    reveal_strlit("");
    assert(""@ =~= Seq::<char>::empty());
    reveal_strlit("From");
    reveal_strlit("To");
    reveal_strlit("Cc");
    reveal_strlit("Subject");
    reveal_strlit("Date");
    reveal_strlit("Message-ID");
    reveal_strlit("MIME-Version");
    reveal_strlit("1.0");
    reveal_strlit(": ");
    reveal_strlit("<");
    reveal_strlit(">");
    reveal_strlit("@");
    reveal_strlit("olibuijr.com");
    reveal_strlit("\r\n");
    reveal_strlit("From: ");
    reveal_strlit("To: ");
    reveal_strlit("Cc: ");
    reveal_strlit("Subject: ");
    reveal_strlit("Date: ");
    reveal_strlit("Message-ID: <");
    reveal_strlit("@olibuijr.com>\r\n");
    reveal_strlit("MIME-Version: 1.0\r\n");
    assert("From"@ + ": "@ =~= "From: "@);
    assert("To"@ + ": "@ =~= "To: "@);
    assert("Cc"@ + ": "@ =~= "Cc: "@);
    assert("Subject"@ + ": "@ =~= "Subject: "@);
    assert("Date"@ + ": "@ =~= "Date: "@);
    assert("Message-ID"@ + ": "@ + "<"@ =~= "Message-ID: <"@);
    assert("@"@ + "olibuijr.com"@ + ">"@ + "\r\n"@ =~= "@olibuijr.com>\r\n"@);
    assert("MIME-Version"@ + ": "@ + "1.0"@ + "\r\n"@ =~= "MIME-Version: 1.0\r\n"@);
    let id = decimal(at as nat) + "."@ + decimal(pid as nat);
    let full = "<"@ + decimal(at as nat) + "."@ + decimal(pid as nat) + "@"@ + "olibuijr.com"@ + ">"@;
    assert(crate::compose::header_line("Message-ID"@, full) =~= "Message-ID: <"@ + id + "@olibuijr.com>\r\n"@);
    let to = cleaned(payload.at("to"@).text_or(""@));
    let cc = cleaned(payload.at("cc"@).text_or(""@));
    let subject = cleaned(payload.at("subject"@).text_or(""@));
    let about = if subject.len() == 0 {
        "(no subject)"@
    } else {
        subject
    };
    let copy = if cc.len() == 0 {
        Seq::<char>::empty()
    } else {
        "Cc: "@ + cc + "\r\n"@
    };
    assert(message_head(sender, payload, date, at, pid) =~= "From: "@ + sender + "\r\n"@ + "To: "@ + to + "\r\n"@
        + copy + "Subject: "@ + about + "\r\n"@ + "Date: "@ + trimmed(date) + "\r\n"@ + "Message-ID: <"@
        + decimal(at as nat) + "."@ + decimal(pid as nat) + "@olibuijr.com>\r\n"@ + "MIME-Version: 1.0\r\n"@);
}

/// A text is broken into lines of seventy-six characters.
pub proof fn law_texts_are_broken_at_the_width(s: Seq<char>)
    ensures
        s.len() <= 76 ==> wrapped(s) == s,
        s.len() > 76 ==> wrapped(s) == s.take(76) + seq!['\r', '\n'] + wrapped(s.skip(76)),
{
    reveal_strlit("\r\n");
    assert("\r\n"@ =~= seq!['\r', '\n']);
}

} // verus!
